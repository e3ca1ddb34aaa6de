//! An infix arithmetic calculator: expressions over `+ - * /`, decimal
//! literals and round brackets are reordered into Reverse Polish Notation
//! with the shunting-yard algorithm, and the resulting token sequence is
//! turned into a checked evaluation plan.

pub mod convert;
pub mod eval;
pub mod laws;
pub mod token;

pub use token::BinOp;
pub use token::EvalStep;
pub use token::ParseError;
pub use token::RPNQueue;
