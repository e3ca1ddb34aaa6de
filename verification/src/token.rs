//! Tokens of the calculator: character classes, the operator precedence
//! table, numeric-literal syntax, and the types shared by the converter
//! and the evaluator.

use vstd::prelude::*;

verus! {

/// A vector of string tokens representing an expression in Reverse
/// Polish Notation order.
#[derive(Debug)]
pub struct RPNQueue(pub Vec<String>);

impl View for RPNQueue {
    type V = Seq<Seq<char>>;

    open spec fn view(&self) -> Seq<Seq<char>> {
        self.0.deep_view()
    }
}

/// Why an expression was rejected: an unrecognized character in the
/// infix input, a token that is not a decimal number, or an operator
/// (or the final result) that found too few operands.
#[derive(Debug, PartialEq, Eq)]
pub enum ParseError {
    InvalidToken(char),
    InvalidNumber(String),
    InsufficientOperands,
}

/// The mathematical value of a `ParseError`: the same three cases, with
/// the offending token as a sequence of characters.
pub enum ParseErrorView {
    InvalidToken(char),
    InvalidNumber(Seq<char>),
    InsufficientOperands,
}

impl View for ParseError {
    type V = ParseErrorView;

    open spec fn view(&self) -> ParseErrorView {
        match self {
            ParseError::InvalidToken(c) => ParseErrorView::InvalidToken(*c),
            ParseError::InvalidNumber(t) => ParseErrorView::InvalidNumber(t@),
            ParseError::InsufficientOperands => ParseErrorView::InsufficientOperands,
        }
    }
}

/// One of the four binary operators.
#[derive(Debug, Clone, Copy, PartialEq, Eq)]
pub enum BinOp {
    Add,
    Sub,
    Mul,
    Div,
}

/// One step of an evaluation plan: push the value of a numeric literal
/// onto the operand stack, or pop two operands and apply an operator.
#[derive(Debug, PartialEq, Eq)]
pub enum EvalStep {
    Literal(String),
    Operator(BinOp),
}

/// The mathematical value of an `EvalStep`.
pub enum EvalStepView {
    Literal(Seq<char>),
    Operator(BinOp),
}

impl View for EvalStep {
    type V = EvalStepView;

    open spec fn view(&self) -> EvalStepView {
        match self {
            EvalStep::Literal(t) => EvalStepView::Literal(t@),
            EvalStep::Operator(op) => EvalStepView::Operator(*op),
        }
    }
}

impl DeepView for EvalStep {
    type V = EvalStepView;

    open spec fn deep_view(&self) -> EvalStepView {
        self.view()
    }
}

/// Unicode white space, the set recognized by `char::is_whitespace`.
pub open spec fn is_space(c: char) -> bool {
    ||| c == ' '
    ||| c == '\t'
    ||| c == '\n'
    ||| c == '\r'
    ||| c == '\u{000b}'
    ||| c == '\u{000c}'
    ||| c == '\u{0085}'
    ||| c == '\u{00a0}'
    ||| c == '\u{1680}'
    ||| (0x2000 <= c as u32 && c as u32 <= 0x200a)
    ||| c == '\u{2028}'
    ||| c == '\u{2029}'
    ||| c == '\u{202f}'
    ||| c == '\u{205f}'
    ||| c == '\u{3000}'
}

pub fn is_space_char(c: char) -> (b: bool)
    ensures
        b == is_space(c),
{
    c == ' ' || c == '\t' || c == '\n' || c == '\r' || c == '\u{000b}' || c == '\u{000c}'
        || c == '\u{0085}' || c == '\u{00a0}' || c == '\u{1680}'
        || (0x2000 <= c as u32 && c as u32 <= 0x200a) || c == '\u{2028}' || c == '\u{2029}'
        || c == '\u{202f}' || c == '\u{205f}' || c == '\u{3000}'
}

/// The four operator characters.
pub open spec fn is_op_char(c: char) -> bool {
    c == '+' || c == '-' || c == '*' || c == '/'
}

pub fn is_operator_char(c: char) -> (b: bool)
    ensures
        b == is_op_char(c),
{
    c == '+' || c == '-' || c == '*' || c == '/'
}

/// The fixed precedence table: `+` and `-` bind at level 1, `*` and `/`
/// at level 2, and every other character (such as `(`) at level 0.
pub open spec fn precedence(c: char) -> int {
    if c == '*' || c == '/' {
        2
    } else if c == '+' || c == '-' {
        1
    } else {
        0
    }
}

pub fn precedence_of(c: char) -> (p: u8)
    ensures
        p as int == precedence(c),
{
    if c == '*' || c == '/' {
        2
    } else if c == '+' || c == '-' {
        1
    } else {
        0
    }
}

/// A decimal digit.
pub open spec fn is_digit(c: char) -> bool {
    0x30 <= c as u32 && c as u32 <= 0x39
}

/// A character that may appear in a numeric literal: a digit or the
/// decimal point.
pub open spec fn is_number_char(c: char) -> bool {
    is_digit(c) || c == '.'
}

pub fn is_numeric_char(c: char) -> (b: bool)
    ensures
        b == is_number_char(c),
{
    (0x30 <= c as u32 && c as u32 <= 0x39) || c == '.'
}

/// The one-character token made of `c`.
pub open spec fn char_seq(c: char) -> Seq<char> {
    seq![c]
}

/// How many decimal points a token contains.
pub open spec fn dot_count(t: Seq<char>) -> nat
    decreases t.len(),
{
    if t.len() == 0 {
        0
    } else {
        dot_count(t.drop_last()) + (if t.last() == '.' {
            1nat
        } else {
            0nat
        })
    }
}

/// A syntactically valid decimal number: only digits and the decimal
/// point, at least one digit, and at most one decimal point.
pub open spec fn is_decimal_literal(t: Seq<char>) -> bool {
    &&& t.len() > 0
    &&& (forall|i: int| 0 <= i < t.len() ==> is_number_char(#[trigger] t[i]))
    &&& (exists|i: int| 0 <= i < t.len() && is_digit(#[trigger] t[i]))
    &&& dot_count(t) <= 1
}

/// Decides `is_decimal_literal` for a token.
pub fn decimal_literal_token(t: &str) -> (b: bool)
    ensures
        b == is_decimal_literal(t@),
{
    let n = t.unicode_len();
    let mut dots: usize = 0;
    let mut digit_seen: bool = false;
    let mut j: usize = 0;
    while j < n
        invariant
            j <= n,
            n == t@.len(),
            dots <= j,
            forall|k: int| 0 <= k < j ==> is_number_char(#[trigger] t@[k]),
            digit_seen == (exists|k: int| 0 <= k < j && is_digit(#[trigger] t@[k])),
            dots as nat == dot_count(t@.take(j as int)),
        decreases n - j,
    {
        let c = t.get_char(j);
        if !is_numeric_char(c) {
            return false;
        }
        proof {
            assert(t@.take(j + 1).drop_last() =~= t@.take(j as int));
            assert(t@.take(j + 1).last() == t@[j as int]);
        }
        if c == '.' {
            dots = dots + 1;
        } else {
            digit_seen = true;
        }
        j = j + 1;
    }
    proof {
        assert(t@.take(n as int) =~= t@);
    }
    digit_seen && dots <= 1
}

/// A token that is exactly one of the four operators.
pub open spec fn is_operator_token(t: Seq<char>) -> bool {
    t.len() == 1 && is_op_char(t[0])
}

/// Which operator a one-character operator token denotes.
pub open spec fn operator_of(t: Seq<char>) -> BinOp {
    if t[0] == '+' {
        BinOp::Add
    } else if t[0] == '-' {
        BinOp::Sub
    } else if t[0] == '*' {
        BinOp::Mul
    } else {
        BinOp::Div
    }
}

/// Classifies a token as an operator, or reports that it is none.
pub fn operator_token(t: &str) -> (r: Option<BinOp>)
    ensures
        r is Some <==> is_operator_token(t@),
        r matches Some(op) ==> op == operator_of(t@),
{
    if t.unicode_len() == 1 {
        let c = t.get_char(0);
        if c == '+' {
            Some(BinOp::Add)
        } else if c == '-' {
            Some(BinOp::Sub)
        } else if c == '*' {
            Some(BinOp::Mul)
        } else if c == '/' {
            Some(BinOp::Div)
        } else {
            None
        }
    } else {
        None
    }
}

/// Relies on `String::push`: it appends exactly the given character at
/// the end of the string.
#[verifier::external_body]
pub(crate) fn push_char(s: &mut String, c: char)
    ensures
        final(s)@ == old(s)@.push(c),
{
    s.push(c);
}

/// Builds the one-character token string for `c`.
pub(crate) fn token_of_char(c: char) -> (t: String)
    ensures
        t@ == char_seq(c),
{
    let mut t = String::new();
    push_char(&mut t, c);
    proof {
        assert(t@ =~= char_seq(c));
    }
    t
}

} // verus!
