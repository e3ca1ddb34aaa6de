//! The RPN evaluator's decision logic: a token-level model of the
//! stack-based reduction, and the verified planning function that
//! classifies every token and checks that each operator, and the final
//! result, finds the operands it needs. Only the floating-point
//! arithmetic itself is left to the host that runs the returned plan.

use vstd::prelude::*;

use crate::token::{
    decimal_literal_token, is_decimal_literal, is_operator_token, operator_of, operator_token,
    EvalStep, EvalStepView, ParseError, ParseErrorView, RPNQueue,
};

verus! {

/// The reduction over the tokens, tracking the operand stack's depth.
/// An operator needs two operands and leaves one; a valid decimal
/// literal leaves one; any other token is not a number. The first
/// offending token decides the error.
pub open spec fn plan_rec(
    toks: Seq<Seq<char>>,
    steps: Seq<EvalStepView>,
    depth: nat,
) -> Result<(Seq<EvalStepView>, nat), ParseErrorView>
    decreases toks.len(),
{
    if toks.len() == 0 {
        Ok((steps, depth))
    } else {
        let t = toks.first();
        if is_operator_token(t) {
            if depth < 2 {
                Err(ParseErrorView::InsufficientOperands)
            } else {
                plan_rec(
                    toks.drop_first(),
                    steps.push(EvalStepView::Operator(operator_of(t))),
                    (depth - 1) as nat,
                )
            }
        } else if is_decimal_literal(t) {
            plan_rec(toks.drop_first(), steps.push(EvalStepView::Literal(t)), depth + 1)
        } else {
            Err(ParseErrorView::InvalidNumber(t))
        }
    }
}

/// The evaluation plan of a token sequence: every token classified in
/// order, with at least one operand left for the final result. Extra
/// leftover operands are tolerated; the result is the value on top of
/// the stack.
pub open spec fn plan(toks: Seq<Seq<char>>) -> Result<Seq<EvalStepView>, ParseErrorView> {
    match plan_rec(toks, Seq::empty(), 0) {
        Ok((steps, depth)) => if depth >= 1 {
            Ok(steps)
        } else {
            Err(ParseErrorView::InsufficientOperands)
        },
        Err(e) => Err(e),
    }
}

impl RPNQueue {
    /// Checks the token sequence and returns its evaluation plan: for
    /// each token in order, push the value of a decimal literal or
    /// apply an operator to the two topmost operands. The plan exists
    /// exactly when every token is an operator or a valid decimal
    /// number, every operator finds two operands, and one operand is
    /// left at the end; otherwise the error of the first offending
    /// token is returned.
    pub fn eval_steps(&self) -> (r: Result<Vec<EvalStep>, ParseError>)
        ensures
            match r {
                Ok(steps) => plan(self@) == Ok::<Seq<EvalStepView>, ParseErrorView>(
                    steps.deep_view(),
                ),
                Err(e) => plan(self@) == Err::<Seq<EvalStepView>, ParseErrorView>(e@),
            },
    {
        let n = self.0.len();
        let mut steps: Vec<EvalStep> = Vec::new();
        let mut depth: usize = 0;
        let mut i: usize = 0;
        proof {
            assert(self@.skip(0) =~= self@);
            assert(steps.deep_view() =~= Seq::<EvalStepView>::empty());
        }
        while i < n
            invariant
                i <= n,
                n == self@.len(),
                n == self.0@.len(),
                depth <= i,
                plan_rec(self@.skip(i as int), steps.deep_view(), depth as nat) == plan_rec(
                    self@,
                    Seq::empty(),
                    0,
                ),
            decreases n - i,
        {
            let t = &self.0[i];
            proof {
                assert(self@.skip(i as int).first() == self@[i as int]);
                assert(self@[i as int] == t@);
                assert(self@.skip(i as int).drop_first() =~= self@.skip(i + 1));
            }
            let ghost steps0 = steps.deep_view();
            match operator_token(t.as_str()) {
                Some(op) => {
                    if depth < 2 {
                        return Err(ParseError::InsufficientOperands);
                    }
                    depth = depth - 1;
                    steps.push(EvalStep::Operator(op));
                    proof {
                        assert(steps.deep_view() =~= steps0.push(EvalStepView::Operator(op)));
                    }
                },
                None => {
                    if decimal_literal_token(t.as_str()) {
                        depth = depth + 1;
                        let lit = t.clone();
                        steps.push(EvalStep::Literal(lit));
                        proof {
                            assert(steps.deep_view() =~= steps0.push(EvalStepView::Literal(t@)));
                        }
                    } else {
                        return Err(ParseError::InvalidNumber(t.clone()));
                    }
                },
            }
            i = i + 1;
        }
        proof {
            assert(self@.skip(n as int) =~= Seq::<Seq<char>>::empty());
        }
        if depth >= 1 {
            Ok(steps)
        } else {
            Err(ParseError::InsufficientOperands)
        }
    }
}

} // verus!
