//! Laws relating the converter and the evaluation planner.

use vstd::prelude::*;

use crate::convert::{
    init_state, lemma_run_concat, lemma_run_number_chars, shunt, shunt_run, wellformed_output,
    wellformed_token, ShuntState,
};
use crate::eval::{plan, plan_rec};
use crate::token::{
    char_seq, is_decimal_literal, is_op_char, is_space, operator_of, EvalStepView,
};

verus! {

/// Law: conversion has no hidden state. Its result is a function of
/// the input characters alone, so converting the same string a second
/// time yields an identical token sequence.
pub proof fn lemma_convert_deterministic(a: Seq<char>, b: Seq<char>)
    requires
        a == b,
    ensures
        shunt(a) == shunt(b),
{
}

/// Law: a token sequence the converter produces holds no grouping
/// symbol: every well-formed token is an operator or a numeric
/// literal, and `(` and `)` are neither.
pub proof fn lemma_no_grouping_symbols(toks: Seq<Seq<char>>)
    requires
        wellformed_output(toks),
    ensures
        forall|i: int|
            0 <= i < toks.len() ==> #[trigger] toks[i] != char_seq('(') && toks[i] != char_seq(
                ')',
            ),
{
    assert forall|i: int|
        0 <= i < toks.len() implies #[trigger] toks[i] != char_seq('(') && toks[i] != char_seq(
        ')',
    ) by {
        assert(wellformed_token(toks[i]));
        if toks[i] == char_seq('(') {
            assert(toks[i][0] == '(');
        }
        if toks[i] == char_seq(')') {
            assert(toks[i][0] == ')');
        }
    }
}

/// Law: white space at either end of the input does not change the
/// conversion.
pub proof fn lemma_outer_space_ignored(cs: Seq<char>, sp: char)
    requires
        is_space(sp),
    ensures
        shunt(seq![sp] + cs) == shunt(cs),
        shunt(cs.push(sp)) == shunt(cs),
{
    reveal_with_fuel(shunt_run, 3);
    // A space read from the initial state flushes an empty buffer and
    // leaves the state as it was.
    assert(seq![sp].drop_last() =~= Seq::<char>::empty());
    assert(shunt_run(init_state(), seq![sp]) == Ok::<ShuntState, char>(init_state()));
    lemma_run_concat(init_state(), seq![sp], cs);
    // A trailing space only flushes the buffer, which finishing does
    // anyway.
    assert(cs.push(sp).drop_last() =~= cs);
    assert(cs.push(sp).last() == sp);
}

/// Law: a binary expression `lhs c rhs` made of two decimal literals
/// around an operator, separated by single spaces, converts to the
/// postfix sequence `lhs rhs c`, and that sequence's evaluation plan
/// pushes the two literals in order and then applies the operator.
#[verifier::rlimit(60)]
pub proof fn lemma_binary_expression(lhs: Seq<char>, c: char, rhs: Seq<char>)
    requires
        is_decimal_literal(lhs),
        is_decimal_literal(rhs),
        is_op_char(c),
    ensures
        shunt(lhs + seq![' ', c, ' '] + rhs) == Ok::<Seq<Seq<char>>, char>(
            seq![lhs, rhs, char_seq(c)],
        ),
        plan(seq![lhs, rhs, char_seq(c)]) == Ok::<Seq<EvalStepView>, crate::token::ParseErrorView>(
            seq![
                EvalStepView::Literal(lhs),
                EvalStepView::Literal(rhs),
                EvalStepView::Operator(operator_of(char_seq(c))),
            ],
        ),
{
    reveal_with_fuel(shunt_run, 5);
    reveal_with_fuel(crate::convert::drain_ops, 3);
    reveal_with_fuel(plan_rec, 5);
    let mid = seq![' ', c, ' '];
    let e = lhs + mid + rhs;

    // The scan of the left literal fills the buffer with it.
    lemma_run_number_chars(init_state(), lhs);
    let st_a = ShuntState { out: Seq::empty(), ops: Seq::empty(), buf: lhs };
    assert(Seq::<char>::empty() + lhs =~= lhs);
    assert(shunt_run(init_state(), lhs) == Ok::<ShuntState, char>(st_a));

    // The space flushes the literal, the operator lands on the empty
    // stack, and the second space changes nothing.
    assert(mid.drop_last() =~= seq![' ', c]);
    assert(seq![' ', c].drop_last() =~= seq![' ']);
    assert(seq![' '].drop_last() =~= Seq::<char>::empty());
    assert(Seq::<Seq<char>>::empty().push(lhs) =~= seq![lhs]);
    assert(Seq::<char>::empty().push(c) =~= seq![c]);
    let st_b = ShuntState { out: seq![lhs], ops: Seq::empty(), buf: Seq::empty() };
    let st_c = ShuntState { out: seq![lhs], ops: seq![c], buf: Seq::empty() };
    let st_d = ShuntState { out: seq![lhs], ops: seq![c], buf: Seq::empty() };
    assert(!is_space(c));
    assert(crate::convert::shunt_step(st_a, ' ') == Ok::<ShuntState, char>(st_b));
    assert(crate::convert::shunt_step(st_b, c) == Ok::<ShuntState, char>(st_c));
    assert(crate::convert::shunt_step(st_c, ' ') == Ok::<ShuntState, char>(st_d));
    assert(shunt_run(st_a, mid) == Ok::<ShuntState, char>(st_d));
    lemma_run_concat(init_state(), lhs, mid);

    // The scan of the right literal fills the buffer again.
    lemma_run_number_chars(st_d, rhs);
    assert(Seq::<char>::empty() + rhs =~= rhs);
    let st_e = ShuntState { out: seq![lhs], ops: seq![c], buf: rhs };
    assert(shunt_run(st_d, rhs) == Ok::<ShuntState, char>(st_e));
    lemma_run_concat(init_state(), lhs + mid, rhs);
    assert(shunt_run(init_state(), e) == Ok::<ShuntState, char>(st_e));

    // Finishing emits the pending literal and the one stacked operator.
    assert(seq![lhs].push(rhs) =~= seq![lhs, rhs]);
    assert(seq![c].drop_last() =~= Seq::<char>::empty());
    assert(seq![lhs, rhs].push(char_seq(c)) =~= seq![lhs, rhs, char_seq(c)]);
    assert(shunt(e) == Ok::<Seq<Seq<char>>, char>(seq![lhs, rhs, char_seq(c)]));

    // The plan of `lhs rhs c`: two pushes, then the operator applied at
    // depth two.
    let toks = seq![lhs, rhs, char_seq(c)];
    assert(toks.first() == lhs);
    assert(toks.drop_first() =~= seq![rhs, char_seq(c)]);
    assert(seq![rhs, char_seq(c)].drop_first() =~= seq![char_seq(c)]);
    assert(seq![char_seq(c)].drop_first() =~= Seq::<Seq<char>>::empty());
    assert(!crate::token::is_operator_token(lhs));
    assert(!crate::token::is_operator_token(rhs));
    assert(crate::token::is_operator_token(char_seq(c)));
    let s1 = Seq::<EvalStepView>::empty().push(EvalStepView::Literal(lhs));
    let s2 = s1.push(EvalStepView::Literal(rhs));
    let s3 = s2.push(EvalStepView::Operator(operator_of(char_seq(c))));
    assert(plan_rec(toks, Seq::empty(), 0) == Ok::<(Seq<EvalStepView>, nat),
        crate::token::ParseErrorView>((s3, 1nat)));
    assert(s3 =~= seq![
        EvalStepView::Literal(lhs),
        EvalStepView::Literal(rhs),
        EvalStepView::Operator(operator_of(char_seq(c))),
    ]);
}

} // verus!
