//! The infix-to-RPN converter: a character-level model of the
//! shunting-yard algorithm, and the verified conversion function.

use vstd::prelude::*;

use crate::token::{
    char_seq, is_number_char, is_op_char, is_operator_token, is_space, is_operator_char,
    is_numeric_char, is_space_char, precedence, precedence_of, push_char, token_of_char,
    ParseError, RPNQueue,
};

verus! {

/// The converter's running state: the tokens already emitted in postfix
/// order, the stack of pending operator and `(` characters, and the
/// buffer of the numeric literal being scanned.
pub struct ShuntState {
    pub out: Seq<Seq<char>>,
    pub ops: Seq<char>,
    pub buf: Seq<char>,
}

/// The state before any character has been read.
pub open spec fn init_state() -> ShuntState {
    ShuntState { out: Seq::empty(), ops: Seq::empty(), buf: Seq::empty() }
}

/// Emits the pending literal buffer, if any, as a completed token.
pub open spec fn flush_buf(out: Seq<Seq<char>>, buf: Seq<char>) -> Seq<Seq<char>> {
    if buf.len() > 0 {
        out.push(buf)
    } else {
        out
    }
}

/// Pops stacked operators whose precedence is greater than or equal to
/// `p`, emitting each as a token, so operators of equal precedence
/// associate left to right. `(` (precedence 0) is never popped here.
pub open spec fn pop_higher(out: Seq<Seq<char>>, ops: Seq<char>, p: int) -> (Seq<Seq<char>>, Seq<
    char,
>)
    decreases ops.len(),
{
    if ops.len() > 0 && precedence(ops.last()) >= p {
        pop_higher(out.push(char_seq(ops.last())), ops.drop_last(), p)
    } else {
        (out, ops)
    }
}

/// Pops stacked characters down to the nearest `(`, emitting each as a
/// token, then discards that `(`. On a stack without `(` everything is
/// emitted and nothing more happens.
pub open spec fn pop_to_paren(out: Seq<Seq<char>>, ops: Seq<char>) -> (Seq<Seq<char>>, Seq<char>)
    decreases ops.len(),
{
    if ops.len() == 0 {
        (out, ops)
    } else if ops.last() == '(' {
        (out, ops.drop_last())
    } else {
        pop_to_paren(out.push(char_seq(ops.last())), ops.drop_last())
    }
}

/// Empties the stack, emitting each operator as a token in pop order.
/// An unmatched `(` is discarded, so no grouping symbol ever reaches
/// the output.
pub open spec fn drain_ops(out: Seq<Seq<char>>, ops: Seq<char>) -> Seq<Seq<char>>
    decreases ops.len(),
{
    if ops.len() == 0 {
        out
    } else if ops.last() == '(' {
        drain_ops(out, ops.drop_last())
    } else {
        drain_ops(out.push(char_seq(ops.last())), ops.drop_last())
    }
}

/// One character of the scan. White space flushes the literal buffer;
/// an operator flushes it and then displaces the stacked operators of
/// greater or equal precedence; `(` is stacked unconditionally (the
/// literal buffer continues across it); `)` flushes the buffer and
/// unwinds the stack to the matching `(`; digits and the decimal point
/// extend the buffer; any other character is invalid.
pub open spec fn shunt_step(st: ShuntState, c: char) -> Result<ShuntState, char> {
    if is_space(c) {
        Ok(ShuntState { out: flush_buf(st.out, st.buf), ops: st.ops, buf: Seq::empty() })
    } else if is_op_char(c) {
        let (out2, ops2) = pop_higher(flush_buf(st.out, st.buf), st.ops, precedence(c));
        Ok(ShuntState { out: out2, ops: ops2.push(c), buf: Seq::empty() })
    } else if c == '(' {
        Ok(ShuntState { out: st.out, ops: st.ops.push(c), buf: st.buf })
    } else if c == ')' {
        let (out2, ops2) = pop_to_paren(flush_buf(st.out, st.buf), st.ops);
        Ok(ShuntState { out: out2, ops: ops2, buf: Seq::empty() })
    } else if is_number_char(c) {
        Ok(ShuntState { out: st.out, ops: st.ops, buf: st.buf.push(c) })
    } else {
        Err(c)
    }
}

/// The scan over a whole character sequence, from `st`.
pub open spec fn shunt_run(st: ShuntState, cs: Seq<char>) -> Result<ShuntState, char>
    decreases cs.len(),
{
    if cs.len() == 0 {
        Ok(st)
    } else {
        match shunt_run(st, cs.drop_last()) {
            Ok(m) => shunt_step(m, cs.last()),
            Err(c) => Err(c),
        }
    }
}

/// The complete conversion: scan every character, then emit the pending
/// literal and drain the remaining stacked operators. The result is the
/// postfix token sequence, or the first invalid character.
pub open spec fn shunt(cs: Seq<char>) -> Result<Seq<Seq<char>>, char> {
    match shunt_run(init_state(), cs) {
        Ok(st) => Ok(drain_ops(flush_buf(st.out, st.buf), st.ops)),
        Err(c) => Err(c),
    }
}

/// A token the converter can emit: a one-character operator or a
/// nonempty run of digit and decimal-point characters. In particular,
/// no grouping symbol is such a token.
pub open spec fn wellformed_token(t: Seq<char>) -> bool {
    is_operator_token(t) || (t.len() > 0 && forall|i: int|
        0 <= i < t.len() ==> is_number_char(#[trigger] t[i]))
}

/// Every token of the sequence is one the converter can emit.
pub open spec fn wellformed_output(out: Seq<Seq<char>>) -> bool {
    forall|i: int| 0 <= i < out.len() ==> wellformed_token(#[trigger] out[i])
}

/// What may sit on the converter's stack: operator characters and `(`.
pub open spec fn wellformed_stack(ops: Seq<char>) -> bool {
    forall|i: int| 0 <= i < ops.len() ==> is_op_char(#[trigger] ops[i]) || ops[i] == '('
}

/// The converter's invariant: emitted tokens are well formed, the stack
/// holds only operators and `(`, and the buffer holds only characters
/// of a numeric literal.
pub open spec fn wellformed_state(st: ShuntState) -> bool {
    &&& wellformed_output(st.out)
    &&& wellformed_stack(st.ops)
    &&& forall|i: int| 0 <= i < st.buf.len() ==> is_number_char(#[trigger] st.buf[i])
}

proof fn lemma_flush_wellformed(out: Seq<Seq<char>>, buf: Seq<char>)
    requires
        wellformed_output(out),
        forall|i: int| 0 <= i < buf.len() ==> is_number_char(#[trigger] buf[i]),
    ensures
        wellformed_output(flush_buf(out, buf)),
{
    if buf.len() > 0 {
        assert(wellformed_token(buf));
    }
}

proof fn lemma_pop_higher_wellformed(out: Seq<Seq<char>>, ops: Seq<char>, p: int)
    requires
        wellformed_output(out),
        wellformed_stack(ops),
        p >= 1,
    ensures
        wellformed_output(pop_higher(out, ops, p).0),
        wellformed_stack(pop_higher(out, ops, p).1),
    decreases ops.len(),
{
    if ops.len() > 0 && precedence(ops.last()) >= p {
        assert(is_op_char(ops.last()));
        assert(wellformed_token(char_seq(ops.last())));
        lemma_pop_higher_wellformed(out.push(char_seq(ops.last())), ops.drop_last(), p);
    }
}

proof fn lemma_pop_to_paren_wellformed(out: Seq<Seq<char>>, ops: Seq<char>)
    requires
        wellformed_output(out),
        wellformed_stack(ops),
    ensures
        wellformed_output(pop_to_paren(out, ops).0),
        wellformed_stack(pop_to_paren(out, ops).1),
    decreases ops.len(),
{
    if ops.len() > 0 && ops.last() != '(' {
        assert(is_op_char(ops.last()));
        assert(wellformed_token(char_seq(ops.last())));
        lemma_pop_to_paren_wellformed(out.push(char_seq(ops.last())), ops.drop_last());
    }
}

proof fn lemma_drain_wellformed(out: Seq<Seq<char>>, ops: Seq<char>)
    requires
        wellformed_output(out),
        wellformed_stack(ops),
    ensures
        wellformed_output(drain_ops(out, ops)),
    decreases ops.len(),
{
    if ops.len() > 0 {
        if ops.last() == '(' {
            lemma_drain_wellformed(out, ops.drop_last());
        } else {
            assert(is_op_char(ops.last()));
            assert(wellformed_token(char_seq(ops.last())));
            lemma_drain_wellformed(out.push(char_seq(ops.last())), ops.drop_last());
        }
    }
}

proof fn lemma_step_wellformed(st: ShuntState, c: char)
    requires
        wellformed_state(st),
        shunt_step(st, c) is Ok,
    ensures
        wellformed_state(shunt_step(st, c)->Ok_0),
{
    lemma_flush_wellformed(st.out, st.buf);
    if is_op_char(c) {
        lemma_pop_higher_wellformed(flush_buf(st.out, st.buf), st.ops, precedence(c));
    } else if !is_space(c) && c == ')' {
        lemma_pop_to_paren_wellformed(flush_buf(st.out, st.buf), st.ops);
    }
}

proof fn lemma_run_wellformed(st: ShuntState, cs: Seq<char>)
    requires
        wellformed_state(st),
        shunt_run(st, cs) is Ok,
    ensures
        wellformed_state(shunt_run(st, cs)->Ok_0),
    decreases cs.len(),
{
    if cs.len() > 0 {
        lemma_run_wellformed(st, cs.drop_last());
        lemma_step_wellformed(shunt_run(st, cs.drop_last())->Ok_0, cs.last());
    }
}

/// A successful conversion emits only well-formed tokens; grouping
/// symbols never reach the output.
pub proof fn lemma_shunt_wellformed(cs: Seq<char>)
    ensures
        shunt(cs) matches Ok(toks) ==> wellformed_output(toks),
{
    if shunt_run(init_state(), cs) is Ok {
        lemma_run_wellformed(init_state(), cs);
        let st = shunt_run(init_state(), cs)->Ok_0;
        lemma_flush_wellformed(st.out, st.buf);
        lemma_drain_wellformed(flush_buf(st.out, st.buf), st.ops);
    }
}

/// Scanning one more character continues from the state the prefix
/// reached.
proof fn lemma_run_snoc(st: ShuntState, cs: Seq<char>, j: int)
    requires
        0 <= j < cs.len(),
    ensures
        shunt_run(st, cs.take(j + 1)) == (match shunt_run(st, cs.take(j)) {
            Ok(m) => shunt_step(m, cs[j]),
            Err(c) => Err(c),
        }),
{
    assert(cs.take(j + 1).drop_last() =~= cs.take(j));
    assert(cs.take(j + 1).last() == cs[j]);
}

/// Once the scan has failed on a prefix, scanning the rest of the input
/// changes nothing.
proof fn lemma_run_err_extend(st: ShuntState, cs: Seq<char>, j: int)
    requires
        0 <= j <= cs.len(),
        shunt_run(st, cs.take(j)) is Err,
    ensures
        shunt_run(st, cs) == shunt_run(st, cs.take(j)),
    decreases cs.len() - j,
{
    if j == cs.len() {
        assert(cs.take(j) =~= cs);
    } else {
        lemma_run_snoc(st, cs, j);
        lemma_run_err_extend(st, cs, j + 1);
    }
}

/// The scan of a concatenation is the scan of the first part continued
/// over the second.
pub proof fn lemma_run_concat(st: ShuntState, a: Seq<char>, b: Seq<char>)
    ensures
        shunt_run(st, a + b) == (match shunt_run(st, a) {
            Ok(m) => shunt_run(m, b),
            Err(c) => Err::<ShuntState, char>(c),
        }),
    decreases b.len(),
{
    if b.len() == 0 {
        assert(a + b =~= a);
    } else {
        assert((a + b).drop_last() =~= a + b.drop_last());
        assert((a + b).last() == b.last());
        lemma_run_concat(st, a, b.drop_last());
    }
}

/// Scanning a run of digit and decimal-point characters only extends
/// the literal buffer.
pub proof fn lemma_run_number_chars(st: ShuntState, cs: Seq<char>)
    requires
        forall|i: int| 0 <= i < cs.len() ==> is_number_char(#[trigger] cs[i]),
    ensures
        shunt_run(st, cs) == Ok::<ShuntState, char>(
            ShuntState { out: st.out, ops: st.ops, buf: st.buf + cs },
        ),
    decreases cs.len(),
{
    if cs.len() == 0 {
        assert(st.buf + cs =~= st.buf);
    } else {
        lemma_run_number_chars(st, cs.drop_last());
        assert(is_number_char(cs.last()));
        assert(st.buf + cs =~= (st.buf + cs.drop_last()).push(cs.last()));
    }
}

impl RPNQueue {
    /// Converts an infix expression to a token sequence in Reverse
    /// Polish Notation with the shunting-yard algorithm. Decimal
    /// literals and round brackets are supported; any character that is
    /// not white space, an operator, a bracket, a digit or a decimal
    /// point is rejected, and nothing is returned for such an input.
    /// Every token of a successful conversion is an operator or a
    /// numeric literal: grouping symbols never reach the output.
    pub fn from_infix_string(input: &str) -> (r: Result<Self, ParseError>)
        ensures
            match r {
                Ok(q) => {
                    &&& shunt(input@) == Ok::<Seq<Seq<char>>, char>(q@)
                    &&& wellformed_output(q@)
                },
                Err(e) => {
                    &&& shunt(input@) is Err
                    &&& e == ParseError::InvalidToken(shunt(input@)->Err_0)
                },
            },
    {
        let mut output: Vec<String> = Vec::new();
        let mut ops: Vec<char> = Vec::new();
        let mut buffer: String = String::new();
        let n = input.unicode_len();
        let mut i: usize = 0;
        proof {
            assert(input@.take(0) =~= Seq::<char>::empty());
            assert(output.deep_view() =~= Seq::<Seq<char>>::empty());
        }
        while i < n
            invariant
                i <= n,
                n == input@.len(),
                shunt_run(init_state(), input@.take(i as int)) == Ok::<ShuntState, char>(
                    ShuntState { out: output.deep_view(), ops: ops@, buf: buffer@ },
                ),
            decreases n - i,
        {
            let ghost st_i = ShuntState { out: output.deep_view(), ops: ops@, buf: buffer@ };
            let c = input.get_char(i);
            proof {
                lemma_run_snoc(init_state(), input@, i as int);
            }
            if is_space_char(c) {
                flush_buffer(&mut output, &mut buffer);
            } else if is_operator_char(c) {
                flush_buffer(&mut output, &mut buffer);
                let p = precedence_of(c);
                let ghost out0 = output.deep_view();
                let ghost ops0 = ops@;
                loop
                    invariant
                        pop_higher(output.deep_view(), ops@, p as int) == pop_higher(
                            out0,
                            ops0,
                            p as int,
                        ),
                    ensures
                        pop_higher(output.deep_view(), ops@, p as int) == pop_higher(
                            out0,
                            ops0,
                            p as int,
                        ),
                        ops@.len() == 0 || !(precedence(ops@.last()) >= p as int),
                    decreases ops.len(),
                {
                    if ops.len() == 0 {
                        break;
                    }
                    let top = ops[ops.len() - 1];
                    if !(precedence_of(top) >= p) {
                        break;
                    }
                    let ghost odv = output.deep_view();
                    let ghost oops = ops@;
                    let t = token_of_char(top);
                    output.push(t);
                    ops.pop();
                    proof {
                        assert(output.deep_view() =~= odv.push(char_seq(top)));
                        assert(ops@ =~= oops.drop_last());
                    }
                }
                ops.push(c);
                proof {
                    assert(shunt_step(st_i, c) == Ok::<ShuntState, char>(
                        ShuntState { out: output.deep_view(), ops: ops@, buf: buffer@ },
                    ));
                }
            } else if c == '(' {
                ops.push(c);
            } else if c == ')' {
                flush_buffer(&mut output, &mut buffer);
                let ghost out0 = output.deep_view();
                let ghost ops0 = ops@;
                loop
                    invariant
                        pop_to_paren(output.deep_view(), ops@) == pop_to_paren(out0, ops0),
                    ensures
                        pop_to_paren(output.deep_view(), ops@) == pop_to_paren(out0, ops0),
                        ops@.len() == 0 || ops@.last() == '(',
                    decreases ops.len(),
                {
                    if ops.len() == 0 {
                        break;
                    }
                    let top = ops[ops.len() - 1];
                    if top == '(' {
                        break;
                    }
                    let ghost odv = output.deep_view();
                    let ghost oops = ops@;
                    let t = token_of_char(top);
                    output.push(t);
                    ops.pop();
                    proof {
                        assert(output.deep_view() =~= odv.push(char_seq(top)));
                        assert(ops@ =~= oops.drop_last());
                    }
                }
                if ops.len() > 0 {
                    ops.pop();
                }
                proof {
                    assert(shunt_step(st_i, c) == Ok::<ShuntState, char>(
                        ShuntState { out: output.deep_view(), ops: ops@, buf: buffer@ },
                    ));
                }
            } else if is_numeric_char(c) {
                push_char(&mut buffer, c);
            } else {
                proof {
                    lemma_run_err_extend(init_state(), input@, i + 1);
                }
                return Err(ParseError::InvalidToken(c));
            }
            i = i + 1;
        }
        proof {
            assert(input@.take(n as int) =~= input@);
        }
        flush_buffer(&mut output, &mut buffer);
        let ghost out0 = output.deep_view();
        let ghost ops0 = ops@;
        loop
            invariant
                drain_ops(output.deep_view(), ops@) == drain_ops(out0, ops0),
            ensures
                drain_ops(output.deep_view(), ops@) == drain_ops(out0, ops0),
                ops@.len() == 0,
            decreases ops.len(),
        {
            if ops.len() == 0 {
                break;
            }
            let top = ops[ops.len() - 1];
            let ghost odv = output.deep_view();
            let ghost oops = ops@;
            if top == '(' {
                ops.pop();
                proof {
                    assert(ops@ =~= oops.drop_last());
                }
            } else {
                let t = token_of_char(top);
                output.push(t);
                ops.pop();
                proof {
                    assert(output.deep_view() =~= odv.push(char_seq(top)));
                    assert(ops@ =~= oops.drop_last());
                }
            }
        }
        proof {
            lemma_shunt_wellformed(input@);
        }
        let q = RPNQueue(output);
        Ok(q)
    }
}

/// Emits the pending literal buffer as a completed token and clears it.
fn flush_buffer(output: &mut Vec<String>, buffer: &mut String)
    ensures
        final(output).deep_view() == flush_buf(old(output).deep_view(), old(buffer)@),
        final(buffer)@ == Seq::<char>::empty(),
{
    if !buffer.as_str().is_empty() {
        let ghost odv = output.deep_view();
        let t = buffer.clone();
        output.push(t);
        *buffer = String::new();
        proof {
            assert(output.deep_view() =~= odv.push(old(buffer)@));
        }
    } else {
        proof {
            assert(buffer@ =~= Seq::<char>::empty());
        }
    }
}

} // verus!
