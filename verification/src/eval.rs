//! The executable evaluator.
//!
//! Evaluation runs as an explicit stack of frames instead of native call
//! recursion, so that recursion depth is a configurable resource limit
//! rather than a host stack limit.  Each pass of the main loop performs
//! exactly one step of the machine of `semantics`, and the result of a run
//! is pinned to the trajectory of that machine.

use crate::dict::{dict_view, Dict};
use crate::numbers::{fmt_i64, parse_i64, spec_fmt_i64, spec_parse_i64};
use crate::semantics::{
    apply_op, codes_of, dispatch, dispatch_builtin, emit_char, init_config, is_builtin,
    is_scalar_value, op_token, print_words, spec_div, split_at_delim, split_branch, step, steps,
    with_top, BinOp, Config, EvalError, Status,
};
use crate::tokens::str_eq;
use crate::{ExecutionError, Word, FALSE};
use vstd::prelude::*;
use vstd::string::StrSliceExecFns;

verus! {

/// Relies on char::from_u32: a character exists exactly for Unicode scalar
/// values, and carries the given code.
pub assume_specification[ char::from_u32 ](i: u32) -> (r: Option<char>)
    ensures
        r == (if is_scalar_value(i) {
            Some(i as char)
        } else {
            None::<char>
        }),
;

/// Appends the characters of a string slice to a character buffer.
pub(crate) fn append_str(buf: &mut Vec<char>, s: &str)
    ensures
        final(buf)@ == old(buf)@ + s@,
{
    let n = s.unicode_len();
    let mut i: usize = 0;
    while i < n
        invariant
            0 <= i <= n,
            n == s@.len(),
            buf@ == old(buf)@ + s@.take(i as int),
        decreases n - i,
    {
        let c = s.get_char(i);
        buf.push(c);
        proof {
            assert(buf@ =~= old(buf)@ + s@.take(i + 1));
        }
        i += 1;
    }
    proof {
        assert(s@.take(n as int) =~= s@);
    }
}

/// A copy of the given words in reverse order, so that the first word is
/// the last element.
fn reversed_copy(v: &Vec<Word>) -> (r: Vec<Word>)
    ensures
        r.deep_view() == v.deep_view().reverse(),
{
    let ghost dv = v.deep_view();
    let mut r: Vec<Word> = Vec::new();
    let mut i = v.len();
    proof {
        assert(r.deep_view() =~= dv.skip(i as int).reverse());
    }
    while i > 0
        invariant
            i <= v.len(),
            dv == v.deep_view(),
            dv.len() == v.len(),
            r.deep_view() == dv.skip(i as int).reverse(),
        decreases i,
    {
        i -= 1;
        let w = v[i].clone();
        r.push(w);
        proof {
            assert(w@ == dv[i as int]);
            let s2 = dv.skip(i as int).reverse();
            assert(r.deep_view() =~= dv.skip(i as int + 1).reverse().push(dv[i as int]));
            assert forall|k: int| 0 <= k < s2.len() implies r.deep_view()[k] == s2[k] by {
                assert(s2[k] == dv.skip(i as int)[dv.len() - i - 1 - k]);
                if k < dv.len() - i - 1 {
                    assert(dv.skip(i as int + 1).reverse()[k] == dv.skip(i as int + 1)[dv.len() - i
                        - 1 - 1 - k]);
                }
            }
            assert(r.deep_view() =~= s2);
        }
    }
    proof {
        assert(dv.skip(0) =~= dv);
    }
    r
}

/// Removes tokens from the frame until the delimiter, handing back the
/// removed tokens in reading order; nothing when the delimiter is missing.
fn take_until(fr: &mut Vec<Word>, delim: &str) -> (r: Option<Vec<Word>>)
    ensures
        match r {
            Some(body) => split_at_delim(old(fr).deep_view(), delim@) matches Some(pr)
                && body.deep_view() == pr.0 && final(fr).deep_view() == pr.1,
            None => split_at_delim(old(fr).deep_view(), delim@) is None,
        },
{
    let mut body: Vec<Word> = Vec::new();
    proof {
        assert(body.deep_view() =~= Seq::<Seq<char>>::empty());
    }
    loop
        invariant
            split_at_delim(old(fr).deep_view(), delim@) is Some ==> split_at_delim(
                fr.deep_view(),
                delim@,
            ) is Some,
            split_at_delim(fr.deep_view(), delim@) matches Some(pr) ==> split_at_delim(
                old(fr).deep_view(),
                delim@,
            ) matches Some(opr) && opr.0 == body.deep_view() + pr.0 && opr.1 == pr.1,
        decreases fr.len(),
    {
        let ghost pre = fr.deep_view();
        match fr.pop() {
            None => {
                proof {
                    assert(pre.len() == 0);
                }
                return None;
            },
            Some(w) => {
                proof {
                    assert(fr.deep_view() =~= pre.drop_last());
                    assert(w@ == pre.last());
                }
                if str_eq(w.as_str(), delim) {
                    proof {
                        let pr = split_at_delim(pre, delim@).unwrap();
                        assert(pr.0 =~= Seq::<Seq<char>>::empty());
                        assert(body.deep_view() + pr.0 =~= body.deep_view());
                    }
                    return Some(body);
                } else {
                    body.push(w);
                    proof {
                        assert(body.deep_view() =~= body.deep_view().drop_last().push(pre.last()));
                        if split_at_delim(fr.deep_view(), delim@) is Some {
                            let pr = split_at_delim(fr.deep_view(), delim@).unwrap();
                            assert(split_at_delim(pre, delim@) == Some(
                                (seq![pre.last()] + pr.0, pr.1),
                            ));
                            assert(body.deep_view() + pr.0 =~= body.deep_view().drop_last() + (seq![
                                pre.last()
                            ] + pr.0));
                        }
                    }
                }
            },
        }
    }
}

/// Removes tokens from the frame until the first `else` or `then`; the
/// flag is true when it was an `else`.
fn take_branch(fr: &mut Vec<Word>) -> (r: Option<(Vec<Word>, bool)>)
    ensures
        match r {
            Some(br) => split_branch(old(fr).deep_view()) matches Some(pr) && br.0.deep_view()
                == pr.0 && br.1 == pr.1 && final(fr).deep_view() == pr.2,
            None => split_branch(old(fr).deep_view()) is None,
        },
{
    let mut body: Vec<Word> = Vec::new();
    proof {
        assert(body.deep_view() =~= Seq::<Seq<char>>::empty());
    }
    loop
        invariant
            split_branch(old(fr).deep_view()) is Some ==> split_branch(fr.deep_view()) is Some,
            split_branch(fr.deep_view()) matches Some(pr) ==> split_branch(
                old(fr).deep_view(),
            ) matches Some(opr) && opr.0 == body.deep_view() + pr.0 && opr.1 == pr.1 && opr.2
                == pr.2,
        decreases fr.len(),
    {
        let ghost pre = fr.deep_view();
        match fr.pop() {
            None => {
                proof {
                    assert(pre.len() == 0);
                }
                return None;
            },
            Some(w) => {
                proof {
                    assert(fr.deep_view() =~= pre.drop_last());
                    assert(w@ == pre.last());
                }
                let is_else = str_eq(w.as_str(), "else");
                if is_else || str_eq(w.as_str(), "then") {
                    proof {
                        let pr = split_branch(pre).unwrap();
                        assert(pr.0 =~= Seq::<Seq<char>>::empty());
                        assert(body.deep_view() + pr.0 =~= body.deep_view());
                    }
                    return Some((body, is_else));
                } else {
                    body.push(w);
                    proof {
                        assert(body.deep_view() =~= body.deep_view().drop_last().push(pre.last()));
                        if split_branch(fr.deep_view()) is Some {
                            let pr = split_branch(fr.deep_view()).unwrap();
                            assert(split_branch(pre) == Some(
                                (seq![pre.last()] + pr.0, pr.1, pr.2),
                            ));
                            assert(body.deep_view() + pr.0 =~= body.deep_view().drop_last() + (seq![
                                pre.last()
                            ] + pr.0));
                        }
                    }
                }
            },
        }
    }
}

/// Printing one more token appends its text and a space.
proof fn lemma_print_push(s: Seq<Seq<char>>, x: Seq<char>)
    ensures
        print_words(s.push(x)) == print_words(s) + x + seq![' '],
    decreases s.len(),
{
    if s.len() == 0 {
        assert(s.push(x).first() == x);
        assert(s.push(x).drop_first() =~= Seq::<Seq<char>>::empty());
        assert(print_words(s.push(x).drop_first()) == Seq::<char>::empty());
        assert(print_words(s.push(x)) == x + seq![' '] + Seq::<char>::empty());
        assert(print_words(s.push(x)) =~= print_words(s) + x + seq![' ']);
    } else {
        lemma_print_push(s.drop_first(), x);
        assert(s.push(x).first() == s.first());
        assert(s.push(x).drop_first() =~= s.drop_first().push(x));
        assert(print_words(s.push(x)) == s.first() + seq![' '] + (print_words(s.drop_first()) + x
            + seq![' ']));
        assert(print_words(s.push(x)) =~= print_words(s) + x + seq![' ']);
    }
}

/// Writes each token followed by one space, as `."` does.
fn print_tokens(out: &mut Vec<char>, ws: &Vec<Word>)
    ensures
        final(out)@ == old(out)@ + print_words(ws.deep_view()),
{
    let ghost dv = ws.deep_view();
    let mut i: usize = 0;
    proof {
        assert(dv.take(0) =~= Seq::<Seq<char>>::empty());
    }
    while i < ws.len()
        invariant
            0 <= i <= ws.len(),
            dv == ws.deep_view(),
            dv.len() == ws.len(),
            out@ == old(out)@ + print_words(dv.take(i as int)),
        decreases ws.len() - i,
    {
        append_str(out, ws[i].as_str());
        out.push(' ');
        proof {
            assert(dv.take(i as int).push(dv[i as int]) =~= dv.take(i + 1));
            lemma_print_push(dv.take(i as int), dv[i as int]);
            assert(out@ =~= old(out)@ + print_words(dv.take(i + 1)));
        }
        i += 1;
    }
    proof {
        assert(dv.take(dv.len() as int) =~= dv);
    }
}

/// The operator a token names, decided executably.
fn op_code(ws: &str) -> (r: Option<BinOp>)
    ensures
        r == op_token(ws@),
{
    if str_eq(ws, "+") {
        Some(BinOp::Add)
    } else if str_eq(ws, "-") {
        Some(BinOp::Sub)
    } else if str_eq(ws, "*") {
        Some(BinOp::Mul)
    } else if str_eq(ws, "/") {
        Some(BinOp::Div)
    } else if str_eq(ws, "<") {
        Some(BinOp::Lt)
    } else if str_eq(ws, ">") {
        Some(BinOp::Gt)
    } else if str_eq(ws, "=") {
        Some(BinOp::Eql)
    } else if str_eq(ws, "and") {
        Some(BinOp::BitAnd)
    } else if str_eq(ws, "or") {
        Some(BinOp::BitOr)
    } else {
        None
    }
}

/// Applies one two-operand word; division by zero is excluded by the
/// caller, and the one overflowing quotient wraps.
fn apply_op_exec(op: BinOp, s: i64, f: i64) -> (r: i64)
    requires
        op == BinOp::Div ==> f != 0,
    ensures
        r == apply_op(op, s, f),
{
    match op {
        BinOp::Add => s.wrapping_add(f),
        BinOp::Sub => s.wrapping_sub(f),
        BinOp::Mul => s.wrapping_mul(f),
        BinOp::Div => {
            if s == i64::MIN && f == -1 {
                i64::MIN
            } else {
                proof {
                    lemma_div_in_range(s, f);
                }
                let q = s.checked_div(f);
                q.unwrap()
            }
        },
        BinOp::Lt => if s < f {
            crate::TRUE
        } else {
            FALSE
        },
        BinOp::Gt => if s > f {
            crate::TRUE
        } else {
            FALSE
        },
        BinOp::Eql => if s == f {
            crate::TRUE
        } else {
            FALSE
        },
        BinOp::BitAnd => s & f,
        BinOp::BitOr => s | f,
    }
}

/// Every quotient other than `i64::MIN / -1` fits in an `i64`.
proof fn lemma_div_in_range(s: i64, f: i64)
    requires
        f != 0,
        !(s == i64::MIN && f == -1),
    ensures
        i64::MIN <= spec_div(s, f) <= i64::MAX,
        s.checked_div(f) == Some(spec_div(s, f)),
{
    broadcast use vstd::arithmetic::div_mod::lemma_div_pos_is_pos;
    broadcast use vstd::arithmetic::div_mod::lemma_div_nonincreasing;
    broadcast use vstd::arithmetic::div_mod::lemma_div_is_ordered_by_denominator;

    let x = s as int;
    let d = f as int;
    if x > 0 && d > 0 {
        assert(x / d >= 0);
        assert(x / d <= x);
    } else if x < 0 && d < 0 {
        assert((x * -1) / (d * -1) >= 0);
        if d == -1 {
            assert(d * -1 == 1);
            assert((x * -1) / 1 == x * -1);
        } else {
            assert(d * -1 >= 2);
            assert((x * -1) / (d * -1) <= (x * -1) / 2);
            assert((x * -1) / 2 <= i64::MAX);
        }
    } else if x < 0 {
        assert((x * -1) / d >= 0);
        assert((x * -1) / d <= (x * -1));
    } else if x > 0 {
        assert(x / (d * -1) >= 0);
        assert(x / (d * -1) <= x);
    }
}

/// The running evaluator: the frames still to be consumed, and the parts
/// of the configuration it owns while a run is in progress.
struct Machine {
    frames: Vec<Vec<Word>>,
    stack: Vec<i64>,
    dict: Dict,
    output: Vec<char>,
    input: Vec<char>,
}

/// The configuration a machine stands at.
spec fn cfg(m: Machine) -> Config {
    Config {
        frames: m.frames.deep_view(),
        stack: m.stack@,
        dict: dict_view(m.dict),
        output: m.output@,
        input: m.input@,
        status: Status::Running,
    }
}

/// The machine-level error an execution error reports.
pub open spec fn err_view(e: ExecutionError) -> EvalError {
    match e {
        ExecutionError::Code(code) => EvalError::Code(code),
        ExecutionError::StackUnderflow => EvalError::StackUnderflow,
        ExecutionError::NoSuchWord(w) => EvalError::NoSuchWord(w@),
        ExecutionError::DivisionByZero => EvalError::DivisionByZero,
        ExecutionError::StepLimit => arbitrary(),
    }
}

/// Performs one machine step: `None` to keep going, `Some` when the next
/// configuration is terminal.
fn machine_step(m: &mut Machine) -> (r: Option<Result<(), ExecutionError>>)
    ensures
        ({
            let next = step(cfg(*old(m)));
            match r {
                None => next.status is Running && cfg(*final(m)) == next,
                Some(done) => match done {
                    Ok(()) => next.status is Done && cfg(*final(m)) == (Config {
                        status: Status::Running,
                        ..next
                    }),
                    Err(e) => !(e matches ExecutionError::StepLimit) && next.status
                        == Status::Failed(err_view(e)),
                },
            }
        }),
{
    let ghost c0 = cfg(*m);
    if m.frames.len() == 0 {
        return Some(Ok(()));
    }
    let mut fr = m.frames.pop().unwrap();
    proof {
        assert(m.frames.deep_view() =~= c0.frames.drop_last());
        assert(fr.deep_view() == c0.frames.last());
    }
    if fr.len() == 0 {
        proof {
            assert(cfg(*m) =~= (Config { frames: c0.frames.drop_last(), ..c0 }));
        }
        return None;
    }
    let w = fr.pop().unwrap();
    let ghost t = c0.frames.last().last();
    let ghost c1 = with_top(c0, c0.frames.last().drop_last());
    proof {
        assert(w@ == t);
        assert(fr.deep_view() =~= c0.frames.last().drop_last());
        assert(m.frames.deep_view().push(fr.deep_view()) =~= c1.frames);
        assert(step(c0) == dispatch(c1, t));
    }
    let ws = w.as_str();
    if str_eq(ws, ".") {
        match m.stack.pop() {
            None => Some(Err(ExecutionError::StackUnderflow)),
            Some(v) => {
                let mut ds = fmt_i64(v);
                m.output.append(&mut ds);
                m.output.push(' ');
                m.frames.push(fr);
                proof {
                    assert(m.output@ =~= c1.output + spec_fmt_i64(v as int) + seq![' ']);
                    assert(cfg(*m) =~= dispatch_builtin(c1, t));
                }
                None
            },
        }
    } else if str_eq(ws, "emit") {
        match m.stack.pop() {
            None => Some(Err(ExecutionError::StackUnderflow)),
            Some(v) => {
                let c = match char::from_u32(v as u32) {
                    Some(c) => c,
                    None => '\u{FFFD}',
                };
                m.output.push(c);
                m.frames.push(fr);
                proof {
                    assert(c == emit_char(v as u32));
                    assert(cfg(*m) =~= dispatch_builtin(c1, t));
                }
                None
            },
        }
    } else if str_eq(ws, "key") {
        if m.input.len() == 0 {
            m.stack.push(-1);
        } else {
            let c = m.input.remove(0);
            proof {
                assert(c == c1.input.first());
                assert(m.input@ =~= c1.input.drop_first());
            }
            m.stack.push(c as i64);
        }
        m.frames.push(fr);
        proof {
            assert(cfg(*m) =~= dispatch_builtin(c1, t));
        }
        None
    } else if str_eq(ws, "read") {
        let ghost mapped = codes_of(c1.input);
        let n = m.input.len();
        let mut i: usize = 0;
        proof {
            assert(m.stack@ =~= c1.stack + mapped.take(0));
        }
        while i < n
            invariant
                0 <= i <= n,
                n == m.input@.len(),
                m.input@ == c1.input,
                mapped == codes_of(c1.input),
                m.stack@ == c1.stack + mapped.take(i as int),
                m.frames.deep_view() == c1.frames.drop_last(),
                dict_view(m.dict) == c1.dict,
                m.output@ == c1.output,
            decreases n - i,
        {
            let c = m.input[i];
            m.stack.push(c as i64);
            proof {
                assert(mapped[i as int] == c as i64);
                assert(m.stack@ =~= c1.stack + mapped.take(i + 1));
            }
            i += 1;
        }
        m.input.clear();
        m.frames.push(fr);
        proof {
            assert(mapped.take(n as int) =~= mapped);
            let d = dispatch_builtin(c1, t);
            assert(d.stack == c1.stack + codes_of(c1.input));
            assert(d.input == Seq::<char>::empty());
            assert(d.frames == c1.frames);
            assert(m.stack@ == c1.stack + codes_of(c1.input));
            assert(m.input@ =~= Seq::<char>::empty());
            assert(m.frames.deep_view() =~= c1.frames.drop_last().push(fr.deep_view()));
            assert(fr.deep_view() == c1.frames.last());
            assert(m.frames.deep_view() =~= c1.frames);
            assert(m.output@ == d.output);
            assert(dict_view(m.dict) == d.dict);
            assert(cfg(*m) =~= dispatch_builtin(c1, t));
        }
        None
    } else if str_eq(ws, "cr") {
        m.output.push('\n');
        m.frames.push(fr);
        proof {
            assert(cfg(*m) =~= dispatch_builtin(c1, t));
        }
        None
    } else if let Some(op) = op_code(ws) {
        match m.stack.pop() {
            None => Some(Err(ExecutionError::StackUnderflow)),
            Some(f) => {
                match m.stack.pop() {
                    None => Some(Err(ExecutionError::StackUnderflow)),
                    Some(s) => {
                        proof {
                            assert(f == c1.stack.last());
                            assert(s == c1.stack[c1.stack.len() - 2]);
                            assert(m.stack@ =~= c1.stack.drop_last().drop_last());
                        }
                        if matches!(op, BinOp::Div) && f == 0 {
                            Some(Err(ExecutionError::DivisionByZero))
                        } else {
                            let v = apply_op_exec(op, s, f);
                            m.stack.push(v);
                            m.frames.push(fr);
                            proof {
                                assert(cfg(*m) =~= dispatch_builtin(c1, t));
                            }
                            None
                        }
                    },
                }
            },
        }
    } else if str_eq(ws, "not") || str_eq(ws, "invert") {
        match m.stack.pop() {
            None => Some(Err(ExecutionError::StackUnderflow)),
            Some(v) => {
                m.stack.push(!v);
                m.frames.push(fr);
                proof {
                    assert(cfg(*m) =~= dispatch_builtin(c1, t));
                }
                None
            },
        }
    } else if str_eq(ws, "dup") {
        if m.stack.len() == 0 {
            Some(Err(ExecutionError::StackUnderflow))
        } else {
            let v = m.stack[m.stack.len() - 1];
            m.stack.push(v);
            m.frames.push(fr);
            proof {
                assert(cfg(*m) =~= dispatch_builtin(c1, t));
            }
            None
        }
    } else if str_eq(ws, "drop") {
        match m.stack.pop() {
            None => Some(Err(ExecutionError::StackUnderflow)),
            Some(_v) => {
                m.frames.push(fr);
                proof {
                    assert(cfg(*m) =~= dispatch_builtin(c1, t));
                }
                None
            },
        }
    } else if str_eq(ws, "swap") {
        if m.stack.len() < 2 {
            Some(Err(ExecutionError::StackUnderflow))
        } else {
            let b = m.stack.pop().unwrap();
            let a = m.stack.pop().unwrap();
            m.stack.push(b);
            m.stack.push(a);
            m.frames.push(fr);
            proof {
                assert(m.stack@ =~= c1.stack.drop_last().drop_last().push(c1.stack.last()).push(
                    c1.stack[c1.stack.len() - 2],
                ));
                assert(cfg(*m) =~= dispatch_builtin(c1, t));
            }
            None
        }
    } else if str_eq(ws, "over") {
        if m.stack.len() < 2 {
            Some(Err(ExecutionError::StackUnderflow))
        } else {
            let v = m.stack[m.stack.len() - 2];
            m.stack.push(v);
            m.frames.push(fr);
            proof {
                assert(cfg(*m) =~= dispatch_builtin(c1, t));
            }
            None
        }
    } else if str_eq(ws, "rot") {
        if m.stack.len() < 3 {
            Some(Err(ExecutionError::StackUnderflow))
        } else {
            let idx = m.stack.len() - 3;
            let x = m.stack.remove(idx);
            m.stack.push(x);
            m.frames.push(fr);
            proof {
                let stk = c1.stack;
                assert(m.stack@ =~= stk.subrange(0, stk.len() - 3) + seq![
                    stk[stk.len() - 2],
                    stk[stk.len() - 1],
                    stk[stk.len() - 3],
                ]);
                assert(cfg(*m) =~= dispatch_builtin(c1, t));
            }
            None
        }
    } else if str_eq(ws, "exit") {
        match m.stack.pop() {
            None => Some(Err(ExecutionError::StackUnderflow)),
            Some(v) => Some(Err(ExecutionError::Code(#[verifier::truncate] (v as i32)))),
        }
    } else if str_eq(ws, ":") {
        match fr.pop() {
            None => Some(Err(ExecutionError::StackUnderflow)),
            Some(name) => {
                proof {
                    assert(name@ == c1.frames.last().last());
                    assert(fr.deep_view() =~= c1.frames.last().drop_last());
                }
                match take_until(&mut fr, ";") {
                    None => Some(Err(ExecutionError::StackUnderflow)),
                    Some(body) => {
                        m.dict.insert(name, body);
                        m.frames.push(fr);
                        proof {
                            assert(cfg(*m) =~= dispatch_builtin(c1, t));
                        }
                        None
                    },
                }
            },
        }
    } else if str_eq(ws, ".\"") {
        match take_until(&mut fr, "\"") {
            None => Some(Err(ExecutionError::StackUnderflow)),
            Some(words) => {
                print_tokens(&mut m.output, &words);
                m.frames.push(fr);
                proof {
                    assert(cfg(*m) =~= dispatch_builtin(c1, t));
                }
                None
            },
        }
    } else if str_eq(ws, "if") {
        match m.stack.pop() {
            None => Some(Err(ExecutionError::StackUnderflow)),
            Some(cond) => {
                match take_branch(&mut fr) {
                    None => Some(Err(ExecutionError::StackUnderflow)),
                    Some((part1, was_else)) => {
                        if was_else {
                            match take_until(&mut fr, "then") {
                                None => Some(Err(ExecutionError::StackUnderflow)),
                                Some(part2) => {
                                    let chosen = if cond != FALSE {
                                        part1
                                    } else {
                                        part2
                                    };
                                    let nf = reversed_copy(&chosen);
                                    m.frames.push(fr);
                                    m.frames.push(nf);
                                    proof {
                                        assert(cfg(*m) =~= dispatch_builtin(c1, t));
                                    }
                                    None
                                },
                            }
                        } else {
                            if cond != FALSE {
                                let nf = reversed_copy(&part1);
                                m.frames.push(fr);
                                m.frames.push(nf);
                                proof {
                                    assert(cfg(*m) =~= dispatch_builtin(c1, t));
                                }
                                None
                            } else {
                                let nf: Vec<Word> = Vec::new();
                                m.frames.push(fr);
                                m.frames.push(nf);
                                proof {
                                    assert(nf.deep_view() =~= Seq::<Seq<char>>::empty().reverse());
                                    assert(cfg(*m) =~= dispatch_builtin(c1, t));
                                }
                                None
                            }
                        }
                    },
                }
            },
        }
    } else {
        proof {
            assert(!is_builtin(t));
        }
        match parse_i64(ws) {
            Some(num) => {
                m.stack.push(num);
                m.frames.push(fr);
                proof {
                    assert(cfg(*m) =~= dispatch(c1, t));
                }
                None
            },
            None => {
                match m.dict.get(&w) {
                    Some(body) => {
                        let nf = reversed_copy(body);
                        m.frames.push(fr);
                        m.frames.push(nf);
                        proof {
                            assert(cfg(*m) =~= dispatch(c1, t));
                        }
                        None
                    },
                    None => Some(Err(ExecutionError::NoSuchWord(w))),
                }
            },
        }
    }
}

/// How many machine steps one call of `do_word` may take before it gives
/// up with `ExecutionError::StepLimit`.
pub const STEP_BUDGET: u64 = 0x1000_0000_0000_0000;

/// What a finished run promises: some number of steps within the budget
/// leads the machine from the initial configuration to a terminal one that
/// matches the returned result and the final state; or the budget was
/// exhausted with the machine still running.
pub open spec fn eval_outcome(
    init: Config,
    budget: nat,
    r: Result<(), ExecutionError>,
    stack: Seq<i64>,
    dict: Map<Seq<char>, Seq<Seq<char>>>,
    old_out: Seq<char>,
    new_out: Seq<char>,
    input: Seq<char>,
) -> bool {
    match r {
        Ok(()) => exists|n: nat|
            n <= budget && {
                let fin = #[trigger] steps(init, n);
                fin.status is Done && fin.stack == stack && fin.dict == dict && new_out == old_out
                    + fin.output && fin.input == input
            },
        Err(e) => match e {
            ExecutionError::StepLimit => steps(init, budget).status is Running,
            _ => exists|n: nat|
                n <= budget && (#[trigger] steps(init, n)).status == Status::Failed(err_view(e)),
        },
    }
}

/// One execution context: the operand stack and the word dictionary, owned
/// for the lifetime of a session or a file run.
pub struct State {
    pub stack: Vec<i64>,
    pub dict: Dict,
}

impl Default for State {
    /// An empty stack and an empty dictionary.
    fn default() -> (s: State)
        ensures
            s.stack@ == Seq::<i64>::empty(),
            dict_view(s.dict) == Map::<Seq<char>, Seq<Seq<char>>>::empty(),
    {
        State { stack: Vec::new(), dict: Dict::with_capacity(16) }
    }
}

impl State {
    /// Evaluates a token sequence (reversed, as `tokenize` hands it out)
    /// against this state, with the default step budget.  Output text is
    /// appended to `out_buf`; `key` and `read` consume from `in_buf`.
    pub fn do_word(
        &mut self,
        words: &mut Vec<Word>,
        out_buf: &mut Vec<char>,
        in_buf: &mut Vec<char>,
    ) -> (r: Result<(), ExecutionError>)
        ensures
            final(words)@.len() == 0,
            eval_outcome(
                init_config(
                    old(words).deep_view(),
                    old(self).stack@,
                    dict_view(old(self).dict),
                    old(in_buf)@,
                ),
                STEP_BUDGET as nat,
                r,
                final(self).stack@,
                dict_view(final(self).dict),
                old(out_buf)@,
                final(out_buf)@,
                final(in_buf)@,
            ),
    {
        self.do_word_bounded(words, out_buf, in_buf, STEP_BUDGET)
    }

    /// As `do_word`, but with a caller-chosen step budget: recursion depth
    /// and running time are a configurable resource limit.
    pub fn do_word_bounded(
        &mut self,
        words: &mut Vec<Word>,
        out_buf: &mut Vec<char>,
        in_buf: &mut Vec<char>,
        budget: u64,
    ) -> (r: Result<(), ExecutionError>)
        ensures
            final(words)@.len() == 0,
            eval_outcome(
                init_config(
                    old(words).deep_view(),
                    old(self).stack@,
                    dict_view(old(self).dict),
                    old(in_buf)@,
                ),
                budget as nat,
                r,
                final(self).stack@,
                dict_view(final(self).dict),
                old(out_buf)@,
                final(out_buf)@,
                final(in_buf)@,
            ),
    {
        let mut w0: Vec<Word> = Vec::new();
        core::mem::swap(words, &mut w0);
        let mut frames: Vec<Vec<Word>> = Vec::new();
        frames.push(w0);
        let mut stack0: Vec<i64> = Vec::new();
        core::mem::swap(&mut self.stack, &mut stack0);
        let mut dict0: Dict = Dict::with_capacity(0);
        core::mem::swap(&mut self.dict, &mut dict0);
        let mut input0: Vec<char> = Vec::new();
        core::mem::swap(in_buf, &mut input0);
        let mut mach = Machine {
            frames,
            stack: stack0,
            dict: dict0,
            output: Vec::new(),
            input: input0,
        };
        let ghost init = cfg(mach);
        proof {
            assert(init.frames =~= seq![old(words).deep_view()]);
            assert(init =~= init_config(
                old(words).deep_view(),
                old(self).stack@,
                dict_view(old(self).dict),
                old(in_buf)@,
            ));
        }
        let mut n: u64 = 0;
        let mut out_res: Option<Result<(), ExecutionError>> = None;
        let ghost mut fin_n: nat = 0;
        while n < budget
            invariant_except_break
                out_res is None,
                n <= budget,
                cfg(mach) == steps(init, n as nat),
            ensures
                match out_res {
                    None => n == budget && cfg(mach) == steps(init, budget as nat),
                    Some(rr) => fin_n <= budget as nat && (match rr {
                        Ok(()) => steps(init, fin_n).status is Done && cfg(mach) == (Config {
                            status: Status::Running,
                            ..steps(init, fin_n)
                        }),
                        Err(e) => !(e matches ExecutionError::StepLimit) && steps(
                            init,
                            fin_n,
                        ).status == Status::Failed(err_view(e)),
                    }),
                },
            decreases budget - n,
        {
            let sr = machine_step(&mut mach);
            proof {
                assert(steps(init, (n + 1) as nat) == step(steps(init, n as nat)));
            }
            match sr {
                None => {
                    n += 1;
                },
                Some(rr) => {
                    proof {
                        fin_n = (n + 1) as nat;
                    }
                    out_res = Some(rr);
                    break ;
                },
            }
        }
        core::mem::swap(&mut self.stack, &mut mach.stack);
        core::mem::swap(&mut self.dict, &mut mach.dict);
        out_buf.append(&mut mach.output);
        core::mem::swap(in_buf, &mut mach.input);
        match out_res {
            Some(rr) => rr,
            None => Err(ExecutionError::StepLimit),
        }
    }
}

} // verus!
