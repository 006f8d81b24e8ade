//! The meaning of evaluation, as a small-step machine over mathematical
//! configurations.
//!
//! A configuration holds a stack of frames (each frame the remaining tokens
//! of one token sequence, reversed so that the next token is the last
//! element), the operand stack, the word dictionary, the text written so
//! far, the input not yet read, and a status.  One `step` consumes at most
//! one token: calling a user-defined word pushes a fresh frame holding a
//! copy of its body, so redefining a word changes every later call that
//! names it.  A configuration whose status is `Done` or `Failed` is
//! terminal and never changes again.

use crate::numbers::{spec_fmt_i64, spec_parse_i64};
use crate::{FALSE, TRUE};
use vstd::prelude::*;

verus! {

/// Why an evaluation ended early, at the level of the machine.
pub enum EvalError {
    Code(i32),
    StackUnderflow,
    NoSuchWord(Seq<char>),
    DivisionByZero,
}

/// Whether the machine is still running, finished cleanly, or ended early.
pub enum Status {
    Running,
    Done,
    Failed(EvalError),
}

/// One machine configuration.
#[verifier::ext_equal]
pub struct Config {
    /// Remaining token sequences, innermost last; within a frame the next
    /// token is the last element.
    pub frames: Seq<Seq<Seq<char>>>,
    /// The operand stack; the top is the last element.
    pub stack: Seq<i64>,
    /// User-defined words, each body stored in reading order.
    pub dict: Map<Seq<char>, Seq<Seq<char>>>,
    /// Everything written so far.
    pub output: Seq<char>,
    /// Input characters not yet consumed by `key` or `read`.
    pub input: Seq<char>,
    pub status: Status,
}

/// The two-operand arithmetic, comparison and bitwise words.
#[derive(Clone, Copy, Debug, PartialEq, Eq, Structural)]
pub enum BinOp {
    Add,
    Sub,
    Mul,
    Div,
    Lt,
    Gt,
    Eql,
    BitAnd,
    BitOr,
}

/// The operator a token names, if any.
pub open spec fn op_token(t: Seq<char>) -> Option<BinOp> {
    if t == "+"@ {
        Some(BinOp::Add)
    } else if t == "-"@ {
        Some(BinOp::Sub)
    } else if t == "*"@ {
        Some(BinOp::Mul)
    } else if t == "/"@ {
        Some(BinOp::Div)
    } else if t == "<"@ {
        Some(BinOp::Lt)
    } else if t == ">"@ {
        Some(BinOp::Gt)
    } else if t == "="@ {
        Some(BinOp::Eql)
    } else if t == "and"@ {
        Some(BinOp::BitAnd)
    } else if t == "or"@ {
        Some(BinOp::BitOr)
    } else {
        None
    }
}

/// Truncating division as the `/` word performs it; the one quotient that
/// does not fit, `i64::MIN / -1`, wraps back to `i64::MIN`.
pub open spec fn spec_div(s: i64, f: i64) -> i64 {
    if s == i64::MIN && f == -1 {
        i64::MIN
    } else {
        let x = s as int;
        let d = f as int;
        if x == 0 {
            0
        } else if x > 0 && d > 0 {
            (x / d) as i64
        } else if x < 0 && d < 0 {
            ((x * -1) / (d * -1)) as i64
        } else if x < 0 {
            (((x * -1) / d) * -1) as i64
        } else {
            ((x / (d * -1)) * -1) as i64
        }
    }
}

/// The result of one two-operand word: `s` is the left operand (pushed
/// earlier, second from the top), `f` the right (the popped top).
/// Addition, subtraction and multiplication wrap around; comparisons
/// answer with `TRUE` or `FALSE`.
pub open spec fn apply_op(op: BinOp, s: i64, f: i64) -> i64 {
    match op {
        BinOp::Add => vstd::wrapping::i64_specs::wrapping_add(s, f),
        BinOp::Sub => vstd::wrapping::i64_specs::wrapping_sub(s, f),
        BinOp::Mul => vstd::wrapping::i64_specs::wrapping_mul(s, f),
        BinOp::Div => spec_div(s, f),
        BinOp::Lt => if s < f {
            TRUE
        } else {
            FALSE
        },
        BinOp::Gt => if s > f {
            TRUE
        } else {
            FALSE
        },
        BinOp::Eql => if s == f {
            TRUE
        } else {
            FALSE
        },
        BinOp::BitAnd => s & f,
        BinOp::BitOr => s | f,
    }
}

/// The code points of the input characters, in order: what `read` pushes.
pub open spec fn codes_of(s: Seq<char>) -> Seq<i64> {
    Seq::new(s.len(), |i: int| s[i] as i64)
}

/// The tokens the evaluator dispatches itself; every other token is a
/// numeric literal or a dictionary word.
pub open spec fn is_builtin(t: Seq<char>) -> bool {
    ||| t == "."@
    ||| t == "emit"@
    ||| t == "key"@
    ||| t == "read"@
    ||| t == "cr"@
    ||| op_token(t) is Some
    ||| t == "not"@
    ||| t == "invert"@
    ||| t == "dup"@
    ||| t == "drop"@
    ||| t == "swap"@
    ||| t == "over"@
    ||| t == "rot"@
    ||| t == "exit"@
    ||| t == ":"@
    ||| t == ".\""@
    ||| t == "if"@
}

/// Splits a frame at the first occurrence of `delim`: the tokens before it
/// in reading order, and the frame that remains after it.
pub open spec fn split_at_delim(fr: Seq<Seq<char>>, delim: Seq<char>) -> Option<
    (Seq<Seq<char>>, Seq<Seq<char>>),
>
    decreases fr.len(),
{
    if fr.len() == 0 {
        None
    } else if fr.last() == delim {
        Some((Seq::empty(), fr.drop_last()))
    } else {
        match split_at_delim(fr.drop_last(), delim) {
            None => None,
            Some(pr) => Some((seq![fr.last()] + pr.0, pr.1)),
        }
    }
}

/// Splits a frame at the first `else` or `then`, whichever comes first;
/// the flag is true when it was an `else`.  The scan does not track
/// nesting: a nested `if` inside a branch stops at the first delimiter.
pub open spec fn split_branch(fr: Seq<Seq<char>>) -> Option<(Seq<Seq<char>>, bool, Seq<Seq<char>>)>
    decreases fr.len(),
{
    if fr.len() == 0 {
        None
    } else if fr.last() == "else"@ {
        Some((Seq::empty(), true, fr.drop_last()))
    } else if fr.last() == "then"@ {
        Some((Seq::empty(), false, fr.drop_last()))
    } else {
        match split_branch(fr.drop_last()) {
            None => None,
            Some(pr) => Some((seq![fr.last()] + pr.0, pr.1, pr.2)),
        }
    }
}

/// What `."` prints: each token followed by one space.
pub open spec fn print_words(ws: Seq<Seq<char>>) -> Seq<char>
    decreases ws.len(),
{
    if ws.len() == 0 {
        Seq::empty()
    } else {
        ws.first() + seq![' '] + print_words(ws.drop_first())
    }
}

/// A Unicode scalar value: what a `char` can hold.
pub open spec fn is_scalar_value(v: u32) -> bool {
    v < 0xD800 || (0xE000 <= v && v <= 0x10FFFF)
}

/// The character `emit` prints for a popped value: the character with that
/// code, or the replacement character when there is none.
pub open spec fn emit_char(v: u32) -> char {
    if is_scalar_value(v) {
        v as char
    } else {
        '\u{FFFD}'
    }
}

/// `c` with its innermost frame replaced.
pub open spec fn with_top(c: Config, fr: Seq<Seq<char>>) -> Config {
    Config { frames: c.frames.update(c.frames.len() - 1, fr), ..c }
}

/// `c` ended early with error `e`.
pub open spec fn failed(c: Config, e: EvalError) -> Config {
    Config { status: Status::Failed(e), ..c }
}

/// The effect of one builtin word on `c`, where the word's own token has
/// already been removed from the innermost frame.
pub open spec fn dispatch_builtin(c: Config, t: Seq<char>) -> Config {
    let stk = c.stack;
    if t == "."@ {
        if stk.len() == 0 {
            failed(c, EvalError::StackUnderflow)
        } else {
            Config {
                stack: stk.drop_last(),
                output: c.output + spec_fmt_i64(stk.last() as int) + seq![' '],
                ..c
            }
        }
    } else if t == "emit"@ {
        if stk.len() == 0 {
            failed(c, EvalError::StackUnderflow)
        } else {
            Config {
                stack: stk.drop_last(),
                output: c.output.push(emit_char(stk.last() as u32)),
                ..c
            }
        }
    } else if t == "key"@ {
        if c.input.len() == 0 {
            Config { stack: stk.push(-1i64), ..c }
        } else {
            Config { stack: stk.push(c.input.first() as i64), input: c.input.drop_first(), ..c }
        }
    } else if t == "read"@ {
        Config { stack: stk + codes_of(c.input), input: Seq::empty(), ..c }
    } else if t == "cr"@ {
        Config { output: c.output.push('\n'), ..c }
    } else if op_token(t) is Some {
        let op = op_token(t).unwrap();
        if stk.len() < 2 {
            failed(c, EvalError::StackUnderflow)
        } else {
            let f = stk.last();
            let s = stk[stk.len() - 2];
            if op == BinOp::Div && f == 0 {
                failed(c, EvalError::DivisionByZero)
            } else {
                Config { stack: stk.drop_last().drop_last().push(apply_op(op, s, f)), ..c }
            }
        }
    } else if t == "not"@ || t == "invert"@ {
        if stk.len() == 0 {
            failed(c, EvalError::StackUnderflow)
        } else {
            Config { stack: stk.drop_last().push(!stk.last()), ..c }
        }
    } else if t == "dup"@ {
        if stk.len() == 0 {
            failed(c, EvalError::StackUnderflow)
        } else {
            Config { stack: stk.push(stk.last()), ..c }
        }
    } else if t == "drop"@ {
        if stk.len() == 0 {
            failed(c, EvalError::StackUnderflow)
        } else {
            Config { stack: stk.drop_last(), ..c }
        }
    } else if t == "swap"@ {
        if stk.len() < 2 {
            failed(c, EvalError::StackUnderflow)
        } else {
            Config {
                stack: stk.drop_last().drop_last().push(stk.last()).push(stk[stk.len() - 2]),
                ..c
            }
        }
    } else if t == "over"@ {
        if stk.len() < 2 {
            failed(c, EvalError::StackUnderflow)
        } else {
            Config { stack: stk.push(stk[stk.len() - 2]), ..c }
        }
    } else if t == "rot"@ {
        if stk.len() < 3 {
            failed(c, EvalError::StackUnderflow)
        } else {
            Config {
                stack: stk.subrange(0, stk.len() - 3) + seq![
                    stk[stk.len() - 2],
                    stk[stk.len() - 1],
                    stk[stk.len() - 3],
                ],
                ..c
            }
        }
    } else if t == "exit"@ {
        if stk.len() == 0 {
            failed(c, EvalError::StackUnderflow)
        } else {
            failed(c, EvalError::Code(stk.last() as i32))
        }
    } else if t == ":"@ {
        let fr = c.frames.last();
        if fr.len() == 0 {
            failed(c, EvalError::StackUnderflow)
        } else {
            let name = fr.last();
            match split_at_delim(fr.drop_last(), ";"@) {
                None => failed(c, EvalError::StackUnderflow),
                Some(pr) => Config {
                    frames: c.frames.update(c.frames.len() - 1, pr.1),
                    dict: c.dict.insert(name, pr.0),
                    ..c
                },
            }
        }
    } else if t == ".\""@ {
        match split_at_delim(c.frames.last(), "\""@) {
            None => failed(c, EvalError::StackUnderflow),
            Some(pr) => Config {
                frames: c.frames.update(c.frames.len() - 1, pr.1),
                output: c.output + print_words(pr.0),
                ..c
            },
        }
    } else {
        // "if": pop the condition, split off the two branches, and enter
        // the chosen one as a fresh frame.
        if stk.len() == 0 {
            failed(c, EvalError::StackUnderflow)
        } else {
            let cond = stk.last();
            let popped = stk.drop_last();
            match split_branch(c.frames.last()) {
                None => failed(c, EvalError::StackUnderflow),
                Some(pr) => {
                    if pr.1 {
                        match split_at_delim(pr.2, "then"@) {
                            None => failed(c, EvalError::StackUnderflow),
                            Some(pr2) => {
                                let chosen = if cond != FALSE {
                                    pr.0
                                } else {
                                    pr2.0
                                };
                                Config {
                                    stack: popped,
                                    frames: c.frames.update(c.frames.len() - 1, pr2.1).push(
                                        chosen.reverse(),
                                    ),
                                    ..c
                                }
                            },
                        }
                    } else {
                        let chosen = if cond != FALSE {
                            pr.0
                        } else {
                            Seq::empty()
                        };
                        Config {
                            stack: popped,
                            frames: c.frames.update(c.frames.len() - 1, pr.2).push(
                                chosen.reverse(),
                            ),
                            ..c
                        }
                    }
                },
            }
        }
    }
}

/// The effect of one token on `c`, where the token has already been
/// removed from the innermost frame: a builtin acts, a numeric literal is
/// pushed, and any other token names a dictionary word, whose current body
/// is entered as a fresh frame.
pub open spec fn dispatch(c: Config, t: Seq<char>) -> Config {
    if is_builtin(t) {
        dispatch_builtin(c, t)
    } else if spec_parse_i64(t) is Some {
        Config { stack: c.stack.push(spec_parse_i64(t).unwrap()), ..c }
    } else if c.dict.contains_key(t) {
        Config { frames: c.frames.push(c.dict[t].reverse()), ..c }
    } else {
        failed(c, EvalError::NoSuchWord(t))
    }
}

/// One step of the machine: terminal configurations stay as they are; an
/// exhausted frame is discarded; otherwise the next token is consumed and
/// dispatched.
pub open spec fn step(c: Config) -> Config {
    if !(c.status is Running) {
        c
    } else if c.frames.len() == 0 {
        Config { status: Status::Done, ..c }
    } else if c.frames.last().len() == 0 {
        Config { frames: c.frames.drop_last(), ..c }
    } else {
        let fr = c.frames.last();
        dispatch(with_top(c, fr.drop_last()), fr.last())
    }
}

/// `n` steps of the machine.
pub open spec fn steps(c: Config, n: nat) -> Config
    decreases n,
{
    if n == 0 {
        c
    } else {
        step(steps(c, (n - 1) as nat))
    }
}

/// A configuration that will never change again.
pub open spec fn is_terminal(c: Config) -> bool {
    !(c.status is Running)
}

/// The configuration in which evaluation of a token sequence begins:
/// one frame, nothing yet written.
pub open spec fn init_config(
    words: Seq<Seq<char>>,
    stack: Seq<i64>,
    dict: Map<Seq<char>, Seq<Seq<char>>>,
    input: Seq<char>,
) -> Config {
    Config {
        frames: seq![words],
        stack: stack,
        dict: dict,
        output: Seq::empty(),
        input: input,
        status: Status::Running,
    }
}

} // verus!
