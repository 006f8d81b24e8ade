//! Text for the interactive front end: the prompt prefix showing the
//! current stack, and the report line for each way an evaluation can end.

use crate::eval::append_str;
use crate::numbers::{fmt_i64, spec_fmt_i64};
use crate::ExecutionError;
use vstd::prelude::*;

verus! {

/// Relies on String's FromIterator impl for char: collecting characters
/// builds the string holding exactly those characters in order.
#[verifier::external_body]
fn chars_to_string(v: Vec<char>) -> (r: String)
    ensures
        r@ == v@,
{
    v.into_iter().collect()
}

/// The stack items in decimal, each followed by a space.
pub open spec fn items_text(stack: Seq<i64>) -> Seq<char>
    decreases stack.len(),
{
    if stack.len() == 0 {
        Seq::empty()
    } else {
        spec_fmt_i64(stack.first() as int) + seq![' '] + items_text(stack.drop_first())
    }
}

/// Listing one more item appends its digits and a space.
proof fn lemma_items_push(s: Seq<i64>, x: i64)
    ensures
        items_text(s.push(x)) == items_text(s) + spec_fmt_i64(x as int) + seq![' '],
    decreases s.len(),
{
    if s.len() == 0 {
        assert(s.push(x).first() == x);
        assert(s.push(x).drop_first() =~= Seq::<i64>::empty());
        assert(items_text(s.push(x).drop_first()) == Seq::<char>::empty());
        assert(items_text(s.push(x)) =~= items_text(s) + spec_fmt_i64(x as int) + seq![' ']);
    } else {
        lemma_items_push(s.drop_first(), x);
        assert(s.push(x).first() == s.first());
        assert(s.push(x).drop_first() =~= s.drop_first().push(x));
        assert(items_text(s.push(x)) == spec_fmt_i64(s.first() as int) + seq![' '] + (items_text(
            s.drop_first(),
        ) + spec_fmt_i64(x as int) + seq![' ']));
        assert(items_text(s.push(x)) =~= items_text(s) + spec_fmt_i64(x as int) + seq![' ']);
    }
}

/// The prompt prefix: every stack item in decimal, then `#> `.
pub open spec fn spec_prefix(stack: Seq<i64>) -> Seq<char> {
    items_text(stack) + seq!['#', '>', ' ']
}

/// Builds the interactive prompt for the current stack.
pub fn construct_prefix(stack: &[i64]) -> (r: String)
    ensures
        r@ == spec_prefix(stack@),
{
    let mut buf: Vec<char> = Vec::new();
    let n = stack.len();
    let mut i: usize = 0;
    proof {
        assert(stack@.take(0) =~= Seq::<i64>::empty());
        assert(buf@ =~= items_text(stack@.take(0)));
    }
    while i < n
        invariant
            0 <= i <= n,
            n == stack@.len(),
            buf@ == items_text(stack@.take(i as int)),
        decreases n - i,
    {
        let mut ds = fmt_i64(stack[i]);
        buf.append(&mut ds);
        buf.push(' ');
        proof {
            assert(stack@.take(i as int).push(stack@[i as int]) =~= stack@.take(i + 1));
            lemma_items_push(stack@.take(i as int), stack@[i as int]);
            assert(buf@ =~= items_text(stack@.take(i + 1)));
        }
        i += 1;
    }
    buf.push('#');
    buf.push('>');
    buf.push(' ');
    proof {
        assert(stack@.take(n as int) =~= stack@);
        assert(buf@ =~= spec_prefix(stack@));
    }
    chars_to_string(buf)
}

/// The report text for each way an evaluation can end.
pub open spec fn spec_message(e: ExecutionError) -> Seq<char> {
    match e {
        ExecutionError::Code(code) => "exited with code "@ + spec_fmt_i64(code as int),
        ExecutionError::StackUnderflow => "stack underflow"@,
        ExecutionError::NoSuchWord(w) => "no such word ("@ + w@ + seq![')'],
        ExecutionError::DivisionByZero => "division by zero"@,
        ExecutionError::StepLimit => "step limit exhausted"@,
    }
}

impl ExecutionError {
    /// The report text of this error, for a diagnostic stream.
    pub fn message(&self) -> (r: String)
        ensures
            r@ == spec_message(*self),
    {
        let mut buf: Vec<char> = Vec::new();
        match self {
            ExecutionError::Code(code) => {
                append_str(&mut buf, "exited with code ");
                let mut ds = fmt_i64(*code as i64);
                buf.append(&mut ds);
            },
            ExecutionError::StackUnderflow => {
                append_str(&mut buf, "stack underflow");
            },
            ExecutionError::NoSuchWord(w) => {
                append_str(&mut buf, "no such word (");
                append_str(&mut buf, w.as_str());
                buf.push(')');
            },
            ExecutionError::DivisionByZero => {
                append_str(&mut buf, "division by zero");
            },
            ExecutionError::StepLimit => {
                append_str(&mut buf, "step limit exhausted");
            },
        }
        proof {
            assert(buf@ =~= spec_message(*self));
        }
        chars_to_string(buf)
    }
}

} // verus!
