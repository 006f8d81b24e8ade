//! Laws of the machine, stated and proved once and for all: how the
//! arithmetic words act on the stack, that a terminating signal unwinds
//! every frame, that the trajectory of a run is deterministic, and that a
//! word call is bound to the dictionary at call time.

use crate::numbers::{is_digit, spec_parse_i64};
use crate::semantics::{
    dispatch, init_config, is_builtin, is_terminal, op_token, split_at_delim, split_branch, step,
    steps, with_top, BinOp, Config, EvalError, Status,
};
use crate::FALSE;
use vstd::prelude::*;

verus! {

/// A token that parses as a number starts with a digit, or with a sign
/// followed by at least one more character.
proof fn parse_shape(t: Seq<char>)
    requires
        spec_parse_i64(t) is Some,
    ensures
        t.len() > 0,
        (t.first() == '+' || t.first() == '-') ==> t.len() >= 2,
        !(t.first() == '+' || t.first() == '-') ==> is_digit(t.first()),
{
    if !(t.first() == '+' || t.first() == '-') {
        assert(is_digit(t[0]));
    }
}

/// A token that parses as a number is not a builtin word.
pub proof fn lemma_numeric_not_builtin(t: Seq<char>)
    requires
        spec_parse_i64(t) is Some,
    ensures
        !is_builtin(t),
{
    parse_shape(t);
    reveal_strlit(".");
    reveal_strlit("emit");
    reveal_strlit("key");
    reveal_strlit("read");
    reveal_strlit("cr");
    reveal_strlit("+");
    reveal_strlit("-");
    reveal_strlit("*");
    reveal_strlit("/");
    reveal_strlit("<");
    reveal_strlit(">");
    reveal_strlit("=");
    reveal_strlit("and");
    reveal_strlit("or");
    reveal_strlit("not");
    reveal_strlit("invert");
    reveal_strlit("dup");
    reveal_strlit("drop");
    reveal_strlit("swap");
    reveal_strlit("over");
    reveal_strlit("rot");
    reveal_strlit("exit");
    reveal_strlit(":");
    reveal_strlit(".\"");
    reveal_strlit("if");
    if is_builtin(t) {
        if t == "+"@ || t == "-"@ {
            assert(t.len() == 1);
        } else {
            assert(!is_digit(t.first()));
        }
        assert(false);
    }
}

/// The distinctions a step through an operator token needs: the operator
/// tokens are none of the five words checked before them.
proof fn lemma_op_token_distinct(t: Seq<char>)
    requires
        op_token(t) is Some,
    ensures
        t != "."@,
        t != "emit"@,
        t != "key"@,
        t != "read"@,
        t != "cr"@,
        is_builtin(t),
{
    reveal_strlit(".");
    reveal_strlit("emit");
    reveal_strlit("key");
    reveal_strlit("read");
    reveal_strlit("cr");
    reveal_strlit("+");
    reveal_strlit("-");
    reveal_strlit("*");
    reveal_strlit("/");
    reveal_strlit("<");
    reveal_strlit(">");
    reveal_strlit("=");
    reveal_strlit("and");
    reveal_strlit("or");
    assert("+"@[0] == '+' && "."@[0] == '.' && "emit"@[0] == 'e' && "key"@[0] == 'k' && "read"@[0]
        == 'r' && "cr"@[0] == 'c');
    assert("-"@[0] == '-' && "*"@[0] == '*' && "/"@[0] == '/' && "<"@[0] == '<' && ">"@[0] == '>'
        && "="@[0] == '=' && "and"@[0] == 'a' && "or"@[0] == 'o');
}

/// Evaluating `a b +` from an empty stack leaves exactly the sum `a + b`,
/// for any two numeric tokens, any dictionary and any input, whenever the
/// sum fits in an `i64`.
pub proof fn lemma_add_yields_sum(
    ta: Seq<char>,
    tb: Seq<char>,
    a: i64,
    b: i64,
    dict: Map<Seq<char>, Seq<Seq<char>>>,
    input: Seq<char>,
)
    requires
        spec_parse_i64(ta) == Some(a),
        spec_parse_i64(tb) == Some(b),
        i64::MIN <= a + b <= i64::MAX,
    ensures
        steps(init_config(seq!["+"@, tb, ta], Seq::empty(), dict, input), 5).status is Done,
        steps(init_config(seq!["+"@, tb, ta], Seq::empty(), dict, input), 5).stack == seq![
            (a + b) as i64
        ],
{
    lemma_binop_program("+"@, BinOp::Add, ta, tb, a, b, dict, input);
}

/// Evaluating `a b -` from an empty stack leaves exactly `a - b`: the
/// left operand of a two-operand word is the value pushed earlier (second
/// from the top), the right operand the top of the stack.
pub proof fn lemma_sub_yields_difference(
    ta: Seq<char>,
    tb: Seq<char>,
    a: i64,
    b: i64,
    dict: Map<Seq<char>, Seq<Seq<char>>>,
    input: Seq<char>,
)
    requires
        spec_parse_i64(ta) == Some(a),
        spec_parse_i64(tb) == Some(b),
        i64::MIN <= a - b <= i64::MAX,
    ensures
        steps(init_config(seq!["-"@, tb, ta], Seq::empty(), dict, input), 5).status is Done,
        steps(init_config(seq!["-"@, tb, ta], Seq::empty(), dict, input), 5).stack == seq![
            (a - b) as i64
        ],
{
    reveal_strlit("+");
    reveal_strlit("-");
    assert("+"@[0] == '+' && "-"@[0] == '-');
    assert(op_token("-"@) == Some(BinOp::Sub));
    lemma_binop_program("-"@, BinOp::Sub, ta, tb, a, b, dict, input);
}

/// The shared trajectory of a three-token program `a b <op>`: push, push,
/// apply, drop the spent frame, finish.
proof fn lemma_binop_program(
    top: Seq<char>,
    op: BinOp,
    ta: Seq<char>,
    tb: Seq<char>,
    a: i64,
    b: i64,
    dict: Map<Seq<char>, Seq<Seq<char>>>,
    input: Seq<char>,
)
    requires
        op_token(top) == Some(op),
        spec_parse_i64(ta) == Some(a),
        spec_parse_i64(tb) == Some(b),
        !(op == BinOp::Div),
    ensures
        steps(init_config(seq![top, tb, ta], Seq::empty(), dict, input), 5).status is Done,
        steps(init_config(seq![top, tb, ta], Seq::empty(), dict, input), 5).stack == seq![
            crate::semantics::apply_op(op, a, b)
        ],
{
    reveal_with_fuel(steps, 7);
    let prog = seq![top, tb, ta];
    let c0 = init_config(prog, Seq::<i64>::empty(), dict, input);
    lemma_numeric_not_builtin(ta);
    lemma_numeric_not_builtin(tb);
    lemma_op_token_distinct(top);

    assert(c0.frames.last() == prog);
    assert(prog.last() == ta);
    assert(prog.drop_last() =~= seq![top, tb]);
    let c1e = Config {
        frames: seq![seq![top, tb]],
        stack: seq![a],
        dict: dict,
        output: Seq::empty(),
        input: input,
        status: Status::Running,
    };
    assert(steps(c0, 1) == dispatch(with_top(c0, prog.drop_last()), ta));
    assert(steps(c0, 1) =~= c1e);

    assert(seq![top, tb].last() == tb);
    assert(seq![top, tb].drop_last() =~= seq![top]);
    let c2e = Config { frames: seq![seq![top]], stack: seq![a, b], ..c1e };
    assert(steps(c0, 2) == dispatch(with_top(c1e, seq![top, tb].drop_last()), tb));
    assert(steps(c0, 2) =~= c2e);

    assert(seq![top].last() == top);
    assert(seq![top].drop_last() =~= Seq::<Seq<char>>::empty());
    let c3e = Config {
        frames: seq![Seq::<Seq<char>>::empty()],
        stack: seq![crate::semantics::apply_op(op, a, b)],
        ..c2e
    };
    assert(steps(c0, 3) == dispatch(with_top(c2e, seq![top].drop_last()), top));
    assert(c2e.stack.last() == b);
    assert(c2e.stack[c2e.stack.len() - 2] == a);
    assert(c2e.stack.drop_last().drop_last() =~= Seq::<i64>::empty());
    assert(steps(c0, 3) =~= c3e);

    let c4e = Config { frames: Seq::empty(), ..c3e };
    assert(steps(c0, 4) =~= c4e);

    assert(steps(c0, 5) =~= Config { status: Status::Done, ..c4e });
}

/// A terminating signal is final: once a configuration has failed or
/// finished, no number of further steps changes it, so neither an error
/// nor an `exit` code can be caught or altered by any enclosing frame.
pub proof fn lemma_terminal_persists(c: Config, n: nat)
    requires
        is_terminal(c),
    ensures
        steps(c, n) == c,
    decreases n,
{
    if n > 0 {
        lemma_terminal_persists(c, (n - 1) as nat);
    }
}

/// Stepping `m + n` times is stepping `m` times, then `n` more.
pub proof fn lemma_steps_add(c: Config, m: nat, n: nat)
    ensures
        steps(c, m + n) == steps(steps(c, m), n),
    decreases n,
{
    if n > 0 {
        lemma_steps_add(c, m, (n - 1) as nat);
        assert(steps(c, m + n) == step(steps(c, (m + n - 1) as nat)));
    }
}

/// The machine is deterministic: a trajectory has at most one terminal
/// configuration, so any two step counts that reach a terminal
/// configuration reach the same one.
pub proof fn lemma_terminal_unique(c: Config, n1: nat, n2: nat)
    requires
        is_terminal(steps(c, n1)),
        is_terminal(steps(c, n2)),
    ensures
        steps(c, n1) == steps(c, n2),
{
    if n1 <= n2 {
        lemma_steps_add(c, n1, (n2 - n1) as nat);
        lemma_terminal_persists(steps(c, n1), (n2 - n1) as nat);
    } else {
        lemma_steps_add(c, n2, (n1 - n2) as nat);
        lemma_terminal_persists(steps(c, n2), (n1 - n2) as nat);
    }
}

/// Late binding: calling a defined word enters the body the dictionary
/// holds at the moment of the call, and nothing else changes.  Redefining
/// a word therefore changes the behaviour of every word that names it,
/// including words defined earlier.
pub proof fn lemma_late_binding(c: Config, t: Seq<char>)
    requires
        c.status is Running,
        c.frames.len() > 0,
        c.frames.last().len() > 0,
        c.frames.last().last() == t,
        !is_builtin(t),
        spec_parse_i64(t) is None,
        c.dict.contains_key(t),
    ensures
        step(c).status is Running,
        step(c).frames == c.frames.update(c.frames.len() - 1, c.frames.last().drop_last()).push(
            c.dict[t].reverse(),
        ),
        step(c).stack == c.stack,
        step(c).dict == c.dict,
        step(c).output == c.output,
        step(c).input == c.input,
{
    assert(step(c) == dispatch(with_top(c, c.frames.last().drop_last()), t));
}

/// A token that is neither a builtin, nor a number, nor a defined word
/// fails the run with `NoSuchWord` carrying exactly that token.
pub proof fn lemma_unknown_word(c: Config, t: Seq<char>)
    requires
        c.status is Running,
        c.frames.len() > 0,
        c.frames.last().len() > 0,
        c.frames.last().last() == t,
        !is_builtin(t),
        spec_parse_i64(t) is None,
        !c.dict.contains_key(t),
    ensures
        step(c).status == Status::Failed(EvalError::NoSuchWord(t)),
{
    assert(step(c) == dispatch(with_top(c, c.frames.last().drop_last()), t));
}

/// The token `if` is a builtin, and none of the words dispatched before it.
proof fn lemma_if_distinct()
    ensures
        is_builtin("if"@),
        "if"@ != "."@ && "if"@ != "emit"@ && "if"@ != "key"@ && "if"@ != "read"@ && "if"@
            != "cr"@,
        op_token("if"@) is None,
        "if"@ != "not"@ && "if"@ != "invert"@ && "if"@ != "dup"@ && "if"@ != "drop"@ && "if"@
            != "swap"@ && "if"@ != "over"@ && "if"@ != "rot"@ && "if"@ != "exit"@ && "if"@
            != ":"@ && "if"@ != ".\""@,
{
    reveal_strlit("if");
    reveal_strlit(".");
    reveal_strlit("emit");
    reveal_strlit("key");
    reveal_strlit("read");
    reveal_strlit("cr");
    reveal_strlit("+");
    reveal_strlit("-");
    reveal_strlit("*");
    reveal_strlit("/");
    reveal_strlit("<");
    reveal_strlit(">");
    reveal_strlit("=");
    reveal_strlit("and");
    reveal_strlit("or");
    reveal_strlit("not");
    reveal_strlit("invert");
    reveal_strlit("dup");
    reveal_strlit("drop");
    reveal_strlit("swap");
    reveal_strlit("over");
    reveal_strlit("rot");
    reveal_strlit("exit");
    reveal_strlit(":");
    reveal_strlit(".\"");
    assert("if"@.len() == 2 && "if"@[0] == 'i' && "if"@[1] == 'f');
    assert("."@[0] == '.' && "emit"@[0] == 'e' && "key"@[0] == 'k' && "read"@[0] == 'r' && "cr"@[0]
        == 'c');
    assert("+"@[0] == '+' && "-"@[0] == '-' && "*"@[0] == '*' && "/"@[0] == '/' && "<"@[0] == '<'
        && ">"@[0] == '>' && "="@[0] == '=' && "and"@[0] == 'a' && "or"@[0] == 'o');
    assert("not"@[0] == 'n' && "invert"@.len() == 6 && "dup"@[0] == 'd' && "drop"@[0] == 'd'
        && "swap"@[0] == 's' && "over"@[0] == 'o' && "rot"@[0] == 'r' && "exit"@[0] == 'e'
        && ":"@[0] == ':' && ".\""@[0] == '.');
}

/// The control-flow scanner, without an `else`: `if` pops the condition
/// and splits the remaining tokens of its frame at the first `else` or
/// `then`, tracking no nesting.  When the split stopped at `then`, the
/// kept tokens run exactly when the condition is not `FALSE`, and
/// evaluation resumes after the `then` either way.
pub proof fn lemma_if_without_else(c: Config, then_part: Seq<Seq<char>>, rest: Seq<Seq<char>>)
    requires
        c.status is Running,
        c.frames.len() > 0,
        c.frames.last().len() > 0,
        c.frames.last().last() == "if"@,
        c.stack.len() > 0,
        split_branch(c.frames.last().drop_last()) == Some((then_part, false, rest)),
    ensures
        step(c).status is Running,
        step(c).stack == c.stack.drop_last(),
        step(c).frames == c.frames.update(c.frames.len() - 1, rest).push(
            (if c.stack.last() != FALSE {
                then_part
            } else {
                Seq::empty()
            }).reverse(),
        ),
        step(c).dict == c.dict,
        step(c).output == c.output,
        step(c).input == c.input,
{
    lemma_if_distinct();
    assert(step(c) == dispatch(with_top(c, c.frames.last().drop_last()), "if"@));
}

/// The control-flow scanner, with an `else`: the tokens between `else`
/// and the next `then` run exactly when the condition is `FALSE`, the
/// tokens before the `else` otherwise, and evaluation resumes after the
/// `then` either way.
pub proof fn lemma_if_with_else(
    c: Config,
    then_part: Seq<Seq<char>>,
    mid: Seq<Seq<char>>,
    else_part: Seq<Seq<char>>,
    rest: Seq<Seq<char>>,
)
    requires
        c.status is Running,
        c.frames.len() > 0,
        c.frames.last().len() > 0,
        c.frames.last().last() == "if"@,
        c.stack.len() > 0,
        split_branch(c.frames.last().drop_last()) == Some((then_part, true, mid)),
        split_at_delim(mid, "then"@) == Some((else_part, rest)),
    ensures
        step(c).status is Running,
        step(c).stack == c.stack.drop_last(),
        step(c).frames == c.frames.update(c.frames.len() - 1, rest).push(
            (if c.stack.last() != FALSE {
                then_part
            } else {
                else_part
            }).reverse(),
        ),
        step(c).dict == c.dict,
        step(c).output == c.output,
        step(c).input == c.input,
{
    lemma_if_distinct();
    assert(step(c) == dispatch(with_top(c, c.frames.last().drop_last()), "if"@));
}

/// Defining a word: `:` takes the next token as the name, stores the
/// tokens up to the first `;` verbatim as its body — overwriting any
/// earlier body of that name — and evaluation resumes after the `;`.
pub proof fn lemma_definition(
    c: Config,
    name: Seq<char>,
    body: Seq<Seq<char>>,
    rest: Seq<Seq<char>>,
)
    requires
        c.status is Running,
        c.frames.len() > 0,
        c.frames.last().len() >= 2,
        c.frames.last().last() == ":"@,
        c.frames.last()[c.frames.last().len() - 2] == name,
        split_at_delim(c.frames.last().drop_last().drop_last(), ";"@) == Some((body, rest)),
    ensures
        step(c).status is Running,
        step(c).dict == c.dict.insert(name, body),
        step(c).stack == c.stack,
        step(c).frames == c.frames.update(c.frames.len() - 1, rest),
        step(c).output == c.output,
        step(c).input == c.input,
{
    reveal_strlit(":");
    reveal_strlit(".");
    reveal_strlit("emit");
    reveal_strlit("key");
    reveal_strlit("read");
    reveal_strlit("cr");
    reveal_strlit("+");
    reveal_strlit("-");
    reveal_strlit("*");
    reveal_strlit("/");
    reveal_strlit("<");
    reveal_strlit(">");
    reveal_strlit("=");
    reveal_strlit("and");
    reveal_strlit("or");
    reveal_strlit("not");
    reveal_strlit("invert");
    reveal_strlit("dup");
    reveal_strlit("drop");
    reveal_strlit("swap");
    reveal_strlit("over");
    reveal_strlit("rot");
    reveal_strlit("exit");
    assert(":"@.len() == 1 && ":"@[0] == ':');
    assert("."@[0] == '.' && "emit"@[0] == 'e' && "key"@[0] == 'k' && "read"@[0] == 'r' && "cr"@[0]
        == 'c');
    assert("+"@[0] == '+' && "-"@[0] == '-' && "*"@[0] == '*' && "/"@[0] == '/' && "<"@[0] == '<'
        && ">"@[0] == '>' && "="@[0] == '=' && "and"@[0] == 'a' && "or"@[0] == 'o');
    assert("not"@[0] == 'n' && "invert"@[0] == 'i' && "dup"@[0] == 'd' && "drop"@[0] == 'd'
        && "swap"@[0] == 's' && "over"@[0] == 'o' && "rot"@[0] == 'r' && "exit"@[0] == 'e');
    let fr = c.frames.last().drop_last();
    assert(fr.last() == name);
    assert(step(c) == dispatch(with_top(c, fr), ":"@));
}

/// Dividing by zero fails the run with `DivisionByZero` rather than a
/// host-level trap: the machine has no trajectory past it.
pub proof fn lemma_division_by_zero(c: Config)
    requires
        c.status is Running,
        c.frames.len() > 0,
        c.frames.last().len() > 0,
        c.frames.last().last() == "/"@,
        c.stack.len() >= 2,
        c.stack.last() == 0,
    ensures
        step(c).status == Status::Failed(EvalError::DivisionByZero),
{
    reveal_strlit("/");
    reveal_strlit(".");
    reveal_strlit("emit");
    reveal_strlit("key");
    reveal_strlit("read");
    reveal_strlit("cr");
    reveal_strlit("+");
    reveal_strlit("-");
    reveal_strlit("*");
    assert("/"@.len() == 1 && "/"@[0] == '/');
    assert("."@[0] == '.' && "emit"@[0] == 'e' && "key"@[0] == 'k' && "read"@[0] == 'r' && "cr"@[0]
        == 'c');
    assert("+"@[0] == '+' && "-"@[0] == '-' && "*"@[0] == '*');
    assert(op_token("/"@) == Some(BinOp::Div));
    assert(step(c) == dispatch(with_top(c, c.frames.last().drop_last()), "/"@));
}

} // verus!
