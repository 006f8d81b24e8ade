//! The tokenizer: raw text is split on spaces and newlines, each piece is
//! trimmed, and empty pieces are discarded.  The resulting sequence is
//! returned reversed, so that the evaluator can take the next logical token
//! by removing from the end.

use crate::Word;
use vstd::prelude::*;
use vstd::string::StrSliceExecFns;

verus! {

/// Characters on which raw text is split into pieces.
pub open spec fn is_separator(c: char) -> bool {
    c == ' ' || c == '\n'
}

/// Whitespace stripped from both ends of each piece.
pub open spec fn is_trimmable(c: char) -> bool {
    c == ' ' || c == '\n' || c == '\t' || c == '\r'
}

/// A piece with leading whitespace removed.
pub open spec fn trim_front(s: Seq<char>) -> Seq<char>
    decreases s.len(),
{
    if s.len() > 0 && is_trimmable(s.first()) {
        trim_front(s.drop_first())
    } else {
        s
    }
}

/// A piece with trailing whitespace removed.
pub open spec fn trim_back(s: Seq<char>) -> Seq<char>
    decreases s.len(),
{
    if s.len() > 0 && is_trimmable(s.last()) {
        trim_back(s.drop_last())
    } else {
        s
    }
}

/// A piece with whitespace removed from both ends.
pub open spec fn spec_trim(s: Seq<char>) -> Seq<char> {
    trim_back(trim_front(s))
}

/// The tokens contributed by one piece: its trimmed text, unless empty.
pub open spec fn piece_tokens(p: Seq<char>) -> Seq<Seq<char>> {
    if spec_trim(p).len() == 0 {
        Seq::empty()
    } else {
        seq![spec_trim(p)]
    }
}

/// The tokens of `s` in reading order, with `p` the piece gathered so far.
pub open spec fn tokens_from(s: Seq<char>, p: Seq<char>) -> Seq<Seq<char>>
    decreases s.len(),
{
    if s.len() == 0 {
        piece_tokens(p)
    } else if is_separator(s.first()) {
        piece_tokens(p) + tokens_from(s.drop_first(), Seq::empty())
    } else {
        tokens_from(s.drop_first(), p.push(s.first()))
    }
}

/// All tokens of the text, in reading order.
pub open spec fn spec_tokens(s: Seq<char>) -> Seq<Seq<char>> {
    tokens_from(s, Seq::empty())
}

/// Equality of two string slices, decided character by character.
pub fn str_eq(a: &str, b: &str) -> (r: bool)
    ensures
        r == (a@ == b@),
{
    let na = a.unicode_len();
    let nb = b.unicode_len();
    if na != nb {
        return false;
    }
    let mut i: usize = 0;
    while i < na
        invariant
            0 <= i <= na,
            na == a@.len(),
            na == b@.len(),
            forall|j: int| 0 <= j < i ==> a@[j] == b@[j],
        decreases na - i,
    {
        if a.get_char(i) != b.get_char(i) {
            return false;
        }
        i += 1;
    }
    proof {
        assert(a@ =~= b@);
    }
    true
}

/// Trims the piece `code[from..to]` and appends it to `toks` unless the
/// trimmed piece is empty.
fn push_piece(code: &str, from: usize, to: usize, toks: &mut Vec<Word>)
    requires
        from <= to <= code@.len(),
    ensures
        final(toks).deep_view() == old(toks).deep_view() + piece_tokens(
            code@.subrange(from as int, to as int),
        ),
{
    let mut a = from;
    let mut b = to;
    while a < b
        invariant
            from <= a <= b <= code@.len(),
            b == to,
            trim_front(code@.subrange(from as int, to as int)) == trim_front(
                code@.subrange(a as int, b as int),
            ),
        ensures
            from <= a <= b <= code@.len(),
            b == to,
            trim_front(code@.subrange(from as int, to as int)) == trim_front(
                code@.subrange(a as int, b as int),
            ),
            a < b ==> !is_trimmable(code@[a as int]),
        decreases b - a,
    {
        let c = code.get_char(a);
        if !(c == ' ' || c == '\n' || c == '\t' || c == '\r') {
            break;
        }
        proof {
            let s = code@.subrange(a as int, b as int);
            assert(s.first() == code@[a as int]);
            assert(s.drop_first() =~= code@.subrange(a as int + 1, b as int));
        }
        a += 1;
    }
    proof {
        let s = code@.subrange(a as int, b as int);
        if a < b {
            assert(s.first() == code@[a as int]);
        }
        assert(trim_front(s) == s);
        assert(spec_trim(code@.subrange(from as int, to as int)) == trim_back(s));
    }
    while a < b
        invariant
            from <= a <= b <= code@.len(),
            spec_trim(code@.subrange(from as int, to as int)) == trim_back(
                code@.subrange(a as int, b as int),
            ),
        ensures
            from <= a <= b <= code@.len(),
            spec_trim(code@.subrange(from as int, to as int)) == trim_back(
                code@.subrange(a as int, b as int),
            ),
            a < b ==> !is_trimmable(code@[b as int - 1]),
        decreases b - a,
    {
        let c = code.get_char(b - 1);
        if !(c == ' ' || c == '\n' || c == '\t' || c == '\r') {
            break;
        }
        proof {
            let s = code@.subrange(a as int, b as int);
            assert(s.last() == code@[b - 1int]);
            assert(s.drop_last() =~= code@.subrange(a as int, b as int - 1));
        }
        b -= 1;
    }
    proof {
        let s = code@.subrange(a as int, b as int);
        if a < b {
            assert(s.last() == code@[b - 1int]);
        }
        assert(trim_back(s) == s);
    }
    if a < b {
        let t = code.substring_char(a, b).to_owned();
        toks.push(t);
        proof {
            assert(toks.deep_view() =~= old(toks).deep_view() + piece_tokens(
                code@.subrange(from as int, to as int),
            ));
        }
    } else {
        proof {
            assert(code@.subrange(a as int, b as int) =~= Seq::<char>::empty());
            assert(toks.deep_view() =~= old(toks).deep_view() + piece_tokens(
                code@.subrange(from as int, to as int),
            ));
        }
    }
}

/// Splits raw text into trimmed, non-empty tokens, in reversed reading
/// order, so that the next logical token is the last element.
pub fn tokenize(code: &str) -> (r: Vec<Word>)
    ensures
        r.deep_view() == spec_tokens(code@).reverse(),
{
    let n = code.unicode_len();
    let mut toks: Vec<Word> = Vec::new();
    let mut start: usize = 0;
    let mut i: usize = 0;
    proof {
        assert(code@.skip(0) =~= code@);
        assert(code@.subrange(0, 0) =~= Seq::<char>::empty());
    }
    while i < n
        invariant
            0 <= start <= i <= n,
            n == code@.len(),
            spec_tokens(code@) == toks.deep_view() + tokens_from(
                code@.skip(i as int),
                code@.subrange(start as int, i as int),
            ),
        decreases n - i,
    {
        let c = code.get_char(i);
        proof {
            let s = code@.skip(i as int);
            assert(s.first() == code@[i as int]);
            assert(s.drop_first() =~= code@.skip(i as int + 1));
        }
        if c == ' ' || c == '\n' {
            push_piece(code, start, i, &mut toks);
            start = i + 1;
            proof {
                assert(code@.subrange(start as int, start as int) =~= Seq::<char>::empty());
            }
        } else {
            proof {
                assert(code@.subrange(start as int, i as int).push(code@[i as int]) =~= code@
                    .subrange(start as int, i as int + 1));
            }
        }
        i += 1;
    }
    proof {
        assert(code@.skip(n as int) =~= Seq::<char>::empty());
    }
    push_piece(code, start, n, &mut toks);
    proof {
        assert(toks.deep_view() =~= spec_tokens(code@));
    }
    let ghost full = spec_tokens(code@);
    let mut r: Vec<Word> = Vec::new();
    proof {
        assert(toks.deep_view() =~= full.take(toks.len() as int));
        assert(r.deep_view() =~= full.skip(toks.len() as int).reverse());
    }
    while toks.len() > 0
        invariant
            toks.len() <= full.len(),
            toks.deep_view() == full.take(toks.len() as int),
            r.deep_view() == full.skip(toks.len() as int).reverse(),
        decreases toks.len(),
    {
        let ghost l = toks.len() as int;
        let t = toks.pop().unwrap();
        r.push(t);
        proof {
            assert(t.deep_view() == full.take(l)[l - 1]);
            assert(full.take(l)[l - 1] == full[l - 1]);
            assert(toks.deep_view() =~= full.take(l - 1));
            let s2 = full.skip(l - 1).reverse();
            assert(r.deep_view() =~= full.skip(l).reverse().push(full[l - 1]));
            assert forall|i: int| 0 <= i < s2.len() implies r.deep_view()[i] == s2[i] by {
                assert(s2[i] == full.skip(l - 1)[full.len() - l + 1 - 1 - i]);
                if i < full.len() - l {
                    assert(full.skip(l).reverse()[i] == full.skip(l)[full.len() - l - 1 - i]);
                }
            }
            assert(r.deep_view() =~= s2);
        }
    }
    proof {
        assert(r.deep_view() =~= spec_tokens(code@).reverse());
    }
    r
}

} // verus!
