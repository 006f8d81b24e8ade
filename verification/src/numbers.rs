//! Reading and writing signed 64-bit integers in decimal notation.
//!
//! `parse_i64` follows the grammar of Rust's own integer parser: an optional
//! `+` or `-` sign, then one or more decimal digits, and the value must fit
//! in an `i64`.  `fmt_i64` renders a value back as decimal text.

use vstd::prelude::*;
use vstd::string::StrSliceExecFns;

verus! {

/// A decimal digit.
pub open spec fn is_digit(c: char) -> bool {
    48 <= c as int && c as int <= 57
}

/// The numeric value of a digit sequence read left to right.
pub open spec fn digits_val(s: Seq<char>) -> int
    decreases s.len(),
{
    if s.len() == 0 {
        0
    } else {
        digits_val(s.drop_last()) * 10 + (s.last() as int - 48)
    }
}

/// Every character is a decimal digit.
pub open spec fn all_digits(s: Seq<char>) -> bool {
    forall|i: int| 0 <= i < s.len() ==> is_digit(s[i])
}

/// The value denoted by a token, if it is a well-formed `i64` literal:
/// an optional sign, at least one digit, and a value within range.
pub open spec fn spec_parse_i64(s: Seq<char>) -> Option<i64> {
    let neg = s.len() > 0 && s.first() == '-';
    let signed = s.len() > 0 && (s.first() == '-' || s.first() == '+');
    let ds = if signed {
        s.drop_first()
    } else {
        s
    };
    if ds.len() > 0 && all_digits(ds) {
        let v = if neg {
            -digits_val(ds)
        } else {
            digits_val(ds)
        };
        if i64::MIN <= v <= i64::MAX {
            Some(v as i64)
        } else {
            None
        }
    } else {
        None
    }
}

/// A digit sequence denotes a value no smaller than any of its prefixes.
proof fn lemma_digits_val_prefix(s: Seq<char>, i: int)
    requires
        all_digits(s),
        0 <= i <= s.len(),
    ensures
        digits_val(s.take(i)) >= 0,
        digits_val(s) >= digits_val(s.take(i)),
    decreases s.len() - i,
{
    if i == s.len() {
        assert(s.take(i) =~= s);
        lemma_digits_val_nonneg(s);
    } else {
        lemma_digits_val_prefix(s, i + 1);
        lemma_digits_val_nonneg(s.take(i));
        assert(s.take(i + 1).drop_last() =~= s.take(i));
        assert(s.take(i + 1).last() == s[i]);
        assert(digits_val(s.take(i + 1)) == digits_val(s.take(i)) * 10 + (s[i] as int - 48));
    }
}

/// A digit sequence denotes a non-negative value.
proof fn lemma_digits_val_nonneg(s: Seq<char>)
    requires
        all_digits(s),
    ensures
        digits_val(s) >= 0,
    decreases s.len(),
{
    if s.len() > 0 {
        assert(all_digits(s.drop_last()));
        lemma_digits_val_nonneg(s.drop_last());
        assert(s.last() == s[s.len() - 1]);
    }
}

/// Reads a token as a signed 64-bit integer, exactly as
/// `spec_parse_i64` describes.
pub fn parse_i64(s: &str) -> (r: Option<i64>)
    ensures
        r == spec_parse_i64(s@),
{
    let n = s.unicode_len();
    if n == 0 {
        return None;
    }
    let c0 = s.get_char(0);
    let neg = c0 == '-';
    let signed = c0 == '-' || c0 == '+';
    let start: usize = if signed {
        1
    } else {
        0
    };
    if start == n {
        return None;
    }
    let ghost ds = if signed {
        s@.drop_first()
    } else {
        s@
    };
    proof {
        assert(ds =~= s@.subrange(start as int, n as int));
    }
    let limit: u64 = if neg {
        9223372036854775808
    } else {
        9223372036854775807
    };
    let mut mag: u64 = 0;
    let mut i: usize = start;
    while i < n
        invariant
            start <= i <= n,
            n == s@.len(),
            start < n,
            ds == s@.subrange(start as int, n as int),
            ds == (if s@.len() > 0 && (s@.first() == '-' || s@.first() == '+') {
                s@.drop_first()
            } else {
                s@
            }),
            neg == (s@.len() > 0 && s@.first() == '-'),
            limit == (if neg {
                9223372036854775808u64
            } else {
                9223372036854775807u64
            }),
            all_digits(ds.take(i - start)),
            mag == digits_val(ds.take(i - start)),
            mag <= limit,
        decreases n - i,
    {
        let c = s.get_char(i);
        let u = c as u32;
        proof {
            assert(ds[i - start] == s@[i as int]);
        }
        if u < 48 || u > 57 {
            proof {
                assert(!is_digit(ds[i - start]));
                assert(!all_digits(ds));
                assert(spec_parse_i64(s@) is None);
            }
            return None;
        }
        let d = (u - 48) as u64;
        proof {
            assert(ds.take(i - start + 1).drop_last() =~= ds.take(i - start));
            assert(ds.take(i - start + 1).last() == ds[i - start]);
            assert(digits_val(ds.take(i - start + 1)) == mag * 10 + d);
        }
        if mag > (limit - d) / 10 {
            proof {
                let q = ((limit - d) / 10) as int;
                vstd::arithmetic::div_mod::lemma_fundamental_div_mod((limit - d) as int, 10);
                assert((limit - d) as int == 10 * q + ((limit - d) as int) % 10);
                assert(mag * 10 + d > limit);
                if all_digits(ds) {
                    lemma_digits_val_prefix(ds, i - start + 1);
                    assert(digits_val(ds) > limit);
                    if neg {
                        assert(-digits_val(ds) < i64::MIN);
                    } else {
                        assert(digits_val(ds) > i64::MAX);
                    }
                }
                assert(spec_parse_i64(s@) is None);
            }
            return None;
        }
        proof {
            let q = ((limit - d) / 10) as int;
            vstd::arithmetic::div_mod::lemma_fundamental_div_mod((limit - d) as int, 10);
            assert((limit - d) as int == 10 * q + ((limit - d) as int) % 10);
            assert(mag * 10 + d <= limit);
            assert(all_digits(ds.take(i - start + 1)));
        }
        mag = mag * 10 + d;
        i += 1;
    }
    proof {
        assert(ds.take(n - start) =~= ds);
        lemma_digits_val_nonneg(ds);
    }
    if neg {
        if mag == 9223372036854775808 {
            Some(i64::MIN)
        } else {
            Some(-(mag as i64))
        }
    } else {
        Some(mag as i64)
    }
}

/// The decimal digit characters of a non-negative value.
pub open spec fn dec_digits(n: nat) -> Seq<char>
    decreases n,
{
    if n < 10 {
        seq![digit_char(n as int)]
    } else {
        dec_digits(n / 10).push(digit_char((n % 10) as int))
    }
}

/// The character for one digit.
pub open spec fn digit_char(d: int) -> char {
    if d == 0 {
        '0'
    } else if d == 1 {
        '1'
    } else if d == 2 {
        '2'
    } else if d == 3 {
        '3'
    } else if d == 4 {
        '4'
    } else if d == 5 {
        '5'
    } else if d == 6 {
        '6'
    } else if d == 7 {
        '7'
    } else if d == 8 {
        '8'
    } else {
        '9'
    }
}

/// The decimal rendering of a signed value: a `-` sign when negative,
/// then the digits of its magnitude.
pub open spec fn spec_fmt_i64(v: int) -> Seq<char> {
    if v < 0 {
        seq!['-'] + dec_digits((-v) as nat)
    } else {
        dec_digits(v as nat)
    }
}

fn digit_to_char(d: u64) -> (c: char)
    requires
        d < 10,
    ensures
        c == digit_char(d as int),
{
    if d == 0 {
        '0'
    } else if d == 1 {
        '1'
    } else if d == 2 {
        '2'
    } else if d == 3 {
        '3'
    } else if d == 4 {
        '4'
    } else if d == 5 {
        '5'
    } else if d == 6 {
        '6'
    } else if d == 7 {
        '7'
    } else if d == 8 {
        '8'
    } else {
        '9'
    }
}

/// Renders a signed 64-bit integer as decimal text, exactly as
/// `spec_fmt_i64` describes.
pub fn fmt_i64(v: i64) -> (r: Vec<char>)
    ensures
        r@ == spec_fmt_i64(v as int),
{
    let neg = v < 0;
    let mut mag: u64 = if v == i64::MIN {
        9223372036854775808
    } else if v < 0 {
        (-v) as u64
    } else {
        v as u64
    };
    proof {
        assert(mag as int == (if v < 0 {
            -(v as int)
        } else {
            v as int
        }));
    }
    let ghost m0 = mag as nat;
    let mut rev: Vec<char> = Vec::new();
    loop
        invariant_except_break
            dec_digits(m0) == dec_digits(mag as nat) + rev@.reverse(),
        ensures
            dec_digits(m0) == rev@.reverse(),
        decreases mag,
    {
        let d = mag % 10;
        rev.push(digit_to_char(d));
        proof {
            let prev = rev@.drop_last();
            assert(rev@ =~= prev.push(digit_char(d as int)));
            assert(rev@.reverse() =~= seq![digit_char(d as int)] + prev.reverse());
            if mag >= 10 {
                assert(dec_digits(mag as nat) == dec_digits((mag as nat) / 10).push(
                    digit_char(((mag as nat) % 10) as int),
                ));
                assert((mag as nat) / 10 == (mag / 10) as nat);
                assert(dec_digits((mag / 10) as nat).push(digit_char(d as int)) + prev.reverse()
                    =~= dec_digits((mag / 10) as nat) + (seq![digit_char(d as int)]
                    + prev.reverse()));
                assert(dec_digits(m0) == dec_digits((mag / 10) as nat) + rev@.reverse());
            } else {
                assert(d == mag);
                assert(dec_digits(mag as nat) == seq![digit_char(d as int)]);
                assert(dec_digits(mag as nat) + prev.reverse() =~= seq![digit_char(d as int)]
                    + prev.reverse());
                assert(dec_digits(m0) == rev@.reverse());
            }
        }
        mag = mag / 10;
        if mag == 0 {
            break;
        }
    }
    let ghost digits = dec_digits(m0);
    let mut r: Vec<char> = Vec::new();
    if neg {
        r.push('-');
    }
    let ghost sign: Seq<char> = if neg {
        seq!['-']
    } else {
        Seq::empty()
    };
    proof {
        assert(rev@ =~= digits.reverse());
        assert(r@ =~= sign + digits.take(digits.len() - rev@.len()));
    }
    while rev.len() > 0
        invariant
            rev@.len() <= digits.len(),
            rev@ == digits.reverse().take(rev@.len() as int),
            r@ == sign + digits.take(digits.len() - rev@.len()),
        decreases rev@.len(),
    {
        let ghost k = digits.len() - rev@.len();
        let c = rev.pop().unwrap();
        r.push(c);
        proof {
            assert(c == digits.reverse()[rev@.len() as int]);
            assert(digits.reverse()[rev@.len() as int] == digits[k]);
            assert(rev@ =~= digits.reverse().take(rev@.len() as int));
            assert(r@ =~= sign + digits.take(k + 1));
        }
    }
    proof {
        assert(digits.take(digits.len() as int) =~= digits);
        if neg {
            assert(r@ =~= spec_fmt_i64(v as int));
        } else {
            assert(sign + digits =~= digits);
        }
    }
    r
}

} // verus!
