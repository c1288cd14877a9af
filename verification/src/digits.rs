//! Decimal rendering and parsing of the unsigned numbers that cross the
//! wire in click-action strings and configuration values, with the proof
//! that the two are inverse.

use vstd::prelude::*;

use crate::text::chars_to_string;

verus! {

/// Whether `c` is a decimal digit.
pub open spec fn is_digit(c: char) -> bool {
    '0' <= c && c <= '9'
}

/// The numeric value of a decimal digit.
pub open spec fn digit_value(c: char) -> nat
    recommends
        is_digit(c),
{
    (c as nat - '0' as nat) as nat
}

/// The decimal digit for a value below ten.
pub open spec fn digit_char(n: nat) -> char
    recommends
        n < 10,
{
    (('0' as nat + n) as u8) as char
}

/// The decimal digits of `n`, most significant first, with no sign and no
/// leading zero (except for zero itself).
pub open spec fn spec_dec(n: nat) -> Seq<char>
    decreases n,
{
    if n < 10 {
        seq![digit_char(n)]
    } else {
        spec_dec(n / 10).push(digit_char(n % 10))
    }
}

/// Whether `s` is one or more decimal digits.
pub open spec fn all_digits(s: Seq<char>) -> bool {
    forall|i: int| 0 <= i < s.len() ==> is_digit(#[trigger] s[i])
}

/// The number the digit string `s` denotes.
pub open spec fn digits_val(s: Seq<char>) -> nat
    decreases s.len(),
{
    if s.len() == 0 {
        0
    } else {
        digits_val(s.drop_last()) * 10 + digit_value(s.last())
    }
}

/// Rendering a number yields digits only, at least one of them.
pub proof fn lemma_dec_digits(n: nat)
    ensures
        spec_dec(n).len() >= 1,
        all_digits(spec_dec(n)),
    decreases n,
{
    if n >= 10 {
        lemma_dec_digits(n / 10);
    }
}

/// Rendering, then reading back, returns the number: the decimal printer
/// and the digit-string reader are inverse.
pub proof fn lemma_dec_roundtrip(n: nat)
    ensures
        digits_val(spec_dec(n)) == n,
    decreases n,
{
    if n < 10 {
        assert((('0' as nat + n) as u8) as char as nat == '0' as nat + n);
        assert(spec_dec(n).last() == digit_char(n));
        assert(digit_value(digit_char(n)) == n);
        assert(spec_dec(n).drop_last() =~= Seq::<char>::empty());
        assert(digits_val(spec_dec(n)) == digits_val(spec_dec(n).drop_last()) * 10 + digit_value(
            spec_dec(n).last(),
        ));
    } else {
        lemma_dec_roundtrip(n / 10);
        assert((('0' as nat + n % 10) as u8) as char as nat == '0' as nat + n % 10);
        assert(spec_dec(n).last() == digit_char(n % 10));
        assert(digit_value(digit_char(n % 10)) == n % 10);
        assert(spec_dec(n).drop_last() =~= spec_dec(n / 10));
        assert(digits_val(spec_dec(n)) == digits_val(spec_dec(n).drop_last()) * 10 + digit_value(
            spec_dec(n).last(),
        ));
    }
}

/// A digit string denotes at least as much as any of its prefixes.
pub proof fn lemma_digits_val_prefix_le(s: Seq<char>, k: int)
    requires
        0 <= k <= s.len(),
    ensures
        digits_val(s.take(k)) <= digits_val(s),
    decreases s.len() - k,
{
    if k < s.len() {
        lemma_digits_val_prefix_le(s.drop_last(), k);
        assert(s.drop_last().take(k) =~= s.take(k));
        assert(digits_val(s) == digits_val(s.drop_last()) * 10 + digit_value(s.last()));
        assert(digits_val(s.drop_last()) * 10 >= digits_val(s.drop_last()));
    } else {
        assert(s.take(k) =~= s);
    }
}

/// The decimal digit character for a value below ten.
pub(crate) fn digit_to_char(n: u8) -> (c: char)
    requires
        n < 10,
    ensures
        c == digit_char(n as nat),
{
    (('0' as u8) + n) as char
}

/// The numeric value of a decimal digit character, or `None`.
pub(crate) fn char_to_digit(c: char) -> (r: Option<u8>)
    ensures
        r is Some <==> is_digit(c),
        r is Some ==> r->0 == digit_value(c) && r->0 < 10,
{
    let n = c as u32;
    if n >= '0' as u32 && n <= '9' as u32 {
        Some((n - '0' as u32) as u8)
    } else {
        None
    }
}

/// The decimal rendering of `n`.
#[verifier::rlimit(50)]
pub fn u64_to_dec(n: u64) -> (r: String)
    ensures
        r@ == spec_dec(n as nat),
{
    let mut rev: Vec<char> = Vec::new();
    let mut cur: u64 = n;
    loop
        invariant_except_break
            rev@.len() == 0 ==> cur == n,
            rev@.len() > 0 ==> spec_dec(n as nat) =~= spec_dec(cur as nat) + rev@.reverse(),
            rev@.len() > 0 ==> cur > 0,
        ensures
            spec_dec(n as nat) =~= rev@.reverse(),
        decreases cur,
    {
        let ghost prev = cur;
        let ghost prev_rev = rev@;
        let d: u8 = (cur % 10) as u8;
        rev.push(digit_to_char(d));
        cur = cur / 10;
        proof {
            assert(rev@.reverse() =~= seq![digit_char(d as nat)] + prev_rev.reverse());
            if prev < 10 {
                assert(spec_dec(prev as nat) == seq![digit_char(prev as nat)]);
            } else {
                assert(spec_dec(prev as nat) == spec_dec(prev as nat / 10).push(
                    digit_char(prev as nat % 10),
                ));
            }
            if prev_rev.len() == 0 {
                if prev >= 10 {
                    assert(spec_dec(n as nat) =~= spec_dec(cur as nat) + rev@.reverse());
                } else {
                    assert(spec_dec(n as nat) =~= rev@.reverse());
                }
            } else {
                if prev >= 10 {
                    assert(spec_dec(prev as nat) =~= spec_dec(cur as nat) + seq![
                        digit_char(d as nat),
                    ]);
                    assert(spec_dec(n as nat) =~= spec_dec(cur as nat) + rev@.reverse());
                } else {
                    assert(spec_dec(n as nat) =~= rev@.reverse());
                }
            }
        }
        if cur == 0 {
            break ;
        }
    }
    let mut out: Vec<char> = Vec::new();
    let mut i: usize = rev.len();
    while i > 0
        invariant
            i <= rev@.len(),
            out@ == rev@.reverse().take(rev@.len() - i),
        decreases i,
    {
        i -= 1;
        out.push(rev[i]);
        assert(out@ =~= rev@.reverse().take(rev@.len() - i));
    }
    assert(out@ =~= rev@.reverse());
    chars_to_string(&out)
}

/// Reads a digit string as a number: `Some` exactly on one-or-more decimal
/// digits whose value fits in a `u64`.
pub fn parse_u64_digits(s: &[char]) -> (r: Option<u64>)
    ensures
        r is Some <==> (s@.len() > 0 && all_digits(s@) && digits_val(s@) <= u64::MAX),
        r is Some ==> r->0 == digits_val(s@),
{
    if s.len() == 0 {
        return None;
    }
    let mut acc: u64 = 0;
    let mut i: usize = 0;
    while i < s.len()
        invariant
            i <= s@.len(),
            all_digits(s@.take(i as int)),
            acc == digits_val(s@.take(i as int)),
        decreases s@.len() - i,
    {
        let ghost prefix = s@.take(i as int);
        match char_to_digit(s[i]) {
            Option::Some(d) => {
                proof {
                    assert(s@.take(i + 1).drop_last() =~= prefix);
                    assert(s@.take(i + 1).last() == s@[i as int]);
                }
                if acc > (u64::MAX - (d as u64)) / 10 {
                    proof {
                        assert(digits_val(s@.take(i + 1)) == acc * 10 + d);
                        lemma_digits_val_prefix_le(s@, i + 1);
                        assert(digits_val(s@) > u64::MAX);
                    }
                    return None;
                }
                acc = acc * 10 + (d as u64);
                i += 1;
                proof {
                    assert(all_digits(s@.take(i as int)));
                }
            },
            Option::None => {
                assert(!is_digit(s@[i as int]));
                return None;
            },
        }
    }
    proof {
        assert(s@.take(i as int) =~= s@);
    }
    Some(acc)
}

} // verus!
