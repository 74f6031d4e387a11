//! Decimal rendering and parsing of unsigned 64-bit identifiers and
//! timestamps, used by the session-token claims.

use vstd::prelude::*;

verus! {

/// The canonical decimal digit string of `n` (most significant digit first,
/// no leading zeros, `"0"` for zero).
pub open spec fn dec_digits(n: nat) -> Seq<u8>
    decreases n,
{
    if n < 10 {
        seq![(48 + n) as u8]
    } else {
        dec_digits(n / 10).push((48 + n % 10) as u8)
    }
}

/// Whether `b` is the code of an ASCII decimal digit.
pub open spec fn is_dec_digit(b: u8) -> bool {
    48 <= b <= 57
}

/// Whether every byte of `s` is a decimal digit.
pub open spec fn digit_seq(s: Seq<u8>) -> bool {
    forall|i: int| 0 <= i < s.len() ==> is_dec_digit(#[trigger] s[i])
}

/// The numeric value of a digit string (most significant digit first).
pub open spec fn dec_val(s: Seq<u8>) -> int
    decreases s.len(),
{
    if s.len() == 0 {
        0
    } else {
        dec_val(s.drop_last()) * 10 + (s.last() - 48)
    }
}

/// The canonical digit string of `n` consists of digits only and is nonempty.
pub proof fn lemma_dec_digits_are_digits(n: nat)
    ensures
        digit_seq(dec_digits(n)),
        dec_digits(n).len() > 0,
    decreases n,
{
    if n >= 10 {
        lemma_dec_digits_are_digits(n / 10);
        let prefix = dec_digits(n / 10);
        let whole = dec_digits(n);
        assert forall|i: int| 0 <= i < whole.len() implies is_dec_digit(#[trigger] whole[i]) by {
            if i < prefix.len() {
                assert(whole[i] == prefix[i]);
            }
        }
    }
}

/// Rendering then evaluating a number gives the number back.
pub proof fn lemma_dec_val_of_dec_digits(n: nat)
    ensures
        dec_val(dec_digits(n)) == n,
    decreases n,
{
    if n < 10 {
        let s = dec_digits(n);
        assert(s =~= seq![(48 + n) as u8]);
        assert(s.drop_last() =~= Seq::<u8>::empty());
        assert(dec_val(s) == dec_val(s.drop_last()) * 10 + (s.last() - 48));
        assert(dec_val(s) == n);
    } else {
        lemma_dec_val_of_dec_digits(n / 10);
        let s = dec_digits(n);
        assert(s.drop_last() =~= dec_digits(n / 10));
        assert(dec_val(s) == (n / 10) * 10 + n % 10);
        assert((n / 10) * 10 + n % 10 == n) by {
            vstd::arithmetic::div_mod::lemma_fundamental_div_mod(n as int, 10);
        }
    }
}

/// A digit string evaluates to a nonnegative value.
pub proof fn lemma_dec_val_nonneg(s: Seq<u8>)
    requires
        digit_seq(s),
    ensures
        dec_val(s) >= 0,
    decreases s.len(),
{
    if s.len() > 0 {
        assert(digit_seq(s.drop_last())) by {
            assert(forall|i: int| 0 <= i < s.len() - 1 ==> s.drop_last()[i] == #[trigger] s[i]);
        }
        lemma_dec_val_nonneg(s.drop_last());
    }
}

/// Extending a digit string to the right never decreases its value.
pub proof fn lemma_dec_val_prefix_le(s: Seq<u8>, i: int)
    requires
        digit_seq(s),
        0 <= i <= s.len(),
    ensures
        dec_val(s.subrange(0, i)) <= dec_val(s),
    decreases s.len() - i,
{
    if i == s.len() {
        assert(s.subrange(0, i) =~= s);
    } else {
        let t = s.subrange(0, i + 1);
        assert(t.drop_last() =~= s.subrange(0, i));
        assert(digit_seq(t));
        assert(dec_val(t.drop_last()) >= 0) by {
            assert(digit_seq(t.drop_last()));
            lemma_dec_val_nonneg(t.drop_last());
        }
        assert(dec_val(s.subrange(0, i)) <= dec_val(t));
        lemma_dec_val_prefix_le(s, i + 1);
    }
}

/// Renders `n` in decimal, matching `dec_digits`.
pub fn u64_to_dec(n: u64) -> (r: Vec<u8>)
    ensures
        r@ == dec_digits(n as nat),
    decreases n,
{
    if n < 10 {
        let mut v: Vec<u8> = Vec::new();
        v.push(48 + (n as u8));
        proof {
            assert(v@ =~= dec_digits(n as nat));
        }
        v
    } else {
        let mut v = u64_to_dec(n / 10);
        v.push(48 + ((n % 10) as u8));
        v
    }
}

/// Parses a decimal digit string, rejecting empty input, non-digit bytes,
/// and values that do not fit in 64 bits.
pub fn parse_u64(s: &Vec<u8>) -> (r: Option<u64>)
    ensures
        r == (if s@.len() > 0 && digit_seq(s@) && dec_val(s@) <= u64::MAX {
            Some(dec_val(s@) as u64)
        } else {
            None::<u64>
        }),
{
    if s.len() == 0 {
        return None;
    }
    let mut acc: u64 = 0;
    let mut i: usize = 0;
    while i < s.len()
        invariant
            0 <= i <= s@.len(),
            s@.len() > 0,
            forall|j: int| 0 <= j < i ==> is_dec_digit(#[trigger] s@[j]),
            acc == dec_val(s@.subrange(0, i as int)),
        decreases s@.len() - i,
    {
        let b = s[i];
        if b < 48 || b > 57 {
            return None;
        }
        let d = (b - 48) as u64;
        proof {
            assert(s@.subrange(0, i + 1).drop_last() =~= s@.subrange(0, i as int));
            assert(dec_val(s@.subrange(0, i + 1)) == acc * 10 + d);
        }
        let limit = (u64::MAX - d) / 10;
        proof {
            let md = (u64::MAX - d) as int;
            vstd::arithmetic::div_mod::lemma_fundamental_div_mod(md, 10);
            if acc > limit {
                vstd::arithmetic::mul::lemma_mul_inequality(md / 10 + 1, acc as int, 10);
                assert(acc * 10 + d > u64::MAX);
            } else {
                vstd::arithmetic::mul::lemma_mul_inequality(acc as int, md / 10, 10);
                assert(acc * 10 + d <= u64::MAX);
            }
        }
        if acc > limit {
            proof {
                assert(digit_seq(s@.subrange(0, i + 1)));
                if digit_seq(s@) {
                    lemma_dec_val_prefix_le(s@, i + 1);
                    assert(dec_val(s@) > u64::MAX);
                }
            }
            return None;
        }
        acc = acc * 10 + d;
        i += 1;
    }
    proof {
        assert(s@.subrange(0, s@.len() as int) =~= s@);
    }
    Some(acc)
}

} // verus!
