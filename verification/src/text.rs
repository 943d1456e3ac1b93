//! Byte-level text: decimal numerals and the UTF-8 bytes of strings.

use vstd::prelude::*;
use vstd::string::*;
use vstd::utf8::*;

verus! {

/// The UTF-8 bytes of a string.
pub open spec fn utf8(s: Seq<char>) -> Seq<u8> {
    encode_utf8(s)
}

/// The ASCII digit for `d`, where `0 <= d <= 9`.
pub open spec fn digit(d: int) -> u8 {
    (48 + d) as u8
}

/// The decimal numeral of `n`, most significant digit first, without padding.
pub open spec fn decimal(n: nat) -> Seq<u8>
    decreases n,
{
    if n < 10 {
        seq![digit(n as int)]
    } else {
        decimal(n / 10).push(digit((n % 10) as int))
    }
}

/// The decimal numeral of `i`, with a leading minus sign when it is negative.
pub open spec fn signed_decimal(i: int) -> Seq<u8> {
    if i < 0 {
        seq![45u8] + decimal((-i) as nat)
    } else {
        decimal(i as nat)
    }
}

/// `true` for the ten ASCII digits.
pub open spec fn is_digit(b: u8) -> bool {
    48 <= b <= 57
}

/// A numeral is never empty and holds digits only.
pub proof fn lemma_decimal_digits(n: nat)
    ensures
        decimal(n).len() >= 1,
        forall|i: int| 0 <= i < decimal(n).len() ==> is_digit(#[trigger] decimal(n)[i]),
    decreases n,
{
    if n >= 10 {
        lemma_decimal_digits(n / 10);
    }
}

/// The trusted comparison of two string slices: std's `==` on `str`, which
/// holds exactly when both hold the same characters.
#[verifier::external_body]
pub(crate) fn str_eq(a: &str, b: &str) -> (same: bool)
    ensures
        same == (a@ == b@),
{
    a == b
}

/// Appends the UTF-8 bytes of `s` to `buf`.
pub fn push_str(buf: &mut Vec<u8>, s: &str)
    ensures
        final(buf)@ == old(buf)@ + utf8(s@),
{
    let mut bytes = s.as_bytes_vec();
    buf.append(&mut bytes);
}

/// Appends the decimal numeral of `n` to `buf`.
pub fn push_decimal(buf: &mut Vec<u8>, n: u64)
    ensures
        final(buf)@ == old(buf)@ + decimal(n as nat),
{
    let mut digits: Vec<u8> = Vec::new();
    let mut rest: u64 = n;
    // `digits` holds the low digits of `n`, least significant first.
    digits.push(48u8 + (rest % 10) as u8);
    rest = rest / 10;
    let ghost mut done: Seq<u8> = seq![digit((n % 10) as int)];
    proof {
        assert(decimal(n as nat) == if n < 10 {
            done
        } else {
            decimal(rest as nat) + done
        }) by {
            if n >= 10 {
                assert(decimal(n as nat) =~= decimal((n / 10) as nat) + done);
            }
        }
    }
    while rest > 0
        invariant
            done.len() == digits@.len(),
            done.len() >= 1,
            forall|i: int| 0 <= i < done.len() ==> digits@[i] == done[done.len() - 1 - i],
            decimal(n as nat) == if rest == 0 {
                done
            } else {
                decimal(rest as nat) + done
            },
        decreases rest,
    {
        let d: u8 = 48u8 + (rest % 10) as u8;
        proof {
            let next = seq![digit((rest % 10) as int)] + done;
            if rest >= 10 {
                assert(decimal(rest as nat) + done =~= decimal((rest / 10) as nat) + next);
            } else {
                assert(decimal(rest as nat) + done =~= next);
            }
            done = next;
        }
        digits.push(d);
        rest = rest / 10;
    }
    let ghost start = buf@;
    let mut i: usize = digits.len();
    while i > 0
        invariant
            i <= digits@.len(),
            done.len() == digits@.len(),
            forall|j: int| 0 <= j < done.len() ==> digits@[j] == done[done.len() - 1 - j],
            buf@ == start + done.subrange(0, done.len() - i),
        decreases i,
    {
        i = i - 1;
        buf.push(digits[i]);
        assert(buf@ =~= start + done.subrange(0, done.len() - i));
    }
    assert(done.subrange(0, done.len() as int) =~= done);
}

/// Appends the decimal numeral of `i`, with its sign, to `buf`.
pub fn push_signed(buf: &mut Vec<u8>, i: i64)
    ensures
        final(buf)@ == old(buf)@ + signed_decimal(i as int),
{
    if i < 0 {
        buf.push(45u8);
        let magnitude: u64 = if i == i64::MIN {
            0x8000_0000_0000_0000u64
        } else {
            (-i) as u64
        };
        push_decimal(buf, magnitude);
        assert(buf@ =~= old(buf)@ + signed_decimal(i as int));
    } else {
        push_decimal(buf, i as u64);
    }
}

} // verus!
