//! Decimal numbers as they stand on the wire: ASCII digits, most significant
//! first, with a leading `-` for a negative value.

use vstd::prelude::*;

verus! {

/// The byte `-`.
pub const MINUS: u8 = 45;

/// The byte `0`.
pub const ZERO: u8 = 48;

/// The byte is one of `0` to `9`.
pub open spec fn is_digit(b: u8) -> bool {
    ZERO <= b <= ZERO + 9
}

/// Every byte of `s` is a decimal digit.
pub open spec fn all_digits(s: Seq<u8>) -> bool {
    forall|i: int| 0 <= i < s.len() ==> is_digit(#[trigger] s[i])
}

/// The number that a run of decimal digits writes, most significant digit
/// first. The empty run writes zero.
pub open spec fn digits_value(s: Seq<u8>) -> nat
    decreases s.len(),
{
    if s.len() == 0 {
        0
    } else {
        digits_value(s.drop_last()) * 10 + (s.last() - ZERO) as nat
    }
}

/// The digits of `n` without leading zeros; zero is written `0`.
pub open spec fn digits_of(n: nat) -> Seq<u8>
    decreases n,
{
    if n < 10 {
        seq![(ZERO + n) as u8]
    } else {
        digits_of(n / 10).push((ZERO + n % 10) as u8)
    }
}

/// The decimal form of a signed number.
pub open spec fn decimal(v: int) -> Seq<u8> {
    if v < 0 {
        seq![MINUS] + digits_of((-v) as nat)
    } else {
        digits_of(v as nat)
    }
}

/// The decimal form of a signed number as text.
pub open spec fn decimal_text(v: int) -> Seq<char> {
    decimal(v).map_values(|b: u8| b as char)
}

/// What a line holds when it is read as a size: one or more digits whose
/// value fits in 64 bits.
pub open spec fn read_size(line: Seq<u8>) -> Option<u64> {
    if line.len() > 0 && all_digits(line) && digits_value(line) <= u64::MAX {
        Some(digits_value(line) as u64)
    } else {
        None
    }
}

/// What a line holds when it is read as a signed number: an optional `-`,
/// then one or more digits, the whole within the range of `i64`.
pub open spec fn read_integer(line: Seq<u8>) -> Option<i64> {
    if line.len() > 0 && line[0] == MINUS {
        let body = line.skip(1);
        if body.len() > 0 && all_digits(body) && digits_value(body) <= 0x8000_0000_0000_0000 {
            Some((-digits_value(body)) as i64)
        } else {
            None
        }
    } else if line.len() > 0 && all_digits(line) && digits_value(line) <= i64::MAX {
        Some(digits_value(line) as i64)
    } else {
        None
    }
}

/// A run of digits is worth at least as much as any of its prefixes.
pub proof fn lemma_value_grows(s: Seq<u8>, k: int)
    requires
        all_digits(s),
        0 <= k <= s.len(),
    ensures
        digits_value(s.take(k)) <= digits_value(s),
    decreases s.len() - k,
{
    if k == s.len() {
        assert(s.take(k) =~= s);
    } else {
        lemma_value_grows(s, k + 1);
        let longer = s.take(k + 1);
        assert(longer.drop_last() =~= s.take(k));
        assert(is_digit(s[k]));
        assert(longer.last() == s[k]);
    }
}

/// The digits written for a number are digits, and there is at least one.
pub proof fn lemma_digits_of_shape(n: nat)
    ensures
        digits_of(n).len() >= 1,
        all_digits(digits_of(n)),
    decreases n,
{
    if n >= 10 {
        lemma_digits_of_shape(n / 10);
    }
}

/// Reading the digits written for a number gives the number back.
pub proof fn lemma_digits_of_value(n: nat)
    ensures
        digits_value(digits_of(n)) == n,
    decreases n,
{
    let s = digits_of(n);
    if n < 10 {
        assert(s.drop_last() =~= Seq::<u8>::empty());
        assert(digits_value(s.drop_last()) == 0);
    } else {
        lemma_digits_of_value(n / 10);
        assert(s.drop_last() =~= digits_of(n / 10));
    }
}

/// A size that was written in decimal reads as itself.
pub proof fn lemma_read_size_of_digits(n: u64)
    ensures
        read_size(digits_of(n as nat)) == Some(n),
{
    lemma_digits_of_shape(n as nat);
    lemma_digits_of_value(n as nat);
}

/// A signed number that was written in decimal reads as itself.
pub proof fn lemma_read_integer_of_decimal(v: i64)
    ensures
        read_integer(decimal(v as int)) == Some(v),
{
    if v < 0 {
        let m = (-v) as nat;
        lemma_digits_of_shape(m);
        lemma_digits_of_value(m);
        assert(decimal(v as int).skip(1) =~= digits_of(m));
    } else {
        lemma_digits_of_shape(v as nat);
        lemma_digits_of_value(v as nat);
        let s = decimal(v as int);
        assert(is_digit(s[0]));
    }
}

/// Every byte of a written number is a minus sign or a digit.
pub proof fn lemma_decimal_bytes(v: int, i: int)
    requires
        0 <= i < decimal(v).len(),
    ensures
        decimal(v)[i] == MINUS || is_digit(decimal(v)[i]),
{
    if v < 0 {
        lemma_digits_of_shape((-v) as nat);
        if i > 0 {
            assert(decimal(v)[i] == digits_of((-v) as nat)[i - 1]);
        }
    } else {
        lemma_digits_of_shape(v as nat);
    }
}

/// Reads a size from a whole line.
pub fn parse_size(line: &[u8]) -> (res: Option<u64>)
    ensures
        res == read_size(line@),
{
    if line.len() == 0 {
        return None;
    }
    let mut value: u64 = 0;
    let mut i: usize = 0;
    while i < line.len()
        invariant
            i <= line.len(),
            all_digits(line@.take(i as int)),
            value == digits_value(line@.take(i as int)),
        decreases line.len() - i,
    {
        let b: u8 = line[i];
        if b < ZERO || b > ZERO + 9 {
            assert(!is_digit(line@[i as int]));
            return None;
        }
        let d: u64 = (b - ZERO) as u64;
        proof {
            let longer = line@.take(i + 1);
            assert(longer.drop_last() =~= line@.take(i as int));
            assert(longer.last() == b);
            assert(all_digits(longer)) by {
                assert forall|j: int| 0 <= j < longer.len() implies is_digit(#[trigger] longer[j]) by {
                    if j < i {
                        assert(longer[j] == line@.take(i as int)[j]);
                    }
                }
            }
        }
        if value > (u64::MAX - d) / 10 {
            proof {
                if all_digits(line@) {
                    lemma_value_grows(line@, i + 1);
                }
            }
            return None;
        }
        value = value * 10 + d;
        i += 1;
    }
    proof {
        assert(line@.take(i as int) =~= line@);
    }
    Some(value)
}

/// Reads a signed number from a whole line.
pub fn parse_integer(line: &[u8]) -> (res: Option<i64>)
    ensures
        res == read_integer(line@),
{
    if line.len() > 0 && line[0] == MINUS {
        let body = vstd::slice::slice_subrange(line, 1, line.len());
        assert(body@ =~= line@.skip(1));
        match parse_size(body) {
            Some(magnitude) => {
                if magnitude > 0x8000_0000_0000_0000 {
                    None
                } else if magnitude == 0x8000_0000_0000_0000 {
                    Some(i64::MIN)
                } else {
                    Some(-(magnitude as i64))
                }
            },
            None => None,
        }
    } else {
        match parse_size(line) {
            Some(value) => {
                if value > 0x7fff_ffff_ffff_ffff {
                    None
                } else {
                    Some(value as i64)
                }
            },
            None => None,
        }
    }
}

/// Appends the digits of `n` to `out`.
pub fn push_digits(out: &mut Vec<u8>, n: u64)
    ensures
        final(out)@ == old(out)@ + digits_of(n as nat),
    decreases n,
{
    if n >= 10 {
        push_digits(out, n / 10);
    }
    out.push(ZERO + (n % 10) as u8);
    proof {
        if n < 10 {
            assert(final(out)@ =~= old(out)@ + digits_of(n as nat));
        } else {
            assert(final(out)@ =~= old(out)@ + digits_of(n as nat));
        }
    }
}

/// Appends the decimal form of `v` to `out`.
pub fn push_decimal(out: &mut Vec<u8>, v: i64)
    ensures
        final(out)@ == old(out)@ + decimal(v as int),
{
    if v < 0 {
        out.push(MINUS);
        let magnitude: u64 = if v == i64::MIN {
            0x8000_0000_0000_0000
        } else {
            (-v) as u64
        };
        push_digits(out, magnitude);
        assert(final(out)@ =~= old(out)@ + decimal(v as int));
    } else {
        push_digits(out, v as u64);
    }
}

} // verus!
