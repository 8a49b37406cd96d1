//! The number decoder: converts a parsed number fragment descriptor into a
//! host value.
//!
//! An integer that fits the host's signed 64-bit range becomes `Int`;
//! larger magnitudes go through an arbitrary-precision path (the
//! `num_bigint` crate, behind trusted wrappers) to little-endian magnitude
//! bytes, which `bignum_external_term` lays out in the host's external term
//! format. A number with a decimal or exponent part becomes a float,
//! carried as its decimal text.

use vstd::prelude::*;

use num_bigint::BigUint;

use crate::input::{range_bytes, InputProvider, Range};
use crate::parser::{digits_in, seen_within, NumberData};
use crate::value::Value;

verus! {

/// The value of ASCII decimal digits, most significant first.
pub open spec fn dec_int(s: Seq<u8>) -> int
    decreases s.len(),
{
    if s.len() == 0 {
        0
    } else {
        dec_int(s.drop_last()) * 10 + (s.last() - 48)
    }
}

/// The value of little-endian base-256 magnitude bytes.
pub open spec fn le_int(s: Seq<u8>) -> int
    decreases s.len(),
{
    if s.len() == 0 {
        0
    } else {
        s[0] + 256 * le_int(s.drop_first())
    }
}

/// All bytes are ASCII decimal digits.
pub open spec fn all_digits(s: Seq<u8>) -> bool {
    forall|i: int| 0 <= i < s.len() ==> 48 <= #[trigger] s[i] <= 57
}

/// A canonical little-endian magnitude: nonempty, and no leading zero byte
/// except for the single byte of zero itself.
pub open spec fn canonical_le(s: Seq<u8>) -> bool {
    s.len() >= 1 && (s.len() > 1 ==> s.last() != 0)
}

#[verifier::external_type_specification]
#[verifier::external_body]
pub struct ExBigUint(BigUint);

/// The natural number a `BigUint` stands for.
pub uninterp spec fn biguint_nat(n: BigUint) -> nat;

/// Relies on `num_bigint::BigUint::parse_bytes` with radix 10: parses
/// ASCII decimal digits into the big integer they denote.
#[verifier::external_body]
fn biguint_from_decimal(digits: &Vec<u8>) -> (r: BigUint)
    requires
        digits@.len() > 0,
        all_digits(digits@),
    ensures
        biguint_nat(r) == dec_int(digits@),
{
    BigUint::parse_bytes(digits, 10).unwrap()
}

/// Relies on `num_bigint::BigUint::to_bytes_le`: the canonical
/// little-endian byte representation; zero is the single byte `0`.
#[verifier::external_body]
fn biguint_to_bytes_le(n: &BigUint) -> (r: Vec<u8>)
    ensures
        le_int(r@) == biguint_nat(*n),
        canonical_le(r@),
        biguint_nat(*n) == 0 ==> r@ == seq![0u8],
        biguint_nat(*n) != 0 ==> r@.last() != 0,
    {
    n.to_bytes_le()
}

/// The canonical little-endian magnitude bytes of a decimal digit string.
pub fn decimal_magnitude_le(digits: &Vec<u8>) -> (r: Vec<u8>)
    requires
        digits@.len() > 0,
        all_digits(digits@),
    ensures
        le_int(r@) == dec_int(digits@),
        canonical_le(r@),
{
    let big = biguint_from_decimal(digits);
    biguint_to_bytes_le(&big)
}

/// Big-endian 32-bit bytes of `n`.
pub open spec fn be32(n: int) -> Seq<u8> {
    seq![
        (n / 0x1000000 % 256) as u8,
        (n / 0x10000 % 256) as u8,
        (n / 0x100 % 256) as u8,
        (n % 256) as u8,
    ]
}

/// The host's external term form of a large bignum: the magic version tag,
/// the large-bignum tag, the big-endian 32-bit count of magnitude bytes, a
/// sign byte (1 for negative), and the little-endian magnitude.
pub open spec fn bignum_term_bytes(negative: bool, mag: Seq<u8>) -> Seq<u8> {
    seq![131u8, 111u8] + be32(mag.len() as int) + seq![if negative { 1u8 } else { 0u8 }] + mag
}

/// Lay out a bignum in the host's external term format, ready to be handed
/// to the runtime for decoding.
pub fn bignum_external_term(negative: bool, mag: &Vec<u8>) -> (r: Vec<u8>)
    requires
        mag@.len() <= u32::MAX,
    ensures
        r@ == bignum_term_bytes(negative, mag@),
{
    let mut buf: Vec<u8> = Vec::new();
    buf.push(131);
    buf.push(111);
    let len = mag.len();
    let b0 = (len / 0x1000000 % 256) as u8;
    let b1 = (len / 0x10000 % 256) as u8;
    let b2 = (len / 0x100 % 256) as u8;
    let b3 = (len % 256) as u8;
    buf.push(b0);
    buf.push(b1);
    buf.push(b2);
    buf.push(b3);
    buf.push(if negative { 1 } else { 0 });
    let ghost head = buf@;
    let n = mag.len();
    let mut i: usize = 0;
    while i < n
        invariant
            n == mag@.len(),
            0 <= i <= n,
            buf@ == head + mag@.take(i as int),
        decreases n - i,
    {
        buf.push(mag[i]);
        proof {
            assert(mag@.take(i + 1) =~= mag@.take(i as int).push(mag@[i as int]));
        }
        i += 1;
    }
    proof {
        assert(mag@.take(n as int) =~= mag@);
        assert(buf@ =~= bignum_term_bytes(negative, mag@));
    }
    buf
}

proof fn lemma_dec_nonneg(s: Seq<u8>)
    requires
        all_digits(s),
    ensures
        dec_int(s) >= 0,
    decreases s.len(),
{
    if s.len() > 0 {
        assert(all_digits(s.drop_last()));
        lemma_dec_nonneg(s.drop_last());
    }
}

proof fn lemma_dec_prefix(s: Seq<u8>, i: int)
    requires
        all_digits(s),
        0 <= i <= s.len(),
    ensures
        dec_int(s.take(i)) <= dec_int(s),
    decreases s.len(),
{
    if i == s.len() {
        assert(s.take(i) =~= s);
    } else {
        let dl = s.drop_last();
        assert(all_digits(dl));
        assert(s.take(i) =~= dl.take(i));
        lemma_dec_prefix(dl, i);
        lemma_dec_nonneg(dl);
    }
}

/// Parse decimal digits into a `u64`; `None` when the value does not fit.
fn parse_u64(digits: &Vec<u8>) -> (r: Option<u64>)
    requires
        digits@.len() > 0,
        all_digits(digits@),
    ensures
        match r {
            Some(v) => v == dec_int(digits@),
            None => dec_int(digits@) > u64::MAX,
        },
{
    let n = digits.len();
    let mut acc: u64 = 0;
    let mut i: usize = 0;
    while i < n
        invariant
            n == digits@.len(),
            0 <= i <= n,
            all_digits(digits@),
            acc == dec_int(digits@.take(i as int)),
        decreases n - i,
    {
        let d = (digits[i] - 48) as u64;
        if acc > (u64::MAX - d) / 10 {
            proof {
                let m = u64::MAX as int;
                let dd = d as int;
                let q = (m - dd) / 10;
                assert((m - dd) == 10 * q + (m - dd) % 10);
                assert(acc * 10 + dd > m);
                assert(digits@.take(i + 1).drop_last() =~= digits@.take(i as int));
                assert(digits@.take(i + 1).last() == digits@[i as int]);
                assert(dec_int(digits@.take(i + 1)) == acc * 10 + dd);
                lemma_dec_prefix(digits@, i + 1);
            }
            return None;
        }
        proof {
            let m = u64::MAX as int;
            let dd = d as int;
            let q = (m - dd) / 10;
            assert((m - dd) == 10 * q + (m - dd) % 10);
            assert(acc * 10 + dd <= m);
            assert(digits@.take(i + 1).drop_last() =~= digits@.take(i as int));
            assert(digits@.take(i + 1).last() == digits@[i as int]);
        }
        acc = acc * 10 + d;
        i += 1;
    }
    proof {
        assert(digits@.take(n as int) =~= digits@);
    }
    Some(acc)
}

/// Executable check of `all_digits`, also refusing an empty buffer.
fn check_digits(buf: &Vec<u8>) -> (r: bool)
    ensures
        r == (buf@.len() > 0 && all_digits(buf@)),
{
    if buf.len() == 0 {
        return false;
    }
    let n = buf.len();
    let mut i: usize = 0;
    while i < n
        invariant
            n == buf@.len(),
            0 <= i <= n,
            forall|j: int| 0 <= j < i ==> 48 <= #[trigger] buf@[j] <= 57,
        decreases n - i,
    {
        let b = buf[i];
        if b < 48 || b > 57 {
            return false;
        }
        i += 1;
    }
    true
}

/// A digit run the consumed bytes recorded is served back by the provider
/// in full, as digits.
pub proof fn lemma_range_bytes_digits(m: Map<int, u8>, seen: Map<int, u8>, lo: int, hi: int)
    requires
        lo <= hi,
        digits_in(seen, lo, hi),
        seen_within(seen, m),
    ensures
        range_bytes(m, lo, hi).len() == hi - lo,
        all_digits(range_bytes(m, lo, hi)),
    decreases hi - lo,
{
    if lo < hi {
        lemma_range_bytes_digits(m, seen, lo, hi - 1);
        assert(seen.dom().contains(hi - 1));
        assert(m.dom().contains(hi - 1) && m[hi - 1] == seen[hi - 1]);
        let rb = range_bytes(m, lo, hi);
        assert(rb =~= range_bytes(m, lo, hi - 1) + seq![m[hi - 1]]);
        assert forall|i: int| 0 <= i < rb.len() implies 48 <= #[trigger] rb[i] <= 57 by {
            if i < hi - 1 - lo {
                assert(rb[i] == range_bytes(m, lo, hi - 1)[i]);
            }
        }
    }
}

/// What the integer path returns for digit text `digits` with the given
/// sign (`sign` true means non-negative): a native `Int` when the value
/// fits the signed 64-bit range, else a canonical bignum.
pub open spec fn int_value_ok(sign: bool, digits: Seq<u8>, v: Value) -> bool {
    let n = dec_int(digits);
    if sign {
        if n <= i64::MAX {
            v == Value::Int(n as i64)
        } else {
            v matches Value::BigInt { negative, magnitude_le } && negative == false && le_int(
                magnitude_le@,
            ) == n && canonical_le(magnitude_le@)
        }
    } else {
        if n <= 0x8000000000000000 {
            v == Value::Int((-n) as i64)
        } else {
            v matches Value::BigInt { negative, magnitude_le } && negative == true && le_int(
                magnitude_le@,
            ) == n && canonical_le(magnitude_le@)
        }
    }
}

/// The decimal text of a float fragment: sign, integer digits, then the
/// optional fraction and exponent parts.
pub open spec fn float_text(m: Map<int, u8>, data: NumberData) -> Seq<u8> {
    (if data.sign {
        Seq::<u8>::empty()
    } else {
        seq![45u8]
    }) + range_bytes(m, data.integer.start as int, data.integer.end as int) + (match data.decimal {
        Some(d) => seq![46u8] + range_bytes(m, d.start as int, d.end as int),
        None => Seq::<u8>::empty(),
    }) + (match data.exponent {
        Some(e) => seq![101u8] + (if data.exponent_sign {
            Seq::<u8>::empty()
        } else {
            seq![45u8]
        }) + range_bytes(m, e.start as int, e.end as int),
        None => Seq::<u8>::empty(),
    })
}

/// Decode a number fragment into a host value.
///
/// Returns `None` only when the integer digits the provider still holds
/// for the fragment's range are empty or not all digits — which can only
/// happen if bytes the parser saw were dropped from the provider.
pub fn number_data_to_value<P: InputProvider>(input: &P, data: &NumberData) -> (r: Option<Value>)
    ensures
        match r {
            Some(v) => {
                if data.decimal is None && data.exponent is None {
                    int_value_ok(
                        data.sign,
                        range_bytes(
                            input.model(),
                            data.integer.start as int,
                            data.integer.end as int,
                        ),
                        v,
                    )
                } else {
                    v matches Value::Float(t) && t@ == float_text(input.model(), *data)
                }
            },
            None => data.decimal is None && data.exponent is None && !(range_bytes(
                input.model(),
                data.integer.start as int,
                data.integer.end as int,
            ).len() > 0 && all_digits(
                range_bytes(input.model(), data.integer.start as int, data.integer.end as int),
            )),
        },
{
    if data.decimal.is_none() && data.exponent.is_none() {
        let mut buf: Vec<u8> = Vec::new();
        input.push_range(data.integer, &mut buf);
        if !check_digits(&buf) {
            return None;
        }
        proof {
            lemma_dec_nonneg(buf@);
        }
        match parse_u64(&buf) {
            Some(v) => {
                if data.sign {
                    if v <= i64::MAX as u64 {
                        Some(Value::Int(v as i64))
                    } else {
                        let mag = decimal_magnitude_le(&buf);
                        Some(Value::BigInt { negative: false, magnitude_le: mag })
                    }
                } else {
                    if v < 0x8000000000000000 {
                        Some(Value::Int(-(v as i64)))
                    } else if v == 0x8000000000000000 {
                        Some(Value::Int(i64::MIN))
                    } else {
                        let mag = decimal_magnitude_le(&buf);
                        Some(Value::BigInt { negative: true, magnitude_le: mag })
                    }
                }
            },
            None => {
                let mag = decimal_magnitude_le(&buf);
                Some(Value::BigInt { negative: !data.sign, magnitude_le: mag })
            },
        }
    } else {
        let mut buf: Vec<u8> = Vec::new();
        if !data.sign {
            buf.push(45);
        }
        input.push_range(data.integer, &mut buf);
        if let Some(d) = data.decimal {
            buf.push(46);
            input.push_range(d, &mut buf);
        }
        if let Some(e) = data.exponent {
            buf.push(101);
            if !data.exponent_sign {
                buf.push(45);
            }
            input.push_range(e, &mut buf);
        }
        proof {
            assert(buf@ =~= float_text(input.model(), *data));
        }
        Some(Value::Float(buf))
    }
}

} // verus!
