//! A JSON document as plain values, the way the scene loader reads it.

use vstd::arithmetic::power2::{lemma2_to64, lemma2_to64_rest, pow2};
use vstd::bits::{lemma_u64_shl_is_mul, lemma_u64_shr_is_div};
use vstd::arithmetic::mul::lemma_mul_inequality;
use vstd::prelude::*;

verus! {

/// A JSON value. A number is kept as the bit pattern of the IEEE-754 double
/// that a JSON reader makes of it. An object keeps its members in any order,
/// each key at most once.
pub enum Json {
    Null,
    Boolean(bool),
    Number(u64),
    Str(String),
    Array(Vec<Json>),
    Object(Vec<(String, Json)>),
}

/// The biased exponent field of a double's bit pattern.
pub open spec fn exponent_field(bits: u64) -> u64 {
    (bits >> 52u64) & 0x7ffu64
}

/// The fraction field of a double's bit pattern.
pub open spec fn fraction_field(bits: u64) -> u64 {
    bits & 0xf_ffff_ffff_ffffu64
}

/// The sign bit of a double's bit pattern.
pub open spec fn sign_field(bits: u64) -> u64 {
    bits >> 63u64
}

/// The index that a number stands for: the double rounded toward zero and
/// saturated to the range of `usize`, with NaN and negative values giving
/// zero (the semantics of a float-to-integer `as` cast).
pub open spec fn index_of_number(bits: u64) -> nat {
    let e = exponent_field(bits) as nat;
    let f = fraction_field(bits) as nat;
    let m = pow2(52) + f;
    if e == 2047 && f != 0 {
        0
    } else if sign_field(bits) == 1 || e < 1023 {
        0
    } else if e >= 1087 {
        usize::MAX as nat
    } else {
        let v = if e >= 1075 {
            m * pow2((e - 1075) as nat)
        } else {
            m / pow2((1075 - e) as nat)
        };
        if v > usize::MAX {
            usize::MAX as nat
        } else {
            v
        }
    }
}

/// The index that a JSON value gives, if it is a number.
pub open spec fn json_index(j: Json) -> Option<usize> {
    match j {
        Json::Number(bits) => Some(index_of_number(bits) as usize),
        _ => None,
    }
}

/// The value of the first member of `j` named `key`; `None` when `j` is
/// not an object or has no such member.
pub open spec fn member(j: Json, key: Seq<char>) -> Option<Json> {
    match j {
        Json::Object(entries) => first_member(entries@, key),
        _ => None,
    }
}

/// The value of the first entry of `entries` named `key`.
pub open spec fn first_member(entries: Seq<(String, Json)>, key: Seq<char>) -> Option<Json>
    decreases entries.len(),
{
    if entries.len() == 0 {
        None
    } else if entries[0].0@ == key {
        Some(entries[0].1)
    } else {
        first_member(entries.drop_first(), key)
    }
}

/// The elements of `j`, if it is an array.
pub open spec fn items(j: Json) -> Option<Seq<Json>> {
    match j {
        Json::Array(v) => Some(v@),
        _ => None,
    }
}

/// The index that a number's bit pattern stands for (see `index_of_number`).
pub fn number_to_index(bits: u64) -> (r: usize)
    ensures
        r as nat == index_of_number(bits),
{
    let e = (bits >> 52u64) & 0x7ffu64;
    let f = bits & 0xf_ffff_ffff_ffffu64;
    if e == 2047 && f != 0 {
        return 0;
    }
    if (bits >> 63u64) == 1 || e < 1023 {
        return 0;
    }
    if e >= 1087 {
        return usize::MAX;
    }
    let m = f | 0x10_0000_0000_0000u64;
    proof {
        lemma2_to64();
        lemma2_to64_rest();
        assert(f | 0x10_0000_0000_0000u64 == f + 0x10_0000_0000_0000u64) by (bit_vector)
            requires
                f == bits & 0xf_ffff_ffff_ffffu64,
        ;
        assert(f <= 0xf_ffff_ffff_ffffu64) by (bit_vector)
            requires
                f == bits & 0xf_ffff_ffff_ffffu64,
        ;
    }
    let v: u64;
    if e >= 1075 {
        let s = e - 1075;
        proof {
            assert(pow2(s as nat) <= 2048) by {
                lemma2_to64();
                assert(s <= 11);
            }
            lemma_mul_inequality(m as int, 0x1f_ffff_ffff_ffffint, pow2(s as nat) as int);
            assert(0x1f_ffff_ffff_ffffint * pow2(s as nat) <= 0x1f_ffff_ffff_ffffint * 2048)
                by (nonlinear_arith)
                requires
                    pow2(s as nat) <= 2048,
            ;
            lemma_u64_shl_is_mul(m, s);
        }
        v = m << s;
    } else {
        let s = 1075 - e;
        proof {
            lemma_u64_shr_is_div(m, s);
        }
        v = m >> s;
    }
    assert(exponent_field(bits) == e);
    assert(fraction_field(bits) == f);
    assert(m as nat == pow2(52) + f as nat);
    if v as u128 > usize::MAX as u128 {
        usize::MAX
    } else {
        v as usize
    }
}

/// Reads a number as an index.
pub fn get_usize(j: &Json) -> (r: Option<usize>)
    ensures
        r == json_index(*j),
{
    match j {
        Json::Number(bits) => Some(number_to_index(*bits)),
        _ => None,
    }
}

/// Looks a member up by name.
pub fn get_member<'a>(j: &'a Json, key: &str) -> (r: Option<&'a Json>)
    ensures
        match r {
            Some(v) => member(*j, key@) == Some(*v),
            None => member(*j, key@) is None,
        },
{
    match j {
        Json::Object(entries) => {
            let name = String::from_str(key);
            let mut i: usize = 0;
            assert(entries@.subrange(0, entries@.len() as int) =~= entries@);
            while i < entries.len()
                invariant
                    name@ == key@,
                    member(*j, key@) == first_member(entries@, key@),
                    i <= entries@.len(),
                    first_member(entries@, key@) == first_member(entries@.subrange(i as int, entries@.len() as int), key@),
                decreases entries.len() - i,
            {
                assert(entries@.subrange(i as int + 1, entries@.len() as int) =~= entries@.subrange(i as int, entries@.len() as int).drop_first());
                if entries[i].0 == name {
                    let ghost tail = entries@.subrange(i as int, entries@.len() as int);
                    assert(tail[0] == entries@[i as int]);
                    assert(first_member(tail, key@) == Some(tail[0].1));
                    return Some(&entries[i].1);
                }
                i = i + 1;
            }
            None
        },
        _ => None,
    }
}

} // verus!
