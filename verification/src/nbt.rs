//! An NBT value tree, the persistent form of component values.
//!
//! Compounds keep their entries in insertion order; inserting pushes a new
//! entry and lookups return the first entry with the key, as the NBT
//! compounds of the game do. Floating-point tags carry their IEEE-754 bit
//! patterns.

use vstd::prelude::*;

verus! {

/// One NBT tag.
#[derive(Debug, PartialEq)]
pub enum NbtTag {
    Byte(i8),
    Short(i16),
    Int(i32),
    Long(i64),
    /// A 32-bit float, as its bit pattern.
    Float(u32),
    /// A 64-bit float, as its bit pattern.
    Double(u64),
    ByteArray(Vec<u8>),
    String(String),
    List(Vec<NbtTag>),
    Compound(Vec<(String, NbtTag)>),
    IntArray(Vec<i32>),
    LongArray(Vec<i64>),
}

/// The first entry of `entries` whose key is `key`, if any.
pub open spec fn compound_lookup(entries: Seq<(String, NbtTag)>, key: Seq<char>) -> Option<NbtTag>
    decreases entries.len(),
{
    if entries.len() == 0 {
        None
    } else if entries[0].0@ == key {
        Some(entries[0].1)
    } else {
        compound_lookup(entries.drop_first(), key)
    }
}

/// Looks up the first entry of a compound with the given key.
pub fn compound_get<'a>(entries: &'a Vec<(String, NbtTag)>, key: &str) -> (res: Option<&'a NbtTag>)
    ensures
        match res {
            Some(t) => compound_lookup(entries@, key@) == Some(*t),
            None => compound_lookup(entries@, key@) is None,
        },
{
    let wanted = key.to_owned();
    let mut i: usize = 0;
    assert(entries@.skip(0) =~= entries@);
    while i < entries.len()
        invariant
            i <= entries@.len(),
            wanted@ == key@,
            compound_lookup(entries@, key@) == compound_lookup(entries@.skip(i as int), key@),
        decreases entries.len() - i,
    {
        assert(entries@.skip(i as int).drop_first() =~= entries@.skip(i + 1));
        if entries[i].0 == wanted {
            return Some(&entries[i].1);
        }
        i = i + 1;
    }
    None
}

/// A compound entry.
pub fn entry(key: &str, value: NbtTag) -> (res: (String, NbtTag))
    ensures
        res.0@ == key@,
        res.1 == value,
{
    (key.to_owned(), value)
}

/// The value an integer-like tag stands for, as the game's numeric codecs
/// read it (`Number.intValue()`): bytes, shorts and ints as they are, longs
/// by their low 32 bits.
pub open spec fn spec_codec_i32(tag: NbtTag) -> Option<i32> {
    match tag {
        NbtTag::Byte(v) => Some(v as i32),
        NbtTag::Short(v) => Some(v as i32),
        NbtTag::Int(v) => Some(v),
        NbtTag::Long(v) => Some(v as i32),
        NbtTag::Float(bits) => Some(float_bits_to_i32(bits as int, 8, 23)),
        NbtTag::Double(bits) => Some(float_bits_to_i32(bits as int, 11, 52)),
        _ => None,
    }
}

/// Two to the power `n`.
pub open spec fn pow2(n: nat) -> nat
    decreases n,
{
    if n == 0 {
        1
    } else {
        2 * pow2((n - 1) as nat)
    }
}

/// The Java `(int)` conversion of the IEEE-754 number with the given bit
/// pattern (`exp_bits` exponent bits, `frac_bits` fraction bits): the value
/// truncated toward zero and clamped to the `i32` range, NaN giving 0.
pub open spec fn float_bits_to_i32(bits: int, exp_bits: nat, frac_bits: nat) -> i32 {
    let frac = bits % pow2(frac_bits) as int;
    let exp = (bits / pow2(frac_bits) as int) % pow2(exp_bits) as int;
    let negative = bits / pow2(frac_bits + exp_bits) as int == 1;
    let bias = pow2((exp_bits - 1) as nat) - 1;
    if exp == pow2(exp_bits) - 1 && frac != 0 {
        0
    } else if exp - bias >= 31 {
        if negative {
            i32::MIN
        } else {
            i32::MAX
        }
    } else if exp - bias < 0 {
        0
    } else {
        let k = (exp - bias) as nat;
        let m = pow2(frac_bits) + frac;
        let magnitude = if k >= frac_bits {
            m * pow2((k - frac_bits) as nat)
        } else {
            m / pow2((frac_bits - k) as nat) as int
        };
        if negative {
            (-magnitude) as i32
        } else {
            magnitude as i32
        }
    }
}


proof fn lemma_pow2_pos(n: nat)
    ensures
        pow2(n) >= 1,
    decreases n,
{
    if n > 0 {
        lemma_pow2_pos((n - 1) as nat);
    }
}

proof fn lemma_pow2_values()
    ensures
        pow2(8) == 0x100,
        pow2(11) == 0x800,
        pow2(23) == 0x80_0000,
        pow2(52) == 0x10_0000_0000_0000,
        pow2(7) == 0x80,
        pow2(10) == 0x400,
        pow2(31) == 0x8000_0000,
        pow2(63) == 0x8000_0000_0000_0000,
        pow2(64) == 0x1_0000_0000_0000_0000,
        pow2(32) == 0x1_0000_0000,
{
    reveal_with_fuel(pow2, 65);
}

/// The Java `(int)` conversion of a float given by its fields.
fn float_fields_to_i32(negative: bool, exp: u64, frac: u64, exp_bits: u64, frac_bits: u64) -> (res: i32)
    requires
        (exp_bits == 8 && frac_bits == 23) || (exp_bits == 11 && frac_bits == 52),
        exp < pow2(exp_bits as nat),
        frac < pow2(frac_bits as nat),
    ensures
        res == float_bits_to_i32(
            (if negative {
                pow2((frac_bits + exp_bits) as nat) as int
            } else {
                0int
            }) + exp * pow2(frac_bits as nat) + frac,
            exp_bits as nat,
            frac_bits as nat,
        ),
{
    proof {
        lemma_pow2_values();
    }
    let ghost bits: int = (if negative {
        pow2((frac_bits + exp_bits) as nat) as int
    } else {
        0int
    }) + exp * pow2(frac_bits as nat) + frac;
    let ghost pf = pow2(frac_bits as nat) as int;
    let ghost pe = pow2(exp_bits as nat) as int;
    proof {
        assert(pow2((frac_bits + exp_bits) as nat) == pf * pe) by {
            lemma_pow2_values();
        }
        let n: int = if negative {
            1
        } else {
            0
        };
        let q1 = n * pe + exp;
        assert(bits == q1 * pf + frac) by (nonlinear_arith)
            requires
                bits == (if n == 1 {
                    pf * pe
                } else {
                    0int
                }) + exp * pf + frac,
                n == 0 || n == 1,
                q1 == n * pe + exp,
        ;
        vstd::arithmetic::div_mod::lemma_fundamental_div_mod_converse(bits, pf, q1, frac as int);
        vstd::arithmetic::div_mod::lemma_fundamental_div_mod_converse(q1, pe, n, exp as int);
        assert(bits == n * (pf * pe) + (exp * pf + frac)) by (nonlinear_arith)
            requires
                bits == q1 * pf + frac,
                q1 == n * pe + exp,
        ;
        assert(0 <= exp * pf + frac < pf * pe) by (nonlinear_arith)
            requires
                0 <= exp < pe,
                0 <= frac < pf,
        ;
        vstd::arithmetic::div_mod::lemma_fundamental_div_mod_converse(
            bits,
            pf * pe,
            n,
            exp * pf + frac,
        );
    }
    let max_exp: u64 = if exp_bits == 8 {
        0xff
    } else {
        0x7ff
    };
    let bias: u64 = if exp_bits == 8 {
        127
    } else {
        1023
    };
    assert(pow2((exp_bits - 1) as nat) - 1 == bias) by {
        lemma_pow2_values();
    }
    if exp == max_exp && frac != 0 {
        return 0;
    }
    if exp >= bias + 31 {
        return if negative {
            i32::MIN
        } else {
            i32::MAX
        };
    }
    if exp < bias {
        return 0;
    }
    let k: u64 = exp - bias;
    let m: u64 = if frac_bits == 23 {
        0x80_0000 + frac
    } else {
        0x10_0000_0000_0000 + frac
    };
    let mut magnitude: u64 = m;
    assert(pow2(0) == 1);
    if k >= frac_bits {
        let mut i: u64 = 0;
        while i < k - frac_bits
            invariant
                frac_bits == 23,
                k < 31,
                m < 0x100_0000,
                i <= k - frac_bits,
                magnitude == m * pow2(i as nat),
                magnitude <= m * 0x80,
            decreases k - frac_bits - i,
        {
            proof {
                lemma_pow2_pos(i as nat);
                assert(pow2((i + 1) as nat) == 2 * pow2(i as nat));
                assert(pow2(i as nat) <= 0x40) by {
                    lemma_pow2_mono(i as nat, 6);
                    reveal_with_fuel(pow2, 7);
                }
                let p = pow2(i as nat) as int;
                assert(m * p * 2 == m * (2 * p) && m * p * 2 <= m * 0x80) by (nonlinear_arith)
                    requires
                        p <= 0x40,
                        m >= 0,
                ;
            }
            magnitude = magnitude * 2;
            i = i + 1;
        }
    } else {
        let mut i: u64 = 0;
        while i < frac_bits - k
            invariant
                i <= frac_bits - k,
                magnitude == m as int / pow2(i as nat) as int,
                magnitude <= m,
            decreases frac_bits - k - i,
        {
            proof {
                lemma_pow2_pos(i as nat);
                assert(pow2((i + 1) as nat) == 2 * pow2(i as nat));
                let p = pow2(i as nat) as int;
                assert((m as int / p) / 2 == m as int / (p * 2)) by (nonlinear_arith)
                    requires
                        p > 0,
                        m >= 0,
                ;
            }
            magnitude = magnitude / 2;
            i = i + 1;
        }
    }
    assert(magnitude < 0x8000_0000) by {
        lemma_magnitude_bound(m, k, frac_bits);
    }
    if negative {
        -(magnitude as i32)
    } else {
        magnitude as i32
    }
}

proof fn lemma_pow2_mono(a: nat, b: nat)
    requires
        a <= b,
    ensures
        pow2(a) <= pow2(b),
    decreases b,
{
    if a < b {
        lemma_pow2_mono(a, (b - 1) as nat);
    }
}

proof fn lemma_magnitude_bound(m: u64, k: u64, frac_bits: u64)
    requires
        frac_bits == 23 || frac_bits == 52,
        m < 2 * pow2(frac_bits as nat),
        k < 31,
    ensures
        (if k >= frac_bits {
            m * pow2((k - frac_bits) as nat)
        } else {
            m as int / pow2((frac_bits - k) as nat) as int
        }) < 0x8000_0000,
{
    lemma_pow2_values();
    if k >= frac_bits {
        let e = (k - frac_bits) as nat;
        lemma_pow2_mono(e, 7);
        reveal_with_fuel(pow2, 8);
        assert(pow2(e) * 2 * pow2(frac_bits as nat) <= 0x8000_0000) by {
            lemma_pow2_add(e, frac_bits as nat);
            lemma_pow2_add(e + frac_bits as nat, 1);
            lemma_pow2_mono(e + frac_bits as nat + 1, 31);
        }
        assert(m * pow2(e) < 0x8000_0000) by (nonlinear_arith)
            requires
                m < 2 * pow2(frac_bits as nat),
                pow2(e) * 2 * pow2(frac_bits as nat) <= 0x8000_0000,
                pow2(e) >= 1,
        ;
    } else {
        let e = (frac_bits - k) as nat;
        lemma_pow2_pos(e);
        lemma_pow2_add(e, k as nat);
        lemma_pow2_add(frac_bits as nat, 1);
        lemma_pow2_mono(k as nat + 1, 31);
        assert(pow2(frac_bits as nat) == pow2(e) * pow2(k as nat));
        assert((m as int / (pow2(e) as int)) < 0x8000_0000) by (nonlinear_arith)
            requires
                m < 2 * (pow2(e) * pow2(k as nat)),
                2 * pow2(k as nat) <= 0x8000_0000,
                pow2(e) >= 1,
        ;
    }
}

proof fn lemma_pow2_add(a: nat, b: nat)
    ensures
        pow2(a + b) == pow2(a) * pow2(b),
    decreases a,
{
    if a > 0 {
        lemma_pow2_add((a - 1) as nat, b);
        assert(pow2(a) == 2 * pow2((a - 1) as nat));
        assert(pow2(a + b) == 2 * pow2((a - 1 + b) as nat));
        assert(2 * (pow2((a - 1) as nat) * pow2(b)) == (2 * pow2((a - 1) as nat)) * pow2(b))
            by (nonlinear_arith);
        assert((a - 1) as nat + b == (a + b - 1) as nat);
    } else {
        assert(pow2(0) == 1);
        assert(a + b == b);
    }
}

/// Reads an integer-like tag as the game's `Codec.INT` does on NBT: any
/// numeric tag, converted with Java's `intValue()`.
pub fn codec_i32(tag: &NbtTag) -> (res: Option<i32>)
    ensures
        res == spec_codec_i32(*tag),
{
    proof {
        lemma_pow2_values();
    }
    match tag {
        NbtTag::Byte(v) => Some(*v as i32),
        NbtTag::Short(v) => Some(*v as i32),
        NbtTag::Int(v) => Some(*v),
        NbtTag::Long(v) => Some(*v as i32),
        NbtTag::Float(bits) => {
            let b = *bits as u64;
            let r = float_fields_to_i32(b >= 0x8000_0000, (b / 0x80_0000) % 0x100, b % 0x80_0000, 8, 23);
            proof {
                let neg = b >= 0x8000_0000;
                assert(b as int == (if neg {
                    0x8000_0000int
                } else {
                    0int
                }) + ((b / 0x80_0000) % 0x100) * 0x80_0000 + b % 0x80_0000);
                assert(pow2(31) == 0x8000_0000);
            }
            Some(r)
        },
        NbtTag::Double(bits) => {
            let b = *bits;
            let r = float_fields_to_i32(
                b >= 0x8000_0000_0000_0000,
                (b / 0x10_0000_0000_0000) % 0x800,
                b % 0x10_0000_0000_0000,
                11,
                52,
            );
            proof {
                let neg = b >= 0x8000_0000_0000_0000;
                assert(b as int == (if neg {
                    0x8000_0000_0000_0000int
                } else {
                    0int
                }) + ((b / 0x10_0000_0000_0000) % 0x800) * 0x10_0000_0000_0000 + b
                    % 0x10_0000_0000_0000);
            }
            Some(r)
        },
        _ => None,
    }
}


/// The Java `(long)` conversion of the IEEE-754 number with the given bit
/// pattern: the value truncated toward zero and clamped to the `i64` range,
/// NaN giving 0.
pub open spec fn float_bits_to_i64(bits: int, exp_bits: nat, frac_bits: nat) -> i64 {
    let frac = bits % pow2(frac_bits) as int;
    let exp = (bits / pow2(frac_bits) as int) % pow2(exp_bits) as int;
    let negative = bits / pow2(frac_bits + exp_bits) as int == 1;
    let bias = pow2((exp_bits - 1) as nat) - 1;
    if exp == pow2(exp_bits) - 1 && frac != 0 {
        0
    } else if exp - bias >= 63 {
        if negative {
            i64::MIN
        } else {
            i64::MAX
        }
    } else if exp - bias < 0 {
        0
    } else {
        let k = (exp - bias) as nat;
        let m = pow2(frac_bits) + frac;
        let magnitude = if k >= frac_bits {
            m * pow2((k - frac_bits) as nat)
        } else {
            m / pow2((frac_bits - k) as nat) as int
        };
        if negative {
            (-magnitude) as i64
        } else {
            magnitude as i64
        }
    }
}

proof fn lemma_magnitude_bound_64(m: u64, k: u64, frac_bits: u64)
    requires
        frac_bits == 23 || frac_bits == 52,
        m < 2 * pow2(frac_bits as nat),
        k < 63,
    ensures
        (if k >= frac_bits {
            m * pow2((k - frac_bits) as nat)
        } else {
            m as int / pow2((frac_bits - k) as nat) as int
        }) < pow2(63),
{
    lemma_pow2_values();
    if k >= frac_bits {
        let e = (k - frac_bits) as nat;
        lemma_pow2_pos(e);
        assert(pow2(e) * 2 * pow2(frac_bits as nat) <= pow2(63)) by {
            lemma_pow2_add(e, frac_bits as nat);
            lemma_pow2_add(e + frac_bits as nat, 1);
            reveal_with_fuel(pow2, 2);
            lemma_pow2_mono(e + frac_bits as nat + 1, 63);
            assert(pow2(e) * 2 * pow2(frac_bits as nat) == pow2(e) * pow2(frac_bits as nat) * 2) by (nonlinear_arith);
        }
        assert(m * pow2(e) < pow2(63)) by (nonlinear_arith)
            requires
                m < 2 * pow2(frac_bits as nat),
                pow2(e) * 2 * pow2(frac_bits as nat) <= pow2(63),
                pow2(e) >= 1,
        ;
    } else {
        let e = (frac_bits - k) as nat;
        lemma_pow2_pos(e);
        lemma_pow2_add(e, k as nat);
        lemma_pow2_add(k as nat, 1);
        reveal_with_fuel(pow2, 2);
        lemma_pow2_mono(k as nat + 1, 63);
        assert(pow2(frac_bits as nat) == pow2(e) * pow2(k as nat));
        assert((m as int / (pow2(e) as int)) < pow2(63)) by (nonlinear_arith)
            requires
                m < 2 * (pow2(e) * pow2(k as nat)),
                2 * pow2(k as nat) <= pow2(63),
                pow2(e) >= 1,
        ;
    }
}

/// The Java `(long)` conversion of a float given by its fields.
fn float_fields_to_i64(negative: bool, exp: u64, frac: u64, exp_bits: u64, frac_bits: u64) -> (res: i64)
    requires
        (exp_bits == 8 && frac_bits == 23) || (exp_bits == 11 && frac_bits == 52),
        exp < pow2(exp_bits as nat),
        frac < pow2(frac_bits as nat),
    ensures
        res == float_bits_to_i64(
            (if negative {
                pow2((frac_bits + exp_bits) as nat) as int
            } else {
                0int
            }) + exp * pow2(frac_bits as nat) + frac,
            exp_bits as nat,
            frac_bits as nat,
        ),
{
    proof {
        lemma_pow2_values();
    }
    let ghost bits: int = (if negative {
        pow2((frac_bits + exp_bits) as nat) as int
    } else {
        0int
    }) + exp * pow2(frac_bits as nat) + frac;
    let ghost pf = pow2(frac_bits as nat) as int;
    let ghost pe = pow2(exp_bits as nat) as int;
    proof {
        assert(pow2((frac_bits + exp_bits) as nat) == pf * pe) by {
            lemma_pow2_values();
        }
        let n: int = if negative {
            1
        } else {
            0
        };
        let q1 = n * pe + exp;
        assert(bits == q1 * pf + frac) by (nonlinear_arith)
            requires
                bits == (if n == 1 {
                    pf * pe
                } else {
                    0int
                }) + exp * pf + frac,
                n == 0 || n == 1,
                q1 == n * pe + exp,
        ;
        vstd::arithmetic::div_mod::lemma_fundamental_div_mod_converse(bits, pf, q1, frac as int);
        vstd::arithmetic::div_mod::lemma_fundamental_div_mod_converse(q1, pe, n, exp as int);
        assert(bits == n * (pf * pe) + (exp * pf + frac)) by (nonlinear_arith)
            requires
                bits == q1 * pf + frac,
                q1 == n * pe + exp,
        ;
        assert(0 <= exp * pf + frac < pf * pe) by (nonlinear_arith)
            requires
                0 <= exp < pe,
                0 <= frac < pf,
        ;
        vstd::arithmetic::div_mod::lemma_fundamental_div_mod_converse(
            bits,
            pf * pe,
            n,
            exp * pf + frac,
        );
    }
    let max_exp: u64 = if exp_bits == 8 {
        0xff
    } else {
        0x7ff
    };
    let bias: u64 = if exp_bits == 8 {
        127
    } else {
        1023
    };
    assert(pow2((exp_bits - 1) as nat) - 1 == bias) by {
        lemma_pow2_values();
    }
    if exp == max_exp && frac != 0 {
        return 0;
    }
    if exp >= bias + 63 {
        return if negative {
            i64::MIN
        } else {
            i64::MAX
        };
    }
    if exp < bias {
        return 0;
    }
    let k: u64 = exp - bias;
    let m: u64 = if frac_bits == 23 {
        0x80_0000 + frac
    } else {
        0x10_0000_0000_0000 + frac
    };
    proof {
        lemma_magnitude_bound_64(m, k, frac_bits);
    }
    let mut magnitude: u64 = m;
    assert(pow2(0) == 1);
    if k >= frac_bits {
        let ghost top = m * pow2((k - frac_bits) as nat);
        let mut i: u64 = 0;
        while i < k - frac_bits
            invariant
                k >= frac_bits,
                k < 63,
                i <= k - frac_bits,
                magnitude == m * pow2(i as nat),
                top == m * pow2((k - frac_bits) as nat),
                top < pow2(63),
                pow2(63) == 0x8000_0000_0000_0000,
            decreases k - frac_bits - i,
        {
            proof {
                lemma_pow2_pos(i as nat);
                assert(pow2((i + 1) as nat) == 2 * pow2(i as nat));
                lemma_pow2_mono((i + 1) as nat, (k - frac_bits) as nat);
                let p = pow2((i + 1) as nat) as int;
                let q = pow2((k - frac_bits) as nat) as int;
                assert(m * p <= m * q) by (nonlinear_arith)
                    requires
                        p <= q,
                        m >= 0,
                ;
                assert(m * pow2(i as nat) * 2 == m * p) by (nonlinear_arith)
                    requires
                        p == 2 * pow2(i as nat),
                ;
            }
            magnitude = magnitude * 2;
            i = i + 1;
        }
    } else {
        let mut i: u64 = 0;
        while i < frac_bits - k
            invariant
                i <= frac_bits - k,
                magnitude == m as int / pow2(i as nat) as int,
                magnitude <= m,
            decreases frac_bits - k - i,
        {
            proof {
                lemma_pow2_pos(i as nat);
                assert(pow2((i + 1) as nat) == 2 * pow2(i as nat));
                let p = pow2(i as nat) as int;
                assert((m as int / p) / 2 == m as int / (p * 2)) by (nonlinear_arith)
                    requires
                        p > 0,
                        m >= 0,
                ;
            }
            magnitude = magnitude / 2;
            i = i + 1;
        }
    }
    assert(magnitude < 0x8000_0000_0000_0000);
    if negative {
        -(magnitude as i64)
    } else {
        magnitude as i64
    }
}

/// The value a numeric tag stands for as a `long`, as Java's
/// `Number.longValue()` gives it: integers as they are, floats truncated
/// toward zero and clamped, NaN as 0.
pub open spec fn spec_codec_i64(tag: NbtTag) -> Option<i64> {
    match tag {
        NbtTag::Byte(v) => Some(v as i64),
        NbtTag::Short(v) => Some(v as i64),
        NbtTag::Int(v) => Some(v as i64),
        NbtTag::Long(v) => Some(v),
        NbtTag::Float(bits) => Some(float_bits_to_i64(bits as int, 8, 23)),
        NbtTag::Double(bits) => Some(float_bits_to_i64(bits as int, 11, 52)),
        _ => None,
    }
}

/// Reads a numeric tag as a `long`.
pub fn codec_i64(tag: &NbtTag) -> (res: Option<i64>)
    ensures
        res == spec_codec_i64(*tag),
{
    proof {
        lemma_pow2_values();
    }
    match tag {
        NbtTag::Byte(v) => Some(*v as i64),
        NbtTag::Short(v) => Some(*v as i64),
        NbtTag::Int(v) => Some(*v as i64),
        NbtTag::Long(v) => Some(*v),
        NbtTag::Float(bits) => {
            let b = *bits as u64;
            let r = float_fields_to_i64(b >= 0x8000_0000, (b / 0x80_0000) % 0x100, b % 0x80_0000, 8, 23);
            proof {
                let neg = b >= 0x8000_0000;
                assert(b as int == (if neg {
                    0x8000_0000int
                } else {
                    0int
                }) + ((b / 0x80_0000) % 0x100) * 0x80_0000 + b % 0x80_0000);
                assert(pow2(31) == 0x8000_0000);
            }
            Some(r)
        },
        NbtTag::Double(bits) => {
            let b = *bits;
            let r = float_fields_to_i64(
                b >= 0x8000_0000_0000_0000,
                (b / 0x10_0000_0000_0000) % 0x800,
                b % 0x10_0000_0000_0000,
                11,
                52,
            );
            proof {
                let neg = b >= 0x8000_0000_0000_0000;
                assert(b as int == (if neg {
                    0x8000_0000_0000_0000int
                } else {
                    0int
                }) + ((b / 0x10_0000_0000_0000) % 0x800) * 0x10_0000_0000_0000 + b
                    % 0x10_0000_0000_0000);
            }
            Some(r)
        },
        _ => None,
    }
}

/// Reads a boolean the way the game's `Codec.BOOL` does on NBT: a numeric
/// tag whose `byteValue()` is nonzero.
pub open spec fn spec_codec_bool(tag: NbtTag) -> Option<bool> {
    match spec_codec_i32(tag) {
        Some(v) => Some(v % 256 != 0),
        None => None,
    }
}

/// Reads a boolean from a numeric tag.
pub fn codec_bool(tag: &NbtTag) -> (res: Option<bool>)
    ensures
        res == spec_codec_bool(*tag),
{
    match codec_i32(tag) {
        Some(v) => Some(v % 256 != 0),
        None => None,
    }
}

/// The text of a string tag.
pub fn tag_string(tag: &NbtTag) -> (res: Option<&String>)
    ensures
        match res {
            Some(s) => tag matches NbtTag::String(t) && t == *s,
            None => !(tag is String),
        },
{
    match tag {
        NbtTag::String(s) => Some(s),
        _ => None,
    }
}


/// Whether `tag` is a list of int tags holding `values`, in order.
pub open spec fn is_int_list_tag(tag: NbtTag, values: Seq<i32>) -> bool {
    tag matches NbtTag::List(items) && items@.len() == values.len()
        && forall|i: int| 0 <= i < values.len() ==> items@[i] == NbtTag::Int(values[i])
}

/// A list of int tags holding `values`, in order.
pub fn int_list_tag(values: &[i32]) -> (res: NbtTag)
    ensures
        is_int_list_tag(res, values@),
{
    let mut items: Vec<NbtTag> = Vec::new();
    let mut i: usize = 0;
    while i < values.len()
        invariant
            i <= values@.len(),
            items@.len() == i,
            forall|j: int| 0 <= j < i ==> items@[j] == NbtTag::Int(values@[j]),
        decreases values.len() - i,
    {
        items.push(NbtTag::Int(values[i]));
        i = i + 1;
    }
    NbtTag::List(items)
}

/// The integers a list tag holds, each read as the numeric codecs read an
/// `int`; `None` unless it is a list of numbers.
pub open spec fn spec_int_list_from_nbt(tag: NbtTag) -> Option<Seq<i32>> {
    match tag {
        NbtTag::List(items) => if forall|i: int| 0 <= i < items@.len() ==> (#[trigger] spec_codec_i32(items@[i])) is Some {
            Some(Seq::new(items@.len(), |i: int| spec_codec_i32(items@[i])->0))
        } else {
            None
        },
        _ => None,
    }
}

/// Reads the integers of a list tag.
pub fn int_list_from_nbt(tag: &NbtTag) -> (res: Option<Vec<i32>>)
    ensures
        match res {
            Some(v) => spec_int_list_from_nbt(*tag) == Some(v@),
            None => spec_int_list_from_nbt(*tag) is None,
        },
{
    let items = match tag {
        NbtTag::List(items) => items,
        _ => return None,
    };
    let mut values: Vec<i32> = Vec::new();
    let mut i: usize = 0;
    while i < items.len()
        invariant
            *tag == NbtTag::List(*items),
            i <= items@.len(),
            values@.len() == i,
            forall|j: int| 0 <= j < i ==> (#[trigger] spec_codec_i32(items@[j])) == Some(values@[j]),
        decreases items.len() - i,
    {
        match codec_i32(&items[i]) {
            Some(v) => values.push(v),
            None => return None,
        }
        i = i + 1;
    }
    assert(values@ =~= Seq::new(items@.len(), |k: int| spec_codec_i32(items@[k])->0));
    Some(values)
}

/// Reading back an int list tag gives its values.
pub proof fn lemma_int_list_tag_round_trip(tag: NbtTag, values: Seq<i32>)
    requires
        is_int_list_tag(tag, values),
    ensures
        spec_int_list_from_nbt(tag) == Some(values),
{
    match tag {
        NbtTag::List(items) => {
            assert forall|i: int| 0 <= i < items@.len() implies (#[trigger] spec_codec_i32(items@[i])) is Some by {
                assert(items@[i] == NbtTag::Int(values[i]));
            }
            assert(Seq::new(items@.len(), |i: int| spec_codec_i32(items@[i])->0) =~= values);
        },
        _ => {},
    }
}


/// Looking a key up after pushing an entry: the earlier entries win.
pub proof fn lemma_compound_lookup_push(entries: Seq<(String, NbtTag)>, e: (String, NbtTag), key: Seq<char>)
    ensures
        compound_lookup(entries.push(e), key) == (match compound_lookup(entries, key) {
            Some(t) => Some(t),
            None => if e.0@ == key { Some(e.1) } else { None },
        }),
    decreases entries.len(),
{
    if entries.len() > 0 {
        assert(entries.push(e)[0] == entries[0]);
        assert(entries.push(e).drop_first() =~= entries.drop_first().push(e));
        lemma_compound_lookup_push(entries.drop_first(), e, key);
    } else {
        reveal_with_fuel(compound_lookup, 2);
        assert(entries.push(e).drop_first() =~= Seq::<(String, NbtTag)>::empty());
        assert(entries.push(e)[0] == e);
    }
}

} // verus!
