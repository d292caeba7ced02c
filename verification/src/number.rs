//! Numbers of a document: an integer of 64 bits, signed or unsigned, or a
//! floating-point number held by its IEEE 754 bits.

use crate::hashing::{mix, mix_word, write_u64, HASH_SEED};
use core::cmp::Ordering;
use vstd::prelude::*;

verus! {

/// What a number stands for.
///
/// Two numbers are equal exactly when their views are.
pub enum NumberView {
    /// An integer.
    Int(int),
    /// A floating-point number, by the canonical form of its bits: every NaN
    /// is the quiet NaN, and negative zero is zero.
    Float(u64),
}

/// The bits of a double without its sign.
pub open spec fn magnitude_bits(bits: u64) -> u64 {
    bits & 0x7fff_ffff_ffff_ffffu64
}

/// Whether the bits are those of a NaN.
pub open spec fn is_nan_bits(bits: u64) -> bool {
    magnitude_bits(bits) > 0x7ff0_0000_0000_0000u64
}

/// Whether the bits are those of positive or negative zero.
pub open spec fn is_zero_bits(bits: u64) -> bool {
    magnitude_bits(bits) == 0
}

/// The bits that stand for every double equal to this one.
pub open spec fn canonical_bits(bits: u64) -> u64 {
    if is_nan_bits(bits) {
        0x7ff8_0000_0000_0000u64
    } else if is_zero_bits(bits) {
        0u64
    } else {
        bits
    }
}

/// Where a floating-point number that is no NaN stands among the others,
/// from its bits: the two zeros stand at 0, what has the sign bit set below
/// it, what has not above it, each by its magnitude.
pub open spec fn float_rank(bits: u64) -> int {
    if bits >= 0x8000_0000_0000_0000u64 {
        -(magnitude_bits(bits) as int)
    } else {
        magnitude_bits(bits) as int
    }
}

/// How two integers stand to each other.
pub open spec fn int_order(x: int, y: int) -> Ordering {
    if x < y {
        Ordering::Less
    } else if x > y {
        Ordering::Greater
    } else {
        Ordering::Equal
    }
}

/// How two numbers stand to each other.
///
/// Integers are ordered by value, and every integer stands below every
/// floating-point number. Floating-point numbers are ordered as IEEE 754
/// has it, but that a NaN equals every NaN; a NaN and a number that is none
/// cannot be compared.
pub open spec fn number_order(a: NumberView, b: NumberView) -> Option<Ordering> {
    match (a, b) {
        (NumberView::Int(x), NumberView::Int(y)) => Some(int_order(x, y)),
        (NumberView::Int(_), NumberView::Float(_)) => Some(Ordering::Less),
        (NumberView::Float(_), NumberView::Int(_)) => Some(Ordering::Greater),
        (NumberView::Float(x), NumberView::Float(y)) => if is_nan_bits(x) && is_nan_bits(y) {
            Some(Ordering::Equal)
        } else if is_nan_bits(x) || is_nan_bits(y) {
            None
        } else {
            Some(int_order(float_rank(x), float_rank(y)))
        },
    }
}

/// The hash of a number. Equal numbers have equal hashes.
pub open spec fn number_hash(n: NumberView) -> u64 {
    match n {
        NumberView::Int(i) => if i >= 0 {
            mix(mix(HASH_SEED, 2), i as u64)
        } else {
            mix(mix(HASH_SEED, 7), (-(i + 1)) as u64)
        },
        NumberView::Float(bits) => mix(mix(HASH_SEED, 8), bits),
    }
}

#[derive(Clone, Copy, Debug)]
enum Repr {
    PosInt(u64),
    /// Always less than zero.
    NegInt(i64),
    Float(u64),
}

/// A number of a document.
#[derive(Clone, Copy, Debug)]
pub struct Number {
    repr: Repr,
}

impl View for Number {
    type V = NumberView;

    closed spec fn view(&self) -> NumberView {
        match self.repr {
            Repr::PosInt(u) => NumberView::Int(u as int),
            Repr::NegInt(i) => NumberView::Int(i as int),
            Repr::Float(bits) => NumberView::Float(canonical_bits(bits)),
        }
    }
}

proof fn lemma_canonical_bits(a: u64, b: u64)
    ensures
        canonical_bits(a) == canonical_bits(b) <==> (is_nan_bits(a) && is_nan_bits(b)) || (
        is_zero_bits(a) && is_zero_bits(b)) || (!is_nan_bits(a) && !is_nan_bits(b) && a == b),
        is_nan_bits(0x7ff8_0000_0000_0000u64),
        is_zero_bits(0u64),
{
    assert(0x7ff8_0000_0000_0000u64 & 0x7fff_ffff_ffff_ffffu64 == 0x7ff8_0000_0000_0000u64)
        by (bit_vector);
    assert(0u64 & 0x7fff_ffff_ffff_ffffu64 == 0u64) by (bit_vector);
}

/// The canonical form of bits is a NaN where the bits are, and stands where
/// the bits stand.
proof fn lemma_canonical_rank(bits: u64)
    ensures
        is_nan_bits(canonical_bits(bits)) == is_nan_bits(bits),
        !is_nan_bits(bits) ==> float_rank(canonical_bits(bits)) == float_rank(bits),
        canonical_bits(canonical_bits(bits)) == canonical_bits(bits),
        canonical_bits(bits) != 0x8000_0000_0000_0000u64,
{
    lemma_canonical_bits(bits, bits);
    assert(0x8000_0000_0000_0000u64 & 0x7fff_ffff_ffff_ffffu64 == 0u64) by (bit_vector);
}

/// Two floating-point numbers in canonical form that stand at the same place
/// are the same.
proof fn lemma_rank_decides(x: u64, y: u64)
    requires
        x == canonical_bits(x),
        y == canonical_bits(y),
        !is_nan_bits(x),
        !is_nan_bits(y),
        float_rank(x) == float_rank(y),
    ensures
        x == y,
{
    lemma_canonical_rank(x);
    lemma_canonical_rank(y);
    assert(x & 0x7fff_ffff_ffff_ffffu64 == y & 0x7fff_ffff_ffff_ffffu64 && (x
        >= 0x8000_0000_0000_0000u64) == (y >= 0x8000_0000_0000_0000u64) ==> x == y)
        by (bit_vector);
    assert(x >= 0x8000_0000_0000_0000u64 && x & 0x7fff_ffff_ffff_ffffu64 == 0u64 ==> x
        == 0x8000_0000_0000_0000u64) by (bit_vector);
    assert(y >= 0x8000_0000_0000_0000u64 && y & 0x7fff_ffff_ffff_ffffu64 == 0u64 ==> y
        == 0x8000_0000_0000_0000u64) by (bit_vector);
}

/// Two numbers compare as equal exactly when they are equal.
pub proof fn lemma_number_order_equal(a: Number, b: Number)
    ensures
        number_order(a@, b@) == Some(Ordering::Equal) <==> a@ == b@,
{
    match (a@, b@) {
        (NumberView::Float(x), NumberView::Float(y)) => {
            lemma_canonical_bits(x, y);
            if let Repr::Float(raw) = a.repr {
                lemma_canonical_rank(raw);
            }
            if let Repr::Float(raw) = b.repr {
                lemma_canonical_rank(raw);
            }
            if !is_nan_bits(x) && !is_nan_bits(y) && float_rank(x) == float_rank(y) {
                lemma_rank_decides(x, y);
            }
        },
        _ => {},
    }
}

/// How two floating-point numbers stand to each other, from their bits.
fn float_bits_order(a: u64, b: u64) -> (r: Option<Ordering>)
    ensures
        r == number_order(
            NumberView::Float(canonical_bits(a)),
            NumberView::Float(canonical_bits(b)),
        ),
{
    proof {
        lemma_canonical_rank(a);
        lemma_canonical_rank(b);
    }
    let am: u64 = a & 0x7fff_ffff_ffff_ffffu64;
    let bm: u64 = b & 0x7fff_ffff_ffff_ffffu64;
    let a_nan = am > 0x7ff0_0000_0000_0000u64;
    let b_nan = bm > 0x7ff0_0000_0000_0000u64;
    if a_nan || b_nan {
        if a_nan && b_nan {
            Some(Ordering::Equal)
        } else {
            None
        }
    } else if a >= 0x8000_0000_0000_0000u64 {
        if b >= 0x8000_0000_0000_0000u64 {
            if bm < am {
                Some(Ordering::Less)
            } else if bm > am {
                Some(Ordering::Greater)
            } else {
                Some(Ordering::Equal)
            }
        } else if am == 0 && bm == 0 {
            Some(Ordering::Equal)
        } else {
            Some(Ordering::Less)
        }
    } else if b >= 0x8000_0000_0000_0000u64 {
        if am == 0 && bm == 0 {
            Some(Ordering::Equal)
        } else {
            Some(Ordering::Greater)
        }
    } else if am < bm {
        Some(Ordering::Less)
    } else if am > bm {
        Some(Ordering::Greater)
    } else {
        Some(Ordering::Equal)
    }
}

impl Number {
    #[verifier::type_invariant]
    spec fn well_formed(&self) -> bool {
        self.repr matches Repr::NegInt(i) ==> i < 0
    }

    /// The number that stands for an unsigned integer.
    pub fn from_u64(u: u64) -> (n: Number)
        ensures
            n@ == NumberView::Int(u as int),
    {
        Number { repr: Repr::PosInt(u) }
    }

    /// The number that stands for a signed integer.
    pub fn from_i64(i: i64) -> (n: Number)
        ensures
            n@ == NumberView::Int(i as int),
    {
        if i < 0 {
            Number { repr: Repr::NegInt(i) }
        } else {
            Number { repr: Repr::PosInt(i as u64) }
        }
    }

    /// The IEEE 754 bits that a floating-point number was made from.
    pub closed spec fn spec_f64_bits(&self) -> Option<u64> {
        match self.repr {
            Repr::Float(bits) => Some(bits),
            _ => None,
        }
    }

    /// The floating-point number with these IEEE 754 bits.
    pub fn from_f64_bits(bits: u64) -> (n: Number)
        ensures
            n@ == NumberView::Float(canonical_bits(bits)),
            n.spec_f64_bits() == Some(bits),
    {
        Number { repr: Repr::Float(bits) }
    }

    /// The integer, if the number is one that fits in an `i64`.
    pub fn as_i64(&self) -> (r: Option<i64>)
        ensures
            r == match self@ {
                NumberView::Int(i) if i64::MIN <= i <= i64::MAX => Some(i as i64),
                _ => None,
            },
    {
        proof {
            use_type_invariant(self);
        }
        match self.repr {
            Repr::PosInt(u) => if u <= i64::MAX as u64 {
                Some(u as i64)
            } else {
                None
            },
            Repr::NegInt(i) => Some(i),
            Repr::Float(_) => None,
        }
    }

    /// The integer, if the number is one that fits in a `u64`.
    pub fn as_u64(&self) -> (r: Option<u64>)
        ensures
            r == match self@ {
                NumberView::Int(i) if 0 <= i <= u64::MAX => Some(i as u64),
                _ => None,
            },
    {
        proof {
            use_type_invariant(self);
        }
        match self.repr {
            Repr::PosInt(u) => Some(u),
            _ => None,
        }
    }

    /// The IEEE 754 bits as they were given, if the number is a
    /// floating-point number.
    pub fn as_f64_bits(&self) -> (r: Option<u64>)
        ensures
            r == self.spec_f64_bits(),
            match self@ {
                NumberView::Float(c) => r matches Some(bits) && canonical_bits(bits) == c,
                NumberView::Int(_) => r is None,
            },
    {
        match self.repr {
            Repr::Float(bits) => Some(bits),
            _ => None,
        }
    }

    /// Whether the number is an integer that fits in an `i64`.
    pub fn is_i64(&self) -> (b: bool)
        ensures
            b == (self@ matches NumberView::Int(i) && i64::MIN <= i <= i64::MAX),
    {
        self.as_i64().is_some()
    }

    /// Whether the number is an integer that fits in a `u64`.
    pub fn is_u64(&self) -> (b: bool)
        ensures
            b == (self@ matches NumberView::Int(i) && 0 <= i <= u64::MAX),
    {
        self.as_u64().is_some()
    }

    /// Whether the number is a floating-point number.
    pub fn is_f64(&self) -> (b: bool)
        ensures
            b == (self@ is Float),
            b == self.spec_f64_bits().is_some(),
    {
        match self.repr {
            Repr::Float(_) => true,
            _ => false,
        }
    }

    /// The hash of the number.
    pub fn hash_code(&self) -> (h: u64)
        ensures
            h == number_hash(self@),
    {
        proof {
            use_type_invariant(self);
        }
        match self.repr {
            Repr::PosInt(u) => mix_word(mix_word(HASH_SEED, 2), u),
            Repr::NegInt(i) => mix_word(mix_word(HASH_SEED, 7), (-(i + 1)) as u64),
            Repr::Float(bits) => {
                let magnitude: u64 = bits & 0x7fff_ffff_ffff_ffffu64;
                let canonical: u64 = if magnitude > 0x7ff0_0000_0000_0000u64 {
                    0x7ff8_0000_0000_0000u64
                } else if magnitude == 0 {
                    0u64
                } else {
                    bits
                };
                mix_word(mix_word(HASH_SEED, 8), canonical)
            },
        }
    }

    /// Whether the number is a floating-point NaN.
    pub fn is_nan(&self) -> (b: bool)
        ensures
            b == (self@ == NumberView::Float(0x7ff8_0000_0000_0000u64)),
    {
        match self.repr {
            Repr::Float(bits) => {
                proof {
                    lemma_canonical_bits(bits, 0x7ff8_0000_0000_0000u64);
                }
                (bits & 0x7fff_ffff_ffff_ffffu64) > 0x7ff0_0000_0000_0000u64
            },
            _ => false,
        }
    }
}

impl PartialEq for Number {
    /// Integers are equal by value. Floating-point numbers are equal as IEEE
    /// 754 has it, but that a NaN equals every NaN.
    fn eq(&self, other: &Number) -> (b: bool) {
        proof {
            use_type_invariant(self);
            use_type_invariant(other);
        }
        match (self.repr, other.repr) {
            (Repr::PosInt(a), Repr::PosInt(b)) => a == b,
            (Repr::NegInt(a), Repr::NegInt(b)) => a == b,
            (Repr::Float(a), Repr::Float(b)) => {
                proof {
                    lemma_canonical_bits(a, b);
                }
                let am: u64 = a & 0x7fff_ffff_ffff_ffffu64;
                let bm: u64 = b & 0x7fff_ffff_ffff_ffffu64;
                if am > 0x7ff0_0000_0000_0000u64 || bm > 0x7ff0_0000_0000_0000u64 {
                    am > 0x7ff0_0000_0000_0000u64 && bm > 0x7ff0_0000_0000_0000u64
                } else if am == 0 || bm == 0 {
                    am == 0 && bm == 0
                } else {
                    a == b
                }
            },
            _ => false,
        }
    }
}

impl vstd::std_specs::cmp::PartialEqSpecImpl for Number {
    open spec fn obeys_eq_spec() -> bool {
        true
    }

    open spec fn eq_spec(&self, other: &Number) -> bool {
        self@ == other@
    }
}

impl Eq for Number {

}

impl PartialOrd for Number {
    /// Integers by value, every integer below every floating-point number,
    /// and floating-point numbers as IEEE 754 has it, but that a NaN equals
    /// every NaN.
    fn partial_cmp(&self, other: &Number) -> (r: Option<Ordering>) {
        proof {
            use_type_invariant(self);
            use_type_invariant(other);
        }
        match (self.repr, other.repr) {
            (Repr::PosInt(a), Repr::PosInt(b)) => if a < b {
                Some(Ordering::Less)
            } else if a > b {
                Some(Ordering::Greater)
            } else {
                Some(Ordering::Equal)
            },
            (Repr::NegInt(a), Repr::NegInt(b)) => if a < b {
                Some(Ordering::Less)
            } else if a > b {
                Some(Ordering::Greater)
            } else {
                Some(Ordering::Equal)
            },
            (Repr::NegInt(_), Repr::PosInt(_)) => Some(Ordering::Less),
            (Repr::PosInt(_), Repr::NegInt(_)) => Some(Ordering::Greater),
            (Repr::Float(a), Repr::Float(b)) => float_bits_order(a, b),
            (_, Repr::Float(_)) => Some(Ordering::Less),
            (Repr::Float(_), _) => Some(Ordering::Greater),
        }
    }
}

impl vstd::std_specs::cmp::PartialOrdSpecImpl for Number {
    open spec fn obeys_partial_cmp_spec() -> bool {
        true
    }

    open spec fn partial_cmp_spec(&self, other: &Number) -> Option<Ordering> {
        number_order(self@, other@)
    }
}

impl core::hash::Hash for Number {
    /// Feeds the hash of the number, so that equal numbers hash alike.
    fn hash<H: core::hash::Hasher>(&self, state: &mut H) {
        write_u64(state, self.hash_code());
    }
}

} // verus!
