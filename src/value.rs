use vstd::prelude::*;
use vstd::arithmetic::power2::{pow2, lemma_pow2_unfold, lemma_pow2_pos, lemma2_to64};

verus! {

/// A value as the host sees it.
#[derive(Debug, PartialEq)]
pub enum DynValue {
    /// The absent marker.
    Absent,
    Bool(bool),
    Num(Number),
    Text(String),
    /// A tagged object: `_type` is `tag`, then the named fields in order.
    Object { tag: String, fields: Vec<(String, DynValue)> },
    /// A tagged object that also holds `items` at indices `0..n` and a
    /// `length` of `n`.
    Indexed { tag: String, fields: Vec<(String, DynValue)>, items: Vec<DynValue> },
}

impl DynValue {
    /// The `_type` tag, where the value has one.
    pub open spec fn tag(&self) -> Option<Seq<char>> {
        match self {
            DynValue::Object { tag, .. } => Some(tag@),
            DynValue::Indexed { tag, .. } => Some(tag@),
            _ => None,
        }
    }

    /// The `length` field, where the value has one.
    pub open spec fn length(&self) -> Option<nat> {
        match self {
            DynValue::Indexed { items, .. } => Some(items@.len()),
            _ => None,
        }
    }
}

/// The largest integer below which every integer is a double exactly.
pub const EXACT_LIMIT: u64 = 0x20_0000_0000_0000;

/// A non-negative integer held as a double-precision number does:
/// `mantissa * 2^exponent`, with `mantissa <= 2^53`.
#[derive(Debug, Clone, Copy, PartialEq, Eq)]
pub struct Number {
    pub mantissa: u64,
    pub exponent: u32,
}

impl Number {
    pub open spec fn value(&self) -> nat {
        self.mantissa as nat * pow2(self.exponent as nat)
    }
}

/// The exponent at which `x` is rounded: the first `e` from `from` on with
/// `x / 2^e < 2^53`.
pub open spec fn scale_from(x: nat, e: nat) -> nat
    decreases 64 - e,
{
    if e >= 64 || x / pow2(e) < EXACT_LIMIT as nat {
        e
    } else {
        scale_from(x, e + 1)
    }
}

/// `x` rounded to a multiple of `d`, halfway cases to an even multiple.
pub open spec fn round_half_even(x: nat, d: nat) -> nat
    recommends
        d > 0,
{
    let q = x / d;
    let r = x % d;
    if 2 * r > d || (2 * r == d && q % 2 == 1) {
        (q + 1) * d
    } else {
        q * d
    }
}

/// The double nearest to `x`, ties to even: exact below `2^53`, lossy above.
pub open spec fn double_value(x: nat) -> nat {
    round_half_even(x, pow2(scale_from(x, 0)))
}

/// The number that a 64-bit unsigned integer becomes as a double.
pub fn number_from_u64(x: u64) -> (n: Number)
    ensures
        n.value() == double_value(x as nat),
        n.mantissa <= EXACT_LIMIT,
{
    let mut d: u64 = 1;
    let mut e: u32 = 0;
    proof {
        lemma2_to64();
    }
    while x / d >= EXACT_LIMIT
        invariant
            d as nat == pow2(e as nat),
            e <= 11,
            d <= 0x800,
            d > 0,
            scale_from(x as nat, e as nat) == scale_from(x as nat, 0),
        decreases 11 - e,
    {
        proof {
            lemma2_to64();
            assert(d * EXACT_LIMIT <= x) by (nonlinear_arith)
                requires
                    x / d >= EXACT_LIMIT,
                    d > 0,
            ;
            assert(d < 0x800) by (nonlinear_arith)
                requires
                    d * EXACT_LIMIT <= x,
                    x <= u64::MAX,
                    EXACT_LIMIT == 0x20_0000_0000_0000u64,
            ;
            if e == 11 {
                assert(pow2(11) == 0x800);
            }
            lemma_pow2_unfold((e + 1) as nat);
        }
        d = d * 2;
        e = e + 1;
    }
    assert(scale_from(x as nat, e as nat) == e);
    let q = x / d;
    let r = x % d;
    let m = if 2 * r > d || (2 * r == d && q % 2 == 1) {
        q + 1
    } else {
        q
    };
    Number { mantissa: m, exponent: e }
}

/// Numeric conversion of a 32-bit unsigned integer: always exact.
pub fn number_from_u32(x: u32) -> (n: Number)
    ensures
        n.value() == x as nat,
        n.mantissa <= EXACT_LIMIT,
{
    let n = Number { mantissa: x as u64, exponent: 0 };
    proof {
        lemma2_to64();
        assert(n.value() == x as nat * 1);
    }
    n
}

/// Converting `2^53` and `2^53 + 1` gives one and the same number: the
/// precision of a double ends at `2^53`, and every integer below it is exact.
pub proof fn lemma_precision_boundary(x: u64)
    ensures
        double_value(EXACT_LIMIT as nat) == EXACT_LIMIT as nat,
        double_value(EXACT_LIMIT as nat + 1) == EXACT_LIMIT as nat,
        x < EXACT_LIMIT ==> double_value(x as nat) == x as nat,
{
    lemma2_to64();
    let a = EXACT_LIMIT as nat;
    assert(scale_from(a, 1) == 1);
    assert(scale_from(a, 0) == 1);
    assert(scale_from(a + 1, 1) == 1);
    assert(scale_from(a + 1, 0) == 1);
    assert(scale_from(x as nat, 0) == 0 ==> double_value(x as nat) == x as nat);
}

} // verus!
