use vstd::prelude::*;

verus! {

/// Utility value of a candidate action: either a finite fixed-point amount
/// (scaled by `SCALE` in `def`), or one of the two infinities the evaluator
/// uses to force or forbid a choice.
#[derive(Debug, Clone, Copy, PartialEq, Eq, Structural)]
pub enum Util {
    NegInf,
    Fin(i128),
    PosInf,
}

/// Total order on utilities: `NegInf` below every finite value, `PosInf`
/// above every finite value.
pub open spec fn util_le(a: Util, b: Util) -> bool {
    match (a, b) {
        (Util::NegInf, _) => true,
        (_, Util::PosInf) => true,
        (Util::Fin(x), Util::Fin(y)) => x <= y,
        (Util::Fin(_), Util::NegInf) => false,
        (Util::PosInf, Util::Fin(_)) => false,
        (Util::PosInf, Util::NegInf) => false,
    }
}

pub open spec fn util_lt(a: Util, b: Util) -> bool {
    !util_le(b, a)
}

impl Util {
    /// Comparison used by the selection policy.
    pub fn le(&self, o: &Util) -> (r: bool)
        ensures
            r == util_le(*self, *o),
    {
        match (self, o) {
            (Util::NegInf, _) => true,
            (_, Util::PosInf) => true,
            (Util::Fin(x), Util::Fin(y)) => x <= y,
            _ => false,
        }
    }

    pub fn lt(&self, o: &Util) -> (r: bool)
        ensures
            r == util_lt(*self, *o),
    {
        !o.le(self)
    }
}

/// Mathematical power of two.
pub open spec fn p2(e: nat) -> int
    decreases e,
{
    if e == 0 {
        1
    } else {
        2 * p2((e - 1) as nat)
    }
}

pub proof fn lemma_p2_pos(e: nat)
    ensures
        p2(e) >= 1,
    decreases e,
{
    if e > 0 {
        lemma_p2_pos((e - 1) as nat);
    }
}

pub proof fn lemma_p2_mono(a: nat, b: nat)
    requires
        a <= b,
    ensures
        p2(a) <= p2(b),
    decreases b,
{
    if a < b {
        lemma_p2_mono(a, (b - 1) as nat);
        lemma_p2_pos((b - 1) as nat);
    }
}

/// Executable power of two; the investment level stays at most 20, so the
/// bound 62 is never tight in practice.
pub fn pow2_i64(e: usize) -> (r: i64)
    requires
        e <= 62,
    ensures
        r == p2(e as nat),
        r >= 1,
    decreases e,
{
    if e == 0 {
        1
    } else {
        let prev: i64 = pow2_i64(e - 1);
        proof {
            lemma_p2_mono((e - 1) as nat, 61);
            lemma_p2_61();
        }
        2 * prev
    }
}

pub proof fn lemma_p2_61()
    ensures
        p2(61) == 0x2000_0000_0000_0000,
{
    reveal_with_fuel(p2, 62);
}

pub proof fn lemma_p2_20()
    ensures
        p2(20) == 0x10_0000,
{
    reveal_with_fuel(p2, 21);
}

/// Product of two non-negative bounded values is bounded by the product of
/// the bounds.
pub proof fn lemma_mul_bound(a: int, b: int, amax: int, bmax: int)
    by (nonlinear_arith)
    requires
        0 <= a <= amax,
        0 <= b <= bmax,
    ensures
        0 <= a * b <= amax * bmax,
{
}

/// Floor division of non-negative values, exact in the mathematical sense.
pub fn div_nn(a: i128, b: i128) -> (r: i128)
    requires
        0 <= a,
        1 <= b,
    ensures
        r == a as int / b as int,
        0 <= r <= a,
{
    let ua: u128 = a as u128;
    let ub: u128 = b as u128;
    let q: u128 = ua / ub;
    proof {
        assert(ua as int / ub as int <= ua) by (nonlinear_arith)
            requires ua >= 0 && ub >= 1;
    }
    q as i128
}

/// Truncating division (toward zero), the semantics of the `/` operator on
/// machine integers.
pub open spec fn spec_trunc_div(a: int, b: int) -> int {
    if a >= 0 {
        a / b
    } else {
        -((-a) / b)
    }
}

/// Truncating division with a bound carried through: the quotient's
/// magnitude never exceeds the dividend's bound divided by the divisor.
pub fn trunc_div(a: i128, b: i128) -> (r: i128)
    requires
        1 <= b,
        a != i128::MIN,
    ensures
        r == spec_trunc_div(a as int, b as int),
        forall|c: int| 0 <= c && -(#[trigger] (c * b)) <= a <= c * b ==> -c <= r <= c,
{
    let r: i128 = if a >= 0 {
        div_nn(a, b)
    } else {
        -div_nn(-a, b)
    };
    proof {
        assert forall|c: int| 0 <= c && -(#[trigger] (c * b)) <= a <= c * b implies -c <= r <= c by {
            vstd::arithmetic::div_mod::lemma_div_multiples_vanish(c, b as int);
            if a >= 0 {
                vstd::arithmetic::div_mod::lemma_div_is_ordered(a as int, c * b, b as int);
            } else {
                vstd::arithmetic::div_mod::lemma_div_is_ordered(-(a as int), c * b, b as int);
            }
        }
    }
    r
}

/// Rounded division (half away from zero), matching `f64::round` of the
/// exact quotient.
pub open spec fn spec_round_div(a: int, b: int) -> int {
    if a >= 0 {
        (2 * a + b) / (2 * b)
    } else {
        -((2 * -a + b) / (2 * b))
    }
}

pub fn round_div(a: i128, b: i128) -> (r: i128)
    requires
        1 <= b <= 0x1_0000_0000_0000_0000_0000_0000,
        -0x1_0000_0000_0000_0000_0000_0000 <= a <= 0x1_0000_0000_0000_0000_0000_0000,
    ensures
        r == spec_round_div(a as int, b as int),
{
    if a >= 0 {
        div_nn(2 * a + b, 2 * b)
    } else {
        -div_nn(2 * -a + b, 2 * b)
    }
}

} // verus!
