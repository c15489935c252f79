//! Exact decimal numbers.
//!
//! A value is a mantissa over a power-of-ten scale, kept normalized so that
//! every representable number has exactly one form. The arithmetic here is
//! exact: an operation either returns the true decimal result or reports
//! that the result has no representation within the bounds.

use vstd::prelude::*;

verus! {

/// Largest mantissa magnitude a well-formed decimal may carry.
pub const MANTISSA_LIMIT: i128 = 4_000_000_000_000_000_000;

/// Largest scale (count of fraction digits) a well-formed decimal may carry.
pub const SCALE_LIMIT: u32 = 18;

/// Ten to the `n`.
pub open spec fn pow10(n: nat) -> int
    decreases n,
{
    if n == 0 {
        1
    } else {
        10 * pow10((n - 1) as nat)
    }
}

/// Magnitude of an integer.
pub open spec fn iabs(x: int) -> nat {
    if x >= 0 {
        x as nat
    } else {
        (-x) as nat
    }
}

/// The normal form of `m / 10^s`: trailing zero digits are moved out of the
/// scale, and zero always stands at scale zero.
pub open spec fn norm_of(m: nat, s: nat) -> (nat, nat)
    decreases s,
{
    if m == 0 {
        (0, 0)
    } else if s > 0 && m % 10 == 0 {
        norm_of(m / 10, (s - 1) as nat)
    } else {
        (m, s)
    }
}

/// An exact decimal number with value `m / 10^s`.
#[derive(Clone, Copy, Debug, PartialEq, Eq, Structural)]
pub struct Dec {
    pub m: i128,
    pub s: u32,
}

impl Dec {
    /// Well-formed: bounded, and in normal form.
    pub open spec fn wf(self) -> bool {
        &&& iabs(self.m as int) <= MANTISSA_LIMIT as int
        &&& self.s <= SCALE_LIMIT
        &&& (self.s > 0 ==> iabs(self.m as int) % 10 != 0)
        &&& (self.m == 0 ==> self.s == 0)
    }

    /// The value scaled to a whole number of 10^-18 units.
    pub open spec fn sc(self) -> int {
        self.m * pow10((SCALE_LIMIT - self.s) as nat)
    }

    /// The zero decimal.
    pub open spec fn spec_zero() -> Dec {
        Dec { m: 0, s: 0 }
    }

    pub fn zero() -> (r: Dec)
        ensures
            r == Dec::spec_zero(),
            r.wf(),
            r.sc() == 0,
    {
        proof {
            lemma_pow10_positive(18);
        }
        Dec { m: 0, s: 0 }
    }
}

/// A scaled value has a bounded normal form.
pub open spec fn fits(x: int) -> bool {
    norm_of(iabs(x), SCALE_LIMIT as nat).0 <= MANTISSA_LIMIT as int
}

/// Multiplication by a positive factor cancels.
pub proof fn lemma_cancel_mul(u: int, v: int, w: int)
    requires
        w > 0,
        u * w == v * w,
    ensures
        u == v,
{
    assert(u == v) by (nonlinear_arith)
        requires
            w > 0,
            u * w == v * w,
    ;
}

pub proof fn lemma_pow10_positive(n: nat)
    ensures
        pow10(n) >= 1,
    decreases n,
{
    if n > 0 {
        lemma_pow10_positive((n - 1) as nat);
    }
}

pub proof fn lemma_pow10_increases(a: nat, b: nat)
    requires
        a <= b,
    ensures
        pow10(a) <= pow10(b),
    decreases b,
{
    if a < b {
        lemma_pow10_increases(a, (b - 1) as nat);
        lemma_pow10_positive((b - 1) as nat);
    }
}

pub proof fn lemma_pow10_adds(a: nat, b: nat)
    ensures
        pow10(a + b) == pow10(a) * pow10(b),
    decreases a,
{
    if a == 0 {
    } else {
        lemma_pow10_adds((a - 1) as nat, b);
        assert(pow10(a + b) == 10 * pow10((a + b - 1) as nat));
        assert(10 * (pow10((a - 1) as nat) * pow10(b)) == (10 * pow10((a - 1) as nat)) * pow10(b))
            by (nonlinear_arith);
    }
}

/// Concrete values of the powers of ten up to the 18th.
pub proof fn lemma_pow10_values()
    ensures
        pow10(0) == 1,
        pow10(1) == 10,
        pow10(2) == 100,
        pow10(3) == 1000,
        pow10(4) == 10000,
        pow10(5) == 100000,
        pow10(6) == 1000000,
        pow10(7) == 10000000,
        pow10(8) == 100000000,
        pow10(9) == 1000000000,
        pow10(10) == 10000000000,
        pow10(11) == 100000000000,
        pow10(12) == 1000000000000,
        pow10(13) == 10000000000000,
        pow10(14) == 100000000000000,
        pow10(15) == 1000000000000000,
        pow10(16) == 10000000000000000,
        pow10(17) == 100000000000000000,
        pow10(18) == 1000000000000000000,
{
    assert(pow10(0) == 1);
    assert(pow10(1) == 10);
    assert(pow10(2) == 100);
    assert(pow10(3) == 1000);
    assert(pow10(4) == 10000);
    assert(pow10(5) == 100000);
    assert(pow10(6) == 1000000);
    assert(pow10(7) == 10000000);
    assert(pow10(8) == 100000000);
    assert(pow10(9) == 1000000000);
    assert(pow10(10) == 10000000000);
    assert(pow10(11) == 100000000000);
    assert(pow10(12) == 1000000000000);
    assert(pow10(13) == 10000000000000);
    assert(pow10(14) == 100000000000000);
    assert(pow10(15) == 1000000000000000);
    assert(pow10(16) == 10000000000000000);
    assert(pow10(17) == 100000000000000000);
    assert(pow10(18) == 1000000000000000000);
}

/// Ten to the `n`, executable.
pub fn pow10_u128(n: u32) -> (r: u128)
    requires
        n <= 36,
    ensures
        r as int == pow10(n as nat),
{
    proof {
        lemma_pow10_values();
        lemma_pow10_39();
    }
    match n {
        0 => 1,
        1 => 10,
        2 => 100,
        3 => 1000,
        4 => 10000,
        5 => 100000,
        6 => 1000000,
        7 => 10000000,
        8 => 100000000,
        9 => 1000000000,
        10 => 10000000000,
        11 => 100000000000,
        12 => 1000000000000,
        13 => 10000000000000,
        14 => 100000000000000,
        15 => 1000000000000000,
        16 => 10000000000000000,
        17 => 100000000000000000,
        18 => 1000000000000000000,
        19 => 10000000000000000000,
        20 => 100000000000000000000,
        21 => 1000000000000000000000,
        22 => 10000000000000000000000,
        23 => 100000000000000000000000,
        24 => 1000000000000000000000000,
        25 => 10000000000000000000000000,
        26 => 100000000000000000000000000,
        27 => 1000000000000000000000000000,
        28 => 10000000000000000000000000000,
        29 => 100000000000000000000000000000,
        30 => 1000000000000000000000000000000,
        31 => 10000000000000000000000000000000,
        32 => 100000000000000000000000000000000,
        33 => 1000000000000000000000000000000000,
        34 => 10000000000000000000000000000000000,
        35 => 100000000000000000000000000000000000,
        _ => 1000000000000000000000000000000000000,
    }
}

/// Normal forms keep the value: the stripped mantissa at the reduced scale
/// stands for the same number, and stays within the starting magnitude.
pub proof fn lemma_norm_of_value(m: nat, s: nat)
    ensures
        norm_of(m, s).0 * pow10(s) == m * pow10(norm_of(m, s).1),
        norm_of(m, s).1 <= s || m == 0,
        norm_of(m, s).0 <= m,
        norm_of(m, s).0 == 0 ==> m == 0,
        m != 0 ==> (norm_of(m, s).1 > 0 ==> norm_of(m, s).0 % 10 != 0),
        m == 0 ==> norm_of(m, s) == (0nat, 0nat),
    decreases s,
{
    if m == 0 {
    } else if s > 0 && m % 10 == 0 {
        let m1 = m / 10;
        lemma_norm_of_value(m1, (s - 1) as nat);
        let (nm, ns) = norm_of(m1, (s - 1) as nat);
        assert(m == 10 * m1) by {
            vstd::arithmetic::div_mod::lemma_fundamental_div_mod(m as int, 10);
        }
        assert(nm * pow10(s) == 10 * (nm * pow10((s - 1) as nat))) by {
            assert(pow10(s) == 10 * pow10((s - 1) as nat));
            assert(nm * (10 * pow10((s - 1) as nat)) == 10 * (nm * pow10((s - 1) as nat)))
                by (nonlinear_arith);
        }
        assert(10 * (m1 * pow10(ns)) == (10 * m1) * pow10(ns)) by (nonlinear_arith);
    } else {
    }
}

/// Builds the well-formed decimal with value `±mag / 10^s`, if it fits.
pub fn make_dec(neg: bool, mag: u128, s: u32) -> (r: Option<Dec>)
    requires
        mag <= 0xffff_ffff_ffff_ffff_ffff_ffff_ffff_fffe,
    ensures
        ({
            let nf = norm_of(mag as nat, s as nat);
            match r {
                Option::Some(d) => {
                    &&& d.wf()
                    &&& iabs(d.m as int) == nf.0
                    &&& d.s as nat == nf.1
                    &&& (d.m < 0 <==> (neg && mag != 0))
                },
                Option::None => nf.0 > MANTISSA_LIMIT as int || nf.1 > SCALE_LIMIT as nat,
            }
        }),
{
    let ghost mag0: nat = mag as nat;
    let ghost s0: nat = s as nat;
    let mut mag = mag;
    let mut s = s;
    while s > 0 && mag != 0 && mag % 10 == 0
        invariant
            norm_of(mag as nat, s as nat) == norm_of(mag0, s0),
            mag == 0 <==> mag0 == 0,
        decreases s,
    {
        proof {
            assert(mag >= 10 && mag % 10 == 0 ==> mag / 10 >= 1) by (nonlinear_arith);
        }
        mag = mag / 10;
        s = s - 1;
    }
    proof {
        assert(norm_of(mag as nat, s as nat) == if mag == 0 {
            (0nat, 0nat)
        } else {
            (mag as nat, s as nat)
        });
    }
    if mag == 0 {
        Some(Dec { m: 0, s: 0 })
    } else if s > SCALE_LIMIT || mag > MANTISSA_LIMIT as u128 {
        None
    } else {
        let m: i128 = if neg {
            -(mag as i128)
        } else {
            mag as i128
        };
        proof {
            assert(iabs(m as int) == mag as nat);
        }
        Some(Dec { m, s })
    }
}

/// A well-formed decimal's scaled value stays within `10^36` of either sign.
pub proof fn lemma_sc_bound(d: Dec)
    requires
        d.wf(),
    ensures
        iabs(d.sc()) <= MANTISSA_LIMIT as int * pow10(SCALE_LIMIT as nat),
        iabs(d.sc()) <= 4_000_000_000_000_000_000_000_000_000_000_000_000,
        d.sc() < 0 <==> d.m < 0,
        d.sc() == 0 <==> d.m == 0,
{
    let p = pow10((SCALE_LIMIT - d.s) as nat);
    lemma_pow10_positive((SCALE_LIMIT - d.s) as nat);
    lemma_pow10_increases((SCALE_LIMIT - d.s) as nat, SCALE_LIMIT as nat);
    lemma_pow10_values();
    assert(iabs(d.m * p) <= MANTISSA_LIMIT as int * pow10(SCALE_LIMIT as nat)
        && (d.m * p < 0 <==> d.m < 0) && (d.m * p == 0 <==> d.m == 0)) by (nonlinear_arith)
        requires
            iabs(d.m as int) <= MANTISSA_LIMIT as int,
            1 <= p <= pow10(SCALE_LIMIT as nat),
            p == pow10((SCALE_LIMIT - d.s) as nat),
    ;
    assert(MANTISSA_LIMIT as int * pow10(SCALE_LIMIT as nat)
        == 4_000_000_000_000_000_000_000_000_000_000_000_000) by (nonlinear_arith)
        requires
            pow10(SCALE_LIMIT as nat) == 1000000000000000000,
    ;
}

impl Dec {
    /// The value in whole 10^-18 units, executable.
    pub fn sc_val(&self) -> (r: i128)
        requires
            self.wf(),
        ensures
            r as int == self.sc(),
    {
        let p: i128 = pow10_u128(SCALE_LIMIT - self.s) as i128;
        proof {
            lemma_pow10_positive((SCALE_LIMIT - self.s) as nat);
            lemma_pow10_increases((SCALE_LIMIT - self.s) as nat, SCALE_LIMIT as nat);
            lemma_pow10_values();
            assert(iabs(self.m * p) <= MANTISSA_LIMIT as int * pow10(SCALE_LIMIT as nat))
                by (nonlinear_arith)
                requires
                    iabs(self.m as int) <= MANTISSA_LIMIT as int,
                    1 <= p as int <= pow10(SCALE_LIMIT as nat),
            ;
            assert(MANTISSA_LIMIT as int * pow10(SCALE_LIMIT as nat)
                == 4_000_000_000_000_000_000_000_000_000_000_000_000) by (nonlinear_arith)
                requires
                    pow10(SCALE_LIMIT as nat) == 1000000000000000000,
            ;
        }
        self.m * p
    }
}

/// A decimal built from the normal form of `±mag / 10^s` has exactly the
/// value `±mag / 10^s`.
proof fn lemma_built_value(d: Dec, neg: bool, mag: nat, s: nat)
    requires
        iabs(d.m as int) == norm_of(mag, s).0,
        d.s as nat == norm_of(mag, s).1,
        (d.m < 0 <==> (neg && mag != 0)),
        d.wf(),
    ensures
        d.m * pow10(s) == (if neg {
            -(mag as int)
        } else {
            mag as int
        }) * pow10(d.s as nat),
{
    lemma_norm_of_value(mag, s);
    let nm = norm_of(mag, s).0;
    let ns = norm_of(mag, s).1;
    assert(nm * pow10(s) == mag * pow10(ns));
    if d.m >= 0 {
        assert(d.m as int == nm as int);
        if neg {
            assert(mag == 0);
        }
    } else {
        assert(d.m as int == -(nm as int));
        assert((-(nm as int)) * pow10(s) == -(nm as int * pow10(s))) by (nonlinear_arith);
        assert((-(mag as int)) * pow10(ns) == -(mag as int * pow10(ns))) by (nonlinear_arith);
    }
}

/// From value at the full scale back to the scaled value: a decimal whose
/// mantissa-at-scale-`SCALE_LIMIT` is `x` has `sc` exactly `x`.
proof fn lemma_sc_from_full_scale(d: Dec, x: int)
    requires
        d.wf(),
        d.m * pow10(SCALE_LIMIT as nat) == x * pow10(d.s as nat),
    ensures
        d.sc() == x,
{
    let e = (SCALE_LIMIT - d.s) as nat;
    lemma_pow10_adds(e, d.s as nat);
    let pe = pow10(e);
    let ps = pow10(d.s as nat);
    lemma_pow10_positive(d.s as nat);
    assert(d.m * (pe * ps) == (d.m * pe) * ps) by (nonlinear_arith);
    assert((d.m * pe) * ps == x * ps);
    lemma_cancel_mul(d.sc(), x, ps);
}

/// The sum of two decimals, exactly, or `None` when the sum has no
/// representation within the bounds.
pub fn dec_add(a: Dec, b: Dec) -> (r: Option<Dec>)
    requires
        a.wf(),
        b.wf(),
    ensures
        match r {
            Option::Some(d) => d.wf() && d.sc() == a.sc() + b.sc(),
            Option::None => !fits(a.sc() + b.sc()),
        },
        r == spec_dec_add(a, b),
{
    proof {
        lemma_sc_bound(a);
        lemma_sc_bound(b);
    }
    let t: i128 = a.sc_val() + b.sc_val();
    let neg: bool = t < 0;
    let mag: u128 = if t < 0 {
        (-t) as u128
    } else {
        t as u128
    };
    proof {
        assert(mag as nat == iabs(t as int));
    }
    let r = make_dec(neg, mag, SCALE_LIMIT);
    proof {
        lemma_norm_of_value(mag as nat, SCALE_LIMIT as nat);
        if let Option::Some(d) = r {
            lemma_built_value(d, neg, mag as nat, SCALE_LIMIT as nat);
            assert((if neg {
                -(mag as int)
            } else {
                mag as int
            }) == t as int);
            lemma_sc_from_full_scale(d, t as int);
            assert(d.sc() == a.sc() + b.sc());
            assert(Option::Some(d) == spec_dec_add(a, b)) by {
                assert(t as int == a.sc() + b.sc());
                let nf = norm_of(iabs(t as int), SCALE_LIMIT as nat);
                assert(iabs(d.m as int) == nf.0 && d.s as nat == nf.1);
                if t < 0 {
                    assert(d.m as int == -(nf.0 as int));
                } else {
                    assert(d.m as int == nf.0 as int);
                    if nf.0 == 0 {
                        assert(d.m == 0);
                    }
                }
            }
        } else {
            assert(norm_of(mag as nat, SCALE_LIMIT as nat).0 > MANTISSA_LIMIT as int);
            assert(!fits(a.sc() + b.sc()));
        }
    }
    r
}

/// The negation of a decimal; always representable.
pub fn dec_neg(a: Dec) -> (r: Dec)
    requires
        a.wf(),
    ensures
        r.wf(),
        r.sc() == -a.sc(),
        r.m as int == -(a.m as int),
        r.s == a.s,
        r == neg_of(a),
{
    let r = Dec { m: -a.m, s: a.s };
    proof {
        assert((-a.m) * pow10((SCALE_LIMIT - a.s) as nat) == -(a.m * pow10(
            (SCALE_LIMIT - a.s) as nat,
        ))) by (nonlinear_arith);
    }
    r
}

/// The difference of two decimals, exactly, or `None` when out of bounds.
pub fn dec_sub(a: Dec, b: Dec) -> (r: Option<Dec>)
    requires
        a.wf(),
        b.wf(),
    ensures
        match r {
            Option::Some(d) => d.wf() && d.sc() == a.sc() - b.sc(),
            Option::None => !fits(a.sc() - b.sc()),
        },
        r == spec_dec_add(a, neg_of(b)),
{
    dec_add(a, dec_neg(b))
}

/// Whether the product of raw mantissas at the summed scale normalizes into
/// bounds; the exact success condition of `dec_mul`.
pub open spec fn prod_fits(a: Dec, b: Dec) -> bool {
    let nf = norm_of(iabs(a.m * b.m), (a.s + b.s) as nat);
    nf.0 <= MANTISSA_LIMIT as int && nf.1 <= SCALE_LIMIT as nat
}

/// The product of two decimals, exactly, or `None` when the product has no
/// representation within the bounds.
pub fn dec_mul(a: Dec, b: Dec) -> (r: Option<Dec>)
    requires
        a.wf(),
        b.wf(),
    ensures
        match r {
            Option::Some(d) => d.wf() && d.sc() * pow10(SCALE_LIMIT as nat) == a.sc() * b.sc(),
            Option::None => !prod_fits(a, b),
        },
        r == spec_dec_mul(a, b),
{
    let ma: u128 = if a.m < 0 {
        (-a.m) as u128
    } else {
        a.m as u128
    };
    let mb: u128 = if b.m < 0 {
        (-b.m) as u128
    } else {
        b.m as u128
    };
    proof {
        assert(ma as nat == iabs(a.m as int) && mb as nat == iabs(b.m as int));
        assert((ma as nat) * (mb as nat) <= MANTISSA_LIMIT as nat * (MANTISSA_LIMIT as nat))
            by (nonlinear_arith)
            requires
                ma as nat <= MANTISSA_LIMIT as nat,
                mb as nat <= MANTISSA_LIMIT as nat,
        ;
        assert(iabs(a.m * b.m) == iabs(a.m as int) * iabs(b.m as int)) by (nonlinear_arith);
    }
    let mag: u128 = ma * mb;
    let neg: bool = (a.m < 0) != (b.m < 0);
    proof {
        assert(a.m * b.m < 0 <==> ((a.m < 0) != (b.m < 0)) && a.m * b.m != 0)
            by (nonlinear_arith);
        assert(a.m * b.m == 0 <==> ma as int * mb as int == 0) by (nonlinear_arith)
            requires
                ma as nat == iabs(a.m as int),
                mb as nat == iabs(b.m as int),
        ;
    }
    let r = make_dec(neg, mag, a.s + b.s);
    proof {
        if let Option::Some(d) = r {
            lemma_built_value(d, neg, mag as nat, (a.s + b.s) as nat);
            let p = a.m * b.m;
            assert((if neg {
                -(mag as int)
            } else {
                mag as int
            }) == p);
            let fa = (SCALE_LIMIT - a.s) as nat;
            let fb = (SCALE_LIMIT - b.s) as nat;
            lemma_pow10_adds(fa, fb);
            assert((a.m * pow10(fa)) * (b.m * pow10(fb)) == (a.m * b.m) * (pow10(fa) * pow10(fb)))
                by (nonlinear_arith);
            assert(a.sc() * b.sc() == p * pow10(fa + fb));
            assert(fa + fb == (2 * SCALE_LIMIT - (a.s + b.s)) as nat);
            lemma_scale_lift(d, p, (a.s + b.s) as nat);
            assert(Option::Some(d) == spec_dec_mul(a, b)) by {
                lemma_norm_of_value(iabs(p), (a.s + b.s) as nat);
                let nf = norm_of(iabs(p), (a.s + b.s) as nat);
                assert(iabs(d.m as int) == nf.0 && d.s as nat == nf.1);
                if p < 0 {
                    assert(d.m as int == -(nf.0 as int));
                } else {
                    assert(d.m as int == nf.0 as int);
                    if nf.0 == 0 {
                        assert(d.m == 0);
                    }
                }
            }
        } else {
            lemma_norm_of_value(iabs(a.m * b.m), (a.s + b.s) as nat);
        }
    }
    r
}

/// From a value identity at a raw scale to one at the full doubled scale:
/// if `d.m / 10^(d.s)` equals `p / 10^sab`, then `d`'s scaled value times
/// `10^SCALE_LIMIT` is `p` brought up to scale `2 * SCALE_LIMIT`.
proof fn lemma_scale_lift(d: Dec, p: int, sab: nat)
    requires
        d.wf(),
        sab <= 2 * SCALE_LIMIT,
        d.m * pow10(sab) == p * pow10(d.s as nat),
    ensures
        d.sc() * pow10(SCALE_LIMIT as nat) == p * pow10((2 * SCALE_LIMIT - sab) as nat),
{
    let s2 = (2 * SCALE_LIMIT) as nat;
    let ds = d.s as nat;
    let k = ds + sab;
    let lhs = d.sc() * pow10(SCALE_LIMIT as nat);
    let rhs = p * pow10((s2 - sab) as nat);
    // lhs * 10^k == d.m * 10^(s2 + sab)
    lemma_pow10_adds((SCALE_LIMIT - d.s) as nat, SCALE_LIMIT as nat + k);
    assert((SCALE_LIMIT - d.s) as nat + (SCALE_LIMIT as nat + k) == s2 + sab);
    lemma_pow10_adds(SCALE_LIMIT as nat, k);
    assert(lhs * pow10(k) == d.m * pow10(s2 + sab)) by (nonlinear_arith)
        requires
            lhs == (d.m * pow10((SCALE_LIMIT - d.s) as nat)) * pow10(SCALE_LIMIT as nat),
            pow10((SCALE_LIMIT - d.s) as nat + (SCALE_LIMIT as nat + k)) == pow10(
                (SCALE_LIMIT - d.s) as nat,
            ) * pow10(SCALE_LIMIT as nat + k),
            pow10(SCALE_LIMIT as nat + k) == pow10(SCALE_LIMIT as nat) * pow10(k),
            pow10((SCALE_LIMIT - d.s) as nat + (SCALE_LIMIT as nat + k)) == pow10(s2 + sab),
    ;
    // rhs * 10^k == p * 10^(s2 + ds)
    lemma_pow10_adds((s2 - sab) as nat, k);
    assert((s2 - sab) as nat + k == s2 + ds);
    assert(rhs * pow10(k) == p * pow10(s2 + ds)) by (nonlinear_arith)
        requires
            rhs == p * pow10((s2 - sab) as nat),
            pow10((s2 - sab) as nat + k) == pow10((s2 - sab) as nat) * pow10(k),
            pow10((s2 - sab) as nat + k) == pow10(s2 + ds),
    ;
    // The premise times 10^s2 connects the two.
    lemma_pow10_adds(sab, s2);
    lemma_pow10_adds(ds, s2);
    assert(d.m * pow10(s2 + sab) == p * pow10(s2 + ds)) by (nonlinear_arith)
        requires
            d.m * pow10(sab) == p * pow10(ds),
            pow10(sab + s2) == pow10(sab) * pow10(s2),
            pow10(ds + s2) == pow10(ds) * pow10(s2),
    ;
    lemma_pow10_positive(k);
    lemma_cancel_mul(lhs, rhs, pow10(k));
}

/// Whether `a` is at most `b`.
pub fn dec_le(a: Dec, b: Dec) -> (r: bool)
    requires
        a.wf(),
        b.wf(),
    ensures
        r == (a.sc() <= b.sc()),
{
    a.sc_val() <= b.sc_val()
}

/// Two well-formed decimals with the same value are the same decimal.
pub proof fn lemma_wf_unique(a: Dec, b: Dec)
    requires
        a.wf(),
        b.wf(),
        a.sc() == b.sc(),
    ensures
        a == b,
{
    if a.s == b.s {
        lemma_pow10_positive((SCALE_LIMIT - a.s) as nat);
        lemma_cancel_mul(a.m as int, b.m as int, pow10((SCALE_LIMIT - a.s) as nat));
        assert(a.m == b.m);
    } else if a.s < b.s {
        lemma_wf_unique_ordered(a, b);
    } else {
        lemma_wf_unique_ordered(b, a);
    }
}

proof fn lemma_wf_unique_ordered(a: Dec, b: Dec)
    requires
        a.wf(),
        b.wf(),
        a.sc() == b.sc(),
        a.s < b.s,
    ensures
        a == b,
{
    let k = (b.s - a.s) as nat;
    let fb = (SCALE_LIMIT - b.s) as nat;
    lemma_pow10_adds(k, fb);
    assert(a.m * pow10((SCALE_LIMIT - a.s) as nat) == a.m * (pow10(k) * pow10(fb)));
    assert(a.m * (pow10(k) * pow10(fb)) == (a.m * pow10(k)) * pow10(fb)) by (nonlinear_arith);
    lemma_pow10_positive(fb);
    lemma_cancel_mul(a.m * pow10(k), b.m as int, pow10(fb));
    assert(b.m == a.m * pow10(k));
    if a.m == 0 {
        assert(b.m == 0) by (nonlinear_arith) requires b.m == a.m * pow10(k), a.m == 0,;
        assert(false);
    } else {
        // b.m is a nonzero multiple of ten, against b's normal form.
        assert(k >= 1);
        lemma_pow10_values();
        lemma_pow10_adds(1, (k - 1) as nat);
        assert(b.m == (a.m * pow10((k - 1) as nat)) * 10) by (nonlinear_arith) requires
            b.m == a.m * pow10(k),
            pow10(k) == pow10(1nat) * pow10((k - 1) as nat),
            pow10(1nat) == 10,
        ;
        let q = a.m * pow10((k - 1) as nat);
        assert(iabs(b.m as int) == iabs(q) * 10) by (nonlinear_arith) requires
            b.m as int == q * 10,
        ;
        assert((iabs(q) * 10) % 10 == 0) by (nonlinear_arith);
        lemma_pow10_positive((k - 1) as nat);
        assert(q != 0) by (nonlinear_arith) requires
            q == a.m * pow10((k - 1) as nat),
            a.m != 0,
            pow10((k - 1) as nat) >= 1,
        ;
        assert(b.m != 0);
        assert(false);
    }
}

/// The quotient of two decimals when it is exactly representable; `None`
/// when no well-formed decimal equals `a / b`. The divisor must not be zero.
pub fn dec_div(a: Dec, b: Dec) -> (r: Option<Dec>)
    requires
        a.wf(),
        b.wf(),
        b.m != 0,
    ensures
        match r {
            Option::Some(d) => d.wf() && d.sc() * b.sc() == a.sc() * pow10(SCALE_LIMIT as nat),
            Option::None => forall|d: Dec|
                d.wf() ==> d.sc() * b.sc() != a.sc() * pow10(SCALE_LIMIT as nat),
        },
{
    proof {
        lemma_sc_bound(a);
        lemma_sc_bound(b);
    }
    if a.m == 0 {
        proof {
            assert(0 * b.sc() == 0 && a.sc() * pow10(SCALE_LIMIT as nat) == 0) by (nonlinear_arith)
                requires
                    a.sc() == 0,
            ;
        }
        return Some(Dec::zero());
    }
    let av: i128 = a.sc_val();
    let bv: i128 = b.sc_val();
    let ua: u128 = if av < 0 {
        (-av) as u128
    } else {
        av as u128
    };
    let ub: u128 = if bv < 0 {
        (-bv) as u128
    } else {
        bv as u128
    };
    let neg: bool = (av < 0) != (bv < 0);
    proof {
        assert(ua as nat == iabs(a.sc()) && ub as nat == iabs(b.sc()));
        assert(ua > 0 && ub > 0);
    }
    let mut q: u128 = ua / ub;
    let mut rem: u128 = ua % ub;
    let mut k: u32 = 0;
    proof {
        lemma_pow10_values();
        assert(ua as nat * pow10(0) == ua as nat);
    }
    while k < SCALE_LIMIT && rem != 0 && q <= MANTISSA_LIMIT as u128
        invariant
            a.wf(),
            b.wf(),
            a.m != 0,
            b.m != 0,
            k <= SCALE_LIMIT,
            ua as nat == iabs(a.sc()),
            ub as nat == iabs(b.sc()),
            ua > 0,
            ub > 0,
            ub <= 4_000_000_000_000_000_000_000_000_000_000_000_000,
            (q as int) == ((ua as nat * pow10(k as nat)) as int) / (ub as int),
            (rem as int) == ((ua as nat * pow10(k as nat)) as int) % (ub as int),
            k > 0 && rem == 0 ==> q % 10 != 0,
            forall|s: nat| s < k as nat ==> ((ua as nat * pow10(s)) as int) % (ub as int) != 0,
        decreases SCALE_LIMIT - k,
    {
        let d10: u128 = rem * 10;
        let dig: u128 = d10 / ub;
        let rem2: u128 = d10 % ub;
        proof {
            assert(rem < ub);
            assert((d10 as int) < 10 * (ub as int)) by (nonlinear_arith)
                requires
                    rem < ub,
                    d10 == rem * 10,
            ;
            assert(dig < 10) by {
                assert((d10 as int) / (ub as int) < 10) by (nonlinear_arith)
                    requires
                        (d10 as int) < 10 * (ub as int),
                        ub > 0,
                ;
            }
            // The division identity advances one digit.
            let n_k = ua as nat * pow10(k as nat);
            let n_k1 = ua as nat * pow10(k as nat + 1);
            assert(n_k1 == n_k * 10) by (nonlinear_arith)
                requires
                    n_k == ua as nat * pow10(k as nat),
                    n_k1 == ua as nat * pow10(k as nat + 1),
                    pow10(k as nat + 1) == 10 * pow10(k as nat),
            ;
            vstd::arithmetic::div_mod::lemma_fundamental_div_mod(n_k as int, ub as int);
            vstd::arithmetic::div_mod::lemma_fundamental_div_mod(d10 as int, ub as int);
            assert(n_k1 == ((q as int) * 10 + (dig as int)) * (ub as int) + (rem2 as int))
                by (nonlinear_arith)
                requires
                    (n_k as int) == (ub as int) * (q as int) + (rem as int),
                    (d10 as int) == (ub as int) * (dig as int) + (rem2 as int),
                    d10 == rem * 10,
                    n_k1 == n_k * 10,
            ;
            vstd::arithmetic::div_mod::lemma_fundamental_div_mod_converse(
                n_k1 as int,
                ub as int,
                (q as int) * 10 + (dig as int),
                rem2 as int,
            );
            // The appended digit keeps the mantissa free of a trailing zero.
            if rem2 == 0 {
                assert(dig != 0) by (nonlinear_arith)
                    requires
                        (d10 as int) == (ub as int) * (dig as int) + (rem2 as int),
                        rem2 == 0,
                        d10 == rem * 10,
                        rem != 0,
                ;
            }
            assert(((q as int) * 10 + (dig as int)) % 10 == (dig as int)) by (nonlinear_arith)
                requires
                    dig < 10,
            ;
        }
        q = q * 10 + dig;
        rem = rem2;
        k = k + 1;
    }
    if rem != 0 || q > MANTISSA_LIMIT as u128 {
        proof {
            assert forall|d: Dec| d.wf() implies d.sc() * b.sc() != a.sc() * pow10(
                SCALE_LIMIT as nat,
            ) by {
                lemma_div_no_rep(a, b, d, ua as nat, ub as nat, q as nat, rem as nat, k as nat);
            }
        }
        None
    } else {
        let m: i128 = if neg {
            -(q as i128)
        } else {
            q as i128
        };
        let d = Dec { m, s: k };
        proof {
            lemma_pow10_positive(k as nat);
            vstd::arithmetic::div_mod::lemma_fundamental_div_mod(
                ((ua as nat) * pow10(k as nat)) as int,
                ub as int,
            );
            assert((ua as nat) * pow10(k as nat) >= 1) by (nonlinear_arith)
                requires
                    ua >= 1,
                    pow10(k as nat) >= 1,
            ;
            assert(q > 0) by (nonlinear_arith)
                requires
                    ((ua as nat) * pow10(k as nat)) as int == (ub as int) * (q as int) + (
                    rem as int),
                    (ua as nat) * pow10(k as nat) >= 1,
                    rem == 0,
            ;
            assert(iabs(m as int) == q as nat && (m < 0 <==> neg));
            assert(d.wf());
            lemma_div_exact(a, b, d, ua as nat, ub as nat, q as nat, k as nat, neg);
        }
        Some(d)
    }
}

/// When long division ends exactly, the built decimal is the true quotient.
proof fn lemma_div_exact(a: Dec, b: Dec, d: Dec, ua: nat, ub: nat, q: nat, k: nat, neg: bool)
    requires
        a.wf(),
        b.wf(),
        a.m != 0,
        b.m != 0,
        d.wf(),
        ua == iabs(a.sc()),
        ub == iabs(b.sc()),
        iabs(d.m as int) == q,
        d.s as nat == k,
        k <= SCALE_LIMIT,
        (q as int) == ((ua * pow10(k)) as int) / (ub as int),
        0 == ((ua * pow10(k)) as int) % (ub as int),
        neg == ((a.sc() < 0) != (b.sc() < 0)),
        (d.m < 0 <==> neg),
    ensures
        d.sc() * b.sc() == a.sc() * pow10(SCALE_LIMIT as nat),
{
    lemma_pow10_positive(k);
    lemma_sc_bound(a);
    lemma_sc_bound(b);
    assert(ub > 0);
    vstd::arithmetic::div_mod::lemma_fundamental_div_mod((ua * pow10(k)) as int, ub as int);
    assert(ua * pow10(k) == ub * q);
    // Magnitudes: |d.sc()| * |b.sc()| == |a.sc()| * 10^SCALE_LIMIT.
    let e = (SCALE_LIMIT as nat - k) as nat;
    lemma_pow10_adds(e, k);
    lemma_pow10_positive(e);
    assert(iabs(d.sc()) == q * pow10(e)) by (nonlinear_arith)
        requires
            iabs(d.m as int) == q,
            d.sc() == d.m * pow10(e),
            pow10(e) >= 1,
        ;
    assert(iabs(d.sc()) * ub == (ub * q) * pow10(e)) by (nonlinear_arith)
        requires
            iabs(d.sc()) == q * pow10(e),
        ;
    assert((ua * pow10(k)) * pow10(e) == ua * pow10(SCALE_LIMIT as nat)) by (nonlinear_arith)
        requires
            pow10(e + k) == pow10(e) * pow10(k),
            e + k == SCALE_LIMIT as nat,
        ;
    assert((ub * q) * pow10(e) == (ua * pow10(k)) * pow10(e));
    assert(iabs(d.sc()) * ub == ua * pow10(SCALE_LIMIT as nat));
    // Signs: d's sign was chosen so the products agree.
    lemma_sc_bound(d);
    assert(q > 0) by (nonlinear_arith)
        requires
            ua * pow10(k) == ub * q,
            ua >= 1,
            pow10(k) >= 1,
    ;
    assert(d.m != 0);
    assert(d.sc() * b.sc() == a.sc() * pow10(SCALE_LIMIT as nat)) by (nonlinear_arith)
        requires
            iabs(d.sc()) * ub == ua * pow10(SCALE_LIMIT as nat),
            ua == iabs(a.sc()),
            ub == iabs(b.sc()),
            a.sc() != 0,
            b.sc() != 0,
            pow10(SCALE_LIMIT as nat) > 0,
            (d.sc() < 0 <==> ((a.sc() < 0) != (b.sc() < 0))),
            (d.sc() == 0 <==> d.m == 0),
            d.m != 0,
        ;
}

/// When long division gives up, no well-formed decimal is the quotient.
proof fn lemma_div_no_rep(a: Dec, b: Dec, d: Dec, ua: nat, ub: nat, q: nat, rem: nat, k: nat)
    requires
        a.wf(),
        b.wf(),
        a.m != 0,
        b.m != 0,
        d.wf(),
        ua == iabs(a.sc()),
        ub == iabs(b.sc()),
        ua > 0,
        ub > 0,
        k <= SCALE_LIMIT,
        (q as int) == ((ua * pow10(k)) as int) / (ub as int),
        (rem as int) == ((ua * pow10(k)) as int) % (ub as int),
        forall|s: nat| s < k ==> ((ua * pow10(s)) as int) % (ub as int) != 0,
        rem != 0 || q > MANTISSA_LIMIT as nat,
        rem != 0 ==> k == SCALE_LIMIT as nat || q > MANTISSA_LIMIT as nat,
    ensures
        d.sc() * b.sc() != a.sc() * pow10(SCALE_LIMIT as nat),
{
    if d.sc() * b.sc() != a.sc() * pow10(SCALE_LIMIT as nat) {
        return;
    }
    let ds = d.s as nat;
    let md = iabs(d.m as int);
    // From the value identity, |d.m| * ub == ua * 10^ds.
    lemma_sc_bound(a);
    lemma_sc_bound(b);
    lemma_sc_bound(d);
    let e = (SCALE_LIMIT as nat - ds) as nat;
    lemma_pow10_positive(e);
    assert(iabs(d.sc() * b.sc()) == iabs(d.sc()) * ub) by (nonlinear_arith)
        requires
            ub == iabs(b.sc()),
    ;
    assert(iabs(a.sc() * pow10(SCALE_LIMIT as nat)) == ua * pow10(SCALE_LIMIT as nat))
        by (nonlinear_arith)
        requires
            ua == iabs(a.sc()),
            pow10(SCALE_LIMIT as nat) > 0,
    ;
    assert(iabs(d.sc()) == md * pow10(e)) by (nonlinear_arith)
        requires
            d.sc() == d.m * pow10(e),
            md == iabs(d.m as int),
            pow10(e) >= 1,
    ;
    lemma_pow10_adds(e, ds);
    assert((md * ub) * pow10(e) == (ua * pow10(ds)) * pow10(e)) by (nonlinear_arith)
        requires
            (md * pow10(e)) * ub == ua * pow10(SCALE_LIMIT as nat),
            pow10(e + ds) == pow10(e) * pow10(ds),
            e + ds == SCALE_LIMIT as nat,
    ;
    lemma_pow10_positive(e);
    lemma_cancel_mul((md * ub) as int, (ua * pow10(ds)) as int, pow10(e));
    assert(md * ub == ua * pow10(ds));
    // So ub divides ua * 10^ds, with quotient |d.m|.
    assert(((ua * pow10(ds)) as int) % (ub as int) == 0 && ((ua * pow10(ds)) as int) / (ub as int) == md) by {
        vstd::arithmetic::div_mod::lemma_fundamental_div_mod_converse(
            (ua * pow10(ds)) as int,
            ub as int,
            md as int,
            0,
        );
        assert(ua * pow10(ds) == ub * md + 0) by (nonlinear_arith)
            requires
                md * ub == ua * pow10(ds),
        ;
    }
    // The loop found no exact scale below k, so ds is at least k.
    assert(ds >= k);
    if rem != 0 && k == SCALE_LIMIT as nat && !(q > MANTISSA_LIMIT as nat) {
        // ds <= SCALE_LIMIT == k and ds >= k force ds == k, where the
        // remainder is not zero.
        assert(ds == k);
        assert(false);
    } else {
        // Otherwise the quotient had already outgrown the mantissa bound,
        // and it only grows with the scale.
        assert(q > MANTISSA_LIMIT as nat || ds == k);
        if q > MANTISSA_LIMIT as nat {
            lemma_pow10_increases(k, ds);
            assert(ua * pow10(k) <= ua * pow10(ds)) by (nonlinear_arith)
                requires
                    pow10(k) <= pow10(ds),
                    ua > 0,
            ;
            vstd::arithmetic::div_mod::lemma_div_is_ordered(
                (ua * pow10(k)) as int,
                (ua * pow10(ds)) as int,
                ub as int,
            );
            assert(md >= q);
            assert(md > MANTISSA_LIMIT as nat);
            assert(false);
        } else {
            assert(false);
        }
    }
}

/// The whole number a decimal stands for, when it is one.
pub fn dec_to_i64(d: Dec) -> (r: Option<i64>)
    requires
        d.wf(),
    ensures
        match r {
            Option::Some(v) => d.s == 0 && v as int == d.m as int,
            Option::None => d.s != 0,
        },
{
    if d.s == 0 {
        Some(d.m as i64)
    } else {
        None
    }
}

} // verus!

use vstd::prelude::*;

verus! {

/// Whether `c` is a decimal digit.
pub open spec fn is_digit(c: char) -> bool {
    48 <= c as u32 <= 57
}

/// The numeric value of a digit character.
pub open spec fn digit_val(c: char) -> nat {
    ((c as u32) - 48) as nat
}

/// The digit character for `n` below ten.
pub open spec fn digit_char(n: nat) -> char {
    if n == 0 {
        '0'
    } else if n == 1 {
        '1'
    } else if n == 2 {
        '2'
    } else if n == 3 {
        '3'
    } else if n == 4 {
        '4'
    } else if n == 5 {
        '5'
    } else if n == 6 {
        '6'
    } else if n == 7 {
        '7'
    } else if n == 8 {
        '8'
    } else {
        '9'
    }
}

/// The decimal digits of `n`, most significant first.
pub open spec fn digits_of(n: nat) -> Seq<char>
    decreases n,
{
    if n < 10 {
        seq![digit_char(n)]
    } else {
        digits_of(n / 10).push(digit_char(n % 10))
    }
}

/// The value of the digits `cs[i..j]`, read as a decimal numeral.
pub open spec fn range_val(cs: Seq<char>, i: int, j: int) -> nat
    decreases j - i,
{
    if j <= i {
        0
    } else {
        range_val(cs, i, j - 1) * 10 + digit_val(cs[j - 1])
    }
}

/// Whether every character of `cs[i..j]` is a digit.
pub open spec fn digits_in(cs: Seq<char>, i: int, j: int) -> bool {
    forall|x: int| i <= x < j ==> is_digit(cs[x])
}

/// The first position of `c` in `cs` at or after `i`, or the length.
pub open spec fn index_of_from(cs: Seq<char>, c: char, i: int) -> int
    decreases cs.len() - i,
{
    if i < 0 || i >= cs.len() {
        cs.len() as int
    } else if cs[i] == c {
        i
    } else {
        index_of_from(cs, c, i + 1)
    }
}

/// `n` zero characters.
pub open spec fn zeros(n: nat) -> Seq<char> {
    Seq::new(n, |i: int| '0')
}

/// The well-formed decimal for `±mag / 10^s`; meaningful when the
/// normal form is within bounds.
pub open spec fn canon_dec(neg: bool, mag: nat, s: nat) -> Dec {
    let nf = norm_of(mag, s);
    Dec {
        m: if neg {
            (-(nf.0 as int)) as i128
        } else {
            nf.0 as i128
        },
        s: nf.1 as u32,
    }
}

/// What a numeric lexeme parses to: an optional minus sign, a nonempty
/// whole part, and an optional nonempty fraction of at most `SCALE_LIMIT`
/// digits, with the whole value within the mantissa bound. Anything else
/// (exponents included) has no exact reading here.
pub open spec fn parse_dec_spec(cs: Seq<char>) -> Option<Dec> {
    let neg = cs.len() > 0 && cs[0] == '-';
    let st: int = if neg {
        1
    } else {
        0
    };
    let dot = index_of_from(cs, '.', st);
    let n = cs.len() as int;
    let flen: int = if dot < n {
        n - dot - 1
    } else {
        0
    };
    if st >= dot || !digits_in(cs, st, dot) {
        Option::None
    } else if dot < n && (flen == 0 || !digits_in(cs, dot + 1, n)) {
        Option::None
    } else if flen > SCALE_LIMIT as int {
        Option::None
    } else {
        let mant = range_val(cs, st, dot) * pow10(flen as nat) + range_val(cs, dot + 1, n);
        if mant > MANTISSA_LIMIT as int {
            Option::None
        } else {
            Option::Some(canon_dec(neg, mant as nat, flen as nat))
        }
    }
}

/// A numeral's value grows with its length.
proof fn lemma_range_val_prefix(cs: Seq<char>, st: int, i: int, j: int)
    requires
        st <= i <= j,
    ensures
        range_val(cs, st, i) <= range_val(cs, st, j),
    decreases j - i,
{
    if i < j {
        lemma_range_val_prefix(cs, st, i, j - 1);
        assert(range_val(cs, st, j - 1) * 10 >= range_val(cs, st, j - 1)) by (nonlinear_arith);
    }
}

/// A numeral of `k` digits stays below `10^k`.
proof fn lemma_range_val_bound(cs: Seq<char>, i: int, j: int)
    requires
        i <= j,
        digits_in(cs, i, j),
    ensures
        range_val(cs, i, j) < pow10((j - i) as nat),
    decreases j - i,
{
    if i == j {
    } else {
        lemma_range_val_bound(cs, i, j - 1);
        assert(pow10((j - i) as nat) == 10 * pow10((j - i - 1) as nat));
        assert(range_val(cs, i, j - 1) * 10 + digit_val(cs[j - 1]) < 10 * pow10((j - i - 1) as nat))
            by (nonlinear_arith)
            requires
                range_val(cs, i, j - 1) < pow10((j - i - 1) as nat),
                digit_val(cs[j - 1]) <= 9,
        ;
        assert(digit_val(cs[j - 1]) <= 9) by {
            assert(is_digit(cs[j - 1]));
        }
    }
}

/// Characterizes the first occurrence found by a left-to-right scan.
proof fn lemma_index_of_from(cs: Seq<char>, c: char, st: int, found: int)
    requires
        0 <= st <= found <= cs.len(),
        forall|x: int| st <= x < found ==> cs[x] != c,
        found < cs.len() ==> cs[found] == c,
    ensures
        index_of_from(cs, c, st) == if found < cs.len() {
            found
        } else {
            cs.len() as int
        },
    decreases found - st,
{
    if st < found {
        lemma_index_of_from(cs, c, st + 1, found);
    }
}

/// Reads a decimal lexeme; the exact mirror of `parse_dec_spec`.
#[verifier::loop_isolation(false)]
pub fn parse_dec(s: &str) -> (r: Option<Dec>)
    ensures
        r == parse_dec_spec(s@),
        r matches Option::Some(d) ==> d.wf(),
{
    let n: usize = s.unicode_len();
    let neg: bool = n > 0 && s.get_char(0) == '-';
    let st: usize = if neg {
        1
    } else {
        0
    };
    // Find the dot, if any.
    let mut dot: usize = st;
    while dot < n && s.get_char(dot) != '.'
        invariant
            st <= dot <= n,
            forall|x: int| st <= x < dot ==> s@[x] != '.',
        decreases n - dot,
    {
        dot = dot + 1;
    }
    proof {
        lemma_index_of_from(s@, '.', st as int, dot as int);
    }
    let flen: usize = if dot < n {
        n - dot - 1
    } else {
        0
    };
    // The whole part must be nonempty digits.
    if st >= dot {
        return None;
    }
    let mut i: usize = st;
    while i < dot
        invariant
            st <= i <= dot,
            digits_in(s@, st as int, i as int),
        decreases dot - i,
    {
        let v: u32 = s.get_char(i) as u32;
        if v < 48 || v > 57 {
            return None;
        }
        i = i + 1;
    }
    // The fraction, when the dot is there, must be nonempty digits.
    if dot < n {
        if flen == 0 {
            return None;
        }
        let mut j: usize = dot + 1;
        while j < n
            invariant
                dot + 1 <= j <= n,
                digits_in(s@, dot as int + 1, j as int),
            decreases n - j,
        {
            let v: u32 = s.get_char(j) as u32;
            if v < 48 || v > 57 {
                return None;
            }
            j = j + 1;
        }
        if flen > SCALE_LIMIT as usize {
            return None;
        }
    }
    // Accumulate the whole part.
    let mut ival: u128 = 0;
    let mut i: usize = st;
    while i < dot
        invariant
            st <= i <= dot,
            ival as nat == range_val(s@, st as int, i as int),
            ival <= 0xffff_ffff_ffff_ffff_ffff_ffff,
        decreases dot - i,
    {
        if ival > MANTISSA_LIMIT as u128 {
            proof {
                lemma_range_val_prefix(s@, st as int, i as int, dot as int);
                lemma_pow10_positive(flen as nat);
                assert(range_val(s@, st as int, dot as int) * pow10(flen as nat) >= range_val(
                    s@,
                    st as int,
                    dot as int,
                )) by (nonlinear_arith)
                    requires
                        pow10(flen as nat) >= 1,
                ;
            }
            return None;
        }
        let c: char = s.get_char(i);
        ival = ival * 10 + ((c as u32 - 48) as u128);
        i = i + 1;
    }
    if ival > MANTISSA_LIMIT as u128 {
        proof {
            lemma_pow10_positive(flen as nat);
            assert(range_val(s@, st as int, dot as int) * pow10(flen as nat) >= range_val(
                s@,
                st as int,
                dot as int,
            )) by (nonlinear_arith)
                requires
                    pow10(flen as nat) >= 1,
            ;
        }
        return None;
    }
    // Accumulate the fraction; at most SCALE_LIMIT digits, so it fits.
    let mut fval: u128 = 0;
    if dot < n {
        let mut j: usize = dot + 1;
        while j < n
            invariant
                dot + 1 <= j <= n,
                fval as nat == range_val(s@, dot as int + 1, j as int),
                (fval as nat) < pow10((j - dot - 1) as nat),
        decreases n - j,
        {
            proof {
                assert(pow10((j + 1 - dot - 1) as nat) == 10 * pow10((j - dot - 1) as nat));
                lemma_pow10_increases((j - dot - 1) as nat, SCALE_LIMIT as nat);
                lemma_pow10_values();
                assert(fval as nat * 10 + 9 < 10 * pow10((j - dot - 1) as nat))
                    by (nonlinear_arith)
                    requires
                        (fval as nat) < pow10((j - dot - 1) as nat),
                ;
            }
            let c: char = s.get_char(j);
            fval = fval * 10 + ((c as u32 - 48) as u128);
            j = j + 1;
        }
    }
    proof {
        lemma_pow10_values();
        lemma_pow10_increases(flen as nat, SCALE_LIMIT as nat);
        assert(ival as nat * pow10(flen as nat) <= MANTISSA_LIMIT as nat * pow10(SCALE_LIMIT as nat))
            by (nonlinear_arith)
            requires
                ival as nat <= MANTISSA_LIMIT as nat,
                0 <= pow10(flen as nat) <= pow10(SCALE_LIMIT as nat),
        ;
    }
    let mant: u128 = ival * pow10_u128(flen as u32) + fval;
    if mant > MANTISSA_LIMIT as u128 {
        return None;
    }
    let r = make_dec(neg, mant, flen as u32);
    proof {
        lemma_norm_of_value(mant as nat, flen as nat);
        let d = r->Some_0;
        let c = canon_dec(neg, mant as nat, flen as nat);
        assert(r is Some);
        assert(d.m == c.m && d.s == c.s);
    }
    r
}

} // verus!

verus! {

/// The digit character for `n` below ten, as text.
fn digit_str(n: u128) -> (r: &'static str)
    requires
        n < 10,
    ensures
        r@ == seq![digit_char(n as nat)],
{
    let r: &'static str = match n {
        0 => "0",
        1 => "1",
        2 => "2",
        3 => "3",
        4 => "4",
        5 => "5",
        6 => "6",
        7 => "7",
        8 => "8",
        _ => "9",
    };
    proof {
        reveal_strlit("0");
        reveal_strlit("1");
        reveal_strlit("2");
        reveal_strlit("3");
        reveal_strlit("4");
        reveal_strlit("5");
        reveal_strlit("6");
        reveal_strlit("7");
        reveal_strlit("8");
        reveal_strlit("9");
    }
    r
}

/// Writes the decimal digits of `n` after `out`.
pub fn push_digits(out: &mut String, n: u128)
    ensures
        final(out)@ == old(out)@ + digits_of(n as nat),
    decreases n,
{
    if n >= 10 {
        proof {
            vstd::arithmetic::div_mod::lemma_div_decreases(n as int, 10);
            vstd::arithmetic::div_mod::lemma_div_pos_is_pos(n as int, 10);
        }
        push_digits(out, n / 10);
        out.append(digit_str(n % 10));
        proof {
            assert(out@ =~= old(out)@ + digits_of(n as nat));
        }
    } else {
        out.append(digit_str(n));
        proof {
            assert(out@ =~= old(out)@ + digits_of(n as nat));
        }
    }
}

/// How many decimal digits `n` has.
fn count_digits(n: u128) -> (r: usize)
    ensures
        r as nat == digits_of(n as nat).len(),
        r >= 1,
    decreases n,
{
    if n < 10 {
        1
    } else {
        proof {
            vstd::arithmetic::div_mod::lemma_div_decreases(n as int, 10);
            vstd::arithmetic::div_mod::lemma_div_pos_is_pos(n as int, 10);
        }
        let c = count_digits(n / 10);
        assert(c < usize::MAX) by {
            lemma_pow10_39();
            lemma_digits_len_le((n / 10) as nat, 39);
        }
        c + 1
    }
}

/// Concrete values of the higher powers of ten, up to the 39th, which
/// tops every 128-bit value.
proof fn lemma_pow10_39()
    ensures
        pow10(19) == 10_000_000_000_000_000_000,
        pow10(20) == 100_000_000_000_000_000_000,
        pow10(21) == 1_000_000_000_000_000_000_000,
        pow10(22) == 10_000_000_000_000_000_000_000,
        pow10(23) == 100_000_000_000_000_000_000_000,
        pow10(24) == 1_000_000_000_000_000_000_000_000,
        pow10(25) == 10_000_000_000_000_000_000_000_000,
        pow10(26) == 100_000_000_000_000_000_000_000_000,
        pow10(27) == 1_000_000_000_000_000_000_000_000_000,
        pow10(28) == 10_000_000_000_000_000_000_000_000_000,
        pow10(29) == 100_000_000_000_000_000_000_000_000_000,
        pow10(30) == 1_000_000_000_000_000_000_000_000_000_000,
        pow10(31) == 10_000_000_000_000_000_000_000_000_000_000,
        pow10(32) == 100_000_000_000_000_000_000_000_000_000_000,
        pow10(33) == 1_000_000_000_000_000_000_000_000_000_000_000,
        pow10(34) == 10_000_000_000_000_000_000_000_000_000_000_000,
        pow10(35) == 100_000_000_000_000_000_000_000_000_000_000_000,
        pow10(36) == 1_000_000_000_000_000_000_000_000_000_000_000_000,
        pow10(39) == 1_000_000_000_000_000_000_000_000_000_000_000_000_000,
{
    lemma_pow10_values();
    assert(pow10(19) == 10_000_000_000_000_000_000);
    assert(pow10(20) == 100_000_000_000_000_000_000);
    assert(pow10(21) == 1_000_000_000_000_000_000_000);
    assert(pow10(22) == 10_000_000_000_000_000_000_000);
    assert(pow10(23) == 100_000_000_000_000_000_000_000);
    assert(pow10(24) == 1_000_000_000_000_000_000_000_000);
    assert(pow10(25) == 10_000_000_000_000_000_000_000_000);
    assert(pow10(26) == 100_000_000_000_000_000_000_000_000);
    assert(pow10(27) == 1_000_000_000_000_000_000_000_000_000);
    assert(pow10(28) == 10_000_000_000_000_000_000_000_000_000);
    assert(pow10(29) == 100_000_000_000_000_000_000_000_000_000);
    assert(pow10(30) == 1_000_000_000_000_000_000_000_000_000_000);
    assert(pow10(31) == 10_000_000_000_000_000_000_000_000_000_000);
    assert(pow10(32) == 100_000_000_000_000_000_000_000_000_000_000);
    assert(pow10(33) == 1_000_000_000_000_000_000_000_000_000_000_000);
    assert(pow10(34) == 10_000_000_000_000_000_000_000_000_000_000_000);
    assert(pow10(35) == 100_000_000_000_000_000_000_000_000_000_000_000);
    assert(pow10(36) == 1_000_000_000_000_000_000_000_000_000_000_000_000);
    assert(pow10(37) == 10_000_000_000_000_000_000_000_000_000_000_000_000);
    assert(pow10(38) == 100_000_000_000_000_000_000_000_000_000_000_000_000);
    assert(pow10(39) == 1_000_000_000_000_000_000_000_000_000_000_000_000_000);
}

/// Fewer than `10^k` means at most `k` digits.
proof fn lemma_digits_len_le(n: nat, k: nat)
    requires
        n < pow10(k),
        k >= 1,
    ensures
        digits_of(n).len() <= k,
    decreases n,
{
    if n < 10 {
    } else {
        assert(k >= 2) by {
            if k == 1 {
                assert(pow10(1) == 10 * pow10(0));
            }
        }
        assert(pow10(k) == 10 * pow10((k - 1) as nat));
        vstd::arithmetic::div_mod::lemma_div_decreases(n as int, 10);
        vstd::arithmetic::div_mod::lemma_div_pos_is_pos(n as int, 10);
        assert((n / 10) < pow10((k - 1) as nat)) by (nonlinear_arith)
            requires
                n < 10 * pow10((k - 1) as nat),
        ;
        lemma_digits_len_le(n / 10, (k - 1) as nat);
    }
}

/// The lexeme a decimal is written as: sign, whole part, and the exact
/// fraction digits when the scale is not zero.
pub open spec fn dec_lexeme_spec(d: Dec) -> Seq<char> {
    let mag = iabs(d.m as int);
    let sign: Seq<char> = if d.m < 0 {
        seq!['-']
    } else {
        Seq::empty()
    };
    if d.s == 0 {
        sign + digits_of(mag)
    } else {
        let p = pow10(d.s as nat);
        let ip = (mag as int / p) as nat;
        let fp = (mag as int % p) as nat;
        sign + digits_of(ip) + seq!['.'] + zeros((d.s as nat - digits_of(fp).len()) as nat)
            + digits_of(fp)
    }
}

/// Writes a decimal as its lexeme.
#[verifier::loop_isolation(false)]
pub fn dec_lexeme(d: Dec) -> (r: String)
    requires
        d.wf(),
    ensures
        r@ == dec_lexeme_spec(d),
{
    let mut out: String = String::new();
    if d.m < 0 {
        out.append("-");
        proof {
            reveal_strlit("-");
            assert(out@ =~= seq!['-']);
        }
    }
    let mag: u128 = if d.m < 0 {
        (-d.m) as u128
    } else {
        d.m as u128
    };
    proof {
        assert(mag as nat == iabs(d.m as int));
    }
    if d.s == 0 {
        push_digits(&mut out, mag);
        proof {
            assert(out@ =~= dec_lexeme_spec(d));
        }
    } else {
        let p: u128 = pow10_u128(d.s);
        proof {
            lemma_pow10_positive(d.s as nat);
        }
        let ip: u128 = mag / p;
        let fp: u128 = mag % p;
        push_digits(&mut out, ip);
        out.append(".");
        proof {
            reveal_strlit(".");
            assert("."@ =~= seq!['.']);
            lemma_digits_len_le(fp as nat, d.s as nat);
        }
        let fl: usize = count_digits(fp);
        let ghost before: Seq<char> = out@;
        let mut z: usize = fl;
        while z < d.s as usize
            invariant
                fl <= z <= d.s as usize,
                out@ == before + zeros((z - fl) as nat),
            decreases d.s as usize - z,
        {
            out.append("0");
            proof {
                reveal_strlit("0");
                assert(out@ =~= before + zeros((z + 1 - fl) as nat));
            }
            z = z + 1;
        }
        push_digits(&mut out, fp);
        proof {
            assert(out@ =~= dec_lexeme_spec(d));
        }
    }
    out
}

/// Writes an unsigned count as decimal text.
pub fn usize_string(n: usize) -> (r: String)
    ensures
        r@ == digits_of(n as nat),
{
    let mut out: String = String::new();
    push_digits(&mut out, n as u128);
    proof {
        assert(out@ =~= digits_of(n as nat));
    }
    out
}

/// The text of a signed whole number.
pub open spec fn code_text(n: int) -> Seq<char> {
    if n < 0 {
        seq!['-'] + digits_of(iabs(n))
    } else {
        digits_of(iabs(n))
    }
}

/// Writes a signed whole number as decimal text.
pub fn i64_string(n: i64) -> (r: String)
    ensures
        r@ == code_text(n as int),
{
    let mut out: String = String::new();
    if n < 0 {
        out.append("-");
        proof {
            reveal_strlit("-");
            assert(out@ =~= seq!['-']);
        }
    }
    let mag: u128 = if n < 0 {
        if n == i64::MIN {
            9223372036854775808u128
        } else {
            (-n) as u128
        }
    } else {
        n as u128
    };
    proof {
        assert(mag as nat == iabs(n as int));
    }
    push_digits(&mut out, mag);
    proof {
        assert(out@ =~= code_text(n as int));
    }
    out
}

} // verus!

verus! {

/// The canonical sum of two decimals, at the representation level; `None`
/// exactly when `dec_add` reports no representation.
pub open spec fn spec_dec_add(a: Dec, b: Dec) -> Option<Dec> {
    let x = a.sc() + b.sc();
    let nf = norm_of(iabs(x), SCALE_LIMIT as nat);
    if nf.0 <= MANTISSA_LIMIT as int {
        Option::Some(
            Dec {
                m: if x < 0 {
                    (-(nf.0 as int)) as i128
                } else {
                    nf.0 as i128
                },
                s: nf.1 as u32,
            },
        )
    } else {
        Option::None
    }
}

/// The canonical product of two decimals, at the representation level.
pub open spec fn spec_dec_mul(a: Dec, b: Dec) -> Option<Dec> {
    let p = a.m * b.m;
    let nf = norm_of(iabs(p), (a.s + b.s) as nat);
    if nf.0 <= MANTISSA_LIMIT as int && nf.1 <= SCALE_LIMIT as nat {
        Option::Some(
            Dec {
                m: if p < 0 {
                    (-(nf.0 as int)) as i128
                } else {
                    nf.0 as i128
                },
                s: nf.1 as u32,
            },
        )
    } else {
        Option::None
    }
}

/// The public face of the scale-lift argument, for the canonical value.
pub proof fn lemma_scale_lift_pub(d: Dec, p: int, sab: nat)
    requires
        d.wf(),
        sab <= 2 * SCALE_LIMIT,
        d.m * pow10(sab) == p * pow10(d.s as nat),
    ensures
        d.sc() * pow10(SCALE_LIMIT as nat) == p * pow10((2 * SCALE_LIMIT - sab) as nat),
{
    lemma_scale_lift(d, p, sab);
}

/// The absolute value of a decimal.
pub fn dec_abs(a: Dec) -> (r: Dec)
    requires
        a.wf(),
    ensures
        r.wf(),
        r.sc() == iabs(a.sc()),
        r == (if a.m < 0 {
            neg_of(a)
        } else {
            a
        }),
{
    proof {
        lemma_sc_bound(a);
    }
    if a.m < 0 {
        dec_neg(a)
    } else {
        a
    }
}

/// The greatest whole number at or below the value.
pub fn dec_floor(a: Dec) -> (r: Dec)
    requires
        a.wf(),
    ensures
        r.wf(),
        r.s == 0,
        r.m as int * pow10(SCALE_LIMIT as nat) <= a.sc() < (r.m as int + 1) * pow10(
            SCALE_LIMIT as nat,
        ),
        r.m as int == floor_m(a),
{
    if a.s == 0 {
        proof {
            lemma_pow10_values();
            assert((a.m as int + 1) * pow10(SCALE_LIMIT as nat) == a.sc() + pow10(
                SCALE_LIMIT as nat,
            )) by (nonlinear_arith)
                requires
                    a.sc() == a.m * pow10(SCALE_LIMIT as nat),
            ;
        }
        proof {
            lemma_floor_char(a, a.m as int);
        }
        return a;
    }
    proof {
        lemma_pow10_positive(a.s as nat);
    }
    let p: u128 = pow10_u128(a.s);
    let mag: u128 = if a.m < 0 {
        (-a.m) as u128
    } else {
        a.m as u128
    };
    let q: u128 = mag / p;
    let rem: u128 = mag % p;
    proof {
        vstd::arithmetic::div_mod::lemma_fundamental_div_mod(mag as int, p as int);
    }
    // The remainder is not zero: a nonzero scale means a real fraction.
    let m: i128 = if a.m < 0 {
        -(q as i128) - 1
    } else {
        q as i128
    };
    let r = Dec { m, s: 0 };
    proof {
        assert(rem != 0) by {
            if rem == 0 {
                let pp = pow10((a.s - 1) as nat);
                lemma_pow10_adds(1, (a.s - 1) as nat);
                lemma_pow10_values();
                lemma_pow10_positive((a.s - 1) as nat);
                assert(mag as int == (pp * (q as int)) * 10) by (nonlinear_arith)
                    requires
                        mag as int == p as int * (q as int) + 0,
                        p as int == pow10(1nat) * pp,
                        pow10(1nat) == 10,
                ;
                assert(((pp * (q as int)) * 10) % 10 == 0) by (nonlinear_arith);
                assert(iabs(a.m as int) % 10 == 0);
                assert(false);
            }
        }
        lemma_floor_bounds(a, q as nat, rem as nat, p as nat, r.m as int);
        lemma_floor_char(a, r.m as int);
    }
    r
}

/// The bounds pin the euclidean quotient.
proof fn lemma_floor_char(a: Dec, m: int)
    requires
        m * pow10(SCALE_LIMIT as nat) <= a.sc() < (m + 1) * pow10(SCALE_LIMIT as nat),
    ensures
        m == floor_m(a),
{
    let p = pow10(SCALE_LIMIT as nat);
    lemma_pow10_values();
    let rem = a.sc() - m * p;
    assert(0 <= rem < p) by (nonlinear_arith)
        requires
            rem == a.sc() - m * p,
            m * p <= a.sc() < (m + 1) * p,
    ;
    vstd::arithmetic::div_mod::lemma_fundamental_div_mod_converse(a.sc(), p, m, rem);
}

/// The div/mod breakdown of the magnitude gives the floor bounds.
proof fn lemma_floor_bounds(a: Dec, q: nat, rem: nat, p: nat, m: int)
    requires
        a.wf(),
        a.s > 0,
        p == pow10(a.s as nat),
        iabs(a.m as int) == p * q + rem,
        0 < rem < p,
        m == if a.m < 0 {
            -(q as int) - 1
        } else {
            q as int
        },
    ensures
        m * pow10(SCALE_LIMIT as nat) <= a.sc() < (m + 1) * pow10(SCALE_LIMIT as nat),
{
    let e = (SCALE_LIMIT - a.s) as nat;
    let f = pow10(e);
    lemma_pow10_positive(e);
    lemma_pow10_positive(a.s as nat);
    lemma_pow10_adds(a.s as nat, e);
    assert(pow10(SCALE_LIMIT as nat) == p * f);
    if a.m >= 0 {
        assert(a.sc() == (p * q + rem) * f);
        assert(q * (p * f) <= (p * q + rem) * f < (q + 1) * (p * f)) by (nonlinear_arith)
            requires
                0 < rem < p,
                f >= 1,
                q >= 0,
                p >= 1,
        ;
    } else {
        assert(a.sc() == a.m * f && a.m as int == -(p * q + rem));
        assert((-(q as int) - 1) * (p * f) <= (-((p * q + rem) as int)) * f < (-(q as int)) * (p
            * f)) by (nonlinear_arith)
            requires
                0 < rem < p,
                f >= 1,
                q >= 0,
                p >= 1,
        ;
    }
}

/// The least whole number at or above the value.
pub fn dec_ceil(a: Dec) -> (r: Dec)
    requires
        a.wf(),
    ensures
        r.wf(),
        r.s == 0,
        (r.m as int - 1) * pow10(SCALE_LIMIT as nat) < a.sc() <= r.m as int * pow10(
            SCALE_LIMIT as nat,
        ),
        r.m as int == -floor_m(neg_of(a)),
{
    proof {
        lemma_sc_bound(a);
    }
    let n = dec_neg(a);
    let f = dec_floor(n);
    let r = dec_neg(f);
    proof {
        assert(r.m as int == -(f.m as int));
        assert((r.m as int - 1) * pow10(SCALE_LIMIT as nat) == -((f.m as int + 1) * pow10(
            SCALE_LIMIT as nat,
        ))) by (nonlinear_arith)
            requires
                r.m as int == -(f.m as int),
        ;
        assert(r.m as int * pow10(SCALE_LIMIT as nat) == -(f.m as int * pow10(SCALE_LIMIT as nat)))
            by (nonlinear_arith)
            requires
                r.m as int == -(f.m as int),
        ;
    }
    r
}

/// Whether `z` is the whole square root of `a`'s scaled value.
pub open spec fn is_exact_sqrt(a: Dec, z: nat) -> bool {
    z * z == a.sc()
}

/// The square root when it is exact: the scaled value must be a perfect
/// square. A negative value is never accepted.
pub fn dec_sqrt(a: Dec) -> (r: Option<Dec>)
    requires
        a.wf(),
    ensures
        match r {
            Option::Some(d) => {
                &&& d.wf()
                &&& a.sc() >= 0
                &&& d.sc() * d.sc() == a.sc() * pow10(SCALE_LIMIT as nat)
                &&& d.sc() >= 0
            },
            Option::None => a.sc() < 0 || forall|z: nat| !is_exact_sqrt(a, z),
        },
        r is Some ==> exists|z: nat| is_exact_sqrt(a, z),
{
    proof {
        lemma_sc_bound(a);
        lemma_pow10_values();
    }
    if a.m < 0 {
        return None;
    }
    let target: u128 = a.sc_val() as u128;
    let x: u128 = isqrt(target);
    let sq: u128 = x * x;
    if sq != target {
        proof {
            assert forall|z: nat| !is_exact_sqrt(a, z) by {
                if z * z == a.sc() {
                    assert(z <= x) by (nonlinear_arith)
                        requires
                            z * z == target as nat,
                            (target as nat) < (x as nat + 1) * (x as nat + 1),
                    ;
                    assert(z >= x) by (nonlinear_arith)
                        requires
                            z * z == target as nat,
                            (x as nat) * (x as nat) <= target as nat,
                    ;
                    assert(false);
                }
            }
        }
        return None;
    }
    proof {
        assert((x as nat) * (x as nat) <= 4_000_000_000_000_000_000_000_000_000_000_000_000);
        assert(x as nat <= 2_000_000_000_000_000_000) by (nonlinear_arith)
            requires
                (x as nat) * (x as nat) <= 4_000_000_000_000_000_000_000_000_000_000_000_000,
        ;
        lemma_norm_of_value(x as nat, 9);
    }
    let r = make_dec(false, x, 9);
    proof {
        let d = r->Some_0;
        assert(r is Some);
        lemma_built_value(d, false, x as nat, 9);
        // d.m * 10^9 == x * 10^(d.s), so d.sc() == x * 10^9.
        lemma_scale_lift(d, x as int, 9);
        // d.sc() * 10^18 == x * 10^27; divide the goal through.
        lemma_pow10_adds(9, SCALE_LIMIT as nat);
        assert(d.sc() * pow10(SCALE_LIMIT as nat) == x as int * (pow10(9) * pow10(
            SCALE_LIMIT as nat,
        )));
        lemma_pow10_positive(SCALE_LIMIT as nat);
        assert(x as int * (pow10(9) * pow10(SCALE_LIMIT as nat)) == (x as int * pow10(9)) * pow10(
            SCALE_LIMIT as nat,
        )) by (nonlinear_arith);
        lemma_cancel_mul(d.sc(), x as int * pow10(9), pow10(SCALE_LIMIT as nat));
        assert(d.sc() == x as int * pow10(9));
        assert(d.sc() * d.sc() == (x as int * x as int) * (pow10(9) * pow10(9)))
            by (nonlinear_arith)
            requires
                d.sc() == x as int * pow10(9),
        ;
        lemma_pow10_adds(9, 9);
        assert(d.sc() * d.sc() == a.sc() * pow10(SCALE_LIMIT as nat)) by (nonlinear_arith)
            requires
                d.sc() * d.sc() == (x as int * x as int) * (pow10(9) * pow10(9)),
                x as int * x as int == a.sc(),
                pow10(9) * pow10(9) == pow10(SCALE_LIMIT as nat),
        ;
        assert(d.sc() >= 0) by (nonlinear_arith)
            requires
                d.sc() == x as int * pow10(9),
                x >= 0,
                pow10(9) >= 1,
        ;
        assert(is_exact_sqrt(a, x as nat));
    }
    r
}

/// The whole square root: the greatest `x` with `x * x <= a`.
fn isqrt(a: u128) -> (x: u128)
    requires
        a <= 4_000_000_000_000_000_000_000_000_000_000_000_000,
    ensures
        (x as nat) * (x as nat) <= a as nat,
        (a as nat) < (x as nat + 1) * (x as nat + 1),
{
    let mut lo: u128 = 0;
    let mut hi: u128 = 2_000_000_000_000_000_001;
    proof {
        assert((hi as nat) * (hi as nat) > a as nat) by (nonlinear_arith)
            requires
                hi == 2_000_000_000_000_000_001u128,
                a <= 4_000_000_000_000_000_000_000_000_000_000_000_000,
        ;
    }
    while lo + 1 < hi
        invariant
            lo < hi,
            hi <= 2_000_000_000_000_000_001,
            (lo as nat) * (lo as nat) <= a as nat,
            (a as nat) < (hi as nat) * (hi as nat),
        decreases hi - lo,
    {
        let mid: u128 = lo + (hi - lo) / 2;
        proof {
            assert((mid as nat) * (mid as nat) <= (2_000_000_000_000_000_001
                * 2_000_000_000_000_000_001)) by (nonlinear_arith)
                requires
                    mid <= 2_000_000_000_000_000_001u128,
            ;
        }
        if mid * mid <= a {
            lo = mid;
        } else {
            hi = mid;
        }
    }
    lo
}

} // verus!

verus! {

/// The decimal one.
pub fn dec_one() -> (r: Dec)
    ensures
        r.wf(),
        r == (Dec { m: 1, s: 0 }),
{
    Dec { m: 1, s: 0 }
}

/// Whether `a / b` has a well-formed exact representation.
pub open spec fn div_representable(a: Dec, b: Dec) -> bool {
    exists|d: Dec| d.wf() && d.sc() * b.sc() == a.sc() * pow10(SCALE_LIMIT as nat)
}

/// The exact quotient, when one is representable.
pub open spec fn spec_dec_div(a: Dec, b: Dec) -> Dec {
    choose|d: Dec| d.wf() && d.sc() * b.sc() == a.sc() * pow10(SCALE_LIMIT as nat)
}

/// A witness found by `dec_div` is the one the spec names.
pub proof fn lemma_div_witness(a: Dec, b: Dec, d: Dec)
    requires
        a.wf(),
        b.wf(),
        b.m != 0,
        d.wf(),
        d.sc() * b.sc() == a.sc() * pow10(SCALE_LIMIT as nat),
    ensures
        div_representable(a, b),
        spec_dec_div(a, b) == d,
{
    assert(div_representable(a, b));
    let c = spec_dec_div(a, b);
    assert(c.wf() && c.sc() * b.sc() == a.sc() * pow10(SCALE_LIMIT as nat));
    lemma_sc_bound(b);
    if b.sc() > 0 {
        lemma_cancel_mul(c.sc(), d.sc(), b.sc());
    } else {
        assert(c.sc() * b.sc() == d.sc() * b.sc());
        assert((-(c.sc())) * (-(b.sc())) == c.sc() * b.sc() && (-(d.sc())) * (-(b.sc())) == d.sc()
            * b.sc()) by (nonlinear_arith);
        lemma_cancel_mul(-(c.sc()), -(d.sc()), -(b.sc()));
    }
    lemma_wf_unique(c, d);
}

/// Rounding half away from zero at `p` decimal places, canonically.
pub open spec fn spec_dec_round(d: Dec, p: u32) -> Dec {
    if d.s <= p {
        d
    } else {
        let div = pow10((d.s - p) as nat);
        let q = (iabs(d.m as int) + div / 2) / div;
        let nf = norm_of(q as nat, p as nat);
        Dec {
            m: if d.m < 0 {
                (-(nf.0 as int)) as i128
            } else {
                nf.0 as i128
            },
            s: nf.1 as u32,
        }
    }
}

/// Rounds to `p` decimal places, half away from zero.
pub fn dec_round(d: Dec, p: u32) -> (r: Dec)
    requires
        d.wf(),
        p <= SCALE_LIMIT,
    ensures
        r.wf(),
        r == spec_dec_round(d, p),
{
    if d.s <= p {
        return d;
    }
    proof {
        lemma_pow10_positive((d.s - p) as nat);
        lemma_pow10_increases((d.s - p) as nat, SCALE_LIMIT as nat);
        lemma_pow10_values();
    }
    let div: u128 = pow10_u128(d.s - p);
    let mag: u128 = if d.m < 0 {
        (-d.m) as u128
    } else {
        d.m as u128
    };
    let q: u128 = (mag + div / 2) / div;
    proof {
        assert(q as int <= MANTISSA_LIMIT as int) by {
            vstd::arithmetic::div_mod::lemma_div_is_ordered(
                (mag + div / 2) as int,
                (MANTISSA_LIMIT as int + div / 2) as int,
                div as int,
            );
            assert((MANTISSA_LIMIT as int + div as int / 2) / div as int <= MANTISSA_LIMIT as int)
                by (nonlinear_arith)
                requires
                    10 <= div as int <= 1000000000000000000,
            ;
        }
        lemma_norm_of_value(q as nat, p as nat);
    }
    let r = make_dec(d.m < 0, q, p);
    match r {
        Some(out) => {
            proof {
                let nf = norm_of(q as nat, p as nat);
                if d.m < 0 {
                    if nf.0 == 0 {
                        assert(out.m == 0);
                    }
                } else {
                    if nf.0 == 0 {
                        assert(out.m == 0);
                    }
                }
                assert(out == spec_dec_round(d, p));
            }
            out
        },
        None => {
            proof {
                assert(false);
            }
            Dec { m: 0, s: 0 }
        },
    }
}

/// Rounding half away from zero to a multiple of ten to the `k`: the
/// canonical whole result, or `None` when it leaves the mantissa bound.
pub open spec fn spec_dec_round_neg(d: Dec, k: u32) -> Option<Dec> {
    let div = pow10((d.s + k) as nat);
    let q = (iabs(d.m as int) + div / 2) / div;
    let t = q * pow10(k as nat);
    if t <= MANTISSA_LIMIT as int {
        Option::Some(
            Dec {
                m: if d.m < 0 {
                    (-t) as i128
                } else {
                    t as i128
                },
                s: 0,
            },
        )
    } else {
        Option::None
    }
}

/// Rounds to a multiple of ten to the `k`, half away from zero.
pub fn dec_round_neg(d: Dec, k: u32) -> (r: Option<Dec>)
    requires
        d.wf(),
        1 <= k <= SCALE_LIMIT,
    ensures
        r == spec_dec_round_neg(d, k),
        r matches Option::Some(x) ==> x.wf(),
{
    proof {
        lemma_pow10_values();
        lemma_pow10_39();
        lemma_pow10_positive((d.s + k) as nat);
        lemma_pow10_increases((d.s + k) as nat, 36);
        lemma_pow10_positive(k as nat);
        lemma_pow10_increases(k as nat, SCALE_LIMIT as nat);
    }
    let div: u128 = pow10_u128(d.s + k);
    let mag: u128 = if d.m < 0 {
        (-d.m) as u128
    } else {
        d.m as u128
    };
    let q: u128 = (mag + div / 2) / div;
    proof {
        vstd::arithmetic::div_mod::lemma_div_nonincreasing((mag + div / 2) as int, div as int);
    }
    let p: u128 = pow10_u128(k);
    if q > MANTISSA_LIMIT as u128 {
        proof {
            // The whole result would already outgrow the bound.
            assert((q as int) * (p as int) >= q as int) by (nonlinear_arith)
                requires
                    p >= 1,
                    q >= 0,
            ;
        }
        return None;
    }
    proof {
        assert((q as int) * (p as int) <= MANTISSA_LIMIT as int * pow10(SCALE_LIMIT as nat))
            by (nonlinear_arith)
            requires
                0 <= q as int <= MANTISSA_LIMIT as int,
                0 <= p as int <= pow10(SCALE_LIMIT as nat),
        ;
    }
    let t: u128 = q * p;
    if t > MANTISSA_LIMIT as u128 {
        return None;
    }
    let m: i128 = if d.m < 0 {
        -(t as i128)
    } else {
        t as i128
    };
    Some(Dec { m, s: 0 })
}

/// The left-fold of exact sums over a list, starting from zero.
pub open spec fn sum_chain(ds: Seq<Dec>) -> Option<Dec>
    decreases ds,
{
    if ds.len() == 0 {
        Option::Some(Dec { m: 0, s: 0 })
    } else {
        match sum_chain(ds.drop_last()) {
            Option::Some(acc) => spec_dec_add(acc, ds.last()),
            Option::None => Option::None,
        }
    }
}

/// The left-fold of exact products over a list, starting from one.
pub open spec fn prod_chain(ds: Seq<Dec>) -> Option<Dec>
    decreases ds,
{
    if ds.len() == 0 {
        Option::Some(Dec { m: 1, s: 0 })
    } else {
        match prod_chain(ds.drop_last()) {
            Option::Some(acc) => spec_dec_mul(acc, ds.last()),
            Option::None => Option::None,
        }
    }
}

/// Folds exact sums over a list.
#[verifier::loop_isolation(false)]
pub fn dec_sum(ds: &Vec<Dec>) -> (r: Option<Dec>)
    requires
        forall|i: int| 0 <= i < ds@.len() ==> (#[trigger] ds@[i]).wf(),
    ensures
        r == sum_chain(ds@),
        r matches Option::Some(d) ==> d.wf(),
{
    let mut acc: Dec = Dec::zero();
    let mut i: usize = 0;
    proof {
        assert(ds@.take(0) =~= Seq::empty());
    }
    while i < ds.len()
        invariant
            0 <= i <= ds@.len(),
            acc.wf(),
            sum_chain(ds@.take(i as int)) == Option::Some(acc),
        decreases ds@.len() - i,
    {
        proof {
            assert(ds@.take(i + 1).drop_last() =~= ds@.take(i as int));
            assert(ds@.take(i + 1).last() == ds@[i as int]);
        }
        match dec_add(acc, ds[i]) {
            Some(next) => {
                acc = next;
                i = i + 1;
            },
            None => {
                proof {
                    lemma_chain_bad_sum(ds@, i as int);
                }
                return None;
            },
        }
    }
    proof {
        assert(ds@.take(ds@.len() as int) =~= ds@);
    }
    Some(acc)
}

/// A failing step poisons the whole sum fold.
proof fn lemma_chain_bad_sum(ds: Seq<Dec>, i: int)
    requires
        0 <= i < ds.len(),
        sum_chain(ds.take(i)) matches Option::Some(acc) && spec_dec_add(acc, ds[i]) is None,
    ensures
        sum_chain(ds) is None,
    decreases ds.len() - i,
{
    if i == ds.len() - 1 {
        assert(ds.take(i) =~= ds.drop_last());
    } else {
        assert(ds.drop_last().take(i) =~= ds.take(i));
        assert(ds.drop_last()[i] == ds[i]);
        lemma_chain_bad_sum(ds.drop_last(), i);
    }
}

/// Folds exact products over a list.
#[verifier::loop_isolation(false)]
pub fn dec_prod(ds: &Vec<Dec>) -> (r: Option<Dec>)
    requires
        forall|i: int| 0 <= i < ds@.len() ==> (#[trigger] ds@[i]).wf(),
    ensures
        r == prod_chain(ds@),
        r matches Option::Some(d) ==> d.wf(),
{
    let mut acc: Dec = dec_one();
    let mut i: usize = 0;
    proof {
        assert(ds@.take(0) =~= Seq::empty());
    }
    while i < ds.len()
        invariant
            0 <= i <= ds@.len(),
            acc.wf(),
            prod_chain(ds@.take(i as int)) == Option::Some(acc),
        decreases ds@.len() - i,
    {
        proof {
            assert(ds@.take(i + 1).drop_last() =~= ds@.take(i as int));
            assert(ds@.take(i + 1).last() == ds@[i as int]);
        }
        match dec_mul(acc, ds[i]) {
            Some(next) => {
                acc = next;
                i = i + 1;
            },
            None => {
                proof {
                    lemma_chain_bad_prod(ds@, i as int);
                }
                return None;
            },
        }
    }
    proof {
        assert(ds@.take(ds@.len() as int) =~= ds@);
    }
    Some(acc)
}

/// A failing step poisons the whole product fold.
proof fn lemma_chain_bad_prod(ds: Seq<Dec>, i: int)
    requires
        0 <= i < ds.len(),
        prod_chain(ds.take(i)) matches Option::Some(acc) && spec_dec_mul(acc, ds[i]) is None,
    ensures
        prod_chain(ds) is None,
    decreases ds.len() - i,
{
    if i == ds.len() - 1 {
        assert(ds.take(i) =~= ds.drop_last());
    } else {
        assert(ds.drop_last().take(i) =~= ds.take(i));
        assert(ds.drop_last()[i] == ds[i]);
        lemma_chain_bad_prod(ds.drop_last(), i);
    }
}

} // verus!

verus! {

/// Negation, at the spec level.
pub open spec fn neg_of(d: Dec) -> Dec {
    Dec { m: (-(d.m as int)) as i128, s: d.s }
}

/// The nonnegative exact square root, when one exists.
pub open spec fn spec_dec_sqrt(a: Dec) -> Dec {
    choose|d: Dec|
        d.wf() && d.sc() >= 0 && d.sc() * d.sc() == a.sc() * pow10(SCALE_LIMIT as nat)
}

/// A witness found by `dec_sqrt` is the one the spec names.
pub proof fn lemma_sqrt_witness(a: Dec, d: Dec)
    requires
        a.wf(),
        d.wf(),
        d.sc() >= 0,
        d.sc() * d.sc() == a.sc() * pow10(SCALE_LIMIT as nat),
    ensures
        spec_dec_sqrt(a) == d,
{
    let c = spec_dec_sqrt(a);
    assert(c.wf() && c.sc() >= 0 && c.sc() * c.sc() == a.sc() * pow10(SCALE_LIMIT as nat));
    assert(c.sc() == d.sc()) by (nonlinear_arith)
        requires
            c.sc() >= 0,
            d.sc() >= 0,
            c.sc() * c.sc() == d.sc() * d.sc(),
    ;
    lemma_wf_unique(c, d);
}

/// The floor mantissa, by euclidean division of the scaled value.
pub open spec fn floor_m(a: Dec) -> int {
    a.sc() / pow10(SCALE_LIMIT as nat)
}

} // verus!

verus! {

/// Stripping a factor of ten to the scale leaves the normal form alone.
proof fn lemma_norm_shift(m: nat, s: nat, k: nat)
    requires
        m >= 1,
    ensures
        norm_of((m * pow10(k)) as nat, s + k) == norm_of(m, s),
    decreases k,
{
    if k > 0 {
        lemma_pow10_positive((k - 1) as nat);
        lemma_pow10_adds(1, (k - 1) as nat);
        lemma_pow10_values();
        let t = m * pow10((k - 1) as nat);
        assert(t >= 1) by (nonlinear_arith)
            requires
                m >= 1,
                pow10((k - 1) as nat) >= 1,
                t == m * pow10((k - 1) as nat),
        ;
        assert(m * pow10(k) == t * 10) by (nonlinear_arith)
            requires
                pow10(k) == pow10(1nat) * pow10((k - 1) as nat),
                pow10(1nat) == 10,
                t == m * pow10((k - 1) as nat),
        ;
        assert((t * 10) % 10 == 0 && (t * 10) / 10 == t && t * 10 >= 10) by (nonlinear_arith)
            requires
                t >= 1,
        ;
        lemma_norm_shift(m, s, (k - 1) as nat);
    }
}

/// A well-formed decimal is already its own normal form at full scale.
pub proof fn lemma_canon_roundtrip(a: Dec)
    requires
        a.wf(),
    ensures
        norm_of(iabs(a.sc()), SCALE_LIMIT as nat) == (iabs(a.m as int), a.s as nat),
{
    lemma_sc_bound(a);
    if a.m == 0 {
        assert(iabs(a.sc()) == 0);
    } else {
        let k = (SCALE_LIMIT - a.s) as nat;
        lemma_pow10_positive(k);
        assert(iabs(a.sc()) == iabs(a.m as int) * pow10(k)) by (nonlinear_arith)
            requires
                a.sc() == a.m * pow10(k),
                pow10(k) >= 1,
        ;
        lemma_norm_shift(iabs(a.m as int), a.s as nat, k);
        assert(norm_of(iabs(a.m as int), a.s as nat) == (iabs(a.m as int), a.s as nat));
    }
}

/// Adding zero gives the number back, exactly.
pub proof fn lemma_add_zero(a: Dec)
    requires
        a.wf(),
    ensures
        spec_dec_add(Dec { m: 0, s: 0 }, a) == Option::Some(a),
{
    let z = Dec { m: 0, s: 0 };
    assert(z.sc() == 0) by {
        lemma_pow10_positive(SCALE_LIMIT as nat);
    }
    lemma_canon_roundtrip(a);
    lemma_sc_bound(a);
    let nf = norm_of(iabs(a.sc()), SCALE_LIMIT as nat);
    assert(nf == (iabs(a.m as int), a.s as nat));
    if a.m < 0 {
        assert((-(nf.0 as int)) as i128 == a.m);
    } else {
        assert(nf.0 as i128 == a.m);
    }
}

/// Multiplying by one gives the number back, exactly.
pub proof fn lemma_mul_one(a: Dec)
    requires
        a.wf(),
    ensures
        spec_dec_mul(Dec { m: 1, s: 0 }, a) == Option::Some(a),
{
    let one = Dec { m: 1, s: 0 };
    assert(one.m * a.m == a.m) by (nonlinear_arith)
        requires
            one.m == 1,
    ;
    assert(norm_of(iabs(a.m as int), a.s as nat) == (iabs(a.m as int), a.s as nat));
}

/// Adding two numbers in either order gives the same exact sum — and so
/// the `add` tool answers the same for `[a, b]` and `[b, a]`.
pub proof fn lemma_add_commutative(a: Dec, b: Dec)
    requires
        a.wf(),
        b.wf(),
    ensures
        sum_chain(seq![a, b]) == sum_chain(seq![b, a]),
        spec_dec_add(a, b) == spec_dec_add(b, a),
{
    assert(seq![a, b].drop_last() =~= seq![a]);
    assert(seq![b, a].drop_last() =~= seq![b]);
    assert(seq![a].drop_last() =~= Seq::<Dec>::empty());
    assert(seq![b].drop_last() =~= Seq::<Dec>::empty());
    lemma_add_zero(a);
    lemma_add_zero(b);
    assert(sum_chain(Seq::<Dec>::empty()) == Option::Some(Dec { m: 0, s: 0 }));
    assert(sum_chain(seq![a]) == Option::Some(a));
    assert(sum_chain(seq![b]) == Option::Some(b));
    assert(sum_chain(seq![a, b]) == spec_dec_add(a, b));
    assert(sum_chain(seq![b, a]) == spec_dec_add(b, a));
}

/// A zero factor makes the product exactly zero — and so the `multiply`
/// tool answers zero for `[a, 0]`.
pub proof fn lemma_multiply_zero(a: Dec)
    requires
        a.wf(),
    ensures
        prod_chain(seq![a, Dec { m: 0, s: 0 }]) == Option::Some(Dec { m: 0, s: 0 }),
{
    let z = Dec { m: 0, s: 0 };
    assert(seq![a, z].drop_last() =~= seq![a]);
    assert(seq![a].drop_last() =~= Seq::<Dec>::empty());
    lemma_mul_one(a);
    assert(prod_chain(Seq::<Dec>::empty()) == Option::Some(Dec { m: 1, s: 0 }));
    assert(prod_chain(seq![a]) == Option::Some(a));
    assert(a.m * z.m == 0) by (nonlinear_arith)
        requires
            z.m == 0,
    ;
    assert(iabs(a.m * z.m) == 0);
}

/// The exact square root undoes the exact square: for a nonnegative
/// number of at most nine decimal places whose square is representable,
/// the square root of the square is the number itself.
pub proof fn lemma_sqrt_of_square(a: Dec, sq: Dec)
    requires
        a.wf(),
        a.m >= 0,
        a.s <= 9,
        sq.wf(),
        spec_dec_mul(a, a) == Option::Some(sq),
    ensures
        exists|z: nat| is_exact_sqrt(sq, z),
        spec_dec_sqrt(sq) == a,
{
    // The canonical product keeps the value: sq.sc * 10^18 == a.sc * a.sc.
    let p = a.m * a.m;
    let sab = (2 * a.s) as nat;
    lemma_norm_of_value(iabs(p), sab);
    let nf = norm_of(iabs(p), sab);
    assert(iabs(sq.m as int) == nf.0 && sq.s as nat == nf.1 && sq.m >= 0) by {
        assert(p >= 0) by (nonlinear_arith)
            requires
                p == a.m * a.m,
        ;
    }
    assert(nf.0 * pow10(sab) == iabs(p) * pow10(nf.1));
    assert(sq.m * pow10(sab) == p * pow10(sq.s as nat)) by (nonlinear_arith)
        requires
            iabs(sq.m as int) == nf.0,
            sq.m >= 0,
            p >= 0,
            iabs(p) == p,
            sq.s as nat == nf.1,
            nf.0 * pow10(sab) == iabs(p) * pow10(nf.1),
    ;
    assert(sab <= 2 * SCALE_LIMIT);
    lemma_scale_lift_pub(sq, p, sab);
    // sq.sc * 10^18 == p * 10^(36 - 2 a.s) == a.sc * a.sc.
    let fa = (SCALE_LIMIT - a.s) as nat;
    lemma_pow10_adds(fa, fa);
    assert(a.sc() * a.sc() == p * pow10(fa + fa)) by (nonlinear_arith)
        requires
            a.sc() == a.m * pow10(fa),
            p == a.m * a.m,
            pow10(fa + fa) == pow10(fa) * pow10(fa),
    ;
    assert(fa + fa == (2 * SCALE_LIMIT - sab) as nat);
    assert(sq.sc() * pow10(SCALE_LIMIT as nat) == a.sc() * a.sc());
    // The witness: the number scaled to nine places.
    let e1: nat = (9 - a.s) as nat;
    let ghost e2: nat = ((9 - a.s) + (9 - a.s)) as nat;
    lemma_pow10_positive(e1);
    lemma_pow10_adds(e1, e1);
    assert(pow10(e2) == pow10(e1) * pow10(e1));
    assert(iabs(a.m as int) * pow10(e1) >= 0) by (nonlinear_arith)
        requires
            pow10(e1) >= 1,
    ;
    let z: nat = (iabs(a.m as int) * pow10(e1)) as nat;
    assert(z * z == p * pow10(e2)) by (nonlinear_arith)
        requires
            z == iabs(a.m as int) * pow10(e1),
            a.m >= 0,
            iabs(a.m as int) == a.m,
            p == a.m * a.m,
            pow10(e2) == pow10(e1) * pow10(e1),
    ;
    // sq.sc() itself is p * 10^(18 - 2 * a.s).
    assert(sq.sc() == p * pow10(e2)) by {
        lemma_pow10_adds(e2, SCALE_LIMIT as nat);
        assert((2 * SCALE_LIMIT - sab) as nat == e2 + SCALE_LIMIT as nat);
        assert(p * pow10((2 * SCALE_LIMIT - sab) as nat) == (p * pow10(e2)) * pow10(
            SCALE_LIMIT as nat,
        )) by (nonlinear_arith)
            requires
                pow10(e2 + SCALE_LIMIT as nat) == pow10(e2) * pow10(SCALE_LIMIT as nat),
                pow10((2 * SCALE_LIMIT - sab) as nat) == pow10(e2 + SCALE_LIMIT as nat),
        ;
        lemma_pow10_positive(SCALE_LIMIT as nat);
        lemma_cancel_mul(sq.sc(), p * pow10(e2), pow10(SCALE_LIMIT as nat));
    }
    assert(z * z == sq.sc());
    assert(is_exact_sqrt(sq, z));
    // The square root named by the spec is then the number itself.
    lemma_sc_bound(a);
    lemma_pow10_positive((SCALE_LIMIT - a.s) as nat);
    assert(a.sc() >= 0) by (nonlinear_arith)
        requires
            a.sc() == a.m * pow10((SCALE_LIMIT - a.s) as nat),
            a.m >= 0,
            pow10((SCALE_LIMIT - a.s) as nat) >= 1,
    ;
    assert(a.sc() * a.sc() == sq.sc() * pow10(SCALE_LIMIT as nat));
    lemma_sqrt_witness(sq, a);
}

} // verus!
