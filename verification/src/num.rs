//! Fixed-point decimal numbers.
//!
//! All monetary quantities (prices, quantities, notionals) are fixed-point
//! decimals with nine fractional digits, stored as an `i128` mantissa, so
//! monetary math never drifts the way binary floats do.  Feature values are
//! decimals extended with a not-a-number element (`Value::NaN`), which is what
//! an aggregate emits when it is numerically undefined (empty mean, zero
//! volume) and what every arithmetic operation returns on overflow or
//! division by zero.

use vstd::prelude::*;

verus! {

/// Number of mantissa units per whole unit: nine fractional digits.
pub const DEC_SCALE: i128 = 1_000_000_000;

/// Largest mantissa magnitude a well-formed decimal may carry.
///
/// The bound keeps every product of two well-formed mantissas inside `i128`,
/// so multiplication can be computed exactly before rescaling.
pub const DEC_BOUND: i128 = 1_000_000_000_000_000_000;

/// A fixed-point decimal: `m` mantissa units of 10^-9 each.
#[derive(Clone, Copy, PartialEq, Eq, Structural, Debug)]
pub struct Dec {
    pub m: i128,
}

/// A feature value: a decimal, or not-a-number.
#[derive(Clone, Copy, PartialEq, Eq, Structural, Debug)]
pub enum Value {
    Num(Dec),
    NaN,
}

/// A decimal is well formed when its mantissa is within the working range.
pub open spec fn dec_wf(d: Dec) -> bool {
    -(DEC_BOUND as int) <= d.m as int <= DEC_BOUND as int
}

/// A value is well formed when its numeric payload, if any, is.
pub open spec fn val_wf(v: Value) -> bool {
    match v {
        Value::Num(d) => dec_wf(d),
        Value::NaN => true,
    }
}

/// Truncating (round-toward-zero) integer division, `b != 0`.
pub open spec fn tdiv(a: int, b: int) -> int {
    let q = abs_int(a) / abs_int(b);
    if (a < 0) != (b < 0) {
        -q
    } else {
        q
    }
}

pub open spec fn abs_int(a: int) -> int {
    if a < 0 {
        -a
    } else {
        a
    }
}

/// Clamp an exact mantissa into a value: out-of-range results become NaN.
pub open spec fn clamp_mantissa(m: int) -> Value {
    if -(DEC_BOUND as int) <= m <= DEC_BOUND as int {
        Value::Num(Dec { m: m as i128 })
    } else {
        Value::NaN
    }
}

/// Exact addition on values; NaN absorbs, overflow yields NaN.
pub open spec fn spec_add(a: Value, b: Value) -> Value {
    match (a, b) {
        (Value::Num(x), Value::Num(y)) => clamp_mantissa(x.m + y.m),
        _ => Value::NaN,
    }
}

/// Exact subtraction on values; NaN absorbs, overflow yields NaN.
pub open spec fn spec_sub(a: Value, b: Value) -> Value {
    match (a, b) {
        (Value::Num(x), Value::Num(y)) => clamp_mantissa(x.m - y.m),
        _ => Value::NaN,
    }
}

/// Multiplication: exact product rescaled by truncation; overflow yields NaN.
pub open spec fn spec_mul(a: Value, b: Value) -> Value {
    match (a, b) {
        (Value::Num(x), Value::Num(y)) => clamp_mantissa(
            tdiv(x.m as int * y.m as int, DEC_SCALE as int),
        ),
        _ => Value::NaN,
    }
}

/// Division: exact scaled quotient by truncation; zero divisor yields NaN.
pub open spec fn spec_div(a: Value, b: Value) -> Value {
    match (a, b) {
        (Value::Num(x), Value::Num(y)) => if y.m == 0 {
            Value::NaN
        } else {
            clamp_mantissa(tdiv(x.m as int * DEC_SCALE as int, y.m as int))
        },
        _ => Value::NaN,
    }
}

/// The midpoint of two decimals, truncated toward zero.
pub open spec fn spec_mid(a: Dec, b: Dec) -> Dec {
    Dec { m: tdiv(a.m as int + b.m as int, 2) as i128 }
}

impl Dec {
    /// The zero decimal.
    pub fn zero() -> (r: Dec)
        ensures
            r.m == 0,
            dec_wf(r),
    {
        Dec { m: 0 }
    }

    /// A decimal worth `units` whole units.
    pub fn from_int(units: i64) -> (r: Dec)
        requires
            -1_000_000_000 <= units <= 1_000_000_000,
        ensures
            r.m as int == units as int * DEC_SCALE as int,
            dec_wf(r),
    {
        proof {
            assert(-(DEC_BOUND as int) <= units as int * DEC_SCALE as int <= DEC_BOUND as int)
                by (nonlinear_arith)
                requires
                    -1_000_000_000 <= units as int <= 1_000_000_000,
                    DEC_SCALE == 1_000_000_000,
                    DEC_BOUND == 1_000_000_000_000_000_000,
            ;
        }
        Dec { m: (units as i128) * DEC_SCALE }
    }

    /// A decimal from a raw mantissa of 10^-9 units, if it is in range.
    pub fn from_scaled(m: i128) -> (r: Option<Dec>)
        ensures
            -(DEC_BOUND as int) <= m as int <= DEC_BOUND as int ==> r == Some(Dec { m }),
            !(-(DEC_BOUND as int) <= m as int <= DEC_BOUND as int) ==> r is None,
    {
        if -DEC_BOUND <= m && m <= DEC_BOUND {
            Some(Dec { m })
        } else {
            None
        }
    }

    /// The raw mantissa, in units of 10^-9.
    pub fn mantissa(self) -> (r: i128)
        ensures
            r == self.m,
    {
        self.m
    }

    /// The absolute value.
    pub fn abs(self) -> (r: Dec)
        requires
            dec_wf(self),
        ensures
            r.m as int == abs_int(self.m as int),
            dec_wf(r),
    {
        if self.m < 0 {
            Dec { m: -self.m }
        } else {
            self
        }
    }

    /// Strictly-less comparison by numeric value.
    pub fn lt(self, other: Dec) -> (r: bool)
        ensures
            r == (self.m < other.m),
    {
        self.m < other.m
    }

    /// At-most comparison by numeric value.
    pub fn le(self, other: Dec) -> (r: bool)
        ensures
            r == (self.m <= other.m),
    {
        self.m <= other.m
    }

    /// The midpoint of `self` and `other`, truncated toward zero.
    pub fn mid(self, other: Dec) -> (r: Dec)
        requires
            dec_wf(self),
            dec_wf(other),
        ensures
            r == spec_mid(self, other),
            dec_wf(r),
    {
        let s: i128 = self.m + other.m;
        let neg: bool = s < 0;
        let a: u128 = if neg {
            (-s) as u128
        } else {
            s as u128
        };
        let q: u128 = a / 2;
        if neg {
            Dec { m: -(q as i128) }
        } else {
            Dec { m: q as i128 }
        }
    }
}

impl Value {
    /// Wrap a decimal.
    pub fn num(d: Dec) -> (r: Value)
        ensures
            r == Value::Num(d),
    {
        Value::Num(d)
    }

    /// Whether this value is not-a-number.
    pub fn is_nan(self) -> (r: bool)
        ensures
            r == (self is NaN),
    {
        match self {
            Value::NaN => true,
            Value::Num(_) => false,
        }
    }

    /// Addition with NaN absorption and overflow-to-NaN.
    pub fn add(self, other: Value) -> (r: Value)
        requires
            val_wf(self),
            val_wf(other),
        ensures
            r == spec_add(self, other),
            val_wf(r),
    {
        match (self, other) {
            (Value::Num(x), Value::Num(y)) => clamp_exec(x.m + y.m),
            _ => Value::NaN,
        }
    }

    /// Subtraction with NaN absorption and overflow-to-NaN.
    pub fn sub(self, other: Value) -> (r: Value)
        requires
            val_wf(self),
            val_wf(other),
        ensures
            r == spec_sub(self, other),
            val_wf(r),
    {
        match (self, other) {
            (Value::Num(x), Value::Num(y)) => clamp_exec(x.m - y.m),
            _ => Value::NaN,
        }
    }

    /// Multiplication with NaN absorption and overflow-to-NaN.
    pub fn mul(self, other: Value) -> (r: Value)
        requires
            val_wf(self),
            val_wf(other),
        ensures
            r == spec_mul(self, other),
            val_wf(r),
    {
        match (self, other) {
            (Value::Num(x), Value::Num(y)) => {
                proof {
                    assert(abs_int(x.m as int) * abs_int(y.m as int) <= DEC_BOUND as int
                        * DEC_BOUND as int) by (nonlinear_arith)
                        requires
                            abs_int(x.m as int) <= DEC_BOUND as int,
                            abs_int(y.m as int) <= DEC_BOUND as int,
                            abs_int(x.m as int) >= 0,
                            abs_int(y.m as int) >= 0,
                    ;
                }
                let ma: u128 = mag(x.m);
                let mb: u128 = mag(y.m);
                let p: u128 = ma * mb;
                proof {
                    assert(ma as int * mb as int == abs_int(x.m as int * y.m as int))
                        by (nonlinear_arith)
                        requires
                            ma as int == abs_int(x.m as int),
                            mb as int == abs_int(y.m as int),
                    ;
                }
                let q: u128 = p / (DEC_SCALE as u128);
                let neg: bool = (x.m < 0) != (y.m < 0);
                proof {
                    lemma_product_sign(x.m as int, y.m as int);
                }
                clamp_mag(q, neg)
            },
            _ => Value::NaN,
        }
    }

    /// Division with NaN absorption; zero divisor and overflow yield NaN.
    pub fn div(self, other: Value) -> (r: Value)
        requires
            val_wf(self),
            val_wf(other),
        ensures
            r == spec_div(self, other),
            val_wf(r),
    {
        match (self, other) {
            (Value::Num(x), Value::Num(y)) => {
                if y.m == 0 {
                    Value::NaN
                } else {
                    proof {
                        assert(abs_int(x.m as int) * (DEC_SCALE as int) <= DEC_BOUND as int
                            * DEC_SCALE as int) by (nonlinear_arith)
                            requires
                                abs_int(x.m as int) <= DEC_BOUND as int,
                                abs_int(x.m as int) >= 0,
                                DEC_SCALE as int > 0,
                        ;
                    }
                    let ma: u128 = mag(x.m);
                    let mb: u128 = mag(y.m);
                    let p: u128 = ma * (DEC_SCALE as u128);
                    proof {
                        assert(ma as int * DEC_SCALE as int == abs_int(
                            x.m as int * DEC_SCALE as int,
                        )) by (nonlinear_arith)
                            requires
                                ma as int == abs_int(x.m as int),
                                DEC_SCALE as int > 0,
                        ;
                    }
                    let q: u128 = p / mb;
                    let neg: bool = (x.m < 0) != (y.m < 0);
                    proof {
                        lemma_product_sign(x.m as int, DEC_SCALE as int);
                    }
                    clamp_mag(q, neg)
                }
            },
            _ => Value::NaN,
        }
    }
}

/// The magnitude of a bounded mantissa, as an unsigned word.
fn mag(m: i128) -> (r: u128)
    requires
        -(DEC_BOUND as int) <= m as int <= DEC_BOUND as int,
    ensures
        r as int == abs_int(m as int),
{
    if m < 0 {
        (-m) as u128
    } else {
        m as u128
    }
}

/// Clamp a signed magnitude into a value.
pub(crate) fn clamp_mag(q: u128, neg: bool) -> (r: Value)
    ensures
        r == clamp_mantissa(if neg { -(q as int) } else { q as int }),
        val_wf(r),
{
    if q > DEC_BOUND as u128 {
        Value::NaN
    } else if neg {
        Value::Num(Dec { m: -(q as i128) })
    } else {
        Value::Num(Dec { m: q as i128 })
    }
}

/// The midpoint of two in-range decimals is in range.
pub proof fn lemma_mid_wf(a: Dec, b: Dec)
    requires
        dec_wf(a),
        dec_wf(b),
    ensures
        dec_wf(spec_mid(a, b)),
{
    let s = a.m as int + b.m as int;
    assert(abs_int(s) <= 2 * (DEC_BOUND as int));
    assert(abs_int(s) / 2 <= DEC_BOUND as int);
}

/// The sign of an exact product follows the signs of its factors.
proof fn lemma_product_sign(a: int, b: int)
    ensures
        a != 0 && b != 0 ==> ((a * b < 0) == ((a < 0) != (b < 0))),
        a == 0 || b == 0 ==> a * b == 0,
{
    if a == 0 || b == 0 {
        assert(a * b == 0) by (nonlinear_arith)
            requires
                a == 0 || b == 0,
        ;
    } else if (a < 0) == (b < 0) {
        assert(a * b > 0) by (nonlinear_arith)
            requires
                a != 0 && b != 0 && ((a < 0) == (b < 0)),
        ;
    } else {
        assert(a * b < 0) by (nonlinear_arith)
            requires
                a != 0 && b != 0 && ((a < 0) != (b < 0)),
        ;
    }
}

/// Clamp an exact sum or difference of two bounded mantissas.
fn clamp_exec(m: i128) -> (r: Value)
    requires
        -2 * (DEC_BOUND as int) <= m as int <= 2 * (DEC_BOUND as int),
    ensures
        r == clamp_mantissa(m as int),
        val_wf(r),
{
    if -DEC_BOUND <= m && m <= DEC_BOUND {
        Value::Num(Dec { m })
    } else {
        Value::NaN
    }
}

} // verus!
