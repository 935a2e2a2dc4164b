//! Exact rational numbers, the numeric values of the language.
use vstd::prelude::*;

verus! {

/// Why an arithmetic operation has no result.
#[derive(Debug, Clone, Copy, PartialEq, Eq, Structural)]
pub enum ArithError {
    /// The exact result does not fit in the representation.
    Overflow,
    /// The divisor is zero.
    DivisionByZero,
}

/// The rational number `num / den`, with a positive denominator. Results of
/// arithmetic are in lowest terms; two numbers are equal when their values
/// are, whatever their representations.
#[derive(Debug, Clone, Copy)]
pub struct Number {
    num: i64,
    den: i64,
}

/// Whether an integer fits in `i64`.
pub open spec fn fits(x: int) -> bool {
    i64::MIN <= x <= i64::MAX
}

/// The greatest common divisor of `a` and `b`, by Euclid's algorithm.
pub open spec fn gcd(a: nat, b: nat) -> nat
    decreases b,
{
    if b == 0 {
        a
    } else {
        gcd(b, a % b)
    }
}

pub open spec fn abs(x: int) -> nat {
    if x < 0 {
        (-x) as nat
    } else {
        x as nat
    }
}

/// `n` divided by a positive `g` that divides it.
pub open spec fn div_exact(n: int, g: int) -> int {
    if n < 0 {
        -(abs(n) as int / g)
    } else {
        n / g
    }
}

/// The number `n / d` in lowest terms, or `Overflow` where its parts do not fit.
pub open spec fn from_parts(n: int, d: int) -> Result<Number, ArithError> {
    let g = gcd(abs(n), abs(d)) as int;
    if d > 0 && fits(div_exact(n, g)) && d / g <= i64::MAX {
        Ok(Number::ratio_spec(div_exact(n, g), d / g))
    } else {
        Err(ArithError::Overflow)
    }
}

pub proof fn lemma_gcd(a: nat, b: nat)
    ensures
        (a > 0 || b > 0) ==> gcd(a, b) > 0,
        gcd(a, b) > 0 ==> a % gcd(a, b) == 0 && b % gcd(a, b) == 0,
    decreases b,
{
    if b == 0 {
        if a > 0 {
            vstd::arithmetic::div_mod::lemma_mod_self_0(a as int);
        }
    } else {
        let r = a % b;
        lemma_gcd(b, r);
        let g = gcd(b, r) as int;
        vstd::arithmetic::div_mod::lemma_fundamental_div_mod(a as int, b as int);
        vstd::arithmetic::div_mod::lemma_fundamental_div_mod(b as int, g);
        vstd::arithmetic::div_mod::lemma_fundamental_div_mod(r as int, g);
        let k = (a as int / b as int) * (b as int / g) + r as int / g;
        assert(a == k * g) by (nonlinear_arith)
            requires
                a == b * (a as int / b as int) + r,
                b == g * (b as int / g),
                r == g * (r as int / g),
                k == (a as int / b as int) * (b as int / g) + r as int / g,
        ;
        vstd::arithmetic::div_mod::lemma_mod_multiples_basic(k, g);
    }
}

impl Number {
    #[verifier::type_invariant]
    spec fn wf(self) -> bool {
        self.den > 0
    }

    /// The numerator.
    pub closed spec fn num_spec(self) -> int {
        self.num as int
    }

    /// The denominator.
    pub closed spec fn den_spec(self) -> int {
        self.den as int
    }

    /// The number with numerator `n` and denominator `d`, where both fit.
    pub closed spec fn ratio_spec(n: int, d: int) -> Number {
        Number { num: n as i64, den: d as i64 }
    }

    pub proof fn lemma_whole(x: Number)
        requires
            x.den_spec() == 1,
        ensures
            x == Number::ratio_spec(x.num_spec(), 1),
            fits(x.num_spec()),
    {
    }

    /// Equality of the rational values.
    pub open spec fn same_value(self, o: Number) -> bool {
        self.num_spec() * o.den_spec() == o.num_spec() * self.den_spec()
    }

    pub open spec fn spec_add(self, o: Number) -> Result<Number, ArithError> {
        from_parts(
            self.num_spec() * o.den_spec() + o.num_spec() * self.den_spec(),
            self.den_spec() * o.den_spec(),
        )
    }

    pub open spec fn spec_sub(self, o: Number) -> Result<Number, ArithError> {
        from_parts(
            self.num_spec() * o.den_spec() - o.num_spec() * self.den_spec(),
            self.den_spec() * o.den_spec(),
        )
    }

    pub open spec fn spec_mul(self, o: Number) -> Result<Number, ArithError> {
        from_parts(self.num_spec() * o.num_spec(), self.den_spec() * o.den_spec())
    }

    pub open spec fn spec_div(self, o: Number) -> Result<Number, ArithError> {
        if o.num_spec() == 0 {
            Err(ArithError::DivisionByZero)
        } else if o.num_spec() > 0 {
            from_parts(self.num_spec() * o.den_spec(), self.den_spec() * o.num_spec())
        } else {
            from_parts(-(self.num_spec() * o.den_spec()), self.den_spec() * -o.num_spec())
        }
    }

    pub open spec fn spec_lt(self, o: Number) -> bool {
        self.num_spec() * o.den_spec() < o.num_spec() * self.den_spec()
    }

    /// The whole number `n`.
    pub fn integer(n: i64) -> (r: Number)
        ensures
            r.num_spec() == n,
            r.den_spec() == 1,
    {
        Number { num: n, den: 1 }
    }

    /// The number `n / d`.
    pub fn ratio(n: i64, d: i64) -> (r: Number)
        requires
            d > 0,
        ensures
            r == Number::ratio_spec(n as int, d as int),
    {
        Number { num: n, den: d }
    }

    pub fn numerator(&self) -> (r: i64)
        ensures
            r == self.num_spec(),
    {
        self.num
    }

    pub fn denominator(&self) -> (r: i64)
        ensures
            r == self.den_spec(),
            r > 0,
    {
        proof {
            use_type_invariant(self);
        }
        self.den
    }

    fn checked_parts(n: i128, d: i128) -> (r: Result<Number, ArithError>)
        requires
            n > i128::MIN,
        ensures
            r == from_parts(n as int, d as int),
    {
        if d <= 0 {
            return Err(ArithError::Overflow);
        }
        let m: u128 = if n < 0 {
            (-n) as u128
        } else {
            n as u128
        };
        let g = gcd_of(m, d as u128);
        proof {
            lemma_gcd(m as nat, d as nat);
            vstd::arithmetic::div_mod::lemma_fundamental_div_mod(d as int, g as int);
            vstd::arithmetic::div_mod::lemma_fundamental_div_mod(m as int, g as int);
            assert(d as int / g as int > 0) by (nonlinear_arith)
                requires
                    d > 0,
                    g > 0,
                    d == g * (d as int / g as int),
            ;
            assert(m as int / g as int <= m) by (nonlinear_arith)
                requires
                    m >= 0,
                    g > 0,
                    m == g * (m as int / g as int),
            ;
            assert(d as int / g as int <= d) by (nonlinear_arith)
                requires
                    d > 0,
                    g > 0,
                    d == g * (d as int / g as int),
            ;
        }
        let q = m / g;
        let e = (d as u128) / g;
        let a: i128 = if n < 0 {
            -(q as i128)
        } else {
            q as i128
        };
        if a < i64::MIN as i128 || a > i64::MAX as i128 || e > i64::MAX as u128 {
            Err(ArithError::Overflow)
        } else {
            Ok(Number { num: a as i64, den: e as i64 })
        }
    }

    /// The two cross products `self.num * o.den` and `o.num * self.den`.
    fn cross(&self, o: &Number) -> (r: (i128, i128))
        ensures
            r.0 == self.num * o.den,
            r.1 == o.num * self.den,
            -0x4000_0000_0000_0000_0000_0000_0000_0000 < r.0 < 0x4000_0000_0000_0000_0000_0000_0000_0000,
            -0x4000_0000_0000_0000_0000_0000_0000_0000 < r.1 < 0x4000_0000_0000_0000_0000_0000_0000_0000,
    {
        proof {
            use_type_invariant(self);
            use_type_invariant(o);
            lemma_product_bound(self.num as int, o.den as int);
            lemma_product_bound(o.num as int, self.den as int);
        }
        ((self.num as i128) * (o.den as i128), (o.num as i128) * (self.den as i128))
    }

    fn den_product(&self, d: i64) -> (r: i128)
        requires
            d > 0,
        ensures
            r == self.den * d,
            0 < r < 0x4000_0000_0000_0000_0000_0000_0000_0000,
    {
        proof {
            use_type_invariant(self);
            lemma_product_bound(self.den as int, d as int);
            assert(self.den * d > 0) by (nonlinear_arith)
                requires
                    self.den > 0,
                    d > 0,
            ;
        }
        (self.den as i128) * (d as i128)
    }

    pub fn add(&self, o: &Number) -> (r: Result<Number, ArithError>)
        ensures
            r == self.spec_add(*o),
    {
        proof {
            use_type_invariant(o);
        }
        let (a, b) = self.cross(o);
        let d = self.den_product(o.den);
        Self::checked_parts(a + b, d)
    }

    pub fn sub(&self, o: &Number) -> (r: Result<Number, ArithError>)
        ensures
            r == self.spec_sub(*o),
    {
        proof {
            use_type_invariant(o);
        }
        let (a, b) = self.cross(o);
        let d = self.den_product(o.den);
        Self::checked_parts(a - b, d)
    }

    pub fn mul(&self, o: &Number) -> (r: Result<Number, ArithError>)
        ensures
            r == self.spec_mul(*o),
    {
        proof {
            use_type_invariant(o);
            lemma_product_bound(self.num as int, o.num as int);
        }
        let n = (self.num as i128) * (o.num as i128);
        let d = self.den_product(o.den);
        Self::checked_parts(n, d)
    }

    pub fn div(&self, o: &Number) -> (r: Result<Number, ArithError>)
        ensures
            r == self.spec_div(*o),
    {
        if o.num == 0 {
            return Err(ArithError::DivisionByZero);
        }
        let (a, _) = self.cross(o);
        proof {
            lemma_product_bound(self.den as int, o.num as int);
            assert(-(self.den * o.num) == self.den * -o.num) by (nonlinear_arith);
        }
        let d = (self.den as i128) * (o.num as i128);
        if o.num > 0 {
            Self::checked_parts(a, d)
        } else {
            Self::checked_parts(-a, -d)
        }
    }

    pub fn lt(&self, o: &Number) -> (r: bool)
        ensures
            r == self.spec_lt(*o),
    {
        let (a, b) = self.cross(o);
        a < b
    }

    /// Equality of the rational values.
    pub fn eq_value(&self, o: &Number) -> (r: bool)
        ensures
            r == self.same_value(*o),
    {
        let (a, b) = self.cross(o);
        a == b
    }
}

impl PartialEq for Number {
    fn eq(&self, o: &Number) -> (r: bool) {
        self.eq_value(o)
    }
}

impl vstd::std_specs::cmp::PartialEqSpecImpl for Number {
    open spec fn obeys_eq_spec() -> bool {
        true
    }

    open spec fn eq_spec(&self, o: &Number) -> bool {
        self.same_value(*o)
    }
}

fn gcd_of(a: u128, b: u128) -> (r: u128)
    ensures
        r == gcd(a as nat, b as nat),
{
    let mut x = a;
    let mut y = b;
    while y != 0
        invariant
            gcd(x as nat, y as nat) == gcd(a as nat, b as nat),
        decreases y,
    {
        let t = x % y;
        x = y;
        y = t;
    }
    x
}

proof fn lemma_product_bound(a: int, b: int)
    requires
        i64::MIN <= a <= i64::MAX,
        i64::MIN <= b <= i64::MAX,
    ensures
        -0x4000_0000_0000_0000_0000_0000_0000_0000 < a * b < 0x4000_0000_0000_0000_0000_0000_0000_0000
            || (a == i64::MIN && b == i64::MIN),
{
    assert(-0x4000_0000_0000_0000_0000_0000_0000_0000 < a * b < 0x4000_0000_0000_0000_0000_0000_0000_0000
        || (a == i64::MIN && b == i64::MIN)) by (nonlinear_arith)
        requires
            i64::MIN <= a <= i64::MAX,
            i64::MIN <= b <= i64::MAX,
    ;
}

} // verus!
