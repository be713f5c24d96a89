//! The wire's fixed-point numbers (`units + nano / 10^9`) and their exact
//! conversion to and from decimals.
use vstd::prelude::*;

use crate::error::SdkError;

verus! {

/// `10^n`.
pub open spec fn pow10(n: nat) -> nat
    decreases n,
{
    if n == 0 {
        1
    } else {
        10 * pow10((n - 1) as nat)
    }
}

/// Largest magnitude a mantissa may have: `2^96 - 1`.
pub const MAX_MANTISSA: i128 = 0xFFFF_FFFF_FFFF_FFFF_FFFF_FFFF;

/// Largest number of fractional digits.
pub const MAX_SCALE: u32 = 28;

/// `m` with trailing zeros stripped from its fractional digits, lowering the
/// scale `s` as they go; zero becomes `0` with scale 0.
pub open spec fn normalized(m: int, s: nat) -> (int, nat)
    decreases s,
{
    if m == 0 {
        (0, 0)
    } else if s > 0 && m % 10 == 0 {
        normalized(m / 10, (s - 1) as nat)
    } else {
        (m, s)
    }
}

/// A signed decimal number `mantissa / 10^scale`.
#[derive(Clone, Copy, Debug)]
pub struct Decimal {
    mantissa: i128,
    scale: u32,
}

impl View for Decimal {
    type V = (int, nat);

    /// The mantissa and the scale.
    closed spec fn view(&self) -> (int, nat) {
        (self.mantissa as int, self.scale as nat)
    }
}

impl Decimal {
    #[verifier::type_invariant]
    spec fn inv(self) -> bool {
        &&& -MAX_MANTISSA <= self.mantissa <= MAX_MANTISSA
        &&& self.scale <= MAX_SCALE
    }
}

/// Relies on rust_decimal's `Decimal::normalize`: it strips the trailing zeros
/// of the mantissa, lowering the scale, and turns any zero into `0` with scale 0.
/// The type invariant keeps `from_i128_with_scale` from panicking.
#[verifier::external_body]
fn normalize(d: Decimal) -> (r: Decimal)
    ensures
        r@ == normalized(d@.0, d@.1),
{
    let n = rust_decimal::Decimal::from_i128_with_scale(d.mantissa, d.scale).normalize();
    Decimal { mantissa: n.mantissa(), scale: n.scale() }
}

/// Zero with scale 0, or a nonzero mantissa whose fraction has no trailing zero.
pub open spec fn is_normalized(d: (int, nat)) -> bool {
    if d.0 == 0 {
        d.1 == 0
    } else {
        d.1 == 0 || d.0 % 10 != 0
    }
}

/// `a` and `b` stand for the same number: `a.0 / 10^a.1 == b.0 / 10^b.1`.
pub open spec fn same_value(a: (int, nat), b: (int, nat)) -> bool {
    a.0 * pow10(b.1) == b.0 * pow10(a.1)
}

proof fn lemma_pow10_positive(n: nat)
    ensures
        pow10(n) >= 1,
    decreases n,
{
    if n > 0 {
        lemma_pow10_positive((n - 1) as nat);
    }
}

proof fn lemma_pow10_add(a: nat, b: nat)
    ensures
        pow10(a + b) == pow10(a) * pow10(b),
    decreases a,
{
    if a > 0 {
        let a1 = (a - 1) as nat;
        lemma_pow10_add(a1, b);
        assert(pow10(a + b) == 10 * pow10(a1 + b));
        assert(pow10(a) == 10 * pow10(a1));
        vstd::arithmetic::mul::lemma_mul_is_associative(10, pow10(a1) as int, pow10(b) as int);
    } else {
        assert(pow10(a) == 1);
    }
}

proof fn lemma_pow10_monotone(a: nat, b: nat)
    requires
        a <= b,
    ensures
        pow10(a) <= pow10(b),
    decreases b,
{
    if a < b {
        lemma_pow10_monotone(a, (b - 1) as nat);
    }
}

proof fn lemma_pow10_max_scale()
    ensures
        pow10(28) == 10_000_000_000_000_000_000_000_000_000,
        pow10(9) == 1_000_000_000,
{
    reveal_with_fuel(pow10, 29);
}

proof fn lemma_normalized(m: int, s: nat)
    ensures
        normalized(m, s).1 <= s,
        normalized(m, s).0 * pow10((s - normalized(m, s).1) as nat) == m,
        is_normalized(normalized(m, s)),
    decreases s,
{
    if m == 0 {
        assert(0 * pow10(s) == 0);
    } else if s > 0 && m % 10 == 0 {
        let n = normalized(m / 10, (s - 1) as nat);
        lemma_normalized(m / 10, (s - 1) as nat);
        vstd::arithmetic::div_mod::lemma_fundamental_div_mod(m, 10);
        let q = pow10((s - 1 - n.1) as nat);
        assert(normalized(m, s) == n);
        assert(n.0 * q == m / 10);
        assert(pow10((s - n.1) as nat) == 10 * q);
        assert(n.0 * (10 * q) == 10 * (n.0 * q)) by (nonlinear_arith);
        assert(m == 10 * (m / 10));
    } else {
        assert(pow10(0) == 1);
    }
}

proof fn lemma_same_value_normalized(d: (int, nat))
    ensures
        same_value(d, normalized(d.0, d.1)),
{
    let n = normalized(d.0, d.1);
    lemma_normalized(d.0, d.1);
    lemma_pow10_add((d.1 - n.1) as nat, n.1);
    vstd::arithmetic::mul::lemma_mul_is_associative(
        n.0,
        pow10((d.1 - n.1) as nat) as int,
        pow10(n.1) as int,
    );
}

proof fn lemma_same_value_symmetric_transitive(a: (int, nat), b: (int, nat), c: (int, nat))
    ensures
        same_value(a, b) ==> same_value(b, a),
        same_value(a, b) && same_value(b, c) ==> same_value(a, c),
{
    lemma_pow10_positive(b.1);
    let pa = pow10(a.1) as int;
    let pb = pow10(b.1) as int;
    let pc = pow10(c.1) as int;
    if same_value(a, b) && same_value(b, c) {
        assert(a.0 * pc * pb == c.0 * pa * pb) by (nonlinear_arith)
            requires
                a.0 * pb == b.0 * pa,
                b.0 * pc == c.0 * pb,
        ;
        assert(pb * (a.0 * pc) == pb * (c.0 * pa)) by (nonlinear_arith)
            requires
                a.0 * pc * pb == c.0 * pa * pb,
        ;
        vstd::arithmetic::mul::lemma_mul_equality_converse(pb, a.0 * pc, c.0 * pa);
    }
}

proof fn lemma_normalized_unique(a: (int, nat), b: (int, nat))
    requires
        is_normalized(a),
        is_normalized(b),
        same_value(a, b),
        a.1 <= b.1,
    ensures
        a == b,
{
    let k = (b.1 - a.1) as nat;
    let pa = pow10(a.1) as int;
    let q = pow10(k) as int;
    lemma_pow10_add(k, a.1);
    lemma_pow10_positive(a.1);
    assert(pa * (a.0 * q) == pa * b.0) by (nonlinear_arith)
        requires
            a.0 * (q * pa) == b.0 * pa,
    ;
    vstd::arithmetic::mul::lemma_mul_equality_converse(pa, a.0 * q, b.0);
    if k > 0 {
        let q1 = pow10((k - 1) as nat) as int;
        assert(b.0 == (a.0 * q1) * 10) by (nonlinear_arith)
            requires
                b.0 == a.0 * q,
                q == 10 * q1,
        ;
        vstd::arithmetic::div_mod::lemma_mod_multiples_basic(a.0 * q1, 10);
        assert(b.0 == 0);
        if a.0 != 0 {
            lemma_pow10_positive(k);
            assert(a.0 * q != 0) by (nonlinear_arith)
                requires
                    a.0 != 0,
                    q >= 1,
            ;
        }
    } else {
        assert(a.0 == b.0) by (nonlinear_arith)
            requires
                a.0 * q == b.0,
                q == 1,
        ;
    }
}

/// `10^n` as a machine integer.
fn pow10_u128(n: u32) -> (r: u128)
    requires
        n <= MAX_SCALE,
    ensures
        r == pow10(n as nat),
{
    let mut r: u128 = 1;
    let mut i: u32 = 0;
    while i < n
        invariant
            i <= n <= MAX_SCALE,
            r == pow10(i as nat),
        decreases n - i,
    {
        proof {
            lemma_pow10_monotone((i + 1) as nat, 28);
            lemma_pow10_max_scale();
        }
        r = r * 10;
        i = i + 1;
    }
    r
}

impl Decimal {
    /// The decimal `num / 10^scale`.
    pub fn new(num: i64, scale: u32) -> (r: Decimal)
        requires
            scale <= MAX_SCALE,
        ensures
            r@ == (num as int, scale as nat),
    {
        Decimal { mantissa: num as i128, scale }
    }

    /// The decimal `num / 10^scale`, where the mantissa and the scale are in range.
    pub fn try_from_i128_with_scale(num: i128, scale: u32) -> (r: Option<Decimal>)
        ensures
            r is Some <==> (-MAX_MANTISSA <= num <= MAX_MANTISSA && scale <= MAX_SCALE),
            r matches Some(d) ==> d@ == (num as int, scale as nat),
    {
        if -MAX_MANTISSA <= num && num <= MAX_MANTISSA && scale <= MAX_SCALE {
            Some(Decimal { mantissa: num, scale })
        } else {
            None
        }
    }

    pub fn mantissa(&self) -> (r: i128)
        ensures
            r == self@.0,
            -MAX_MANTISSA <= r <= MAX_MANTISSA,
    {
        proof {
            use_type_invariant(self);
        }
        self.mantissa
    }

    pub fn scale(&self) -> (r: u32)
        ensures
            r == self@.1,
            r <= MAX_SCALE,
    {
        proof {
            use_type_invariant(self);
        }
        self.scale
    }
}

impl PartialEq for Decimal {
    fn eq(&self, other: &Decimal) -> (r: bool) {
        let a = normalize(*self);
        let b = normalize(*other);
        proof {
            lemma_normalized(self@.0, self@.1);
            lemma_normalized(other@.0, other@.1);
            lemma_same_value_normalized(self@);
            lemma_same_value_normalized(other@);
            lemma_same_value_symmetric_transitive(self@, a@, other@);
            lemma_same_value_symmetric_transitive(a@, self@, other@);
            lemma_same_value_symmetric_transitive(a@, other@, b@);
            lemma_same_value_symmetric_transitive(other@, b@, a@);
            lemma_same_value_symmetric_transitive(b@, other@, self@);
            lemma_same_value_symmetric_transitive(b@, self@, a@);
            if same_value(self@, other@) {
                if a@.1 <= b@.1 {
                    lemma_normalized_unique(a@, b@);
                } else {
                    lemma_normalized_unique(b@, a@);
                }
            }
        }
        a.mantissa == b.mantissa && a.scale == b.scale
    }
}

impl vstd::std_specs::cmp::PartialEqSpecImpl for Decimal {
    open spec fn obeys_eq_spec() -> bool {
        true
    }

    open spec fn eq_spec(&self, other: &Decimal) -> bool {
        same_value(self@, other@)
    }
}


/// The wire number `units + nano / 10^9`, as a mantissa at scale 9.
pub open spec fn fixed_point(units: int, nano: int) -> (int, nat) {
    (units * 1_000_000_000 + nano, 9)
}

/// `a / b` rounded toward zero, for `b > 0`.
pub open spec fn div_toward_zero(a: int, b: int) -> int {
    if a >= 0 {
        a / b
    } else {
        -((-a) / b)
    }
}

/// The whole part of `d`, rounded toward zero.
pub open spec fn whole_units(d: (int, nat)) -> int {
    div_toward_zero(d.0, pow10(d.1) as int)
}

/// The fraction of `d` (what is left after its whole part) times `10^9`,
/// rounded toward zero.
pub open spec fn fraction_nanos(d: (int, nat)) -> int {
    div_toward_zero((d.0 - whole_units(d) * pow10(d.1)) * 1_000_000_000, pow10(d.1) as int)
}

/// The whole part of `d` fits the wire's signed 64-bit units.
pub open spec fn units_fit(d: (int, nat)) -> bool {
    i64::MIN <= whole_units(d) <= i64::MAX
}

/// The decimal `units + nano / 10^9`, in its normalized form: the fraction
/// keeps no trailing zero, and a value in `(-1, 0)` comes out negative even
/// though `units` is zero.
pub fn decimal_from_units_nano(units: i64, nano: i32) -> (r: Decimal)
    ensures
        r@ == normalized(fixed_point(units as int, nano as int).0, 9),
        same_value(r@, fixed_point(units as int, nano as int)),
{
    let m: i128 = units as i128 * 1_000_000_000 + nano as i128;
    let d = Decimal { mantissa: m, scale: 9 };
    proof {
        lemma_same_value_normalized(d@);
    }
    normalize(d)
}

/// Splits `value` into whole units and nanos, both rounded toward zero; fails
/// when the whole part does not fit in 64 bits.
pub fn units_nano_from_decimal(value: Decimal) -> (r: Result<(i64, i32), SdkError>)
    ensures
        units_fit(value@) ==> -1_000_000_000 < fraction_nanos(value@) < 1_000_000_000,
        r == (if units_fit(value@) {
            Ok((whole_units(value@) as i64, fraction_nanos(value@) as i32))
        } else {
            Err(SdkError::ConversionOverflow)
        }),
{
    proof {
        use_type_invariant(&value);
        lemma_pow10_max_scale();
        lemma_pow10_positive(value.scale as nat);
        lemma_pow10_monotone(value.scale as nat, 28);
    }
    let negative = value.mantissa < 0;
    let magnitude: u128 = if negative {
        (-value.mantissa) as u128
    } else {
        value.mantissa as u128
    };
    let p = pow10_u128(value.scale);
    let whole = magnitude / p;
    let rest = magnitude % p;
    proof {
        vstd::arithmetic::div_mod::lemma_fundamental_div_mod(magnitude as int, p as int);
        vstd::arithmetic::mul::lemma_mul_strict_inequality(rest as int, p as int, 1_000_000_000);
    }
    let nanos = rest * 1_000_000_000 / p;
    proof {
        vstd::arithmetic::div_mod::lemma_multiply_divide_lt(
            (rest * 1_000_000_000) as int,
            p as int,
            1_000_000_000,
        );
        let d = value@;
        let w = whole_units(d);
        if negative {
            assert(w == -(whole as int));
            assert(d.0 - w * p == -(rest as int)) by (nonlinear_arith)
                requires
                    d.0 == -(magnitude as int),
                    w == -(whole as int),
                    magnitude == p * whole + rest,
            ;
            assert((d.0 - w * p) * 1_000_000_000 == -(rest * 1_000_000_000));
        } else {
            assert(d.0 - w * p == rest as int) by (nonlinear_arith)
                requires
                    d.0 == magnitude,
                    w == whole as int,
                    magnitude == p * whole + rest,
            ;
        }
    }
    let w: i128 = if negative {
        -(whole as i128)
    } else {
        whole as i128
    };
    if w < i64::MIN as i128 || w > i64::MAX as i128 {
        return Err(SdkError::ConversionOverflow);
    }
    let n: i32 = if negative {
        -(nanos as i32)
    } else {
        nanos as i32
    };
    Ok((w as i64, n))
}


/// A signed decimal on the wire: `units + nano / 10^9`.
#[derive(Clone, Copy, Debug, PartialEq, Eq, Structural)]
pub struct Quotation {
    pub units: i64,
    pub nano: i32,
}

/// An amount of money on the wire: `units + nano / 10^9` in `currency`.
#[derive(Clone, Debug, PartialEq, Eq)]
pub struct MoneyValue {
    pub currency: String,
    pub units: i64,
    pub nano: i32,
}

impl Decimal {
    /// The decimal whose view is `d`.
    pub closed spec fn from_view(d: (int, nat)) -> Decimal {
        Decimal { mantissa: d.0 as i128, scale: d.1 as u32 }
    }
}

/// The decimal that a wire number `units + nano / 10^9` becomes.
pub open spec fn decimal_of_wire(units: i64, nano: i32) -> Decimal {
    Decimal::from_view(normalized(fixed_point(units as int, nano as int).0, 9))
}

proof fn lemma_from_view(d: Decimal)
    ensures
        Decimal::from_view(d@) == d,
{
}

/// The decimal made from a mantissa and a scale in range has exactly that
/// mantissa and scale.
pub proof fn lemma_from_view_view(d: (int, nat))
    requires
        -MAX_MANTISSA <= d.0 <= MAX_MANTISSA,
        d.1 <= MAX_SCALE,
    ensures
        Decimal::from_view(d)@ == d,
{
}

/// Two decimals with the same mantissa and scale are the same decimal.
pub proof fn lemma_view_injective(a: Decimal, b: Decimal)
    ensures
        a@ == b@ ==> a == b,
{
}

/// The decimal that a wire number becomes is `units + nano / 10^9` exactly,
/// in normalized form.
pub proof fn lemma_decimal_of_wire(units: i64, nano: i32)
    ensures
        decimal_of_wire(units, nano)@ == normalized(fixed_point(units as int, nano as int).0, 9),
        same_value(decimal_of_wire(units, nano)@, fixed_point(units as int, nano as int)),
        is_normalized(decimal_of_wire(units, nano)@),
{
    let m = units * 1_000_000_000 + nano;
    let n = normalized(m, 9);
    lemma_normalized(m, 9);
    lemma_pow10_positive((9 - n.1) as nat);
    let q = pow10((9 - n.1) as nat) as int;
    assert(-MAX_MANTISSA <= n.0 <= MAX_MANTISSA) by (nonlinear_arith)
        requires
            n.0 * q == m,
            q >= 1,
            -MAX_MANTISSA <= m <= MAX_MANTISSA,
    ;
    lemma_same_value_normalized((m, 9));
    lemma_same_value_symmetric_transitive((m, 9), n, n);
}

impl From<Quotation> for Decimal {
    fn from(quotation: Quotation) -> (r: Decimal) {
        let r = decimal_from_units_nano(quotation.units, quotation.nano);
        proof {
            lemma_from_view(r);
        }
        r
    }
}

impl vstd::std_specs::convert::FromSpecImpl<Quotation> for Decimal {
    open spec fn obeys_from_spec() -> bool {
        true
    }

    open spec fn from_spec(quotation: Quotation) -> Decimal {
        decimal_of_wire(quotation.units, quotation.nano)
    }
}

impl From<MoneyValue> for Decimal {
    fn from(money_value: MoneyValue) -> (r: Decimal) {
        let r = decimal_from_units_nano(money_value.units, money_value.nano);
        proof {
            lemma_from_view(r);
        }
        r
    }
}

impl vstd::std_specs::convert::FromSpecImpl<MoneyValue> for Decimal {
    open spec fn obeys_from_spec() -> bool {
        true
    }

    open spec fn from_spec(money_value: MoneyValue) -> Decimal {
        decimal_of_wire(money_value.units, money_value.nano)
    }
}

/// The wire number that `value` becomes, or `ConversionOverflow`.
pub open spec fn quotation_of_decimal(value: Decimal) -> Result<Quotation, SdkError> {
    if units_fit(value@) {
        Ok(
            Quotation {
                units: whole_units(value@) as i64,
                nano: fraction_nanos(value@) as i32,
            },
        )
    } else {
        Err(SdkError::ConversionOverflow)
    }
}

impl TryFrom<Decimal> for Quotation {
    type Error = SdkError;

    fn try_from(value: Decimal) -> (r: Result<Quotation, SdkError>) {
        match units_nano_from_decimal(value) {
            Ok((units, nano)) => Ok(Quotation { units, nano }),
            Err(e) => Err(e),
        }
    }
}

impl vstd::std_specs::convert::TryFromSpecImpl<Decimal> for Quotation {
    open spec fn obeys_try_from_spec() -> bool {
        true
    }

    open spec fn try_from_spec(value: Decimal) -> Result<Quotation, SdkError> {
        quotation_of_decimal(value)
    }
}

impl MoneyValue {
    /// The amount `value` in `currency`, split as a quotation is; the currency
    /// takes no part in the arithmetic.
    pub fn try_from_decimal(value: Decimal, currency: String) -> (r: Result<MoneyValue, SdkError>)
        ensures
            match quotation_of_decimal(value) {
                Ok(q) => r matches Ok(m) && m.units == q.units && m.nano == q.nano && m.currency
                    == currency,
                Err(e) => r == Err::<MoneyValue, SdkError>(e),
            },
    {
        match units_nano_from_decimal(value) {
            Ok((units, nano)) => Ok(MoneyValue { currency, units, nano }),
            Err(e) => Err(e),
        }
    }
}


proof fn lemma_div_toward_zero_exact(x: int, p: int)
    requires
        p > 0,
    ensures
        div_toward_zero(x * p, p) == x,
{
    if x >= 0 {
        vstd::arithmetic::mul::lemma_mul_nonnegative(x, p);
        vstd::arithmetic::div_mod::lemma_div_by_multiple(x, p);
    } else {
        assert(x * p < 0) by (nonlinear_arith)
            requires
                x < 0,
                p > 0,
        ;
        assert(-(x * p) == (-x) * p) by (nonlinear_arith);
        vstd::arithmetic::div_mod::lemma_div_by_multiple(-x, p);
    }
}

proof fn lemma_div_toward_zero_scaled(a: int, q: int, p: int)
    requires
        q > 0,
        p > 0,
    ensures
        div_toward_zero(a * q, p * q) == div_toward_zero(a, p),
{
    vstd::arithmetic::mul::lemma_mul_is_commutative(a, q);
    vstd::arithmetic::mul::lemma_mul_is_commutative(p, q);
    if a >= 0 {
        vstd::arithmetic::mul::lemma_mul_nonnegative(a, q);
        vstd::arithmetic::div_mod::lemma_div_multiples_vanish_quotient(q, a, p);
    } else {
        assert(a * q < 0) by (nonlinear_arith)
            requires
                a < 0,
                q > 0,
        ;
        assert(-(a * q) == q * (-a)) by (nonlinear_arith);
        vstd::arithmetic::div_mod::lemma_div_multiples_vanish_quotient(q, -a, p);
    }
}

proof fn lemma_div_toward_zero_split(units: int, nano: int)
    requires
        -1_000_000_000 < nano < 1_000_000_000,
        (units >= 0 && nano >= 0) || (units <= 0 && nano <= 0),
    ensures
        div_toward_zero(units * 1_000_000_000 + nano, 1_000_000_000) == units,
{
    let m = units * 1_000_000_000 + nano;
    if units >= 0 && nano >= 0 {
        vstd::arithmetic::div_mod::lemma_fundamental_div_mod_converse(m, 1_000_000_000, units, nano);
    } else {
        vstd::arithmetic::div_mod::lemma_fundamental_div_mod_converse(
            -m,
            1_000_000_000,
            -units,
            -nano,
        );
    }
}

/// Round trip of the fixed-point encoding: whole units and nanos with
/// `|nano| < 10^9` that do not disagree in sign come back unchanged from the
/// decimal they make.
pub proof fn lemma_wire_decimal_round_trip(units: i64, nano: i32)
    requires
        -1_000_000_000 < nano < 1_000_000_000,
        (units >= 0 && nano >= 0) || (units <= 0 && nano <= 0),
    ensures
        quotation_of_decimal(decimal_of_wire(units, nano)) == Ok::<Quotation, SdkError>(
            Quotation { units, nano },
        ),
{
    let m = units * 1_000_000_000 + nano;
    let n = normalized(m, 9);
    lemma_normalized(m, 9);
    let k = (9 - n.1) as nat;
    let q = pow10(k) as int;
    let p = pow10(n.1) as int;
    lemma_pow10_add(k, n.1);
    lemma_pow10_max_scale();
    lemma_pow10_positive(k);
    lemma_pow10_positive(n.1);
    assert(q * p == 1_000_000_000);
    assert(n.0 * q == m);
    // the normalized mantissa is no larger than the one it came from
    assert(-MAX_MANTISSA <= n.0 <= MAX_MANTISSA) by (nonlinear_arith)
        requires
            n.0 * q == m,
            q >= 1,
            -MAX_MANTISSA <= m <= MAX_MANTISSA,
    ;
    let d = decimal_of_wire(units, nano);
    assert(d@ == n);
    lemma_div_toward_zero_scaled(n.0, q, p);
    vstd::arithmetic::mul::lemma_mul_is_commutative(q, p);
    lemma_div_toward_zero_split(units as int, nano as int);
    assert(whole_units(n) == units);
    assert((n.0 - units * p) * 1_000_000_000 == nano * p) by (nonlinear_arith)
        requires
            n.0 * q == m,
            q * p == 1_000_000_000,
            m == units * 1_000_000_000 + nano,
    ;
    lemma_div_toward_zero_exact(nano as int, p);
    assert(fraction_nanos(n) == nano);
}


/// The parts that `d` splits into: nanos under `10^9` in magnitude, and together
/// the count of nanos in `d`, rounded toward zero.
proof fn lemma_split_parts(d: (int, nat))
    ensures
        -1_000_000_000 < fraction_nanos(d) < 1_000_000_000,
        whole_units(d) * 1_000_000_000 + fraction_nanos(d) == div_toward_zero(
            d.0 * 1_000_000_000,
            pow10(d.1) as int,
        ),
{
    let p = pow10(d.1) as int;
    lemma_pow10_positive(d.1);
    let mag = if d.0 < 0 { -d.0 } else { d.0 };
    let w = mag / p;
    let r = mag % p;
    vstd::arithmetic::div_mod::lemma_fundamental_div_mod(mag, p);
    let q2 = (r * 1_000_000_000) / p;
    let r2 = (r * 1_000_000_000) % p;
    vstd::arithmetic::div_mod::lemma_fundamental_div_mod(r * 1_000_000_000, p);
    vstd::arithmetic::mul::lemma_mul_strict_inequality(r, p, 1_000_000_000);
    vstd::arithmetic::div_mod::lemma_multiply_divide_lt(r * 1_000_000_000, p, 1_000_000_000);
    vstd::arithmetic::div_mod::lemma_div_pos_is_pos(r * 1_000_000_000, p);
    assert(mag * 1_000_000_000 == (w * 1_000_000_000 + q2) * p + r2) by (nonlinear_arith)
        requires
            mag == p * w + r,
            r * 1_000_000_000 == p * q2 + r2,
    ;
    vstd::arithmetic::div_mod::lemma_fundamental_div_mod_converse(
        mag * 1_000_000_000,
        p,
        w * 1_000_000_000 + q2,
        r2,
    );
    if d.0 >= 0 {
        assert(d.0 - whole_units(d) * p == r) by (nonlinear_arith)
            requires
                d.0 == mag,
                whole_units(d) == w,
                mag == p * w + r,
        ;
    } else {
        assert(d.0 - whole_units(d) * p == -r) by (nonlinear_arith)
            requires
                d.0 == -mag,
                whole_units(d) == -w,
                mag == p * w + r,
        ;
        assert(d.0 * 1_000_000_000 < 0) by (nonlinear_arith)
            requires
                d.0 < 0,
        ;
        if r == 0 {
            assert(q2 == 0);
        }
    }
}

/// Splitting a decimal into a quotation and rebuilding a decimal from it
/// truncates toward zero at nine fractional digits: the rebuilt decimal is
/// `t / 10^9`, where `t` is `value * 10^9` rounded toward zero, so it is no
/// larger than `value` in magnitude, less than `10^-9` away from it, and of
/// its sign unless zero. A value with at most nine fractional digits comes
/// back unchanged.
pub proof fn lemma_split_then_rebuild(value: Decimal)
    requires
        units_fit(value@),
    ensures
        quotation_of_decimal(value) is Ok,
        ({
            let q = quotation_of_decimal(value)->Ok_0;
            let t = div_toward_zero(value@.0 * 1_000_000_000, pow10(value@.1) as int);
            let a = if value@.0 < 0 { -value@.0 } else { value@.0 };
            let at = if t < 0 { -t } else { t };
            &&& same_value(decimal_of_wire(q.units, q.nano)@, (t, 9))
            &&& at * pow10(value@.1) <= a * 1_000_000_000 < (at + 1) * pow10(value@.1)
            &&& (t == 0 || (t > 0) == (value@.0 > 0))
            &&& (exists|k: int| value@.0 * 1_000_000_000 == #[trigger] (k * pow10(value@.1))) ==> same_value(
                decimal_of_wire(q.units, q.nano)@,
                value@,
            )
        }),
{
    let d = value@;
    let p = pow10(d.1) as int;
    lemma_pow10_positive(d.1);
    lemma_split_parts(d);
    let q = quotation_of_decimal(value)->Ok_0;
    let t = div_toward_zero(d.0 * 1_000_000_000, p);
    assert(q.units * 1_000_000_000 + q.nano == t);
    lemma_decimal_of_wire(q.units, q.nano);
    let w = decimal_of_wire(q.units, q.nano)@;
    lemma_same_value_symmetric_transitive(w, (t, 9), (t, 9));
    let a = if d.0 < 0 { -d.0 } else { d.0 };
    let at = if t < 0 { -t } else { t };
    if d.0 < 0 {
        assert(a * 1_000_000_000 == -(d.0 * 1_000_000_000)) by (nonlinear_arith)
            requires
                a == -d.0,
        ;
        assert(d.0 * 1_000_000_000 < 0) by (nonlinear_arith)
            requires
                d.0 < 0,
        ;
    }
    vstd::arithmetic::mul::lemma_mul_nonnegative(a, 1_000_000_000);
    assert(at == (a * 1_000_000_000) / p);
    vstd::arithmetic::div_mod::lemma_fundamental_div_mod(a * 1_000_000_000, p);
    assert(at * p <= a * 1_000_000_000 < (at + 1) * p) by (nonlinear_arith)
        requires
            a * 1_000_000_000 == p * at + (a * 1_000_000_000) % p,
            0 <= (a * 1_000_000_000) % p < p,
    ;
    if exists|k: int| d.0 * 1_000_000_000 == #[trigger] (k * pow10(d.1)) {
        let k = choose|k: int| d.0 * 1_000_000_000 == #[trigger] (k * pow10(d.1));
        lemma_div_toward_zero_exact(k, p);
        lemma_pow10_max_scale();
        assert(same_value((t, 9), d));
        lemma_same_value_symmetric_transitive(w, (t, 9), d);
    }
}

} // verus!
