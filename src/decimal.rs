//! Arbitrary-precision decimals held as plain digits, with their arithmetic
//! done by `bigdecimal`.
use bigdecimal::num_bigint::{BigInt, Sign};
use bigdecimal::BigDecimal;
use std::str::FromStr;
use vstd::prelude::*;

verus! {

/// Largest difference of scales that addition, subtraction and division
/// accept. Adding or subtracting aligns the operands, at the cost of a power
/// of ten of that difference; a quotient's scale starts from it. Operands
/// further apart are refused with a runtime error instead.
pub const SCALE_LIMIT: i64 = 1000000;

/// An arbitrary-precision decimal: `(-1)^negative * digits * 10^(-scale)`,
/// with the digits of the magnitude in base ten, most significant first.
/// Two decimals are equal when they stand for the same number, whatever
/// their scales.
#[derive(Debug)]
pub struct Decimal {
    negative: bool,
    digits: Vec<u8>,
    scale: i64,
}

/// The mathematical model of a `Decimal`.
pub struct DecimalModel {
    pub negative: bool,
    pub digits: Seq<u8>,
    pub scale: int,
}

impl View for Decimal {
    type V = DecimalModel;

    closed spec fn view(&self) -> DecimalModel {
        DecimalModel { negative: self.negative, digits: self.digits@, scale: self.scale as int }
    }
}

/// The number that a base-ten digit sequence spells, most significant first.
pub open spec fn digits_value(d: Seq<u8>) -> nat
    decreases d.len(),
{
    if d.len() == 0 {
        0
    } else {
        digits_value(d.drop_last()) * 10 + d.last() as nat
    }
}

pub open spec fn pow10(n: nat) -> int
    decreases n,
{
    if n == 0 {
        1
    } else {
        10 * pow10((n - 1) as nat)
    }
}

pub open spec fn max_int(a: int, b: int) -> int {
    if a >= b {
        a
    } else {
        b
    }
}

impl DecimalModel {
    pub open spec fn wf(self) -> bool {
        forall|i: int| 0 <= i < self.digits.len() ==> self.digits[i] < 10
    }

    pub open spec fn mantissa(self) -> int {
        if self.negative {
            -(digits_value(self.digits) as int)
        } else {
            digits_value(self.digits) as int
        }
    }

    /// The value times `10^k`, for any `k` at least the scale.
    pub open spec fn scaled(self, k: int) -> int {
        self.mantissa() * pow10((k - self.scale) as nat)
    }

    pub open spec fn is_zero(self) -> bool {
        forall|i: int| 0 <= i < self.digits.len() ==> self.digits[i] == 0
    }

    /// The scales lie close enough to add, subtract or divide.
    pub open spec fn aligned(self, o: DecimalModel) -> bool {
        -SCALE_LIMIT <= self.scale - o.scale <= SCALE_LIMIT
    }

    /// The scale of the product fits its type.
    pub open spec fn product_fits(self, o: DecimalModel) -> bool {
        i64::MIN <= self.scale + o.scale <= i64::MAX
    }

    /// The two models stand for the same number.
    pub open spec fn same_value(self, o: DecimalModel) -> bool {
        let k = max_int(self.scale, o.scale);
        self.scaled(k) == o.scaled(k)
    }
}

/// The model of the decimal zero.
pub open spec fn zero_model() -> DecimalModel {
    DecimalModel { negative: false, digits: Seq::empty(), scale: 0 }
}

/// A number written in ASCII digits.
pub open spec fn decimal_number(s: Seq<char>) -> nat
    decreases s.len(),
{
    if s.len() == 0 {
        0
    } else {
        decimal_number(s.drop_last()) * 10 + ((s.last() as u32) - 48) as nat
    }
}

/// `s` is ASCII digits up to `k`, then, if anything follows, a `.` and more
/// ASCII digits.
pub open spec fn plain_number_at(s: Seq<char>, k: int) -> bool {
    &&& 0 < k <= s.len()
    &&& forall|i: int| 0 <= i < k ==> '0' <= #[trigger] s[i] && s[i] <= '9'
    &&& k < s.len() ==> s[k] == '.' && forall|i: int| k < i < s.len() ==> '0' <= #[trigger] s[i] && s[i] <= '9'
}

/// The digits of a plain number, the `.` left out.
pub open spec fn plain_digits(s: Seq<char>, k: int) -> Seq<char> {
    if k < s.len() {
        s.subrange(0, k) + s.subrange(k + 1, s.len() as int)
    } else {
        s
    }
}

/// How many digits of a plain number follow its `.`.
pub open spec fn plain_scale(s: Seq<char>, k: int) -> int {
    if k < s.len() {
        s.len() - k - 1
    } else {
        0
    }
}

/// The decimal that `bigdecimal` gives for the sum of two decimals.
pub uninterp spec fn decimal_sum(a: DecimalModel, b: DecimalModel) -> DecimalModel;

/// The decimal that `bigdecimal` gives for the difference of two decimals.
pub uninterp spec fn decimal_difference(a: DecimalModel, b: DecimalModel) -> DecimalModel;

/// The decimal that `bigdecimal` gives for the product of two decimals.
pub uninterp spec fn decimal_product(a: DecimalModel, b: DecimalModel) -> DecimalModel;

/// The decimal that `bigdecimal` gives for the quotient of two decimals,
/// rounded to its default precision.
pub uninterp spec fn decimal_quotient(a: DecimalModel, b: DecimalModel) -> DecimalModel;

/// The decimal that `bigdecimal` gives for the negation of a decimal.
pub uninterp spec fn decimal_negation(a: DecimalModel) -> DecimalModel;

/// What `BigDecimal::from_str` makes of a text, if it accepts it.
pub uninterp spec fn parsed_decimal(s: Seq<char>) -> Option<DecimalModel>;

/// How `bigdecimal` writes a decimal.
pub uninterp spec fn decimal_text(d: DecimalModel) -> Seq<char>;

/// Relies on `BigDecimal + BigDecimal`: the sum is exact. The operands are
/// rebuilt with `BigInt::from_radix_be` and the result read back with
/// `BigInt::to_radix_be`, whose digits are all below ten.
#[verifier::external_body]
pub(crate) fn add_decimals(a: &Decimal, b: &Decimal) -> (r: Decimal)
    requires
        a@.wf(),
        b@.wf(),
        a@.aligned(b@),
    ensures
        r@ == decimal_sum(a@, b@),
        r@.wf(),
        ({
            let k = max_int(max_int(a@.scale, b@.scale), r@.scale);
            r@.scaled(k) == a@.scaled(k) + b@.scaled(k)
        }),
{
    let x = BigDecimal::new(BigInt::from_radix_be(if a.negative { Sign::Minus } else { Sign::Plus }, &a.digits, 10).unwrap(), a.scale);
    let y = BigDecimal::new(BigInt::from_radix_be(if b.negative { Sign::Minus } else { Sign::Plus }, &b.digits, 10).unwrap(), b.scale);
    let (n, scale) = (x + y).into_bigint_and_exponent();
    let (sign, digits) = n.to_radix_be(10);
    Decimal { negative: sign == Sign::Minus, digits, scale }
}

/// Relies on `BigDecimal - BigDecimal`: the difference is exact. Operands and
/// result are converted as for `add_decimals`.
#[verifier::external_body]
pub(crate) fn sub_decimals(a: &Decimal, b: &Decimal) -> (r: Decimal)
    requires
        a@.wf(),
        b@.wf(),
        a@.aligned(b@),
    ensures
        r@ == decimal_difference(a@, b@),
        r@.wf(),
        ({
            let k = max_int(max_int(a@.scale, b@.scale), r@.scale);
            r@.scaled(k) == a@.scaled(k) - b@.scaled(k)
        }),
{
    let x = BigDecimal::new(BigInt::from_radix_be(if a.negative { Sign::Minus } else { Sign::Plus }, &a.digits, 10).unwrap(), a.scale);
    let y = BigDecimal::new(BigInt::from_radix_be(if b.negative { Sign::Minus } else { Sign::Plus }, &b.digits, 10).unwrap(), b.scale);
    let (n, scale) = (x - y).into_bigint_and_exponent();
    let (sign, digits) = n.to_radix_be(10);
    Decimal { negative: sign == Sign::Minus, digits, scale }
}

/// Relies on `BigDecimal * BigDecimal`: the product is exact. Operands and
/// result are converted as for `add_decimals`.
#[verifier::external_body]
pub(crate) fn mul_decimals(a: &Decimal, b: &Decimal) -> (r: Decimal)
    requires
        a@.wf(),
        b@.wf(),
        a@.product_fits(b@),
    ensures
        r@ == decimal_product(a@, b@),
        r@.wf(),
        ({
            let k = max_int(a@.scale + b@.scale, r@.scale);
            r@.scaled(k) == a@.mantissa() * b@.mantissa() * pow10((k - a@.scale - b@.scale) as nat)
        }),
{
    let x = BigDecimal::new(BigInt::from_radix_be(if a.negative { Sign::Minus } else { Sign::Plus }, &a.digits, 10).unwrap(), a.scale);
    let y = BigDecimal::new(BigInt::from_radix_be(if b.negative { Sign::Minus } else { Sign::Plus }, &b.digits, 10).unwrap(), b.scale);
    let (n, scale) = (x * y).into_bigint_and_exponent();
    let (sign, digits) = n.to_radix_be(10);
    Decimal { negative: sign == Sign::Minus, digits, scale }
}

/// Relies on `BigDecimal / BigDecimal`, which panics on a zero divisor and
/// otherwise rounds to the crate's default precision. When the divisor's
/// digits divide the dividend's, the first long-division step leaves no
/// remainder and the quotient is exact, at the difference of the scales.
/// Operands and result are converted as for `add_decimals`.
#[verifier::external_body]
pub(crate) fn div_decimals(a: &Decimal, b: &Decimal) -> (r: Decimal)
    requires
        a@.wf(),
        b@.wf(),
        a@.aligned(b@),
        !b@.is_zero(),
    ensures
        r@ == decimal_quotient(a@, b@),
        r@.wf(),
        b@.mantissa() != 0 && a@.mantissa() % b@.mantissa() == 0 ==> ({
            let k = max_int(a@.scale - b@.scale, r@.scale);
            r@.scaled(k) == (a@.mantissa() / b@.mantissa()) * pow10((k - (a@.scale - b@.scale)) as nat)
        }),
{
    let x = BigDecimal::new(BigInt::from_radix_be(if a.negative { Sign::Minus } else { Sign::Plus }, &a.digits, 10).unwrap(), a.scale);
    let y = BigDecimal::new(BigInt::from_radix_be(if b.negative { Sign::Minus } else { Sign::Plus }, &b.digits, 10).unwrap(), b.scale);
    let (n, scale) = (x / y).into_bigint_and_exponent();
    let (sign, digits) = n.to_radix_be(10);
    Decimal { negative: sign == Sign::Minus, digits, scale }
}

/// Relies on `-BigDecimal`: the negation is exact and keeps the scale.
/// Operand and result are converted as for `add_decimals`.
#[verifier::external_body]
pub(crate) fn neg_decimal(a: &Decimal) -> (r: Decimal)
    requires
        a@.wf(),
    ensures
        r@ == decimal_negation(a@),
        r@.wf(),
        r@.scale == a@.scale,
        r@.mantissa() == -a@.mantissa(),
{
    let x = BigDecimal::new(BigInt::from_radix_be(if a.negative { Sign::Minus } else { Sign::Plus }, &a.digits, 10).unwrap(), a.scale);
    let (n, scale) = (-x).into_bigint_and_exponent();
    let (sign, digits) = n.to_radix_be(10);
    Decimal { negative: sign == Sign::Minus, digits, scale }
}

/// Relies on `BigDecimal::from_str`, read back through `BigInt::to_radix_be`.
/// Text of ASCII digits with at most one `.` after the first digit is read
/// with those digits as the magnitude and as many fraction digits as scale;
/// the sign of a non-negative number comes back as not negative.
#[verifier::external_body]
fn parse_big_decimal(s: &str) -> (r: Option<Decimal>)
    ensures
        r matches Some(d) ==> parsed_decimal(s@) == Some(d@) && d@.wf(),
        r is None ==> parsed_decimal(s@) is None,
        r is None ==> forall|k: int| !#[trigger] plain_number_at(s@, k),
        r matches Some(d) ==> forall|k: int| #[trigger] plain_number_at(s@, k) ==> !d@.negative
            && digits_value(d@.digits) == decimal_number(plain_digits(s@, k)) && d@.scale == plain_scale(s@, k),
{
    match BigDecimal::from_str(s) {
        Ok(x) => {
            let (n, scale) = x.into_bigint_and_exponent();
            let (sign, digits) = n.to_radix_be(10);
            Some(Decimal { negative: sign == Sign::Minus, digits, scale })
        },
        Err(_) => None,
    }
}

/// Relies on `BigDecimal`'s `Display`.
#[verifier::external_body]
fn format_decimal(a: &Decimal) -> (r: String)
    requires
        a@.wf(),
    ensures
        r@ == decimal_text(a@),
{
    let x = BigDecimal::new(BigInt::from_radix_be(if a.negative { Sign::Minus } else { Sign::Plus }, &a.digits, 10).unwrap(), a.scale);
    x.to_string()
}

/// Relies on `BigDecimal`'s `PartialEq`, which compares values: equal signs
/// and magnitudes once the scales are matched, any two zeros equal.
#[verifier::external_body]
fn decimals_equal(a: &Decimal, b: &Decimal) -> (r: bool)
    requires
        a@.wf(),
        b@.wf(),
    ensures
        r == a@.same_value(b@),
{
    let x = BigDecimal::new(BigInt::from_radix_be(if a.negative { Sign::Minus } else { Sign::Plus }, &a.digits, 10).unwrap(), a.scale);
    let y = BigDecimal::new(BigInt::from_radix_be(if b.negative { Sign::Minus } else { Sign::Plus }, &b.digits, 10).unwrap(), b.scale);
    x == y
}

impl PartialEq for Decimal {
    fn eq(&self, other: &Decimal) -> (r: bool) {
        proof {
            use_type_invariant(self);
            use_type_invariant(other);
        }
        decimals_equal(self, other)
    }
}

impl vstd::std_specs::cmp::PartialEqSpecImpl for Decimal {
    open spec fn obeys_eq_spec() -> bool {
        true
    }

    open spec fn eq_spec(&self, other: &Decimal) -> bool {
        self@.same_value(other@)
    }
}

impl Eq for Decimal {

}

impl Clone for Decimal {
    fn clone(&self) -> Self {
        self.duplicate()
    }
}

impl Decimal {
    /// The decimal zero.
    pub fn zero() -> (r: Decimal)
        ensures
            r@ == zero_model(),
    {
        Decimal { negative: false, digits: Vec::new(), scale: 0 }
    }

    /// Reads a decimal written as `BigDecimal::from_str` accepts it.
    pub fn parse(s: &str) -> (r: Option<Decimal>)
        ensures
            r matches Some(d) ==> parsed_decimal(s@) == Some(d@) && d@.wf(),
            r is None ==> parsed_decimal(s@) is None,
            r is None ==> forall|k: int| !#[trigger] plain_number_at(s@, k),
            r matches Some(d) ==> forall|k: int| #[trigger] plain_number_at(s@, k) ==> !d@.negative
                && digits_value(d@.digits) == decimal_number(plain_digits(s@, k)) && d@.scale == plain_scale(s@, k),
    {
        parse_big_decimal(s)
    }

    /// The decimal in its usual written form.
    pub fn to_text(&self) -> (r: String)
        requires
            self@.wf(),
        ensures
            r@ == decimal_text(self@),
    {
        format_decimal(self)
    }

    /// Whether every digit is zero, so that the value is zero.
    pub fn is_zero(&self) -> (r: bool)
        ensures
            r == self@.is_zero(),
    {
        let mut i: usize = 0;
        while i < self.digits.len()
            invariant
                i <= self.digits.len(),
                forall|j: int| 0 <= j < i ==> self.digits@[j] == 0,
            decreases self.digits.len() - i,
        {
            if self.digits[i] != 0 {
                assert(self@.digits[i as int] != 0);
                return false;
            }
            i += 1;
        }
        true
    }

    /// Whether the scales lie within `SCALE_LIMIT` of each other.
    pub fn aligned(&self, o: &Decimal) -> (r: bool)
        ensures
            r == self@.aligned(o@),
    {
        let d: i128 = self.scale as i128 - o.scale as i128;
        -(SCALE_LIMIT as i128) <= d && d <= SCALE_LIMIT as i128
    }

    /// Whether the scale of the product fits its type.
    pub fn product_fits(&self, o: &Decimal) -> (r: bool)
        ensures
            r == self@.product_fits(o@),
    {
        let s: i128 = self.scale as i128 + o.scale as i128;
        i64::MIN as i128 <= s && s <= i64::MAX as i128
    }

    /// The decimal `(-1)^negative * digits * 10^(-scale)`, the digits in base
    /// ten, most significant first; `None` if one of them is not below ten.
    pub fn new(negative: bool, digits: Vec<u8>, scale: i64) -> (r: Option<Decimal>)
        ensures
            r matches Some(d) ==> d@ == (DecimalModel { negative, digits: digits@, scale: scale as int }),
            r is None <==> !(DecimalModel { negative, digits: digits@, scale: scale as int }).wf(),
    {
        let mut i: usize = 0;
        while i < digits.len()
            invariant
                i <= digits.len(),
                forall|j: int| 0 <= j < i ==> digits@[j] < 10,
            decreases digits.len() - i,
        {
            if digits[i] >= 10 {
                let ghost m = DecimalModel { negative, digits: digits@, scale: scale as int };
                assert(m.digits[i as int] >= 10);
                assert(!m.wf());
                return None;
            }
            i += 1;
        }
        Some(Decimal { negative, digits, scale })
    }

    #[verifier::type_invariant]
    spec fn digits_below_ten(self) -> bool {
        forall|i: int| 0 <= i < self.digits@.len() ==> self.digits@[i] < 10
    }

    /// An independent copy with the same model.
    pub fn duplicate(&self) -> (r: Decimal)
        ensures
            r@ == self@,
    {
        proof {
            use_type_invariant(self);
        }
        let mut digits: Vec<u8> = Vec::new();
        let mut i: usize = 0;
        while i < self.digits.len()
            invariant
                i <= self.digits.len(),
                digits@ == self.digits@.subrange(0, i as int),
            decreases self.digits.len() - i,
        {
            digits.push(self.digits[i]);
            i += 1;
        }
        assert(digits@ =~= self.digits@);
        Decimal { negative: self.negative, digits, scale: self.scale }
    }
}

} // verus!
