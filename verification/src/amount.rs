//! Amounts of money: decimal numbers of `rust_decimal`'s kind, held as their
//! mantissa and scale (the value is `mantissa × 10^-scale`). All arithmetic
//! on them is `rust_decimal`'s: rounding, addition, subtraction, comparison,
//! normalization and writing out.
use vstd::prelude::*;

verus! {

/// The largest magnitude of a `rust_decimal` mantissa: `2^96 - 1`.
pub const MAX_MANTISSA: i128 = 79228162514264337593543950335i128;

/// The largest scale of a `rust_decimal` number.
pub const MAX_SCALE: u32 = 28u32;

/// The number of decimal places to which the ledger rounds an amount.
pub const LEDGER_DP: u32 = 4u32;

/// A decimal as a mathematical value: `(mantissa, scale)`.
pub type Dec = (int, nat);

/// `10^n`.
pub open spec fn pow10(n: nat) -> nat
    decreases n,
{
    if n == 0 {
        1
    } else {
        10 * pow10((n - 1) as nat)
    }
}

/// `|x|`.
pub open spec fn abs(x: int) -> nat {
    if x < 0 {
        (-x) as nat
    } else {
        x as nat
    }
}

/// The mantissa of `d` brought to the scale `s` (at least `d`'s scale).
pub open spec fn scaled(d: Dec, s: nat) -> int {
    d.0 * pow10((s - d.1) as nat)
}

/// The value of `d` in units of `10^-28`, the finest that a decimal holds.
pub open spec fn val(d: Dec) -> int {
    scaled(d, MAX_SCALE as nat)
}

/// The larger of two scales.
pub open spec fn max_scale(a: Dec, b: Dec) -> nat {
    if a.1 >= b.1 {
        a.1
    } else {
        b.1
    }
}

/// Whether `x` fits in a `rust_decimal` mantissa.
pub open spec fn fits_mantissa(x: int) -> bool {
    -MAX_MANTISSA <= x <= MAX_MANTISSA
}

/// Whether `a + b` is exact in `rust_decimal`: both operands, brought to the
/// larger scale, and their sum, fit in a mantissa.
pub open spec fn add_fits(a: Dec, b: Dec) -> bool {
    let s = max_scale(a, b);
    &&& fits_mantissa(scaled(a, s))
    &&& fits_mantissa(scaled(b, s))
    &&& fits_mantissa(scaled(a, s) + scaled(b, s))
}

/// Whether `a - b` is exact in `rust_decimal`, in the same sense.
pub open spec fn sub_fits(a: Dec, b: Dec) -> bool {
    let s = max_scale(a, b);
    &&& fits_mantissa(scaled(a, s))
    &&& fits_mantissa(scaled(b, s))
    &&& fits_mantissa(scaled(a, s) - scaled(b, s))
}

/// What `rust_decimal`'s `checked_add` gives for `a_m × 10^-a_s` and
/// `b_m × 10^-b_s` where `dec_add` does not spell it out (both operands
/// nonzero, and operands or sum too large for a mantissa at the larger
/// scale): `None` on overflow, else the sum's mantissa and scale.
pub uninterp spec fn decimal_checked_add(a_m: int, a_s: int, b_m: int, b_s: int) -> Option<(int, nat)>;

/// What `rust_decimal`'s `checked_sub` gives for `a_m × 10^-a_s` and
/// `b_m × 10^-b_s` where `dec_sub` does not spell it out: `None` on
/// overflow, else the difference's mantissa and scale.
pub uninterp spec fn decimal_checked_sub(a_m: int, a_s: int, b_m: int, b_s: int) -> Option<(int, nat)>;

/// Whether `dec_add` spells out the sum of `a` and `b`: an operand is
/// zero, or the sum is exact at the larger scale.
pub open spec fn add_is_plain(a: Dec, b: Dec) -> bool {
    a.0 == 0 || b.0 == 0 || add_fits(a, b)
}

/// Whether `dec_sub` spells out the difference of `a` and `b`.
pub open spec fn sub_is_plain(a: Dec, b: Dec) -> bool {
    a.0 == 0 || b.0 == 0 || sub_fits(a, b)
}

/// `a + b` where `add_is_plain`: with a zero first operand the second comes
/// back as it is; with a zero second operand the first does; otherwise the
/// operands are brought to the larger scale and added.
pub open spec fn plain_add(a: Dec, b: Dec) -> Dec {
    if a.0 == 0 {
        b
    } else if b.0 == 0 {
        a
    } else {
        let s = max_scale(a, b);
        (scaled(a, s) + scaled(b, s), s)
    }
}

/// `a - b` where `sub_is_plain`: with a zero first operand the second comes
/// back negated; with a zero second operand the first comes back as it is;
/// otherwise the operands are brought to the larger scale and subtracted.
pub open spec fn plain_sub(a: Dec, b: Dec) -> Dec {
    if a.0 == 0 {
        (-b.0, b.1)
    } else if b.0 == 0 {
        a
    } else {
        let s = max_scale(a, b);
        (scaled(a, s) - scaled(b, s), s)
    }
}

/// `a + b` as `rust_decimal` computes it (`None` on overflow).
pub open spec fn dec_add(a: Dec, b: Dec) -> Option<Dec> {
    if add_is_plain(a, b) {
        Some(plain_add(a, b))
    } else {
        decimal_checked_add(a.0, a.1 as int, b.0, b.1 as int)
    }
}

/// `a - b` as `rust_decimal` computes it (`None` on overflow).
pub open spec fn dec_sub(a: Dec, b: Dec) -> Option<Dec> {
    if sub_is_plain(a, b) {
        Some(plain_sub(a, b))
    } else {
        decimal_checked_sub(a.0, a.1 as int, b.0, b.1 as int)
    }
}

/// The sum, where `rust_decimal` does not overflow (the `+=` of a balance).
pub open spec fn plus(a: Dec, b: Dec) -> Dec {
    dec_add(a, b).unwrap()
}

/// The difference, where `rust_decimal` does not overflow (the `-=` of a
/// balance).
pub open spec fn minus(a: Dec, b: Dec) -> Dec {
    dec_sub(a, b).unwrap()
}

/// `a + b` does not overflow.
pub open spec fn add_ok(a: Dec, b: Dec) -> bool {
    dec_add(a, b) is Some
}

/// `a - b` does not overflow.
pub open spec fn sub_ok(a: Dec, b: Dec) -> bool {
    dec_sub(a, b) is Some
}

/// `rust_decimal` computed `a + b` without overflow and exactly.
pub open spec fn add_exact(a: Dec, b: Dec) -> bool {
    add_ok(a, b) && val(plus(a, b)) == val(a) + val(b)
}

/// `rust_decimal` computed `a - b` without overflow and exactly.
pub open spec fn sub_exact(a: Dec, b: Dec) -> bool {
    sub_ok(a, b) && val(minus(a, b)) == val(a) - val(b)
}

/// `a / d` rounded to the nearest integer, a tie going to the even one.
pub open spec fn div_half_even(a: nat, d: nat) -> nat {
    let q = a / d;
    let r = a % d;
    if 2 * r > d || (2 * r == d && q % 2 == 1) {
        q + 1
    } else {
        q
    }
}

/// What `rust_decimal`'s `round_dp(dp)` gives for the decimal with the
/// mantissa `m` and the scale `s`, as a mantissa and a scale: a number with
/// at most `dp` places is kept as it is; another is rounded to `dp` places,
/// half to even, and gets the scale `dp`.
pub open spec fn spec_round_dp(m: int, s: nat, dp: nat) -> Dec {
    if s <= dp {
        (m, s)
    } else {
        let q = div_half_even(abs(m), pow10((s - dp) as nat));
        (if m < 0 {
            -q
        } else {
            q as int
        }, dp)
    }
}

/// What `rust_decimal`'s `normalize` gives for the decimal with the mantissa
/// `m` and the scale `s`: the trailing zeros of the fraction are dropped,
/// and zero becomes `0` with the scale `0`.
pub open spec fn spec_normalize(m: int, s: nat) -> Dec
    decreases s,
{
    if m == 0 {
        (0, 0)
    } else if s > 0 && m % 10 == 0 {
        spec_normalize(m / 10, (s - 1) as nat)
    } else {
        (m, s)
    }
}

/// The character of a decimal digit.
pub open spec fn digit_char(d: int) -> char {
    ('0' as int + d) as char
}

/// The decimal digits of `n`, most significant first; none for zero.
pub open spec fn digits(n: nat) -> Seq<char>
    decreases n,
{
    if n == 0 {
        Seq::empty()
    } else {
        digits(n / 10).push(digit_char((n % 10) as int))
    }
}

/// The digits of `n`, with zeros in front to make at least `s` of them.
pub open spec fn padded_digits(n: nat, s: nat) -> Seq<char> {
    let d = digits(n);
    if d.len() < s {
        Seq::new((s - d.len()) as nat, |i: int| '0') + d
    } else {
        d
    }
}

/// The text that `rust_decimal` writes for the magnitude `n` at the scale
/// `s`: the integer digits (`0` when there are none), and, when `s > 0`, a
/// point and exactly `s` fraction digits.
pub open spec fn unsigned_text(n: nat, s: nat) -> Seq<char> {
    let d = padded_digits(n, s);
    let w = d.len() - s;
    if s == 0 {
        if d.len() == 0 {
            seq!['0']
        } else {
            d
        }
    } else {
        (if w == 0 {
            seq!['0']
        } else {
            d.take(w)
        }) + seq!['.'] + d.skip(w)
    }
}

/// The text that `rust_decimal` writes for the decimal with the mantissa
/// `m` and the scale `s` (its `Display`): a `-` for a negative number, then
/// the text of its magnitude.
pub open spec fn decimal_text(m: int, s: nat) -> Seq<char> {
    if m < 0 {
        seq!['-'] + unsigned_text(abs(m), s)
    } else {
        unsigned_text(abs(m), s)
    }
}

/// The text of a balance with trailing zeros trimmed: `1.5`, `0`, `-2`.
pub open spec fn trimmed_text(d: Dec) -> Seq<char> {
    let n = spec_normalize(d.0, d.1);
    decimal_text(n.0, n.1)
}

/// Whether `(mantissa, scale)` is a number that `rust_decimal` can hold.
pub open spec fn is_decimal(mantissa: int, scale: int) -> bool {
    &&& 0 <= scale <= MAX_SCALE
    &&& fits_mantissa(mantissa)
}

/// An optional amount as an optional value.
pub open spec fn opt_view(a: Option<Amount>) -> Option<Dec> {
    match a {
        Some(x) => Some(x@),
        None => None,
    }
}

/// A decimal number as `rust_decimal` holds it: `mantissa × 10^-scale`.
#[derive(Clone, Copy, Debug)]
pub struct Amount {
    mantissa: i128,
    scale: u32,
}

impl View for Amount {
    type V = Dec;

    closed spec fn view(&self) -> Dec {
        (self.mantissa as int, self.scale as nat)
    }
}

/// Calls `rust_decimal::Decimal::round_dp`. The contract states banker's
/// rounding to `dp` places, as `round_dp` documents it and as its source
/// computes it (a number with no more than `dp` places comes back as it is).
#[verifier::external_body]
fn decimal_round_dp(a: &Amount, dp: u32) -> (r: Amount)
    ensures
        r@ == spec_round_dp(a@.0, a@.1, dp as nat),
{
    let d = rust_decimal::Decimal::from_i128_with_scale(a.mantissa, a.scale).round_dp(dp);
    Amount { mantissa: d.mantissa(), scale: d.scale() }
}

/// Calls `rust_decimal::Decimal::normalize`: trailing zeros of the fraction
/// dropped, zero as `0` with scale `0`.
#[verifier::external_body]
fn decimal_normalize(a: &Amount) -> (r: Amount)
    ensures
        r@ == spec_normalize(a@.0, a@.1),
{
    let d = rust_decimal::Decimal::from_i128_with_scale(a.mantissa, a.scale).normalize();
    Amount { mantissa: d.mantissa(), scale: d.scale() }
}

/// Calls `rust_decimal`'s `Display` (`to_string`).
#[verifier::external_body]
fn decimal_to_string(a: &Amount) -> (r: String)
    ensures
        r@ == decimal_text(a@.0, a@.1),
{
    rust_decimal::Decimal::from_i128_with_scale(a.mantissa, a.scale).to_string()
}

/// Calls `rust_decimal::Decimal::checked_add` (the sum that `+` and `+=`
/// compute; `None` where they panic). The contract states what the source
/// computes where it is plain (`add_is_plain`): a zero operand gives the other
/// back, and otherwise operands and sum that fit in a mantissa at the larger
/// scale are added there exactly. Elsewhere the result is named. Any result
/// is a decimal.
#[verifier::external_body]
fn decimal_checked_add_call(a: &Amount, b: &Amount) -> (r: Option<Amount>)
    ensures
        add_is_plain(a@, b@) ==> opt_view(r) == Some(plain_add(a@, b@)),
        !add_is_plain(a@, b@) ==> opt_view(r) == decimal_checked_add(a@.0, a@.1 as int, b@.0, b@.1 as int),
        r matches Some(x) ==> is_decimal(x@.0, x@.1 as int),
{
    let x = rust_decimal::Decimal::from_i128_with_scale(a.mantissa, a.scale);
    let y = rust_decimal::Decimal::from_i128_with_scale(b.mantissa, b.scale);
    match x.checked_add(y) {
        Some(d) => Some(Amount { mantissa: d.mantissa(), scale: d.scale() }),
        None => None,
    }
}

/// Calls `rust_decimal::Decimal::checked_sub` (the difference that `-` and
/// `-=` compute; `None` where they panic). The contract states what the
/// source computes where it is plain (`sub_is_plain`): a zero first operand
/// gives the second negated, a zero second operand gives the first, and
/// otherwise operands and difference that fit in a mantissa at the larger
/// scale are subtracted there exactly. Elsewhere the result is named. Any
/// result is a decimal.
#[verifier::external_body]
fn decimal_checked_sub_call(a: &Amount, b: &Amount) -> (r: Option<Amount>)
    ensures
        sub_is_plain(a@, b@) ==> opt_view(r) == Some(plain_sub(a@, b@)),
        !sub_is_plain(a@, b@) ==> opt_view(r) == decimal_checked_sub(a@.0, a@.1 as int, b@.0, b@.1 as int),
        r matches Some(x) ==> is_decimal(x@.0, x@.1 as int),
{
    let x = rust_decimal::Decimal::from_i128_with_scale(a.mantissa, a.scale);
    let y = rust_decimal::Decimal::from_i128_with_scale(b.mantissa, b.scale);
    match x.checked_sub(y) {
        Some(d) => Some(Amount { mantissa: d.mantissa(), scale: d.scale() }),
        None => None,
    }
}

/// Calls `rust_decimal`'s `>=` (`PartialOrd::ge`), which compares the values
/// exactly.
#[verifier::external_body]
fn decimal_ge(a: &Amount, b: &Amount) -> (r: bool)
    ensures
        r == (val(a@) >= val(b@)),
{
    let x = rust_decimal::Decimal::from_i128_with_scale(a.mantissa, a.scale);
    let y = rust_decimal::Decimal::from_i128_with_scale(b.mantissa, b.scale);
    x >= y
}

impl Amount {
    /// Every amount is a decimal that `rust_decimal` can hold.
    #[verifier::type_invariant]
    pub open spec fn is_valid(self) -> bool {
        is_decimal(self@.0, self@.1 as int)
    }

    /// The decimal `num × 10^-scale` (as `Decimal::new`).
    pub fn new(num: i64, scale: u32) -> (a: Amount)
        requires
            scale <= MAX_SCALE,
        ensures
            a@ == (num as int, scale as nat),
    {
        Amount { mantissa: num as i128, scale }
    }

    /// The decimal `num × 10^-scale` (as `Decimal::from_i128_with_scale`).
    pub fn from_i128_with_scale(num: i128, scale: u32) -> (a: Amount)
        requires
            is_decimal(num as int, scale as int),
        ensures
            a@ == (num as int, scale as nat),
    {
        Amount { mantissa: num, scale }
    }

    /// Zero (as `Decimal::ZERO`).
    pub fn zero() -> (a: Amount)
        ensures
            a@ == (0int, 0nat),
            val(a@) == 0,
    {
        let a = Amount { mantissa: 0, scale: 0 };
        assert(0 * pow10(MAX_SCALE as nat) == 0) by (nonlinear_arith);
        a
    }

    /// The mantissa.
    pub fn mantissa(&self) -> (m: i128)
        ensures
            m == self@.0,
            is_decimal(self@.0, self@.1 as int),
    {
        proof {
            use_type_invariant(self);
        }
        self.mantissa
    }

    /// The scale: the number of decimal places.
    pub fn scale(&self) -> (s: u32)
        ensures
            s == self@.1,
            is_decimal(self@.0, self@.1 as int),
    {
        proof {
            use_type_invariant(self);
        }
        self.scale
    }

    /// The amount rounded to `dp` places, half to even (`round_dp`).
    pub fn round_dp(&self, dp: u32) -> (r: Amount)
        ensures
            r@ == spec_round_dp(self@.0, self@.1, dp as nat),
    {
        decimal_round_dp(self, dp)
    }

    /// The amount with the trailing zeros of its fraction dropped
    /// (`normalize`).
    pub fn normalize(&self) -> (r: Amount)
        ensures
            r@ == spec_normalize(self@.0, self@.1),
    {
        decimal_normalize(self)
    }

    /// The amount written out (`to_string`).
    pub fn to_text(&self) -> (r: String)
        ensures
            r@ == decimal_text(self@.0, self@.1),
    {
        decimal_to_string(self)
    }

    /// `self + other`, or `None` where `rust_decimal` overflows.
    pub fn checked_add(&self, other: &Amount) -> (r: Option<Amount>)
        ensures
            opt_view(r) == dec_add(self@, other@),
            r matches Some(x) ==> is_decimal(x@.0, x@.1 as int),
    {
        decimal_checked_add_call(self, other)
    }

    /// `self - other`, or `None` where `rust_decimal` overflows.
    pub fn checked_sub(&self, other: &Amount) -> (r: Option<Amount>)
        ensures
            opt_view(r) == dec_sub(self@, other@),
            r matches Some(x) ==> is_decimal(x@.0, x@.1 as int),
    {
        decimal_checked_sub_call(self, other)
    }

    /// `self >= other`, comparing values.
    pub fn ge(&self, other: &Amount) -> (r: bool)
        ensures
            r == (val(self@) >= val(other@)),
    {
        decimal_ge(self, other)
    }
}

/// `10^(m + n) = 10^m × 10^n`.
pub proof fn lemma_pow10_add(m: nat, n: nat)
    ensures
        pow10(m + n) == pow10(m) * pow10(n),
    decreases m,
{
    if m == 0 {
        assert(1 * pow10(n) == pow10(n)) by (nonlinear_arith);
    } else {
        let k = (m - 1) as nat;
        lemma_pow10_add(k, n);
        assert(m + n == (k + n) + 1);
        assert(pow10(m + n) == 10 * pow10(k + n));
        assert(pow10(m) == 10 * pow10(k));
        let a = pow10(k);
        let b = pow10(n);
        assert(10 * (a * b) == (10 * a) * b) by (nonlinear_arith);
    }
}

/// Zero is worth zero at any scale; negating the mantissa negates the value.
pub proof fn lemma_val_basics(d: Dec)
    ensures
        d.0 == 0 ==> val(d) == 0,
        val((-d.0, d.1)) == -val(d),
{
    let p = pow10((MAX_SCALE - d.1) as nat);
    assert(0 * p == 0) by (nonlinear_arith);
    assert((-d.0) * p == -(d.0 * p)) by (nonlinear_arith);
}

/// Bringing two decimals to their larger scale and adding (or subtracting)
/// the mantissas there adds (or subtracts) their values.
pub proof fn lemma_val_aligned(a: Dec, b: Dec)
    requires
        a.1 <= MAX_SCALE,
        b.1 <= MAX_SCALE,
    ensures
        ({
            let s = max_scale(a, b);
            &&& val((scaled(a, s) + scaled(b, s), s)) == val(a) + val(b)
            &&& val((scaled(a, s) - scaled(b, s), s)) == val(a) - val(b)
        }),
{
    let s = max_scale(a, b);
    let p1 = pow10((s - a.1) as nat);
    let p2 = pow10((s - b.1) as nat);
    let q = pow10((MAX_SCALE - s) as nat);
    lemma_pow10_add((s - a.1) as nat, (MAX_SCALE - s) as nat);
    lemma_pow10_add((s - b.1) as nat, (MAX_SCALE - s) as nat);
    assert(((s - a.1) as nat + (MAX_SCALE - s) as nat) as nat == (MAX_SCALE - a.1) as nat);
    assert(((s - b.1) as nat + (MAX_SCALE - s) as nat) as nat == (MAX_SCALE - b.1) as nat);
    let x = a.0;
    let y = b.0;
    assert((x * p1 + y * p2) * q == x * (p1 * q) + y * (p2 * q)) by (nonlinear_arith);
    assert((x * p1 - y * p2) * q == x * (p1 * q) - y * (p2 * q)) by (nonlinear_arith);
}

/// Where `rust_decimal`'s sum is plain (`add_is_plain`) it is exact.
pub proof fn lemma_plain_add_is_exact(a: Dec, b: Dec)
    requires
        is_decimal(a.0, a.1 as int),
        is_decimal(b.0, b.1 as int),
        add_is_plain(a, b),
    ensures
        add_exact(a, b),
        is_decimal(plus(a, b).0, plus(a, b).1 as int),
{
    lemma_val_basics(a);
    lemma_val_basics(b);
    lemma_val_aligned(a, b);
}

/// Where `rust_decimal`'s difference is plain (`sub_is_plain`) it is exact.
pub proof fn lemma_plain_sub_is_exact(a: Dec, b: Dec)
    requires
        is_decimal(a.0, a.1 as int),
        is_decimal(b.0, b.1 as int),
        sub_is_plain(a, b),
    ensures
        sub_exact(a, b),
        is_decimal(minus(a, b).0, minus(a, b).1 as int),
{
    lemma_val_basics(a);
    lemma_val_basics(b);
    lemma_val_aligned(a, b);
}

/// Rounding a decimal gives a decimal.
pub proof fn lemma_round_dp_is_decimal(m: int, s: nat, dp: nat)
    requires
        is_decimal(m, s as int),
    ensures
        is_decimal(spec_round_dp(m, s, dp).0, spec_round_dp(m, s, dp).1 as int),
{
    if s > dp {
        let d = pow10((s - dp) as nat);
        lemma_pow10_positive((s - dp) as nat);
        let a = abs(m);
        assert(d >= 2) by {
            reveal_with_fuel(pow10, 2);
            lemma_pow10_positive((s - dp - 1) as nat);
        }
        assert(a / d + 1 <= a || a / d == 0) by (nonlinear_arith)
            requires
                d >= 2,
        ;
    }
}

/// Dropping trailing zeros keeps a decimal's value, and gives a decimal.
pub proof fn lemma_normalize_keeps_value(m: int, s: nat)
    requires
        is_decimal(m, s as int),
    ensures
        val(spec_normalize(m, s)) == val((m, s)),
        is_decimal(spec_normalize(m, s).0, spec_normalize(m, s).1 as int),
    decreases s,
{
    if m == 0 {
        lemma_val_basics((m, s));
        lemma_val_basics((0, 0));
    } else if s > 0 && m % 10 == 0 {
        let k = (MAX_SCALE - s) as nat;
        assert(pow10(k + 1) == 10 * pow10(k));
        let p = pow10(k);
        assert((m / 10) * (10 * p) == m * p) by (nonlinear_arith)
            requires
                m % 10 == 0,
        ;
        assert(abs(m / 10) <= abs(m)) by (nonlinear_arith)
            requires
                m % 10 == 0,
        ;
        assert(((MAX_SCALE - (s - 1)) as nat) == k + 1);
        lemma_normalize_keeps_value(m / 10, (s - 1) as nat);
    }
}

/// `10^n` is at least 1.
pub proof fn lemma_pow10_positive(n: nat)
    ensures
        pow10(n) >= 1,
    decreases n,
{
    if n > 0 {
        lemma_pow10_positive((n - 1) as nat);
    }
}


} // verus!
