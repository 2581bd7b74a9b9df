//! Arbitrary-precision decimal numbers.
//!
//! A `Decimal` is held the way `bigdecimal::BigDecimal` holds it: a signed
//! integer mantissa (kept here as its decimal text) and a scale, the number
//! being `mantissa * 10^(-scale)`. Its view is the pair `(mantissa, scale)`.
//! Arithmetic is done by `bigdecimal`; the wrappers below state what each
//! operation does to the value.
use bigdecimal::BigDecimal;
use bigdecimal::num_bigint::BigInt;
use crate::text::{digit_char, int_text, nat_text, u64_text};
use vstd::prelude::*;

verus! {

pub open spec fn is_digit(c: char) -> bool {
    '0' <= c && c <= '9'
}

pub open spec fn digit_value(c: char) -> nat {
    (c as u32 - '0' as u32) as nat
}

/// Value of a string of decimal digits, most significant first.
pub open spec fn digits_value(s: Seq<char>) -> nat
    decreases s.len(),
{
    if s.len() == 0 {
        0
    } else {
        digits_value(s.drop_last()) * 10 + digit_value(s.last())
    }
}

pub open spec fn all_digits(s: Seq<char>) -> bool {
    forall|i: int| 0 <= i < s.len() ==> is_digit(#[trigger] s[i])
}

/// Text of an integer: digits, with an optional leading minus sign.
pub open spec fn is_int_text(s: Seq<char>) -> bool {
    if s.len() > 0 && s[0] == '-' {
        s.len() > 1 && all_digits(s.skip(1))
    } else {
        s.len() > 0 && all_digits(s)
    }
}

pub open spec fn int_of_text(s: Seq<char>) -> int {
    if s.len() > 0 && s[0] == '-' {
        -(digits_value(s.skip(1)) as int)
    } else {
        digits_value(s) as int
    }
}

pub open spec fn pow10(n: nat) -> nat
    decreases n,
{
    if n == 0 {
        1
    } else {
        10 * pow10((n - 1) as nat)
    }
}

/// The mantissa of `v` rescaled to scale `s` (meaningful for `s >= v.1`).
pub open spec fn at_scale(v: (int, int), s: int) -> int {
    v.0 * pow10((s - v.1) as nat)
}

pub open spec fn common_scale(a: (int, int), b: (int, int)) -> int {
    if a.1 >= b.1 {
        a.1
    } else {
        b.1
    }
}

/// `a` and `b` denote the same number.
pub open spec fn same_value(a: (int, int), b: (int, int)) -> bool {
    at_scale(a, common_scale(a, b)) == at_scale(b, common_scale(a, b))
}

/// The number `a` is strictly greater than the number `b`.
pub open spec fn greater(a: (int, int), b: (int, int)) -> bool {
    at_scale(a, common_scale(a, b)) > at_scale(b, common_scale(a, b))
}

pub open spec fn product(a: (int, int), b: (int, int)) -> (int, int) {
    (a.0 * b.0, a.1 + b.1)
}

pub open spec fn sum(a: (int, int), b: (int, int)) -> (int, int) {
    (at_scale(a, common_scale(a, b)) + at_scale(b, common_scale(a, b)), common_scale(a, b))
}

pub open spec fn negated(a: (int, int)) -> (int, int) {
    (-a.0, a.1)
}

pub open spec fn is_zero_value(a: (int, int)) -> bool {
    a.0 == 0
}

/// What `BigDecimal`'s division returns on two numbers (rounded to its default precision).
pub uninterp spec fn quotient_of(a: (int, int), b: (int, int)) -> (int, int);

/// What `BigDecimal::with_prec` returns on a number and a count of significant digits.
pub uninterp spec fn prec_rounded_of(a: (int, int), prec: int) -> (int, int);

pub struct Decimal {
    /// The mantissa, as the text of an integer.
    pub digits: String,
    /// The number of digits after the decimal point (may be negative).
    pub scale: i64,
}

impl View for Decimal {
    type V = (int, int);

    open spec fn view(&self) -> (int, int) {
        (int_of_text(self.digits@), self.scale as int)
    }
}

/// The integer fits in an `i64`, as a scale must.
pub open spec fn fits_i64(x: int) -> bool {
    i64::MIN <= x && x <= i64::MAX
}

/// Length of the shortest text of the integer `m`.
pub open spec fn digit_len(m: int) -> int {
    int_text(m).len() as int
}

impl Decimal {
    pub open spec fn wf(&self) -> bool {
        is_int_text(self.digits@)
    }

    /// The mantissa is written in its shortest form.
    pub open spec fn canonical(&self) -> bool {
        self.digits@ == int_text(self@.0)
    }

    /// The number 0.
    pub fn zero() -> (r: Decimal)
        ensures
            r.wf(),
            r.canonical(),
            r@ == (0int, 0int),
    {
        let r = Decimal { digits: String::from_str("0"), scale: 0 };
        proof {
            reveal_strlit("0");
            lemma_digit_text_value(r.digits@);
            assert(r.digits@ =~= int_text(0));
        }
        r
    }

    /// The number 1.
    pub fn one() -> (r: Decimal)
        ensures
            r.wf(),
            r.canonical(),
            r@ == (1int, 0int),
    {
        let r = Decimal { digits: String::from_str("1"), scale: 0 };
        proof {
            reveal_strlit("1");
            lemma_digit_text_value(r.digits@);
            assert(r.digits@ =~= int_text(1));
        }
        r
    }

    /// The integer whose text is `text`, if `text` is the text of an integer.
    pub fn from_int_text(text: &String) -> (r: Option<Decimal>)
        ensures
            r is Some <==> is_int_text(text@),
            r matches Some(d) ==> d.wf() && d@ == (int_of_text(text@), 0int),
    {
        if check_int_text(text.as_str()) {
            Some(Decimal { digits: text.clone(), scale: 0 })
        } else {
            None
        }
    }

    pub fn duplicate(&self) -> (r: Decimal)
        ensures
            r == *self,
    {
        Decimal { digits: self.digits.clone(), scale: self.scale }
    }

    /// `10^n`.
    pub fn exponent_to_big_decimal(n: u64) -> (r: Decimal)
        requires
            n <= i64::MAX,
        ensures
            r.wf(),
            r.canonical(),
            r@ == (1int, -(n as int)),
    {
        let one = Decimal::one();
        Decimal { digits: one.digits, scale: -(n as i64) }
    }

    /// The integer `n`.
    pub fn from_u64(n: u64) -> (r: Decimal)
        ensures
            r.wf(),
            r.canonical(),
            r@ == (n as int, 0int),
    {
        let digits = u64_text(n);
        proof {
            lemma_nat_text_value(n as nat);
        }
        Decimal { digits, scale: 0 }
    }

    /// Whether this number is zero.
    pub fn is_zero(&self) -> (r: bool)
        requires
            self.wf(),
        ensures
            r == is_zero_value(self@),
    {
        let n = self.digits.unicode_len();
        let mut i: usize = 0;
        let mut all_zero = true;
        while i < n
            invariant
                n == self.digits@.len(),
                self.wf(),
                i <= n,
                all_zero == (forall|j: int| 0 <= j < i ==> self.digits@[j] == '0' || self.digits@[j] == '-'),
            decreases n - i,
        {
            let c = self.digits.as_str().get_char(i);
            if c != '0' && c != '-' {
                all_zero = false;
            }
            i = i + 1;
        }
        proof {
            lemma_int_text_zero(self.digits@);
        }
        all_zero
    }
}

proof fn lemma_digit_char(d: nat)
    requires
        d < 10,
    ensures
        is_digit(digit_char(d)),
        digit_value(digit_char(d)) == d,
{
    if d == 0 {} else if d == 1 {} else if d == 2 {} else if d == 3 {} else if d == 4 {}
    else if d == 5 {} else if d == 6 {} else if d == 7 {} else if d == 8 {} else {}
}

/// The decimal text of `n` is the text of an integer whose value is `n`.
pub proof fn lemma_nat_text_value(n: nat)
    ensures
        is_int_text(nat_text(n)),
        int_of_text(nat_text(n)) == n,
        all_digits(nat_text(n)),
        digits_value(nat_text(n)) == n,
    decreases n,
{
    let s = nat_text(n);
    lemma_digit_char(n % 10);
    if n < 10 {
        assert(s.drop_last().len() == 0);
        assert(digits_value(s.drop_last()) == 0);
        assert(s.last() == s[0]);
        assert(n % 10 == n);
    } else {
        lemma_nat_text_value(n / 10);
        let p = nat_text(n / 10);
        assert(s.drop_last() =~= p);
        assert(s.last() == digit_char(n % 10));
        assert(digits_value(s) == digits_value(p) * 10 + digit_value(s.last()));
        assert((n / 10) * 10 + n % 10 == n) by (nonlinear_arith);
        assert forall|i: int| 0 <= i < s.len() implies is_digit(#[trigger] s[i]) by {
            if i < p.len() {
                assert(s[i] == p[i]);
            }
        }
    }
    assert(is_digit(s[0]));
    assert(s[0] != '-');
}

/// The shortest text of an integer is the text of that integer.
pub proof fn lemma_int_text_value(m: int)
    ensures
        is_int_text(int_text(m)),
        int_of_text(int_text(m)) == m,
{
    if m < 0 {
        let t = nat_text((-m) as nat);
        lemma_nat_text_value((-m) as nat);
        let s = int_text(m);
        assert(s.skip(1) =~= t);
        assert(s[0] == '-');
    } else {
        lemma_nat_text_value(m as nat);
    }
}

/// A single digit character has its digit value.
proof fn lemma_digit_text_value(s: Seq<char>)
    requires
        s.len() == 1,
        is_digit(s[0]),
    ensures
        is_int_text(s),
        int_of_text(s) == digit_value(s[0]),
{
    assert(s.drop_last().len() == 0);
    assert(digits_value(s.drop_last()) == 0);
    assert(s.last() == s[0]);
    assert(!(s[0] == '-'));
}

proof fn lemma_digits_zero(s: Seq<char>)
    requires
        all_digits(s),
    ensures
        (digits_value(s) == 0) <==> (forall|j: int| 0 <= j < s.len() ==> s[j] == '0'),
    decreases s.len(),
{
    if s.len() > 0 {
        let p = s.drop_last();
        assert(all_digits(p)) by {
            assert forall|i: int| 0 <= i < p.len() implies is_digit(#[trigger] p[i]) by {
                assert(p[i] == s[i]);
            }
        }
        lemma_digits_zero(p);
        assert(is_digit(s[s.len() - 1]));
        if digits_value(s) == 0 {
            assert forall|j: int| 0 <= j < s.len() implies s[j] == '0' by {
                if j < s.len() - 1 {
                    assert(p[j] == s[j]);
                }
            }
        }
        if forall|j: int| 0 <= j < s.len() ==> s[j] == '0' {
            assert forall|j: int| 0 <= j < p.len() implies p[j] == '0' by {
                assert(p[j] == s[j]);
            }
            assert(s.last() == s[s.len() - 1]);
        }
    }
}

proof fn lemma_int_text_zero(s: Seq<char>)
    requires
        is_int_text(s),
    ensures
        (int_of_text(s) == 0) <==> (forall|j: int| 0 <= j < s.len() ==> s[j] == '0' || s[j] == '-'),
{
    if s[0] == '-' {
        let t = s.skip(1);
        lemma_digits_zero(t);
        if forall|j: int| 0 <= j < s.len() ==> s[j] == '0' || s[j] == '-' {
            assert forall|j: int| 0 <= j < t.len() implies t[j] == '0' by {
                assert(t[j] == s[j + 1]);
                assert(is_digit(t[j]));
            }
        }
        if int_of_text(s) == 0 {
            assert forall|j: int| 0 <= j < s.len() implies s[j] == '0' || s[j] == '-' by {
                if j > 0 {
                    assert(t[j - 1] == s[j]);
                }
            }
        }
    } else {
        lemma_digits_zero(s);
        if forall|j: int| 0 <= j < s.len() ==> s[j] == '0' || s[j] == '-' {
            assert forall|j: int| 0 <= j < s.len() implies s[j] == '0' by {
                assert(is_digit(s[j]));
            }
        }
    }
}

/// Whether `s` is the text of an integer.
pub fn check_int_text(s: &str) -> (r: bool)
    ensures
        r == is_int_text(s@),
{
    let n = s.unicode_len();
    if n == 0 {
        return false;
    }
    let start: usize = if s.get_char(0) == '-' { 1 } else { 0 };
    if start == n {
        return false;
    }
    let mut i: usize = start;
    while i < n
        invariant
            n == s@.len(),
            start <= i <= n,
            start == (if s@[0] == '-' { 1usize } else { 0usize }),
            forall|j: int| start <= j < i ==> is_digit(#[trigger] s@[j]),
        decreases n - i,
    {
        let c = s.get_char(i);
        if !('0' <= c && c <= '9') {
            proof {
                if s@[0] == '-' {
                    assert(s@.skip(1)[i - 1] == s@[i as int]);
                }
            }
            return false;
        }
        i = i + 1;
    }
    proof {
        if s@[0] == '-' {
            assert forall|j: int| 0 <= j < s@.skip(1).len() implies is_digit(#[trigger] s@.skip(1)[j]) by {
                assert(s@.skip(1)[j] == s@[j + 1]);
            }
        }
    }
    true
}

pub proof fn lemma_pow10_pos(n: nat)
    ensures
        pow10(n) > 0,
    decreases n,
{
    if n > 0 {
        lemma_pow10_pos((n - 1) as nat);
    }
}

/// Only `10^0` is 1.
pub proof fn lemma_pow10_one(n: nat)
    requires
        pow10(n) == 1,
    ensures
        n == 0,
{
    if n > 0 {
        lemma_pow10_pos((n - 1) as nat);
    }
}

/// A number is below 10 to the count of its digits.
pub proof fn lemma_nat_text_below(n: nat)
    ensures
        n < pow10(nat_text(n).len()),
    decreases n,
{
    if n >= 10 {
        lemma_nat_text_below(n / 10);
        let k = nat_text(n / 10).len();
        assert(nat_text(n).len() == k + 1);
        assert(pow10(k + 1) == 10 * pow10(k));
        assert(n < 10 * pow10(k)) by (nonlinear_arith)
            requires
                n / 10 < pow10(k),
                n >= 0,
        ;
    } else {
        assert(pow10(1) == 10 * pow10(0));
    }
}

/// The digits of a product are at most those of its factors together.
pub proof fn lemma_digit_count_product(a: int, b: int)
    ensures
        digit_count(a * b) <= digit_count(a) + digit_count(b),
        digit_count(a) >= 1,
{
    let x: nat = (if a < 0 { -a } else { a }) as nat;
    let y: nat = (if b < 0 { -b } else { b }) as nat;
    let z: nat = (if a * b < 0 { -(a * b) } else { a * b }) as nat;
    assert(z == x * y) by (nonlinear_arith)
        requires
            x == (if a < 0 { -a } else { a }),
            y == (if b < 0 { -b } else { b }),
            z == (if a * b < 0 { -(a * b) } else { a * b }),
    ;
    lemma_nat_text_below(x);
    lemma_nat_text_below(y);
    let kx = nat_text(x).len();
    let ky = nat_text(y).len();
    lemma_pow10_add(kx, ky);
    lemma_pow10_pos(kx);
    lemma_pow10_pos(ky);
    let px = pow10(kx);
    let py = pow10(ky);
    assert(x * y < px * py) by (nonlinear_arith)
        requires
            x < px,
            y < py,
            x >= 0,
            y >= 0,
    ;
    assert(nat_text(x).len() >= 1) by {
        reveal_with_fuel(nat_text, 2);
    }
    assert(nat_text(y).len() >= 1) by {
        reveal_with_fuel(nat_text, 2);
    }
    lemma_nat_text_len(z, kx + ky);
}

/// A number below `10^k` has at most `k` digits.
pub proof fn lemma_nat_text_len(n: nat, k: nat)
    requires
        k >= 1,
        n < pow10(k),
    ensures
        nat_text(n).len() <= k,
    decreases n,
{
    if n >= 10 {
        assert(k >= 2) by {
            if k == 1 {
                assert(pow10(1) == 10 * pow10(0));
            }
        }
        assert(n / 10 < pow10((k - 1) as nat)) by {
            assert(pow10(k) == 10 * pow10((k - 1) as nat));
        }
        lemma_nat_text_len(n / 10, (k - 1) as nat);
    }
}

pub proof fn lemma_pow10_add(x: nat, y: nat)
    ensures
        pow10(x + y) == pow10(x) * pow10(y),
    decreases y,
{
    if y == 0 {
        assert(x + y == x);
        assert(pow10(y) == 1);
    } else {
        lemma_pow10_add(x, (y - 1) as nat);
        assert((x + y - 1) as nat == x + (y - 1) as nat);
        assert(pow10(x + y) == 10 * pow10((x + y - 1) as nat));
        assert(pow10(x) * pow10(y) == pow10(x) * (10 * pow10((y - 1) as nat)));
        assert(pow10(x) * (10 * pow10((y - 1) as nat)) == 10 * (pow10(x) * pow10((y - 1) as nat)))
            by (nonlinear_arith);
    }
}

/// Rescaling to a larger scale multiplies by a power of ten.
pub proof fn lemma_at_scale_lift(v: (int, int), s: int, t: int)
    requires
        v.1 <= s <= t,
    ensures
        at_scale(v, t) == at_scale(v, s) * pow10((t - s) as nat),
{
    lemma_pow10_add((s - v.1) as nat, (t - s) as nat);
    assert(((s - v.1) as nat + (t - s) as nat) as nat == (t - v.1) as nat);
    let p = pow10((s - v.1) as nat);
    let q = pow10((t - s) as nat);
    assert(v.0 * (p * q) == (v.0 * p) * q) by (nonlinear_arith);
}

/// Equality and order of two numbers can be read at any common scale.
pub proof fn lemma_compare_at(a: (int, int), b: (int, int), t: int)
    requires
        a.1 <= t,
        b.1 <= t,
    ensures
        same_value(a, b) <==> at_scale(a, t) == at_scale(b, t),
        greater(a, b) <==> at_scale(a, t) > at_scale(b, t),
{
    let c = common_scale(a, b);
    lemma_at_scale_lift(a, c, t);
    lemma_at_scale_lift(b, c, t);
    let p = pow10((t - c) as nat);
    lemma_pow10_pos((t - c) as nat);
    let x = at_scale(a, c);
    let y = at_scale(b, c);
    assert(x == y <==> x * p == y * p) by (nonlinear_arith)
        requires
            p > 0,
    ;
    assert(x > y <==> x * p > y * p) by (nonlinear_arith)
        requires
            p > 0,
    ;
}

pub proof fn lemma_same_value_trans(a: (int, int), b: (int, int), c: (int, int))
    requires
        same_value(a, b),
        same_value(b, c),
    ensures
        same_value(a, c),
{
    let t = if a.1 >= b.1 && a.1 >= c.1 { a.1 } else if b.1 >= c.1 { b.1 } else { c.1 };
    lemma_compare_at(a, b, t);
    lemma_compare_at(b, c, t);
    lemma_compare_at(a, c, t);
}

/// `sum` depends on the numbers only, not on how they are written.
pub proof fn lemma_sum_congruent(a: (int, int), a2: (int, int), b: (int, int), b2: (int, int))
    requires
        same_value(a, a2),
        same_value(b, b2),
    ensures
        same_value(sum(a, b), sum(a2, b2)),
{
    let m1 = if a.1 >= a2.1 { a.1 } else { a2.1 };
    let m2 = if b.1 >= b2.1 { b.1 } else { b2.1 };
    let t = if m1 >= m2 { m1 } else { m2 };
    lemma_compare_at(a, a2, t);
    lemma_compare_at(b, b2, t);
    let c = common_scale(a, b);
    let c2 = common_scale(a2, b2);
    lemma_at_scale_lift(a, c, t);
    lemma_at_scale_lift(b, c, t);
    lemma_at_scale_lift(a2, c2, t);
    lemma_at_scale_lift(b2, c2, t);
    lemma_at_scale_lift(sum(a, b), c, t);
    lemma_at_scale_lift(sum(a2, b2), c2, t);
    let p = pow10((t - c) as nat);
    let q2 = pow10((t - c2) as nat);
    assert(at_scale(sum(a, b), c) == at_scale(a, c) + at_scale(b, c)) by {
        assert(sum(a, b).1 == c);
        assert((c - c) as nat == 0nat);
        assert(pow10(0) == 1);
        let x = at_scale(a, c) + at_scale(b, c);
        assert(x * 1 == x) by (nonlinear_arith);
    }
    assert(at_scale(sum(a2, b2), c2) == at_scale(a2, c2) + at_scale(b2, c2)) by {
        assert(sum(a2, b2).1 == c2);
        assert((c2 - c2) as nat == 0nat);
        assert(pow10(0) == 1);
        let x = at_scale(a2, c2) + at_scale(b2, c2);
        assert(x * 1 == x) by (nonlinear_arith);
    }
    assert((at_scale(a, c) + at_scale(b, c)) * p == at_scale(a, c) * p + at_scale(b, c) * p)
        by (nonlinear_arith);
    assert((at_scale(a2, c2) + at_scale(b2, c2)) * q2 == at_scale(a2, c2) * q2 + at_scale(b2, c2) * q2)
        by (nonlinear_arith);
    lemma_compare_at(sum(a, b), sum(a2, b2), t);
}

/// Relies on `num_bigint::BigInt`'s `*` and its `Display`: the shortest
/// text of the product of the two integers.
#[verifier::external_body]
fn mantissa_product(a: &String, b: &String) -> (r: String)
    requires
        is_int_text(a@),
        is_int_text(b@),
    ensures
        r@ == int_text(int_of_text(a@) * int_of_text(b@)),
{
    let x = a.parse::<BigInt>().unwrap();
    let y = b.parse::<BigInt>().unwrap();
    (x * y).to_string()
}

/// The exact product: the product of the mantissas at the sum of the scales.
pub(crate) fn times(a: &Decimal, b: &Decimal) -> (r: Decimal)
    requires
        a.wf(),
        b.wf(),
        fits_i64(a@.1 + b@.1),
    ensures
        r.wf(),
        r.canonical(),
        r@ == product(a@, b@),
{
    let digits = mantissa_product(&a.digits, &b.digits);
    proof {
        lemma_int_text_value(a@.0 * b@.0);
    }
    Decimal { digits, scale: a.scale + b.scale }
}

/// Whether the scales of `a` and `b` add up to a scale.
pub(crate) fn product_fits(a: &Decimal, b: &Decimal) -> (r: bool)
    ensures
        r == fits_i64(a@.1 + b@.1),
{
    let s = a.scale as i128 + b.scale as i128;
    i64::MIN as i128 <= s && s <= i64::MAX as i128
}

/// Relies on `BigDecimal`'s `+`: the sum is exact.
#[verifier::external_body]
pub(crate) fn plus(a: &Decimal, b: &Decimal) -> (r: Decimal)
    requires
        a.wf(),
        b.wf(),
    ensures
        r.wf(),
        same_value(r@, sum(a@, b@)),
{
    let x = BigDecimal::new(a.digits.parse::<BigInt>().unwrap(), a.scale);
    let y = BigDecimal::new(b.digits.parse::<BigInt>().unwrap(), b.scale);
    let (i, s) = (x + y).into_bigint_and_exponent();
    Decimal { digits: i.to_string(), scale: s }
}

/// Relies on `BigDecimal`'s unary `-`: it negates the mantissa and keeps the scale.
#[verifier::external_body]
pub(crate) fn negate(a: &Decimal) -> (r: Decimal)
    requires
        a.wf(),
    ensures
        r.wf(),
        r@ == negated(a@),
{
    let x = BigDecimal::new(a.digits.parse::<BigInt>().unwrap(), a.scale);
    let (i, s) = (-x).into_bigint_and_exponent();
    Decimal { digits: i.to_string(), scale: s }
}

/// Relies on `BigDecimal`'s `>`: it compares the numbers.
#[verifier::external_body]
pub(crate) fn exceeds(a: &Decimal, b: &Decimal) -> (r: bool)
    requires
        a.wf(),
        b.wf(),
    ensures
        r == greater(a@, b@),
{
    let x = BigDecimal::new(a.digits.parse::<BigInt>().unwrap(), a.scale);
    let y = BigDecimal::new(b.digits.parse::<BigInt>().unwrap(), b.scale);
    x > y
}

/// The scales of a division stay in range: `BigDecimal`'s `/` starts from
/// the difference of the scales and adds one for each digit it shifts, at
/// most the divisor's digits plus one, and then at most its precision, 100.
pub open spec fn quotient_fits(a: (int, int), b: (int, int), divisor_len: int) -> bool {
    fits_i64(a.1 - b.1) && a.1 - b.1 + divisor_len + 101 <= i64::MAX
}

/// The divisor is 1 written as `10^k` at scale `k`.
pub open spec fn one_like(b: (int, int)) -> bool {
    b.1 >= 0 && b.0 == pow10(b.1 as nat)
}

/// The count of decimal digits of the mantissa (1 for zero).
pub open spec fn digit_count(m: int) -> int {
    nat_text((if m < 0 { -m } else { m }) as nat).len() as int
}

/// The scale of a quotient: the dividend's own (where it is returned as it
/// is), or the difference of the scales plus at most the divisor's digits
/// shifted and the 100 digits of precision.
pub open spec fn quotient_scale_ok(r: (int, int), a: (int, int), b: (int, int), divisor_len: int) -> bool {
    r.1 == a.1 || (a.1 - b.1 <= r.1 && r.1 <= a.1 - b.1 + divisor_len + 100)
}

/// Equal mantissas: the quotient is the mantissa 1 at the difference of the
/// scales, or the dividend itself where the divisor is 1 written as `10^k`.
pub open spec fn equal_mantissa_quotient(r: (int, int), a: (int, int), b: (int, int)) -> bool {
    r == (1int, a.1 - b.1) || (one_like(b) && r == a)
}

/// Relies on `BigDecimal`'s `/`, which panics on a zero divisor. It returns
/// the dividend as it is where the dividend is zero or the divisor is 1
/// (`is_one_quickcheck`); the mantissa 1 at the difference of the scales
/// where the mantissas are equal; else the long division, which starts from
/// the difference of the scales and adds one per digit shifted (at most the
/// divisor's digits) and per digit of precision (at most 100).
#[verifier::external_body]
fn divide(a: &Decimal, b: &Decimal) -> (r: Decimal)
    requires
        a.wf(),
        b.wf(),
        !is_zero_value(b@),
        quotient_fits(a@, b@, b.digits@.len() as int),
    ensures
        r.wf(),
        r.canonical(),
        r@ == quotient_of(a@, b@),
        is_zero_value(a@) ==> r@ == a@,
        a@.0 == b@.0 ==> equal_mantissa_quotient(r@, a@, b@),
        quotient_scale_ok(r@, a@, b@, b.digits@.len() as int),
{
    let x = BigDecimal::new(a.digits.parse::<BigInt>().unwrap(), a.scale);
    let y = BigDecimal::new(b.digits.parse::<BigInt>().unwrap(), b.scale);
    let (i, s) = (x / y).into_bigint_and_exponent();
    Decimal { digits: i.to_string(), scale: s }
}

/// Relies on `BigDecimal::with_prec`: rounds to `prec` significant digits,
/// moving the scale by the difference between `prec` and the digit count;
/// the rounding can carry into one more digit.
#[verifier::external_body]
pub(crate) fn with_prec(a: &Decimal, prec: u64) -> (r: Decimal)
    requires
        a.wf(),
        a@.1 + prec <= i64::MAX,
        a@.1 - a.digits@.len() >= i64::MIN,
    ensures
        r.wf(),
        r.canonical(),
        r@ == prec_rounded_of(a@, prec as int),
        r@.1 == a@.1 + prec - digit_count(a@.0),
        digit_count(r@.0) <= prec + 1,
{
    let x = BigDecimal::new(a.digits.parse::<BigInt>().unwrap(), a.scale);
    let (i, s) = x.with_prec(prec).into_bigint_and_exponent();
    Decimal { digits: i.to_string(), scale: s }
}

/// `a / b`, or zero where `b` is zero or the division's scales would leave
/// the range of a scale (`divisor_len` being the length of `b`'s text).
pub open spec fn safe_quotient(a: (int, int), b: (int, int), divisor_len: int) -> (int, int) {
    if is_zero_value(b) || !quotient_fits(a, b, divisor_len) {
        (0, 0)
    } else {
        quotient_of(a, b)
    }
}

/// `a / b`, or zero where `b` is zero or a scale would overflow.
pub fn safe_div(a: &Decimal, b: &Decimal) -> (r: Decimal)
    requires
        a.wf(),
        b.wf(),
    ensures
        r.wf(),
        r.canonical(),
        r@ == safe_quotient(a@, b@, b.digits@.len() as int),
        is_zero_value(a@) ==> is_zero_value(r@),
        !is_zero_value(b@) && quotient_fits(a@, b@, b.digits@.len() as int) ==> quotient_scale_ok(
            r@,
            a@,
            b@,
            b.digits@.len() as int,
        ),
        !is_zero_value(b@) && quotient_fits(a@, b@, b.digits@.len() as int) && a@.0 == b@.0
            ==> equal_mantissa_quotient(r@, a@, b@),
{
    let d = a.scale as i128 - b.scale as i128;
    let len = b.digits.unicode_len() as i128;
    if b.is_zero() || d < i64::MIN as i128 || d > i64::MAX as i128 || d + len + 101 > i64::MAX as i128 {
        Decimal::zero()
    } else {
        divide(a, b)
    }
}

} // verus!
