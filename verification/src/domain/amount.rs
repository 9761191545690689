//! Fixed-point amounts with four decimal places.
use vstd::prelude::*;
use crate::text::{
    all_ascii_digits, decimal_digits, digit_char, digit_value, digits_value, is_ascii_digit, is_white_space,
    parse_integer, parsed_integer, push_char, text_chars, trim, trim_chars, write_decimal,
    zero_padded,
};

verus! {

/// The number of scaled units in one whole unit (four decimal places).
pub const SCALE: i64 = 10_000;

/// Whether `i` is the position of the first `c` in `s`.
pub open spec fn is_first_index_of(s: Seq<char>, c: char, i: int) -> bool {
    &&& 0 <= i < s.len()
    &&& s[i] == c
    &&& forall|j: int| 0 <= j < i ==> s[j] != c
}

/// The position of the first `c` in `s`, if there is one.
pub open spec fn first_index_of(s: Seq<char>, c: char) -> Option<int> {
    if exists|i: int| is_first_index_of(s, c, i) {
        Some(choose|i: int| is_first_index_of(s, c, i))
    } else {
        None
    }
}

/// The first four characters of a fraction, padded on the right with `'0'`.
pub open spec fn four_fraction_digits(f: Seq<char>) -> Seq<char> {
    if f.len() >= 4 {
        f.take(4)
    } else {
        f + Seq::new((4 - f.len()) as nat, |i: int| '0')
    }
}

pub open spec fn fits_i64(v: int) -> bool {
    i64::MIN <= v && v <= i64::MAX
}

/// The scaled value that `Amount::parse` gives for `s`, or `None` where it
/// refuses `s`. The text is trimmed; with a `.` the integer part and the first
/// four fraction digits (padded with zeros) are read together as one `i64`;
/// without one the text is read as an `i64` of whole units, and is refused
/// where its scaled value does not fit in an `i64`.
pub open spec fn parsed_amount(s: Seq<char>) -> Option<int> {
    let t = trim(s);
    match first_index_of(t, '.') {
        Some(p) => parsed_integer(
            t.take(p) + four_fraction_digits(t.skip(p + 1)),
            true,
            i64::MIN as int,
            i64::MAX as int,
        ),
        None => match parsed_integer(t, true, i64::MIN as int, i64::MAX as int) {
            Some(v) => if fits_i64(v * SCALE) {
                Some(v * SCALE)
            } else {
                None
            },
            None => None,
        },
    }
}

pub open spec fn abs(v: int) -> nat {
    if v < 0 {
        (-v) as nat
    } else {
        v as nat
    }
}

/// The decimal text of a scaled value: an optional `-`, the whole units, a
/// `.` and exactly four fraction digits.
pub open spec fn amount_text(v: int) -> Seq<char> {
    let a = abs(v);
    let sign = if v < 0 {
        seq!['-']
    } else {
        Seq::<char>::empty()
    };
    sign + decimal_digits(a / 10000) + seq!['.'] + zero_padded(
        decimal_digits(a % 10000),
        4,
    )
}

/// The reason `Amount::parse` refuses a text.
#[derive(Debug, Clone, Copy, PartialEq, Eq, Structural)]
pub struct AmountParseError;

/// Fixed-point amount with 4 decimal places of precision.
///
/// Holds the value × 10^4. Its text form is the decimal one (e.g. "5.1234").
#[derive(Debug, Clone, Copy, PartialEq, Eq, Structural, PartialOrd, Ord)]
pub struct Amount(i128);

impl View for Amount {
    type V = int;

    closed spec fn view(&self) -> int {
        self.0 as int
    }
}

impl Amount {
    /// The amount whose scaled value is `v` (meaningful for `v` in the `i128`
    /// range).
    pub closed spec fn with_value(v: int) -> Amount {
        Amount(v as i128)
    }
}

/// The amount built from a scaled value in the `i128` range has that value.
pub broadcast proof fn lemma_with_value(v: int)
    requires
        i128::MIN <= v <= i128::MAX,
    ensures
        #[trigger] Amount::with_value(v)@ == v,
{
}

/// Two amounts are equal exactly when their scaled values are.
pub broadcast proof fn lemma_amount_view_injective(a: Amount, b: Amount)
    ensures
        #[trigger] (a@) == #[trigger] (b@) <==> a == b,
{
}

proof fn lemma_decimal_digits_short(n: nat)
    requires
        n < 10000,
    ensures
        n < 10 ==> decimal_digits(n).len() == 1,
        10 <= n < 100 ==> decimal_digits(n).len() == 2,
        100 <= n < 1000 ==> decimal_digits(n).len() == 3,
        1000 <= n ==> decimal_digits(n).len() == 4,
{
    reveal_with_fuel(decimal_digits, 4);
}

/// `10^n`.
pub open spec fn pow10(n: nat) -> int
    decreases n,
{
    if n == 0 {
        1
    } else {
        10 * pow10((n - 1) as nat)
    }
}

proof fn lemma_digits_value_concat(x: Seq<char>, y: Seq<char>)
    ensures
        digits_value(x + y) == digits_value(x) * pow10(y.len()) + digits_value(y),
    decreases y.len(),
{
    if y.len() == 0 {
        assert(x + y =~= x);
    } else {
        let y1 = y.drop_last();
        lemma_digits_value_concat(x, y1);
        assert((x + y).drop_last() =~= x + y1);
        assert((x + y).last() == y.last());
        let a = digits_value(x);
        let p = pow10(y1.len());
        assert(a * p * 10 == a * (10 * p)) by (nonlinear_arith);
    }
}

pub(crate) proof fn lemma_decimal_digits_props(n: nat)
    ensures
        decimal_digits(n).len() > 0,
        all_ascii_digits(decimal_digits(n)),
        digits_value(decimal_digits(n)) == n,
    decreases n,
{
    let c = digit_char((n % 10) as int);
    assert(is_ascii_digit(c) && digit_value(c) == n % 10);
    if n < 10 {
        assert(n % 10 == n);
        assert(decimal_digits(n).drop_last() =~= Seq::<char>::empty());
        assert(decimal_digits(n).last() == c);
        assert(digits_value(decimal_digits(n)) == digits_value(Seq::<char>::empty()) * 10
            + digit_value(c));
    } else {
        assert(n == (n / 10) * 10 + n % 10);
        lemma_decimal_digits_props(n / 10);
        let d = decimal_digits(n / 10);
        let e = decimal_digits(n);
        assert(e == d.push(c));
        assert(e.drop_last() =~= d);
        assert forall|i: int| 0 <= i < e.len() implies is_ascii_digit(#[trigger] e[i]) by {
            if i < d.len() {
                assert(e[i] == d[i]);
            }
        }
    }
}

proof fn lemma_zeros_value(k: nat, y: Seq<char>)
    ensures
        digits_value(Seq::new(k, |i: int| '0') + y) == digits_value(y),
    decreases k,
{
    let z = Seq::new(k, |i: int| '0');
    lemma_digits_value_concat(z, y);
    lemma_zeros_only(k);
}

proof fn lemma_zeros_only(k: nat)
    ensures
        digits_value(Seq::new(k, |i: int| '0')) == 0,
    decreases k,
{
    if k > 0 {
        lemma_zeros_only((k - 1) as nat);
        assert(Seq::new(k, |i: int| '0').drop_last() =~= Seq::new((k - 1) as nat, |i: int| '0'));
    }
}

proof fn lemma_trim_identity(s: Seq<char>)
    requires
        s.len() > 0,
        !is_white_space(s[0]),
        !is_white_space(s.last()),
    ensures
        trim(s) == s,
{
}

/// Reading back the text of an amount gives the same amount: the text form
/// is exact, with four decimal places, for every scaled `i64` value.
pub proof fn law_amount_text_reads_back(v: int)
    requires
        fits_i64(v),
    ensures
        parsed_amount(amount_text(v)) == Some(v),
{
    let a = abs(v);
    let w = a / 10000;
    let f = a % 10000;
    lemma_decimal_digits_props(w);
    lemma_decimal_digits_props(f);
    lemma_decimal_digits_short(f);
    let sign = if v < 0 {
        seq!['-']
    } else {
        Seq::<char>::empty()
    };
    let dw = decimal_digits(w);
    let df = decimal_digits(f);
    let frac = zero_padded(df, 4);
    let zeros = Seq::new((4 - df.len()) as nat, |i: int| '0');
    assert(frac == zeros + df);
    assert(frac.len() == 4);
    assert(all_ascii_digits(frac)) by {
        assert forall|i: int| 0 <= i < frac.len() implies is_ascii_digit(#[trigger] frac[i]) by {
            if i >= zeros.len() {
                assert(frac[i] == df[i - zeros.len()]);
            }
        }
    }
    lemma_zeros_value((4 - df.len()) as nat, df);
    let text = amount_text(v);
    let p: int = (sign.len() + dw.len()) as int;
    assert(text =~= sign + dw + seq!['.'] + frac);
    // The text has no white space at either end.
    assert(text[0] == '-' || is_ascii_digit(text[0])) by {
        if v >= 0 {
            assert(text[0] == dw[0]);
        }
    }
    assert(text.last() == frac[3]);
    lemma_trim_identity(text);
    // The first `.` follows the whole units.
    assert(is_first_index_of(text, '.', p)) by {
        assert forall|j: int| 0 <= j < p implies text[j] != '.' by {
            if j >= sign.len() {
                assert(text[j] == dw[j - sign.len()]);
            }
        }
    }
    let q = choose|i: int| is_first_index_of(text, '.', i);
    assert(q == p) by {
        if q < p {
            assert(text[q] != '.');
        } else if q > p {
            assert(text[p] != '.');
        }
    }
    assert(text.take(p) =~= sign + dw);
    assert(text.skip(p + 1) =~= frac);
    assert(four_fraction_digits(frac) =~= frac);
    let combined = sign + dw + frac;
    assert(text.take(p) + four_fraction_digits(text.skip(p + 1)) =~= combined);
    lemma_digits_value_concat(dw, frac);
    assert(pow10(4) == 10000) by {
        reveal_with_fuel(pow10, 5);
    }
    assert(digits_value(dw + frac) == a) by {
        assert(w * 10000 + f == a);
    }
    let body = dw + frac;
    assert(all_ascii_digits(body)) by {
        assert forall|i: int| 0 <= i < body.len() implies is_ascii_digit(#[trigger] body[i]) by {
            if i < dw.len() {
                assert(body[i] == dw[i]);
            } else {
                assert(body[i] == frac[i - dw.len()]);
            }
        }
    }
    if v < 0 {
        assert(combined.drop_first() =~= body);
        assert(combined[0] == '-');
    } else {
        assert(combined =~= body);
        assert(combined[0] == dw[0]);
    }
}

/// A decimal text `w.f` of digits reads as its value in units of `10^-4`:
/// the whole part counts `10^4` each, a fraction of up to four digits is
/// padded on the right (so `"1.234"` is `12340`), and digits beyond the
/// fourth are dropped (the value is truncated, not rounded).
pub proof fn law_parse_decimal_value(w: Seq<char>, f: Seq<char>)
    requires
        all_ascii_digits(w),
        all_ascii_digits(f),
        fits_i64(
            digits_value(w) * 10000 + (if f.len() >= 4 {
                digits_value(f.take(4))
            } else {
                digits_value(f) * pow10((4 - f.len()) as nat)
            }),
        ),
    ensures
        parsed_amount(w + seq!['.'] + f) == Some(
            digits_value(w) * 10000 + (if f.len() >= 4 {
                digits_value(f.take(4))
            } else {
                digits_value(f) * pow10((4 - f.len()) as nat)
            }),
        ),
{
    let s = w + seq!['.'] + f;
    let p = w.len() as int;
    assert(s[p] == '.');
    assert(!is_white_space(s[0])) by {
        if w.len() > 0 {
            assert(s[0] == w[0]);
        }
    }
    assert(!is_white_space(s.last())) by {
        if f.len() > 0 {
            assert(s.last() == f[f.len() - 1]);
        }
    }
    lemma_trim_identity(s);
    assert(is_first_index_of(s, '.', p)) by {
        assert forall|j: int| 0 <= j < p implies s[j] != '.' by {
            assert(s[j] == w[j]);
        }
    }
    let q = choose|i: int| is_first_index_of(s, '.', i);
    assert(q == p) by {
        if q < p {
            assert(s[q] != '.');
        } else if q > p {
            assert(s[p] != '.');
        }
    }
    assert(s.take(p) =~= w);
    assert(s.skip(p + 1) =~= f);
    let ff = four_fraction_digits(f);
    let fv = if f.len() >= 4 {
        digits_value(f.take(4))
    } else {
        digits_value(f) * pow10((4 - f.len()) as nat)
    };
    assert(ff.len() == 4);
    assert(all_ascii_digits(ff)) by {
        assert forall|i: int| 0 <= i < ff.len() implies is_ascii_digit(#[trigger] ff[i]) by {
            if i < f.len() {
                assert(ff[i] == f[i]);
            }
        }
    }
    assert(digits_value(ff) == fv) by {
        if f.len() < 4 {
            let k = (4 - f.len()) as nat;
            let z = Seq::new(k, |i: int| '0');
            lemma_digits_value_concat(f, z);
            lemma_zeros_only(k);
        }
    }
    let combined = w + ff;
    lemma_digits_value_concat(w, ff);
    assert(pow10(4) == 10000) by {
        reveal_with_fuel(pow10, 5);
    }
    assert(all_ascii_digits(combined)) by {
        assert forall|i: int| 0 <= i < combined.len() implies is_ascii_digit(
            #[trigger] combined[i],
        ) by {
            if i < w.len() {
                assert(combined[i] == w[i]);
            } else {
                assert(combined[i] == ff[i - w.len()]);
            }
        }
    }
    assert(is_ascii_digit(combined[0]));
    assert(s.take(p) + four_fraction_digits(s.skip(p + 1)) =~= combined);
}

/// The text of every amount has exactly four digits after its one `.`.
pub proof fn law_amount_text_has_four_decimals(v: int)
    ensures
        exists|p: int|
            0 <= p && p + 5 == amount_text(v).len() && #[trigger] amount_text(v)[p] == '.'
                && forall|j: int| p < j < amount_text(v).len() ==> is_ascii_digit(amount_text(v)[j]),
{
    let a = abs(v);
    lemma_decimal_digits_props(a / 10000);
    lemma_decimal_digits_props(a % 10000);
    lemma_decimal_digits_short(a % 10000);
    let sign = if v < 0 {
        seq!['-']
    } else {
        Seq::<char>::empty()
    };
    let dw = decimal_digits(a / 10000);
    let df = decimal_digits(a % 10000);
    let zeros = Seq::new((4 - df.len()) as nat, |i: int| '0');
    let frac = zero_padded(df, 4);
    assert(frac == zeros + df);
    let text = amount_text(v);
    assert(text =~= sign + dw + seq!['.'] + frac);
    let p = (sign.len() + dw.len()) as int;
    assert(text[p] == '.');
    assert forall|j: int| p < j < text.len() implies is_ascii_digit(text[j]) by {
        assert(text[j] == frac[j - p - 1]);
        if j - p - 1 >= zeros.len() {
            assert(frac[j - p - 1] == df[j - p - 1 - zeros.len()]);
        }
    }
}

impl Amount {
    /// Returns an amount representing zero.
    pub fn zero() -> (r: Self)
        ensures
            r@ == 0,
    {
        Amount(0)
    }

    /// Creates an amount from whole units (e.g. `from_major(5)` is "5.0000").
    pub fn from_major(units: i64) -> (r: Self)
        requires
            fits_i64(units * SCALE),
        ensures
            r@ == units * SCALE,
    {
        let scaled: i64 = units * SCALE;
        Amount(scaled as i128)
    }

    /// Creates an amount from an already scaled value.
    pub fn from_scaled(raw: i128) -> (r: Self)
        ensures
            r@ == raw,
    {
        Amount(raw)
    }

    /// The scaled value (value × 10^4).
    pub fn scaled(&self) -> (r: i128)
        ensures
            r == self@,
    {
        self.0
    }

    /// Parses a decimal text such as "5.1234" into an amount.
    /// White space around the text is ignored and digits beyond the fourth
    /// decimal place are dropped (the value is truncated, not rounded). A
    /// text that does not read, or whose scaled value does not fit in an
    /// `i64`, is refused.
    pub fn parse(s: &str) -> (r: Result<Self, AmountParseError>)
        ensures
            r matches Ok(a) ==> parsed_amount(s@) == Some(a@) && fits_i64(a@),
            r is Err ==> parsed_amount(s@) is None,
    {
        let chars = text_chars(s);
        let t = trim_chars(&chars);
        match find_char(&t, '.') {
            Some(p) => {
                let mut combined: Vec<char> = Vec::new();
                let mut i: usize = 0;
                while i < p
                    invariant
                        p < t.len(),
                        i <= p,
                        combined@ == t@.take(i as int),
                    decreases p - i,
                {
                    combined.push(t[i]);
                    i = i + 1;
                    assert(combined@ =~= t@.take(i as int));
                }
                let ghost frac = t@.skip(p + 1);
                let mut k: usize = 0;
                while k < 4
                    invariant
                        p < t.len(),
                        k <= 4,
                        frac == t@.skip(p + 1),
                        combined@ == t@.take(p as int) + four_fraction_digits(frac).take(
                            k as int,
                        ),
                    decreases 4 - k,
                {
                    let c = if k < t.len() - (p + 1) {
                        t[p + 1 + k]
                    } else {
                        '0'
                    };
                    assert(c == four_fraction_digits(frac)[k as int]);
                    combined.push(c);
                    k = k + 1;
                    assert(combined@ =~= t@.take(p as int) + four_fraction_digits(frac).take(
                        k as int,
                    ));
                }
                assert(four_fraction_digits(frac).take(4) =~= four_fraction_digits(frac));
                match parse_integer(&combined, true, i64::MIN as i128, i64::MAX as i128) {
                    Some(v) => Ok(Amount(v)),
                    None => Err(AmountParseError),
                }
            },
            None => match parse_integer(&t, true, i64::MIN as i128, i64::MAX as i128) {
                Some(v) => if i64::MIN as i128 <= v * 10000 && v * 10000 <= i64::MAX as i128 {
                    Ok(Amount(v * 10000))
                } else {
                    Err(AmountParseError)
                },
                None => Err(AmountParseError),
            },
        }
    }

    /// Whether the scaled value lies in the range of `i64`, as that of every
    /// parsed amount does.
    pub fn fits_i64(&self) -> (r: bool)
        ensures
            r == fits_i64(self@),
    {
        i64::MIN as i128 <= self.0 && self.0 <= i64::MAX as i128
    }

    /// Returns `true` if the amount is strictly greater than zero.
    pub fn is_positive(&self) -> (r: bool)
        ensures
            r == (self@ > 0),
    {
        self.0 > 0
    }

    /// Whether `self` is strictly smaller than `other`.
    pub fn is_less_than(&self, other: &Amount) -> (r: bool)
        ensures
            r == (self@ < other@),
    {
        self.0 < other.0
    }

    /// Whether `self` is at most `other`.
    pub fn is_at_most(&self, other: &Amount) -> (r: bool)
        ensures
            r == (self@ <= other@),
    {
        self.0 <= other.0
    }

    /// The sum of two amounts.
    pub fn plus(&self, other: &Amount) -> (r: Amount)
        requires
            i128::MIN <= self@ + other@ <= i128::MAX,
        ensures
            r@ == self@ + other@,
    {
        Amount(self.0 + other.0)
    }

    /// The difference of two amounts.
    pub fn minus(&self, other: &Amount) -> (r: Amount)
        requires
            i128::MIN <= self@ - other@ <= i128::MAX,
        ensures
            r@ == self@ - other@,
    {
        Amount(self.0 - other.0)
    }

    /// The decimal text of the amount, always with four decimal places
    /// (e.g. "5.0000", "-5.1234").
    pub fn to_string(&self) -> (r: String)
        ensures
            r@ == amount_text(self@),
    {
        let v = self.0;
        let a: u128 = if v < 0 {
            ((-(v + 1)) as u128) + 1
        } else {
            v as u128
        };
        assert(a == abs(v as int));
        let mut out = String::new();
        if v < 0 {
            push_char(&mut out, '-');
        }
        write_decimal(&mut out, a / 10000);
        push_char(&mut out, '.');
        let frac = a % 10000;
        proof {
            lemma_decimal_digits_short(frac as nat);
        }
        let ghost before_pad = out@;
        if frac < 1000 {
            push_char(&mut out, '0');
        }
        if frac < 100 {
            push_char(&mut out, '0');
        }
        if frac < 10 {
            push_char(&mut out, '0');
        }
        assert(out@ =~= before_pad + Seq::new(
            (4 - decimal_digits(frac as nat).len()) as nat,
            |i: int| '0',
        ));
        write_decimal(&mut out, frac);
        assert(out@ =~= amount_text(v as int));
        out
    }
}

/// The position of the first `c` in `v`, if there is one.
pub fn find_char(v: &Vec<char>, c: char) -> (r: Option<usize>)
    ensures
        r matches Some(i) ==> first_index_of(v@, c) == Some(i as int),
        r is None ==> first_index_of(v@, c) is None,
{
    let mut i: usize = 0;
    while i < v.len()
        invariant
            i <= v.len(),
            forall|j: int| 0 <= j < i ==> v@[j] != c,
        decreases v.len() - i,
    {
        if v[i] == c {
            assert(is_first_index_of(v@, c, i as int));
            let ghost k = choose|k: int| is_first_index_of(v@, c, k);
            assert(k == i) by {
                if k < i {
                    assert(v@[k] != c);
                } else if k > i {
                    assert(v@[i as int] != c);
                }
            }
            return Some(i);
        }
        i = i + 1;
    }
    assert(!exists|k: int| is_first_index_of(v@, c, k));
    None
}

impl<'a, 'b> core::ops::Add<&'b Amount> for &'a Amount {
    type Output = Amount;

    fn add(self, other: &'b Amount) -> (r: Amount) {
        Amount(self.0 + other.0)
    }
}

impl<'a, 'b> vstd::std_specs::ops::AddSpecImpl<&'b Amount> for &'a Amount {
    open spec fn obeys_add_spec() -> bool {
        true
    }

    open spec fn add_req(self, rhs: &'b Amount) -> bool {
        i128::MIN <= self@ + rhs@ <= i128::MAX
    }

    open spec fn add_spec(self, rhs: &'b Amount) -> Amount {
        Amount::with_value(self@ + rhs@)
    }
}

impl<'a, 'b> core::ops::Sub<&'b Amount> for &'a Amount {
    type Output = Amount;

    fn sub(self, other: &'b Amount) -> (r: Amount) {
        Amount(self.0 - other.0)
    }
}

impl<'a, 'b> vstd::std_specs::ops::SubSpecImpl<&'b Amount> for &'a Amount {
    open spec fn obeys_sub_spec() -> bool {
        true
    }

    open spec fn sub_req(self, rhs: &'b Amount) -> bool {
        i128::MIN <= self@ - rhs@ <= i128::MAX
    }

    open spec fn sub_spec(self, rhs: &'b Amount) -> Amount {
        Amount::with_value(self@ - rhs@)
    }
}

impl<'a> core::ops::Neg for &'a Amount {
    type Output = Amount;

    fn neg(self) -> (r: Amount) {
        Amount(-self.0)
    }
}

impl<'a> vstd::std_specs::ops::NegSpecImpl for &'a Amount {
    open spec fn obeys_neg_spec() -> bool {
        true
    }

    open spec fn neg_req(self) -> bool {
        self@ != i128::MIN
    }

    open spec fn neg_spec(self) -> Amount {
        Amount::with_value(-self@)
    }
}

/// Adds in place; the sum must stay within the scaled range, as every sum of
/// amounts that the engine holds does.
impl<'b> core::ops::AddAssign<&'b Amount> for Amount {
    fn add_assign(&mut self, other: &'b Amount)
        requires
            i128::MIN <= old(self)@ + other@ <= i128::MAX,
        ensures
            final(self)@ == old(self)@ + other@,
    {
        self.0 = self.0 + other.0;
    }
}

/// Subtracts in place; the difference must stay within the scaled range, as
/// every difference of amounts that the engine holds does.
impl<'b> core::ops::SubAssign<&'b Amount> for Amount {
    fn sub_assign(&mut self, other: &'b Amount)
        requires
            i128::MIN <= old(self)@ - other@ <= i128::MAX,
        ensures
            final(self)@ == old(self)@ - other@,
    {
        self.0 = self.0 - other.0;
    }
}

impl Default for Amount {
    fn default() -> (r: Amount)
        ensures
            r@ == 0,
    {
        Amount(0)
    }
}

} // verus!
