//! Decimal numbers, read from text and compared exactly.
//!
//! A number is kept as its significant digits and a power of ten, so that
//! comparing two of them never rounds.

use vstd::prelude::*;
use vstd::string::*;

use crate::text::{
    CharSet, all_digits, ascii_lower, decimal, digits_value, is_digit, lemma_digits_monotone,
    lemma_skip_in, parse_int, print_i64, push_char, same, skip_back, skip_in, skip_set,
    to_ascii_lower, to_chars, trim_end_of, trim_start_of,
};

verus! {

/// A number as it is written down.
pub enum Number {
    /// Not a number: it compares with nothing.
    Nan,
    Infinite { negative: bool },
    /// The digits, without leading zeros, times ten to the `exponent`.
    Finite { negative: bool, digits: Vec<char>, exponent: i128 },
}

/// The model of a [`Number`].
pub enum NumberV {
    Nan,
    Infinite { negative: bool },
    Finite { negative: bool, digits: Seq<char>, exponent: int },
}

impl View for Number {
    type V = NumberV;

    open spec fn view(&self) -> NumberV {
        match self {
            Number::Nan => NumberV::Nan,
            Number::Infinite { negative } => NumberV::Infinite { negative: *negative },
            Number::Finite { negative, digits, exponent } => NumberV::Finite {
                negative: *negative,
                digits: digits@,
                exponent: *exponent as int,
            },
        }
    }
}

/// Exponents are read up to this size; a larger one counts as this one.
pub const MAX_EXPONENT: i128 = 1_000_000_000_000_000;

impl Number {
    /// The digits of a finite number are digits, the first of them is not `0`,
    /// and the exponent is in range.
    pub open spec fn wf(self) -> bool {
        match self {
            Number::Finite { negative, digits, exponent } => {
                &&& all_digits(digits@)
                &&& digits@.len() > 0 ==> digits@[0] != '0'
                &&& digits@.len() <= usize::MAX
                &&& -MAX_EXPONENT - usize::MAX <= exponent <= MAX_EXPONENT
            },
            _ => true,
        }
    }
}

/// Ten to the `n`.
pub open spec fn ten(n: int) -> int
    decreases n,
{
    if n <= 0 {
        1
    } else {
        10 * ten(n - 1)
    }
}

/// `digits` times ten to the `exponent`, in units of ten to the `base`.
pub open spec fn scaled(digits: Seq<char>, exponent: int, base: int) -> int {
    digits_value(digits, digits.len() as int) * ten(exponent - base)
}

pub open spec fn signed(negative: bool, v: int) -> int {
    if negative {
        -v
    } else {
        v
    }
}

/// `a <= b` as numbers; nothing is comparable with `Nan`.
pub open spec fn number_le(a: NumberV, b: NumberV) -> bool {
    match (a, b) {
        (NumberV::Nan, _) => false,
        (_, NumberV::Nan) => false,
        (NumberV::Infinite { negative: true }, _) => true,
        (_, NumberV::Infinite { negative: false }) => true,
        (NumberV::Infinite { negative: false }, _) => false,
        (_, NumberV::Infinite { negative: true }) => false,
        (
            NumberV::Finite { negative: n1, digits: d1, exponent: e1 },
            NumberV::Finite { negative: n2, digits: d2, exponent: e2 },
        ) => {
            let base = if e1 <= e2 {
                e1
            } else {
                e2
            };
            signed(n1, scaled(d1, e1, base)) <= signed(n2, scaled(d2, e2, base))
        },
    }
}

/// The number is zero.
pub open spec fn number_is_zero(a: NumberV) -> bool {
    a matches NumberV::Finite { digits, .. } && digits_value(digits, digits.len() as int) == 0
}

/// The number is not an integer: a digit behind the decimal point is not `0`.
/// What is not finite is no integer either.
pub open spec fn number_has_fraction(a: NumberV) -> bool {
    match a {
        NumberV::Finite { digits, exponent, .. } => exists|i: int|
            0 <= i < digits.len() && i >= digits.len() + exponent && #[trigger] digits[i] != '0',
        _ => true,
    }
}

// ---------------------------------------------------------------------------
// Reading

/// `digits` without its leading zeros.
pub open spec fn without_leading_zeros(digits: Seq<char>) -> Seq<char> {
    trim_start_of(digits, CharSet::One('0'))
}

/// The exponent behind `e`: a sign and digits up to the end of `s`.
pub open spec fn read_exponent(s: Seq<char>) -> Option<int> {
    match parse_int(s, true) {
        Some(v) => Some(
            if v > MAX_EXPONENT {
                MAX_EXPONENT as int
            } else if v < -MAX_EXPONENT {
                -(MAX_EXPONENT as int)
            } else {
                v
            },
        ),
        None => None,
    }
}

/// The number that `t`, which has no sign, writes down.
pub open spec fn read_unsigned(t: Seq<char>, negative: bool) -> Option<NumberV> {
    let word = ascii_lower(t);
    let i = skip_in(t, CharSet::Digit, 0);
    let dot = i < t.len() && t[i] == '.';
    let j = if dot {
        skip_in(t, CharSet::Digit, i + 1)
    } else {
        i
    };
    let fraction = if dot {
        t.subrange(i + 1, j)
    } else {
        Seq::empty()
    };
    let all = t.subrange(0, i) + fraction;
    let digits = without_leading_zeros(all);
    if word == "inf"@ || word == "infinity"@ {
        Some(NumberV::Infinite { negative })
    } else if word == "nan"@ {
        Some(NumberV::Nan)
    } else if all.len() == 0 {
        None
    } else if j >= t.len() {
        Some(NumberV::Finite { negative, digits, exponent: -fraction.len() })
    } else if t[j] == 'e' || t[j] == 'E' {
        match read_exponent(t.subrange(j + 1, t.len() as int)) {
            Some(e) => Some(NumberV::Finite { negative, digits, exponent: e - fraction.len() }),
            None => None,
        }
    } else {
        None
    }
}

/// The number that `s` writes down: an optional sign, then `inf`, `infinity`,
/// `nan`, or digits with an optional decimal point and an optional exponent.
pub open spec fn read_number(s: Seq<char>) -> Option<NumberV> {
    if s.len() > 0 && (s[0] == '+' || s[0] == '-') {
        read_unsigned(s.subrange(1, s.len() as int), s[0] == '-')
    } else {
        read_unsigned(s, false)
    }
}

/// The exponent that `s` writes down, clamped to the accepted size.
#[verifier::loop_isolation(false)]
fn exponent_of(s: &str) -> (r: Option<i128>)
    ensures
        match r {
            Some(v) => read_exponent(s@) == Some(v as int),
            None => read_exponent(s@) is None,
        },
{
    let cs = to_chars(s);
    let has_sign = cs.len() > 0 && (cs[0] == '+' || cs[0] == '-');
    let negative = has_sign && cs[0] == '-';
    let start: usize = if has_sign {
        1
    } else {
        0
    };
    let ghost d = cs@.subrange(start as int, cs@.len() as int);
    assert(!has_sign ==> d =~= s@);
    if start == cs.len() {
        return None;
    }
    if skip_set(&cs, CharSet::Digit, start) < cs.len() {
        proof {
            lemma_skip_in(cs@, CharSet::Digit, start as int);
            let k = skip_in(cs@, CharSet::Digit, start as int);
            assert(d[k - start] == cs@[k]);
            assert(!is_digit(d[k - start]));
        }
        return None;
    }
    proof {
        lemma_skip_in(cs@, CharSet::Digit, start as int);
        assert forall|k: int| 0 <= k < d.len() implies is_digit(#[trigger] d[k]) by {
            assert(CharSet::Digit.has(cs@[start + k]));
        }
    }
    let n: usize = cs.len() - start;
    let mut v: i128 = 0;
    let mut i: usize = 0;
    while i < n
        invariant
            i <= n,
            v == digits_value(d, i as int),
            0 <= v <= MAX_EXPONENT,
        decreases n - i,
    {
        let c = cs[start + i];
        assert(d[i as int] == c);
        assert(is_digit(d[i as int]));
        v = v * 10 + ((c as u32) - ('0' as u32)) as i128;
        if v > MAX_EXPONENT {
            proof {
                lemma_digits_monotone(d, i + 1, n as int);
            }
            return if negative {
                Some(-MAX_EXPONENT)
            } else {
                Some(MAX_EXPONENT)
            };
        }
        i += 1;
    }
    if negative {
        Some(-v)
    } else {
        Some(v)
    }
}

/// The characters of `cs[from..to]`, without leading zeros at the start of `out`.
fn push_digits(cs: &Vec<char>, from: usize, to: usize, out: &mut Vec<char>)
    requires
        from <= to <= cs@.len(),
    ensures
        final(out)@ == old(out)@ + cs@.subrange(from as int, to as int),
{
    let mut i: usize = from;
    while i < to
        invariant
            from <= i <= to <= cs@.len(),
            out@ == old(out)@ + cs@.subrange(from as int, i as int),
        decreases to - i,
    {
        out.push(cs[i]);
        assert(old(out)@ + cs@.subrange(from as int, i + 1) =~= (old(out)@ + cs@.subrange(
            from as int,
            i as int,
        )).push(cs@[i as int]));
        i += 1;
    }
    assert(cs@.subrange(from as int, from as int) =~= Seq::empty());
}

/// `cs` without its leading zeros.
fn strip_leading_zeros(cs: &Vec<char>) -> (r: Vec<char>)
    requires
        all_digits(cs@),
    ensures
        r@ == without_leading_zeros(cs@),
        all_digits(r@),
        r@.len() > 0 ==> r@[0] != '0',
        r@.len() <= cs@.len(),
{
    let from: usize = skip_set(cs, CharSet::One('0'), 0);
    let mut out: Vec<char> = Vec::new();
    push_digits(cs, from, cs.len(), &mut out);
    assert(out@ =~= cs@.subrange(from as int, cs@.len() as int));
    proof {
        lemma_skip_in(cs@, CharSet::One('0'), 0);
        assert forall|k: int| 0 <= k < out@.len() implies is_digit(#[trigger] out@[k]) by {
            assert(is_digit(cs@[from + k]));
        }
    }
    out
}

/// The number that `s` writes down.
pub fn read(s: &str) -> (r: Option<Number>)
    ensures
        match r {
            Some(n) => read_number(s@) == Some(n@) && n.wf(),
            None => read_number(s@) is None,
        },
{
    let len: usize = s.unicode_len();
    let has_sign = len > 0 && (s.get_char(0) == '+' || s.get_char(0) == '-');
    let negative = has_sign && s.get_char(0) == '-';
    let t = if has_sign {
        s.substring_char(1, len)
    } else {
        s
    };
    let word = to_ascii_lower(t);
    if same(word.as_str(), "inf") || same(word.as_str(), "infinity") {
        return Some(Number::Infinite { negative });
    }
    if same(word.as_str(), "nan") {
        return Some(Number::Nan);
    }
    let cs = to_chars(t);
    let i: usize = skip_set(&cs, CharSet::Digit, 0);
    let dot = i < cs.len() && cs[i] == '.';
    let j: usize = if dot {
        skip_set(&cs, CharSet::Digit, i + 1)
    } else {
        i
    };
    let mut all: Vec<char> = Vec::new();
    push_digits(&cs, 0, i, &mut all);
    let fraction: usize = if dot {
        push_digits(&cs, i + 1, j, &mut all);
        j - (i + 1)
    } else {
        0
    };
    let ghost frac = if dot {
        t@.subrange(i + 1, j as int)
    } else {
        Seq::empty()
    };
    assert(all@ =~= t@.subrange(0, i as int) + frac);
    proof {
        lemma_skip_in(t@, CharSet::Digit, 0);
        if dot {
            lemma_skip_in(t@, CharSet::Digit, i + 1);
        }
        assert forall|k: int| 0 <= k < all@.len() implies is_digit(#[trigger] all@[k]) by {
            if k < i {
                assert(CharSet::Digit.has(t@[k]));
            } else {
                assert(CharSet::Digit.has(t@[i + 1 + (k - i)]));
            }
        }
    }
    if all.len() == 0 {
        return None;
    }
    let digits = strip_leading_zeros(&all);
    let digit_count: usize = digits.len();
    if j >= cs.len() {
        return Some(Number::Finite { negative, digits, exponent: -(fraction as i128) });
    }
    if cs[j] == 'e' || cs[j] == 'E' {
        match exponent_of(t.substring_char(j + 1, cs.len())) {
            Some(e) => Some(Number::Finite { negative, digits, exponent: e - fraction as i128 }),
            None => None,
        }
    } else {
        None
    }
}

// ---------------------------------------------------------------------------
// Comparing

pub proof fn lemma_ten_positive(n: int)
    ensures
        ten(n) >= 1,
    decreases n,
{
    if n > 0 {
        lemma_ten_positive(n - 1);
    }
}

proof fn lemma_ten_monotone(m: int, n: int)
    requires
        m <= n,
    ensures
        ten(m) <= ten(n),
    decreases n - m,
{
    lemma_ten_positive(n);
    if m < n && n > 0 {
        lemma_ten_monotone(m, n - 1);
        lemma_ten_positive(n - 1);
    }
}

pub proof fn lemma_ten_sum(m: int, n: int)
    requires
        m >= 0,
        n >= 0,
    ensures
        ten(m + n) == ten(m) * ten(n),
    decreases n,
{
    if n > 0 {
        lemma_ten_sum(m, n - 1);
        assert(ten(m + n) == 10 * ten(m + (n - 1)));
        assert(10 * (ten(m) * ten(n - 1)) == ten(m) * (10 * ten(n - 1))) by (nonlinear_arith);
    }
}

/// Digits without a leading zero lie between two powers of ten.
proof fn lemma_digits_bounds(d: Seq<char>, n: int)
    requires
        all_digits(d),
        0 <= n <= d.len(),
        n > 0 ==> d[0] != '0',
    ensures
        digits_value(d, n) < ten(n),
        n > 0 ==> ten(n - 1) <= digits_value(d, n),
        0 <= digits_value(d, n),
    decreases n,
{
    if n > 0 {
        lemma_digits_bounds(d, n - 1);
        assert(is_digit(d[n - 1]));
        if n == 1 {
            assert(is_digit(d[0]));
        }
    }
}

/// The digit at `i`, where places behind the last one hold `0`.
pub open spec fn digit_at(d: Seq<char>, i: int) -> char {
    if 0 <= i < d.len() {
        d[i]
    } else {
        '0'
    }
}

pub open spec fn padded(d: Seq<char>, n: int) -> Seq<char> {
    Seq::new(n as nat, |i: int| digit_at(d, i))
}

proof fn lemma_padded_value(d: Seq<char>, n: int, k: int)
    requires
        0 <= k <= n,
        d.len() <= n,
    ensures
        k <= d.len() ==> digits_value(padded(d, n), k) == digits_value(d, k),
        k >= d.len() ==> digits_value(padded(d, n), k) == digits_value(d, d.len() as int) * ten(
            k - d.len(),
        ),
    decreases k,
{
    if k > 0 {
        lemma_padded_value(d, n, k - 1);
        if k > d.len() {
            let v = digits_value(d, d.len() as int);
            let t = ten(k - 1 - d.len());
            assert(ten(k - d.len()) == 10 * t);
            assert((v * t) * 10 == v * (10 * t)) by (nonlinear_arith);
        }
    }
    if k == d.len() {
        assert(digits_value(d, k) * 1 == digits_value(d, k));
    }
}

/// Two digit sequences that agree before `k` and differ at `k` are ordered as
/// the digits there.
proof fn lemma_first_difference(a: Seq<char>, b: Seq<char>, k: int, n: int)
    requires
        all_digits(a),
        all_digits(b),
        a.len() == b.len(),
        0 <= k < n <= a.len(),
        forall|j: int| 0 <= j < k ==> a[j] == b[j],
        a[k] < b[k],
    ensures
        digits_value(a, n) < digits_value(b, n),
    decreases n,
{
    assert(is_digit(a[n - 1]) && is_digit(b[n - 1]));
    if n == k + 1 {
        lemma_same_digits(a, b, k);
    } else {
        lemma_first_difference(a, b, k, n - 1);
    }
}

proof fn lemma_same_digits(a: Seq<char>, b: Seq<char>, n: int)
    requires
        0 <= n <= a.len(),
        n <= b.len(),
        forall|j: int| 0 <= j < n ==> a[j] == b[j],
    ensures
        digits_value(a, n) == digits_value(b, n),
    decreases n,
{
    if n > 0 {
        lemma_same_digits(a, b, n - 1);
    }
}

/// How two magnitudes compare.
#[derive(Clone, Copy, PartialEq, Eq, Structural)]
pub enum Sign {
    Less,
    Equal,
    Greater,
}

pub open spec fn sign_of(a: int, b: int) -> Sign {
    if a < b {
        Sign::Less
    } else if a == b {
        Sign::Equal
    } else {
        Sign::Greater
    }
}

pub open spec fn min_int(a: int, b: int) -> int {
    if a <= b {
        a
    } else {
        b
    }
}

/// A number whose first digit stands further left is larger.
proof fn lemma_place_decides(d1: Seq<char>, e1: int, d2: Seq<char>, e2: int)
    requires
        all_digits(d1),
        all_digits(d2),
        d1.len() > 0 ==> d1[0] != '0',
        d2.len() > 0 && d2[0] != '0',
        d1.len() == 0 || d1.len() + e1 < d2.len() + e2,
    ensures
        ({
            let base = min_int(e1, e2);
            scaled(d1, e1, base) < scaled(d2, e2, base)
        }),
{
    let base = min_int(e1, e2);
    let v1 = digits_value(d1, d1.len() as int);
    let v2 = digits_value(d2, d2.len() as int);
    lemma_digits_bounds(d1, d1.len() as int);
    lemma_digits_bounds(d2, d2.len() as int);
    lemma_ten_positive(e1 - base);
    lemma_ten_positive(e2 - base);
    lemma_ten_positive(d2.len() - 1);
    let t1 = ten(e1 - base);
    let t2 = ten(e2 - base);
    assert(v2 * t2 >= ten(d2.len() - 1) * t2) by (nonlinear_arith)
        requires
            v2 >= ten(d2.len() - 1),
            t2 >= 1,
    ;
    lemma_ten_sum(d2.len() - 1, e2 - base);
    if d1.len() == 0 {
        assert(v1 == 0);
        assert(v1 * t1 == 0) by (nonlinear_arith)
            requires
                v1 == 0,
        ;
        lemma_ten_positive(d2.len() - 1 + (e2 - base));
    } else {
        assert(v1 * t1 < ten(d1.len() as int) * t1) by (nonlinear_arith)
            requires
                v1 < ten(d1.len() as int),
                t1 >= 1,
        ;
        lemma_ten_sum(d1.len() as int, e1 - base);
        lemma_ten_monotone(d1.len() + (e1 - base), d2.len() - 1 + (e2 - base));
    }
}

/// Two numbers whose first digits stand at the same place are ordered as their
/// digits, padded with zeros to a common length.
proof fn lemma_same_place(d1: Seq<char>, e1: int, d2: Seq<char>, e2: int, n: int)
    requires
        d1.len() + e1 == d2.len() + e2,
        n == (if d1.len() >= d2.len() {
            d1.len()
        } else {
            d2.len()
        }),
    ensures
        ({
            let base = min_int(e1, e2);
            &&& scaled(d1, e1, base) == digits_value(padded(d1, n), n)
            &&& scaled(d2, e2, base) == digits_value(padded(d2, n), n)
        }),
{
    lemma_padded_value(d1, n, n);
    lemma_padded_value(d2, n, n);
}

/// Compares the magnitudes of two finite numbers.
#[verifier::loop_isolation(false)]
fn compare_magnitude(d1: &Vec<char>, e1: i128, d2: &Vec<char>, e2: i128) -> (r: Sign)
    requires
        all_digits(d1@),
        all_digits(d2@),
        d1@.len() > 0 ==> d1@[0] != '0',
        d2@.len() > 0 ==> d2@[0] != '0',
        -MAX_EXPONENT - usize::MAX <= e1 <= MAX_EXPONENT,
        -MAX_EXPONENT - usize::MAX <= e2 <= MAX_EXPONENT,
    ensures
        ({
            let base = min_int(e1 as int, e2 as int);
            r == sign_of(scaled(d1@, e1 as int, base), scaled(d2@, e2 as int, base))
        }),
{
    let ghost base = min_int(e1 as int, e2 as int);
    if d1.len() == 0 && d2.len() == 0 {
        assert(0 * ten(e1 - base) == 0 * ten(e2 - base));
        return Sign::Equal;
    }
    let p1: i128 = d1.len() as i128 + e1;
    let p2: i128 = d2.len() as i128 + e2;
    if d2.len() > 0 && (d1.len() == 0 || p1 < p2) {
        proof {
            lemma_place_decides(d1@, e1 as int, d2@, e2 as int);
        }
        return Sign::Less;
    }
    if d1.len() > 0 && (d2.len() == 0 || p2 < p1) {
        proof {
            lemma_place_decides(d2@, e2 as int, d1@, e1 as int);
        }
        return Sign::Greater;
    }
    let n: usize = if d1.len() >= d2.len() {
        d1.len()
    } else {
        d2.len()
    };
    let ghost a = padded(d1@, n as int);
    let ghost b = padded(d2@, n as int);
    proof {
        lemma_same_place(d1@, e1 as int, d2@, e2 as int, n as int);
        assert forall|k: int| 0 <= k < a.len() implies is_digit(#[trigger] a[k]) by {
            if k < d1@.len() {
                assert(is_digit(d1@[k]));
            }
        }
        assert forall|k: int| 0 <= k < b.len() implies is_digit(#[trigger] b[k]) by {
            if k < d2@.len() {
                assert(is_digit(d2@[k]));
            }
        }
    }
    let mut i: usize = 0;
    while i < n
        invariant
            i <= n,
            forall|j: int| 0 <= j < i ==> a[j] == b[j],
        decreases n - i,
    {
        let x = if i < d1.len() {
            d1[i]
        } else {
            '0'
        };
        let y = if i < d2.len() {
            d2[i]
        } else {
            '0'
        };
        assert(a[i as int] == x && b[i as int] == y);
        if x < y {
            proof {
                lemma_first_difference(a, b, i as int, n as int);
            }
            return Sign::Less;
        }
        if y < x {
            proof {
                lemma_first_difference(b, a, i as int, n as int);
            }
            return Sign::Greater;
        }
        i += 1;
    }
    proof {
        lemma_same_digits(a, b, n as int);
    }
    Sign::Equal
}

/// Whether `a <= b`.
pub fn le(a: &Number, b: &Number) -> (r: bool)
    requires
        a.wf(),
        b.wf(),
    ensures
        r == number_le(a@, b@),
{
    match (a, b) {
        (Number::Nan, _) => false,
        (_, Number::Nan) => false,
        (Number::Infinite { negative: true }, _) => true,
        (_, Number::Infinite { negative: false }) => true,
        (Number::Infinite { negative: false }, _) => false,
        (_, Number::Infinite { negative: true }) => false,
        (
            Number::Finite { negative: n1, digits: d1, exponent: e1 },
            Number::Finite { negative: n2, digits: d2, exponent: e2 },
        ) => {
            let c = compare_magnitude(d1, *e1, d2, *e2);
            proof {
                let base = min_int(*e1 as int, *e2 as int);
                lemma_digits_bounds(d1@, d1@.len() as int);
                lemma_digits_bounds(d2@, d2@.len() as int);
                lemma_ten_positive(*e1 - base);
                lemma_ten_positive(*e2 - base);
                let v1 = digits_value(d1@, d1@.len() as int);
                let v2 = digits_value(d2@, d2@.len() as int);
                let t1 = ten(*e1 - base);
                let t2 = ten(*e2 - base);
                assert(v1 * t1 >= 0 && (v1 > 0 ==> v1 * t1 > 0)) by (nonlinear_arith)
                    requires
                        v1 >= 0,
                        t1 >= 1,
                ;
                assert(v2 * t2 >= 0 && (v2 > 0 ==> v2 * t2 > 0)) by (nonlinear_arith)
                    requires
                        v2 >= 0,
                        t2 >= 1,
                ;
                if d1@.len() == 0 {
                    assert(v1 * t1 == 0) by (nonlinear_arith)
                        requires
                            v1 == 0,
                    ;
                } else {
                    lemma_ten_positive(d1@.len() - 1);
                }
                if d2@.len() == 0 {
                    assert(v2 * t2 == 0) by (nonlinear_arith)
                        requires
                            v2 == 0,
                    ;
                } else {
                    lemma_ten_positive(d2@.len() - 1);
                }
            }
            if !*n1 && !*n2 {
                c == Sign::Less || c == Sign::Equal
            } else if *n1 && *n2 {
                c == Sign::Greater || c == Sign::Equal
            } else if *n1 {
                true
            } else {
                d1.len() == 0 && d2.len() == 0
            }
        },
    }
}

/// Whether the number is zero.
pub fn is_zero(a: &Number) -> (r: bool)
    requires
        a.wf(),
    ensures
        r == number_is_zero(a@),
{
    match a {
        Number::Finite { digits, .. } => {
            proof {
                lemma_digits_bounds(digits@, digits@.len() as int);
                lemma_ten_positive(digits@.len() - 1);
            }
            digits.len() == 0
        },
        _ => false,
    }
}

/// Whether the number is not an integer.
#[verifier::loop_isolation(false)]
pub fn has_fraction(a: &Number) -> (r: bool)
    requires
        a.wf(),
    ensures
        r == number_has_fraction(a@),
{
    match a {
        Number::Finite { digits, exponent, .. } => {
            let point: i128 = digits.len() as i128 + *exponent;
            let mut i: usize = 0;
            while i < digits.len()
                invariant
                    i <= digits@.len(),
                    point == digits@.len() + *exponent,
                    forall|j: int| 0 <= j < i && j >= point ==> digits@[j] == '0',
                decreases digits@.len() - i,
            {
                if (i as i128) >= point && digits[i] != '0' {
                    assert(a@->Finite_digits[i as int] != '0');
                    return true;
                }
                i += 1;
            }
            false
        },
        _ => true,
    }
}

// ---------------------------------------------------------------------------
// Writing

/// `n` zeros.
pub open spec fn zeros(n: int) -> Seq<char> {
    Seq::new(
        if n > 0 {
            n as nat
        } else {
            0
        },
        |i: int| '0',
    )
}

/// The digits with the decimal point behind the first `point` of them, and at least
/// one digit on both sides of it: `0.05`, `1.5`, `1000.0`.
pub open spec fn pointed_text(digits: Seq<char>, point: int) -> Seq<char> {
    if point <= 0 {
        "0."@ + zeros(-point) + digits
    } else if point < digits.len() {
        digits.subrange(0, point) + "."@ + digits.subrange(point, digits.len() as int)
    } else {
        digits + zeros(point - digits.len()) + ".0"@
    }
}

/// The digits with the decimal point behind the first one, and a power of ten: `1e16`,
/// `1.5e-7`.
pub open spec fn powered_text(digits: Seq<char>, power: int) -> Seq<char> {
    digits.subrange(0, 1) + (if digits.len() > 1 {
        "."@ + digits.subrange(1, digits.len() as int)
    } else {
        Seq::empty()
    }) + "e"@ + decimal(power)
}

/// A number without the zeros that say nothing: with a decimal point, and a digit on
/// both sides of it, from one ten-thousandth up to ten to the sixteenth; with a power
/// of ten outside of that. What is too large or too small for a number of 64 bits is infinite
/// or zero.
pub open spec fn written_number(n: NumberV) -> Seq<char> {
    match n {
        NumberV::Nan => "NaN"@,
        NumberV::Infinite { negative } => sign_text(negative) + "inf"@,
        NumberV::Finite { negative, digits, exponent } => {
            let d = trim_end_of(digits, CharSet::One('0'));
            let point = digits.len() + exponent;
            sign_text(negative) + (if d.len() == 0 || point < -323 {
                "0.0"@
            } else if point > 309 {
                "inf"@
            } else if -3 <= point <= 16 {
                pointed_text(d, point)
            } else {
                powered_text(d, point - 1)
            })
        },
    }
}

pub open spec fn sign_text(negative: bool) -> Seq<char> {
    if negative {
        "-"@
    } else {
        ""@
    }
}

fn write_zeros(out: &mut String, n: usize)
    ensures
        final(out)@ == old(out)@ + zeros(n as int),
{
    let ghost start = out@;
    let mut i: usize = 0;
    assert(start + zeros(0) =~= start);
    while i < n
        invariant
            i <= n,
            out@ == start + zeros(i as int),
        decreases n - i,
    {
        push_char(out, '0');
        i += 1;
        assert(out@ =~= start + zeros(i as int));
    }
}

fn write_digits(out: &mut String, digits: &Vec<char>, from: usize, to: usize)
    requires
        from <= to <= digits@.len(),
    ensures
        final(out)@ == old(out)@ + digits@.subrange(from as int, to as int),
{
    let ghost start = out@;
    let mut i: usize = from;
    assert(start + digits@.subrange(from as int, from as int) =~= start);
    while i < to
        invariant
            from <= i <= to <= digits@.len(),
            out@ == start + digits@.subrange(from as int, i as int),
        decreases to - i,
    {
        push_char(out, digits[i]);
        i += 1;
        assert(out@ =~= start + digits@.subrange(from as int, i as int));
    }
}

fn write_pointed(out: &mut String, digits: &Vec<char>, end: usize, point: i128)
    requires
        0 < end <= digits@.len(),
        -3 <= point <= 16,
    ensures
        final(out)@ == old(out)@ + pointed_text(digits@.subrange(0, end as int), point as int),
{
    let ghost start = out@;
    let ghost d = digits@.subrange(0, end as int);
    if point <= 0 {
        out.append("0.");
        write_zeros(out, (-point) as usize);
        write_digits(out, digits, 0, end);
    } else if (point as usize) < end {
        let p: usize = point as usize;
        write_digits(out, digits, 0, p);
        out.append(".");
        write_digits(out, digits, p, end);
        assert(d.subrange(0, p as int) =~= digits@.subrange(0, p as int));
        assert(d.subrange(p as int, end as int) =~= digits@.subrange(p as int, end as int));
    } else {
        write_digits(out, digits, 0, end);
        write_zeros(out, point as usize - end);
        out.append(".0");
    }
    assert(out@ =~= start + pointed_text(d, point as int));
}

fn write_powered(out: &mut String, digits: &Vec<char>, end: usize, power: i128)
    requires
        0 < end <= digits@.len(),
        -1000 <= power <= 1000,
    ensures
        final(out)@ == old(out)@ + powered_text(digits@.subrange(0, end as int), power as int),
{
    let ghost start = out@;
    let ghost d = digits@.subrange(0, end as int);
    write_digits(out, digits, 0, 1);
    if end > 1 {
        out.append(".");
        write_digits(out, digits, 1, end);
        assert(d.subrange(1, end as int) =~= digits@.subrange(1, end as int));
    }
    out.append("e");
    out.append(print_i64(power as i64).as_str());
    assert(d.subrange(0, 1) =~= digits@.subrange(0, 1));
    assert(out@ =~= start + powered_text(d, power as int));
}

/// A number without the zeros that say nothing: `0.5`, `1000.0`, `1e16`.
pub fn write_number(n: &Number) -> (r: String)
    requires
        n.wf(),
    ensures
        r@ == written_number(n@),
{
    let (negative, digits, exponent) = match n {
        Number::Nan => {
            return "NaN".to_owned();
        },
        Number::Infinite { negative } => {
            let mut out = if *negative {
                "-".to_owned()
            } else {
                "".to_owned()
            };
            out.append("inf");
            return out;
        },
        Number::Finite { negative, digits, exponent } => (*negative, digits, *exponent),
    };
    let mut out = if negative {
        "-".to_owned()
    } else {
        "".to_owned()
    };
    let ghost sign = sign_text(negative);
    let mut end: usize = digits.len();
    let ghost zero = CharSet::One('0');
    while end > 0 && digits[end - 1] == '0'
        invariant
            end <= digits@.len(),
            zero == CharSet::One('0'),
            skip_back(digits@, zero, digits@.len() as int) == skip_back(
                digits@,
                zero,
                end as int,
            ),
        decreases end,
    {
        end -= 1;
    }
    let ghost d = trim_end_of(digits@, zero);
    assert(d == digits@.subrange(0, end as int));
    let point: i128 = digits.len() as i128 + exponent;
    if end == 0 || point < -323 {
        out.append("0.0");
    } else if point > 309 {
        out.append("inf");
    } else if -3 <= point && point <= 16 {
        write_pointed(&mut out, digits, end, point);
    } else {
        write_powered(&mut out, digits, end, point - 1);
    }
    out
}

} // verus!
