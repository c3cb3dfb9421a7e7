//! What each kind of field takes, said of the values themselves.

use vstd::prelude::*;

use crate::ast::{Leaf, SourcePos, Value};
use crate::common::{
    all_hex, decimal_places_of, is_zero_text, is_zero_value, string_text, text_within, value_text,
};
use crate::context::CtxV;
use crate::describe::{bound_text, expectation, quoted_text};
use crate::diagnostic::ErrorV;
use crate::error_codes::cw240;
use crate::field_match::{is_dynamic_text, takes_value};
use crate::leaf_check::{
    bare_text, is_builtin, mismatch_problems, with_extension, without_affixes, without_default,
};
use crate::number::{
    NumberV, lemma_ten_positive, lemma_ten_sum, number_has_fraction, number_le, read_number,
    scaled, signed, ten, zeros,
};
use crate::rule_converter::unquoted;
use crate::rule_core::leaf_problems;
use crate::rules_types::{FieldV, TypeTypeV, ValueTypeV};
use crate::ruleset::RuleSetV;
use crate::scope::is_scope_word;
use crate::scope_engine::ScopeV;
use crate::text::{
    CharSet, all_digits, ascii_lower, before_first, contains_ci, contains_text, decimal,
    decimal_nat, digit_char, digits_value, ends, eq_ci, is_digit, is_hex_digit, is_word_char,
    lemma_skip_in, lower_char_spec, occurs_at, parse_int, replace_char_spec, skip_back, skip_in,
    split_spec, starts, starts_char, trim_end_of, trim_of, trim_start_of,
};
use crate::text_laws::{
    has_bare_ends, is_free_of, law_messages, law_split_first, law_split_one, lemma_find_is,
    lemma_skip_is, lemma_trim_bare,
};
use crate::type_index::{IndexV, beside};

verus! {

/// There is one diagnostic, of that code and at that place.
pub open spec fn is_one(e: Seq<ErrorV>, code: Seq<char>, file: Seq<char>, at: SourcePos) -> bool {
    e.len() == 1 && e[0].code == Some(code) && e[0].file == file && e[0].line == at.line
        && e[0].col == at.col
}

/// Some diagnostic has that code.
pub open spec fn reports(e: Seq<ErrorV>, code: Seq<char>) -> bool {
    exists|i: int| 0 <= i < e.len() && (#[trigger] e[i]).code == Some(code)
}

/// The value is taken, or is what the one diagnostic `CW240` is about.
pub open spec fn taken_exactly_if(
    ctx: CtxV,
    l: Leaf,
    right: FieldV,
    sc: Option<ScopeV>,
    loop_vars: Seq<Seq<char>>,
    taken: bool,
) -> bool {
    let e = leaf_problems(ctx, l, right, sc, loop_vars);
    if taken {
        e.len() == 0
    } else {
        is_one(e, "CW240"@, ctx.file, l.pos.start)
    }
}

// ---------------------------------------------------------------------------
// Integers

/// The digits of a number in decimal write the number down.
pub proof fn lemma_decimal_nat(n: int)
    requires
        0 <= n,
    ensures
        decimal_nat(n).len() > 0,
        all_digits(decimal_nat(n)),
        digits_value(decimal_nat(n), decimal_nat(n).len() as int) == n,
    decreases n,
{
    let d = decimal_nat(n);
    if n < 10 {
        assert(d[0] as int == '0' as int + n);
        assert(digits_value(d, 0) == 0);
    } else {
        lemma_decimal_nat(n / 10);
        let head = decimal_nat(n / 10);
        let last = digit_char(n % 10);
        assert(last as int == '0' as int + n % 10);
        lemma_digits_push(head, last, head.len() as int);
        assert forall|i: int| 0 <= i < d.len() implies is_digit(#[trigger] d[i]) by {
            if i < head.len() {
                assert(d[i] == head[i]);
            }
        }
    }
}

proof fn lemma_digits_push(s: Seq<char>, c: char, n: int)
    requires
        0 <= n <= s.len(),
    ensures
        digits_value(s.push(c), n) == digits_value(s, n),
    decreases n,
{
    if n > 0 {
        lemma_digits_push(s, c, n - 1);
    }
}

/// What a number in decimal is read as is the number.
pub proof fn law_decimal_is_read(n: int)
    ensures
        parse_int(decimal(n), true) == Some(n),
{
    if n < 0 {
        lemma_decimal_nat(-n);
        let d = decimal(n);
        assert(d.subrange(1, d.len() as int) =~= decimal_nat(-n));
    } else {
        lemma_decimal_nat(n);
        let d = decimal(n);
        assert(is_digit(d[0]));
    }
}

proof fn lemma_plain_text(s: Seq<char>)
    requires
        s.len() > 0,
        forall|i: int| 0 <= i < s.len() ==> is_digit(#[trigger] s[i]) || s[i] == '-' || s[i] == '.',
    ensures
        unquoted(s) == s,
        !is_dynamic_text(s),
{
    reveal_strlit("$$");
    assert(is_digit(s[0]) || s[0] == '-' || s[0] == '.');
    if contains_text(s, "$$"@) {
        let i = choose|i: int| occurs_at(s, "$$"@, i);
        assert(s.subrange(i, i + 2)[0] == s[i]);
        assert(is_digit(s[i]) || s[i] == '-' || s[i] == '.');
    }
}

/// An integer is taken by a field for integers from `min` to `max` exactly if it is
/// neither under the one nor over the other, written as a number or as text.
pub proof fn law_integers_in_range(
    ctx: CtxV,
    l: Leaf,
    min: i32,
    max: i32,
    n: i64,
    sc: Option<ScopeV>,
    loop_vars: Seq<Seq<char>>,
)
    requires
        l.value == Value::Int(n) || string_text(l.value) == Some(decimal(n as int)),
    ensures
        taken_exactly_if(
            ctx,
            l,
            FieldV::ValueField(ValueTypeV::Int { min, max }),
            sc,
            loop_vars,
            min as int <= n as int && n as int <= max as int,
        ),
{
    law_decimal_is_read(n as int);
    if n < 0 {
        lemma_decimal_nat(-(n as int));
        assert(decimal(n as int)[0] == '-');
        assert forall|i: int| 0 < i < decimal(n as int).len() implies is_digit(
            #[trigger] decimal(n as int)[i],
        ) by {
            assert(decimal(n as int)[i] == decimal_nat(-(n as int))[i - 1]);
        }
    } else {
        lemma_decimal_nat(n as int);
    }
    lemma_plain_text(decimal(n as int));
}

/// A text that is no integer is not taken by a field for integers, unless it is filled in
/// when the game runs. Neither is a truth value, a number with a point or a block.
pub proof fn law_only_integers(
    ctx: CtxV,
    l: Leaf,
    min: i32,
    max: i32,
    sc: Option<ScopeV>,
    loop_vars: Seq<Seq<char>>,
)
    requires
        match string_text(l.value) {
            Some(s) => !is_dynamic_text(unquoted(s)) && (unquoted(s).len() == 0 || exists|i: int|
                0 < i < unquoted(s).len() && !is_digit(#[trigger] unquoted(s)[i])),
            None => !(l.value is Int),
        },
    ensures
        taken_exactly_if(
            ctx,
            l,
            FieldV::ValueField(ValueTypeV::Int { min, max }),
            sc,
            loop_vars,
            false,
        ),
{
    match string_text(l.value) {
        Some(text) => {
            let s = unquoted(text);
            if s.len() > 0 {
                let i = choose|i: int| 0 < i < s.len() && !is_digit(#[trigger] s[i]);
                let d = s.subrange(1, s.len() as int);
                assert(d[i - 1] == s[i]);
                assert(!is_digit(d[i - 1]));
            }
        },
        None => {},
    }
}

// ---------------------------------------------------------------------------
// Truth values

/// A field for truth values takes `yes` and `no` in whatever case, and nothing else but
/// what is filled in when the game runs.
pub proof fn law_truth_values(
    ctx: CtxV,
    l: Leaf,
    sc: Option<ScopeV>,
    loop_vars: Seq<Seq<char>>,
)
    ensures
        taken_exactly_if(
            ctx,
            l,
            FieldV::ValueField(ValueTypeV::Bool),
            sc,
            loop_vars,
            match string_text(l.value) {
                Some(s) => {
                    ||| ascii_lower(unquoted(s)) == "yes"@
                    ||| ascii_lower(unquoted(s)) == "no"@
                    ||| is_dynamic_text(unquoted(s))
                },
                None => l.value is Bool,
            },
        ),
{
    reveal_strlit("yes");
    reveal_strlit("no");
    assert(ascii_lower("yes"@) =~= "yes"@);
    assert(ascii_lower("no"@) =~= "no"@);
}

// ---------------------------------------------------------------------------
// Numbers

/// A number written down: a sign, digits, and, where there are any behind it, a point.
pub open spec fn written(negative: bool, whole: Seq<char>, fraction: Seq<char>) -> Seq<char> {
    (if negative {
        seq!['-']
    } else {
        Seq::empty()
    }) + whole + (if fraction.len() > 0 {
        seq!['.'] + fraction
    } else {
        Seq::empty()
    })
}

/// The number without its point.
pub open spec fn units(negative: bool, whole: Seq<char>, fraction: Seq<char>) -> int {
    let v = digits_value(whole + fraction, (whole + fraction).len() as int);
    if negative {
        -v
    } else {
        v
    }
}

proof fn lemma_leading_zeros(d: Seq<char>, k: int, n: int)
    requires
        all_digits(d),
        0 <= k <= n <= d.len(),
        forall|j: int| 0 <= j < k ==> d[j] == '0',
    ensures
        digits_value(d.subrange(k, d.len() as int), n - k) == digits_value(d, n),
    decreases n,
{
    let t = d.subrange(k, d.len() as int);
    if n > k {
        lemma_leading_zeros(d, k, n - 1);
        assert(t[n - k - 1] == d[n - 1]);
    } else if n > 0 {
        lemma_leading_zeros(d, k - 1, n - 1);
        let u = d.subrange(k - 1, d.len() as int);
        assert(digits_value(u, 0) == 0);
        assert(digits_value(d, n) == digits_value(d, n - 1) * 10 + (d[n - 1] as int - '0' as int));
    }
}

/// What a written number is read as.
#[verifier::rlimit(50)]
pub proof fn lemma_written(negative: bool, whole: Seq<char>, fraction: Seq<char>)
    requires
        whole.len() > 0,
        all_digits(whole),
        all_digits(fraction),
    ensures
        read_number(written(negative, whole, fraction)) matches Some(
            NumberV::Finite { negative: n, digits, exponent },
        ) && n == negative && exponent == -fraction.len() && digits == trim_start_of(
            whole + fraction,
            CharSet::One('0'),
        ) && signed(
            n,
            digits_value(digits, digits.len() as int),
        ) == units(negative, whole, fraction),
{
    let s = written(negative, whole, fraction);
    let t = if negative {
        s.subrange(1, s.len() as int)
    } else {
        s
    };
    let tail = if fraction.len() > 0 {
        seq!['.'] + fraction
    } else {
        Seq::<char>::empty()
    };
    assert(t =~= whole + tail);
    assert(is_digit(whole[0]) && t[0] == whole[0]);
    reveal_strlit("inf");
    reveal_strlit("infinity");
    reveal_strlit("nan");
    assert(ascii_lower(t)[0] == t[0]);
    assert(ascii_lower(t) != "inf"@ && ascii_lower(t) != "infinity"@ && ascii_lower(t)
        != "nan"@);
    lemma_skip_in(t, CharSet::Digit, 0);
    let i = skip_in(t, CharSet::Digit, 0);
    assert forall|j: int| 0 <= j < whole.len() implies CharSet::Digit.has(#[trigger] t[j]) by {
        assert(t[j] == whole[j]);
        assert(is_digit(whole[j]));
    }
    if i < whole.len() {
        assert(CharSet::Digit.has(t[i]));
    }
    let all = whole + fraction;
    if fraction.len() > 0 {
        assert(t[whole.len() as int] == '.');
        assert(i == whole.len());
        lemma_skip_in(t, CharSet::Digit, i + 1);
        let j = skip_in(t, CharSet::Digit, i + 1);
        if j < t.len() {
            assert(t[j] == fraction[j - i - 1]);
            assert(is_digit(fraction[j - i - 1]));
        }
        assert(t.subrange(i + 1, j) =~= fraction);
    } else {
        assert(i == t.len());
        assert(fraction =~= Seq::<char>::empty());
    }
    assert(t.subrange(0, i) =~= whole);
    assert forall|k: int| 0 <= k < all.len() implies is_digit(#[trigger] all[k]) by {
        if k < whole.len() {
            assert(is_digit(whole[k]));
        } else {
            assert(is_digit(fraction[k - whole.len()]));
        }
    }
    lemma_skip_in(all, CharSet::One('0'), 0);
    let z = skip_in(all, CharSet::One('0'), 0);
    assert forall|j: int| 0 <= j < z implies all[j] == '0' by {
        assert(CharSet::One('0').has(all[j]));
    }
    lemma_leading_zeros(all, z, all.len() as int);
}

/// Numbers are ordered as the fractions that they write down, whatever the number of
/// their decimal places: `a / 10^i <= b / 10^j` is `a * 10^j <= b * 10^i`.
#[verifier::rlimit(50)]
pub proof fn law_numbers_are_ordered(
    n1: bool,
    w1: Seq<char>,
    f1: Seq<char>,
    n2: bool,
    w2: Seq<char>,
    f2: Seq<char>,
)
    requires
        w1.len() > 0 && all_digits(w1) && all_digits(f1),
        w2.len() > 0 && all_digits(w2) && all_digits(f2),
    ensures
        number_le(read_number(written(n1, w1, f1))->0, read_number(written(n2, w2, f2))->0) <==> (
        units(n1, w1, f1) * ten(f2.len() as int) <= units(n2, w2, f2) * ten(f1.len() as int)),
{
    lemma_written(n1, w1, f1);
    lemma_written(n2, w2, f2);
    let a = units(n1, w1, f1);
    let b = units(n2, w2, f2);
    let i = f1.len() as int;
    let j = f2.len() as int;
    match (read_number(written(n1, w1, f1))->0, read_number(written(n2, w2, f2))->0) {
        (
            NumberV::Finite { negative: m1, digits: d1, exponent: e1 },
            NumberV::Finite { negative: m2, digits: d2, exponent: e2 },
        ) => {
            let v1 = digits_value(d1, d1.len() as int);
            let v2 = digits_value(d2, d2.len() as int);
            if i >= j {
                let t = ten(i - j);
                let u = ten(j);
                lemma_ten_positive(j);
                lemma_ten_sum(i - j, j);
                assert(scaled(d1, e1, e1) == v1) by {
                    assert(ten(0) == 1);
                    assert(v1 * 1 == v1);
                }
                assert(signed(m2, v2 * t) == b * t) by (nonlinear_arith)
                    requires
                        signed(m2, v2) == b,
                        m2 ==> b == -v2,
                        !m2 ==> b == v2,
                        m2 ==> signed(m2, v2 * t) == -(v2 * t),
                        !m2 ==> signed(m2, v2 * t) == v2 * t,
                ;
                assert((a <= b * t) <==> (a * u <= b * (t * u))) by (nonlinear_arith)
                    requires
                        u >= 1,
                ;
            } else {
                let t = ten(j - i);
                let u = ten(i);
                lemma_ten_positive(i);
                lemma_ten_sum(j - i, i);
                assert(scaled(d2, e2, e2) == v2) by {
                    assert(ten(0) == 1);
                    assert(v2 * 1 == v2);
                }
                assert(signed(m1, v1 * t) == a * t) by (nonlinear_arith)
                    requires
                        signed(m1, v1) == a,
                        m1 ==> a == -v1,
                        !m1 ==> a == v1,
                        m1 ==> signed(m1, v1 * t) == -(v1 * t),
                        !m1 ==> signed(m1, v1 * t) == v1 * t,
                ;
                assert((a * t <= b) <==> (a * (t * u) <= b * u)) by (nonlinear_arith)
                    requires
                        u >= 1,
                ;
            }
        },
        _ => {},
    }
}

/// A number is taken by a field for numbers from one to another exactly if it lies
/// between them.
pub proof fn law_numbers_in_range(
    ctx: CtxV,
    l: Leaf,
    lo: (bool, Seq<char>, Seq<char>),
    hi: (bool, Seq<char>, Seq<char>),
    v: (bool, Seq<char>, Seq<char>),
    sc: Option<ScopeV>,
    loop_vars: Seq<Seq<char>>,
)
    requires
        lo.1.len() > 0 && all_digits(lo.1) && all_digits(lo.2),
        hi.1.len() > 0 && all_digits(hi.1) && all_digits(hi.2),
        v.1.len() > 0 && all_digits(v.1) && all_digits(v.2),
        l.value is Float || l.value is String || l.value is QString || l.value is Int,
        value_text(l.value) == written(v.0, v.1, v.2),
    ensures
        taken_exactly_if(
            ctx,
            l,
            FieldV::ValueField(
                ValueTypeV::Float {
                    min: written(lo.0, lo.1, lo.2),
                    max: written(hi.0, hi.1, hi.2),
                },
            ),
            sc,
            loop_vars,
            units(lo.0, lo.1, lo.2) * ten(v.2.len() as int) <= units(v.0, v.1, v.2) * ten(
                lo.2.len() as int,
            ) && units(v.0, v.1, v.2) * ten(hi.2.len() as int) <= units(hi.0, hi.1, hi.2) * ten(
                v.2.len() as int,
            ),
        ),
{
    law_numbers_are_ordered(lo.0, lo.1, lo.2, v.0, v.1, v.2);
    law_numbers_are_ordered(v.0, v.1, v.2, hi.0, hi.1, hi.2);
    lemma_written(lo.0, lo.1, lo.2);
    lemma_written(hi.0, hi.1, hi.2);
    lemma_written(v.0, v.1, v.2);
    let s = written(v.0, v.1, v.2);
    assert forall|i: int| 0 <= i < s.len() implies is_digit(#[trigger] s[i]) || s[i] == '-' || s[i]
        == '.' by {
        let k = if v.0 {
            i - 1
        } else {
            i
        };
        if k >= 0 && k < v.1.len() {
            assert(s[i] == v.1[k]);
            assert(is_digit(v.1[k]));
        } else if k > v.1.len() {
            assert(s[i] == v.2[k - v.1.len() - 1]);
            assert(is_digit(v.2[k - v.1.len() - 1]));
        }
    }
    lemma_plain_text(s);
}

// ---------------------------------------------------------------------------
// Words

/// A field for one word takes that word in whatever case, and what is filled in when the
/// game runs.
pub proof fn law_one_word(
    ctx: CtxV,
    l: Leaf,
    word: Seq<char>,
    sc: Option<ScopeV>,
    loop_vars: Seq<Seq<char>>,
)
    requires
        string_text(l.value) is Some,
    ensures
        taken_exactly_if(
            ctx,
            l,
            FieldV::SpecificField(word),
            sc,
            loop_vars,
            ascii_lower(unquoted(string_text(l.value)->0)) == ascii_lower(word) || is_dynamic_text(
                unquoted(string_text(l.value)->0),
            ),
        ),
{
}

/// A field for anything takes anything.
pub proof fn law_any_value(ctx: CtxV, l: Leaf, sc: Option<ScopeV>, loop_vars: Seq<Seq<char>>)
    ensures
        taken_exactly_if(ctx, l, FieldV::ScalarField, sc, loop_vars, true),
{
}

/// A field for a member of an enum takes the members in whatever case. Where the enum has
/// at most five members, and none that is filled in when the game runs, it takes nothing
/// else; an enum that is not known, or has no members, takes everything.
pub proof fn law_members_of_enums(
    ctx: CtxV,
    l: Leaf,
    name: Seq<char>,
    sc: Option<ScopeV>,
    loop_vars: Seq<Seq<char>>,
)
    requires
        string_text(l.value) is Some,
    ensures
        ({
            let right = FieldV::ValueField(ValueTypeV::Enum(name));
            let s = unquoted(string_text(l.value)->0);
            let known = ctx.rs.enum_by_name.contains_key(name) && ctx.rs.enum_by_name[name]
                < ctx.rs.enums.len();
            let values = ctx.rs.enums[ctx.rs.enum_by_name[name] as int].values;
            let member = exists|i: int|
                0 <= i < values.len() && ascii_lower(#[trigger] values[i]) == ascii_lower(s);
            let constant = exists|i: int|
                0 <= i < values.len() && (#[trigger] values[i]).len() > 0 && values[i][0] == '@';
            &&& !known || values.len() == 0 || member || constant ==> taken_exactly_if(
                ctx,
                l,
                right,
                sc,
                loop_vars,
                true,
            )
            &&& known && values.len() > 5 && s.len() > 0 ==> taken_exactly_if(
                ctx,
                l,
                right,
                sc,
                loop_vars,
                true,
            )
            &&& known && 0 < values.len() <= 5 && !member && !constant && !is_dynamic_text(s)
                ==> taken_exactly_if(ctx, l, right, sc, loop_vars, false)
        }),
{
    let s = unquoted(string_text(l.value)->0);
    if ctx.rs.enum_by_name.contains_key(name) && ctx.rs.enum_by_name[name] < ctx.rs.enums.len() {
        let values = ctx.rs.enums[ctx.rs.enum_by_name[name] as int].values;
        assert forall|i: int| 0 <= i < values.len() implies (ascii_lower(#[trigger] values[i])
            == ascii_lower(s) <==> eq_ci(values[i], s)) && ((values[i].len() > 0 && values[i][0]
            == '@') <==> starts_char(values[i], '@')) by {}
        if exists|i: int|
            0 <= i < values.len() && ascii_lower(#[trigger] values[i]) == ascii_lower(s) {
            let i = choose|i: int|
                0 <= i < values.len() && ascii_lower(#[trigger] values[i]) == ascii_lower(s);
            assert(eq_ci(values[i], s));
            assert(contains_ci(values, s));
        }
    }
}

// ---------------------------------------------------------------------------
// Dates

proof fn lemma_unsigned_is_read(n: int)
    requires
        0 <= n,
    ensures
        parse_int(decimal(n), false) == Some(n),
        is_free_of(decimal(n), CharSet::One('.')),
{
    lemma_decimal_nat(n);
    let d = decimal(n);
    assert(is_digit(d[0]));
    assert forall|i: int| 0 <= i < d.len() implies !CharSet::One('.').has(#[trigger] d[i]) by {
        assert(is_digit(d[i]));
    }
}

/// Year, month and day between dots are a date, and so, with an hour behind them, where a
/// date and an hour are asked for; a year and a month alone are neither.
#[verifier::rlimit(50)]
pub proof fn law_dates(
    ctx: CtxV,
    l: Leaf,
    y: u16,
    m: u32,
    d: u32,
    h: u32,
    sc: Option<ScopeV>,
    loop_vars: Seq<Seq<char>>,
)
    requires
        string_text(l.value) is Some,
    ensures
        ({
            let s = string_text(l.value)->0;
            let two = decimal(y as int) + seq!['.'] + decimal(m as int);
            let three = decimal(y as int) + seq!['.'] + (decimal(m as int) + seq!['.'] + decimal(
                d as int,
            ));
            let four = decimal(y as int) + seq!['.'] + (decimal(m as int) + seq!['.'] + (decimal(
                d as int,
            ) + seq!['.'] + decimal(h as int)));
            let date = FieldV::ValueField(ValueTypeV::Date);
            let time = FieldV::ValueField(ValueTypeV::DateTime);
            &&& s == two ==> taken_exactly_if(ctx, l, date, sc, loop_vars, false)
                && taken_exactly_if(ctx, l, time, sc, loop_vars, false)
            &&& s == three ==> taken_exactly_if(ctx, l, date, sc, loop_vars, true)
                && taken_exactly_if(ctx, l, time, sc, loop_vars, true)
            &&& s == four ==> taken_exactly_if(ctx, l, date, sc, loop_vars, false)
                && taken_exactly_if(ctx, l, time, sc, loop_vars, true)
        }),
{
    let dot = CharSet::One('.');
    lemma_unsigned_is_read(y as int);
    lemma_unsigned_is_read(m as int);
    lemma_unsigned_is_read(d as int);
    lemma_unsigned_is_read(h as int);
    law_decimal_is_read(y as int);
    let (a, b, c, e) = (decimal(y as int), decimal(m as int), decimal(d as int), decimal(h as int));
    law_split_one(b, dot);
    law_split_one(c, dot);
    law_split_one(e, dot);
    law_split_first(a, '.', b);
    law_split_first(b, '.', c);
    law_split_first(c, '.', e);
    law_split_first(a, '.', b + seq!['.'] + c);
    law_split_first(b, '.', c + seq!['.'] + e);
    law_split_first(a, '.', b + seq!['.'] + (c + seq!['.'] + e));
    let two = a + seq!['.'] + b;
    let three = a + seq!['.'] + (b + seq!['.'] + c);
    let four = a + seq!['.'] + (b + seq!['.'] + (c + seq!['.'] + e));
    assert(split_spec(two, dot) =~= seq![a, b]);
    assert(split_spec(three, dot) =~= seq![a, b, c]);
    assert(split_spec(four, dot) =~= seq![a, b, c, e]);
    lemma_decimal_nat(y as int);
    lemma_decimal_nat(m as int);
    lemma_decimal_nat(d as int);
    lemma_decimal_nat(h as int);
    lemma_digits_and_dots(a, b);
    lemma_digits_and_dots(b, c);
    lemma_digits_and_dots(c, e);
    lemma_digits_and_dots(a, b + seq!['.'] + c);
    lemma_digits_and_dots(b, c + seq!['.'] + e);
    lemma_digits_and_dots(a, b + seq!['.'] + (c + seq!['.'] + e));
    lemma_plain_text(two);
    lemma_plain_text(three);
    lemma_plain_text(four);
}

spec fn is_digits_and_dots(s: Seq<char>) -> bool {
    s.len() > 0 && forall|i: int|
        0 <= i < s.len() ==> is_digit(#[trigger] s[i]) || s[i] == '-' || s[i] == '.'
}

proof fn lemma_digits_and_dots(a: Seq<char>, b: Seq<char>)
    requires
        a.len() > 0 && all_digits(a),
        is_digits_and_dots(b) || all_digits(b),
    ensures
        is_digits_and_dots(a + seq!['.'] + b),
{
    let s = a + seq!['.'] + b;
    assert forall|i: int| 0 <= i < s.len() implies is_digit(#[trigger] s[i]) || s[i] == '-' || s[i]
        == '.' by {
        if i < a.len() {
            assert(s[i] == a[i]);
            assert(is_digit(a[i]));
        } else if i > a.len() {
            assert(s[i] == b[i - a.len() - 1]);
            assert(is_digit(b[i - a.len() - 1]) || b[i - a.len() - 1] == '-' || b[i - a.len() - 1]
                == '.');
        }
    }
}

/// A percentage is a number, or ends with a percent sign.
pub proof fn law_percentages(
    ctx: CtxV,
    l: Leaf,
    sc: Option<ScopeV>,
    loop_vars: Seq<Seq<char>>,
)
    ensures
        taken_exactly_if(
            ctx,
            l,
            FieldV::ValueField(ValueTypeV::Percent),
            sc,
            loop_vars,
            match string_text(l.value) {
                Some(s) => {
                    ||| unquoted(s).len() > 0 && unquoted(s).last() == '%'
                    ||| read_number(unquoted(s)) is Some
                    ||| is_dynamic_text(unquoted(s))
                },
                None => l.value is Int || l.value is Float,
            },
        ),
{
}

// ---------------------------------------------------------------------------
// References

/// The type has an instance of that name, in whatever case.
pub open spec fn is_instance(i: IndexV, type_: Seq<char>, name: Seq<char>) -> bool {
    exists|k: int|
        0 <= k < i.entries.len() && (#[trigger] i.entries[k]).0 == type_ && ascii_lower(
            i.entries[k].1.name,
        ) == ascii_lower(name)
}

pub proof fn lemma_is_instance(i: IndexV, type_: Seq<char>, name: Seq<char>)
    ensures
        i.has(type_, name) <==> is_instance(i, type_, name),
{
    if i.has(type_, name) {
        let k = choose|k: int|
            0 <= k < i.entries.len() && (#[trigger] i.entries[k]).0 == type_ && eq_ci(
                i.entries[k].1.name,
                name,
            );
        assert(i.entries[k].0 == type_);
    }
    if is_instance(i, type_, name) {
        let k = choose|k: int|
            0 <= k < i.entries.len() && (#[trigger] i.entries[k]).0 == type_ && ascii_lower(
                i.entries[k].1.name,
            ) == ascii_lower(name);
        assert(i.entries[k].0 == type_ && eq_ci(i.entries[k].1.name, name));
    }
}

/// A reference to an instance is reported exactly if all instances are known, the type has
/// some, and none has that name: an event as `CW222`, anything else as `CW500`.
pub proof fn law_references_to_instances(
    ctx: CtxV,
    l: Leaf,
    i: IndexV,
    type_: Seq<char>,
    sc: Option<ScopeV>,
    loop_vars: Seq<Seq<char>>,
)
    requires
        ctx.idx == Some(i),
        !type_.contains('.'),
        unquoted(value_text(l.value)).len() > 0,
        unquoted(value_text(l.value))[0] != '[',
    ensures
        ({
            let e = leaf_problems(
                ctx,
                l,
                FieldV::TypeField(TypeTypeV::Simple(type_)),
                sc,
                loop_vars,
            );
            let some = exists|k: int| 0 <= k < i.entries.len() && (#[trigger] i.entries[k]).0 == type_;
            let known = is_instance(i, type_, unquoted(value_text(l.value)));
            &&& !i.complete || !some || known ==> e.len() == 0
            &&& i.complete && some && !known && type_ == "event"@ ==> is_one(
                e,
                "CW222"@,
                ctx.file,
                l.pos.start,
            )
            &&& i.complete && some && !known && type_ != "event"@ ==> is_one(
                e,
                "CW500"@,
                ctx.file,
                l.pos.start,
            )
        }),
        leaf_problems(
            CtxV { idx: None, ..ctx },
            l,
            FieldV::TypeField(TypeTypeV::Simple(type_)),
            sc,
            loop_vars,
        ).len() == 0,
{
    lemma_is_instance(i, type_, unquoted(value_text(l.value)));
}

/// Where a field adds text around names, a value with that text around the name of an
/// instance refers to the instance.
pub proof fn law_references_with_text_around(
    ctx: CtxV,
    l: Leaf,
    i: IndexV,
    prefix: Seq<char>,
    type_: Seq<char>,
    suffix: Seq<char>,
    name: Seq<char>,
    sc: Option<ScopeV>,
    loop_vars: Seq<Seq<char>>,
)
    requires
        ctx.idx == Some(i),
        is_instance(i, type_, name),
        unquoted(value_text(l.value)) == prefix + name + suffix,
    ensures
        leaf_problems(
            ctx,
            l,
            FieldV::TypeField(TypeTypeV::Complex { prefix, name: type_, suffix }),
            sc,
            loop_vars,
        ).len() == 0,
{
    let v = prefix + name + suffix;
    assert(v.subrange(0, prefix.len() as int) =~= prefix);
    let a = v.subrange(prefix.len() as int, v.len() as int);
    assert(a =~= name + suffix);
    assert(a.subrange(a.len() - suffix.len(), a.len() as int) =~= suffix);
    assert(a.subrange(0, a.len() - suffix.len()) =~= name);
    lemma_is_instance(i, type_, name);
}

/// The form under which files are known: in lower case, with slashes.
pub open spec fn known_as(path: Seq<char>) -> Seq<char> {
    ascii_lower(replace_char_spec(path, '\\', '/'))
}

/// A path to a file that is known is not reported; one to a file that is not, and is no
/// texture in another format, is reported as `CW113`.
pub proof fn law_references_to_files(
    ctx: CtxV,
    l: Leaf,
    i: IndexV,
    folder: Option<Seq<char>>,
    v: Seq<char>,
    sc: Option<ScopeV>,
    loop_vars: Seq<Seq<char>>,
)
    requires
        ctx.idx == Some(i),
        string_text(l.value) == Some(v),
        has_bare_ends(v, CharSet::White),
        has_bare_ends(v, CharSet::One('"')),
        !v.contains('$') && !v.contains('[') && !v.contains('<'),
        folder matches Some(f) ==> !starts(ascii_lower(v), ascii_lower(f)),
    ensures
        ({
            let e = leaf_problems(
                ctx,
                l,
                FieldV::FilepathField { prefix: folder, extension: None },
                sc,
                loop_vars,
            );
            let path = match folder {
                Some(f) => f + v,
                None => v,
            };
            &&& i.files.contains(known_as(path)) ==> e.len() == 0
            &&& i.files == Set::<Seq<char>>::empty() ==> e.len() == 0
            &&& i.files != Set::<Seq<char>>::empty() && !i.files.contains(known_as(path)) && !ends(
                ascii_lower(path),
                ".dds"@,
            ) && !ends(ascii_lower(path), ".tga"@) && !ends(ascii_lower(ctx.file), ".asset"@)
                ==> is_one(e, "CW113"@, ctx.file, l.pos.start)
        }),
{
    lemma_trim_bare(v, CharSet::One('"'));
    lemma_trim_bare(v, CharSet::White);
}

/// A texture that is shipped in the other format is not reported.
pub proof fn law_textures(
    ctx: CtxV,
    l: Leaf,
    i: IndexV,
    stem: Seq<char>,
    v: Seq<char>,
    sc: Option<ScopeV>,
    loop_vars: Seq<Seq<char>>,
)
    requires
        ctx.idx == Some(i),
        string_text(l.value) == Some(v),
        has_bare_ends(v, CharSet::White),
        has_bare_ends(v, CharSet::One('"')),
        ascii_lower(v) == stem + ".dds"@ && i.files.contains(known_as(stem + ".tga"@))
            || ascii_lower(v) == stem + ".tga"@ && i.files.contains(known_as(stem + ".dds"@)),
    ensures
        leaf_problems(
            ctx,
            l,
            FieldV::FilepathField { prefix: None, extension: None },
            sc,
            loop_vars,
        ).len() == 0,
{
    reveal_strlit(".dds");
    reveal_strlit(".tga");
    lemma_trim_bare(v, CharSet::One('"'));
    lemma_trim_bare(v, CharSet::White);
    let a = ascii_lower(v);
    assert(a.subrange(0, a.len() - 4) =~= stem);
    assert(a.subrange(a.len() - 4, a.len() as int) =~= a.skip(stem.len() as int));
    if a == stem + ".dds"@ {
        assert(a.subrange(a.len() - 4, a.len() as int) =~= ".dds"@);
    } else {
        assert(a.subrange(a.len() - 4, a.len() as int) =~= ".tga"@);
        assert(a.subrange(a.len() - 4, a.len() as int)[1] == 't');
    }
}

// ---------------------------------------------------------------------------
// Variables

/// The variable is known: the project sets it, a loop around it does, or it is built in.
pub open spec fn is_set(ctx: CtxV, i: IndexV, name: Seq<char>, loop_vars: Seq<Seq<char>>) -> bool {
    ||| i.variables.contains(ascii_lower(trim_of(name, CharSet::White)))
    ||| loop_vars.contains(ascii_lower(trim_of(name, CharSet::White)))
    ||| is_builtin(ctx.rs, name)
}

/// The text is a plain name of a variable.
pub open spec fn is_variable_name(v: Seq<char>) -> bool {
    v.len() > 0 && forall|i: int| 0 <= i < v.len() ==> is_word_char(#[trigger] v[i])
}

proof fn lemma_variable_name(v: Seq<char>)
    requires
        is_variable_name(v),
    ensures
        bare_text(v) == v,
        without_default(v) == v,
        !is_dynamic_text(v),
        !v.contains(':') && !v.contains('.'),
{
    assert(is_word_char(v[0]) && is_word_char(v.last()));
    lemma_trim_bare(v, CharSet::One('"'));
    lemma_trim_bare(v, CharSet::White);
    assert forall|i: int| 0 <= i < v.len() implies !CharSet::Either('?', '^').has(
        #[trigger] v[i],
    ) by {
        assert(is_word_char(v[i]));
    }
    lemma_find_is(v, CharSet::Either('?', '^'), 0, v.len() as int);
    assert(v.subrange(0, v.len() as int) =~= v);
    reveal_strlit("$$");
    if contains_text(v, "$$"@) {
        let i = choose|i: int| occurs_at(v, "$$"@, i);
        assert(v.subrange(i, i + 2)[0] == v[i]);
        assert(is_word_char(v[i]));
    }
    if v.contains(':') {
        let i = choose|i: int| 0 <= i < v.len() && v[i] == ':';
        assert(is_word_char(v[i]));
    }
    if v.contains('.') {
        let i = choose|i: int| 0 <= i < v.len() && v[i] == '.';
        assert(is_word_char(v[i]));
    }
}

/// The reading of a variable is reported, as `CW246`, exactly if variables are checked, the
/// project sets some, and this one is not known.
pub proof fn law_variables_are_set(
    ctx: CtxV,
    l: Leaf,
    i: IndexV,
    set: Seq<char>,
    sc: Option<ScopeV>,
    loop_vars: Seq<Seq<char>>,
)
    requires
        ctx.idx == Some(i),
        string_text(l.value) is Some,
        is_variable_name(string_text(l.value)->0),
    ensures
        ({
            let v = string_text(l.value)->0;
            let e = leaf_problems(ctx, l, FieldV::VariableGetField(set), sc, loop_vars);
            let wrong = ctx.var_checks && i.variables != Set::<Seq<char>>::empty() && !is_set(
                ctx,
                i,
                v,
                loop_vars,
            );
            &&& !wrong ==> e.len() == 0
            &&& wrong ==> is_one(e, "CW246"@, ctx.file, l.pos.start)
        }),
{
    lemma_variable_name(string_text(l.value)->0);
}

/// A variable that is built in is one that the configuration lists as such, in whatever
/// case; what follows an `@` does not count.
pub proof fn law_built_in_variables(rs: RuleSetV, name: Seq<char>, k: int)
    requires
        rs.values.contains_key("variable"@),
        0 <= k < rs.values["variable"@].len(),
        is_free_of(name, CharSet::One('@')),
    ensures
        ascii_lower(rs.values["variable"@][k]) == ascii_lower(name) ==> is_builtin(rs, name),
{
    let m = rs.values["variable"@];
    if ascii_lower(m[k]) == ascii_lower(name) {
        let x = m[k];
        assert(ascii_lower(x).len() == x.len() && ascii_lower(name).len() == name.len());
        assert forall|i: int| 0 <= i < x.len() implies !CharSet::One('@').has(#[trigger] x[i]) by {
            assert(ascii_lower(x)[i] == lower_char_spec(x[i]));
            assert(ascii_lower(name)[i] == lower_char_spec(name[i]));
            assert(!CharSet::One('@').has(name[i]));
        }
        lemma_find_is(x, CharSet::One('@'), 0, x.len() as int);
        assert(before_first(x, CharSet::One('@')) =~= x);
        assert(eq_ci(before_first(m[k], CharSet::One('@')), name));
    }
}

/// A number with digits other than `0` behind its point is reported, as `CW271`, where an
/// integer is asked for; a number with more than three decimal places that count, as
/// `CW270`, where one of 32 bits is.
#[verifier::rlimit(50)]
pub proof fn law_numbers_for_variables(
    ctx: CtxV,
    l: Leaf,
    v: (bool, Seq<char>, Seq<char>),
    is_int: bool,
    is_32bit: bool,
    range: (Seq<char>, Seq<char>),
    sc: Option<ScopeV>,
    loop_vars: Seq<Seq<char>>,
)
    requires
        v.1.len() > 0 && all_digits(v.1) && all_digits(v.2) && v.2.len() <= usize::MAX,
        l.value is Float || l.value is String || l.value is Int,
        value_text(l.value) == written(v.0, v.1, v.2),
    ensures
        ({
            let e = leaf_problems(
                ctx,
                l,
                FieldV::VariableField { is_int, is_32bit, min: range.0, max: range.1 },
                sc,
                loop_vars,
            );
            let fraction = exists|k: int| 0 <= k < v.2.len() && (#[trigger] v.2[k]) != '0';
            let long = exists|k: int| 3 <= k < v.2.len() && (#[trigger] v.2[k]) != '0';
            &&& is_int && fraction ==> is_one(e, "CW271"@, ctx.file, l.pos.start)
            &&& !is_int && is_32bit && long ==> is_one(e, "CW270"@, ctx.file, l.pos.start)
            &&& !(is_int && fraction) && !(is_32bit && long) ==> e.len() == 0
        }),
{
    let s = written(v.0, v.1, v.2);
    lemma_written(v.0, v.1, v.2);
    lemma_number_text(v.0, v.1, v.2);
    lemma_fraction(v.0, v.1, v.2);
    lemma_places(v.0, v.1, v.2);
}

proof fn lemma_number_text(negative: bool, w: Seq<char>, f: Seq<char>)
    requires
        w.len() > 0 && all_digits(w) && all_digits(f),
    ensures
        ({
            let s = written(negative, w, f);
            &&& bare_text(s) == s
            &&& without_default(s) == s
            &&& !is_dynamic_text(s)
            &&& s.len() > 0
            &&& ascii_lower(s) != ascii_lower("yes"@)
            &&& ascii_lower(s) != ascii_lower("no"@)
        }),
{
    let s = written(negative, w, f);
    assert forall|i: int| 0 <= i < s.len() implies is_digit(#[trigger] s[i]) || s[i] == '-' || s[i]
        == '.' by {
        let k = if negative {
            i - 1
        } else {
            i
        };
        if k >= 0 && k < w.len() {
            assert(s[i] == w[k]);
            assert(is_digit(w[k]));
        } else if k > w.len() {
            assert(s[i] == f[k - w.len() - 1]);
            assert(is_digit(f[k - w.len() - 1]));
        }
    }
    lemma_plain_text(s);
    assert(is_digit(s[0]) || s[0] == '-' || s[0] == '.');
    assert(is_digit(s[s.len() - 1]) || s[s.len() - 1] == '-' || s[s.len() - 1] == '.');
    lemma_trim_bare(s, CharSet::One('"'));
    lemma_trim_bare(s, CharSet::White);
    let stop = CharSet::Either('?', '^');
    assert forall|i: int| 0 <= i < s.len() implies !stop.has(#[trigger] s[i]) by {
        assert(is_digit(s[i]) || s[i] == '-' || s[i] == '.');
    }
    lemma_find_is(s, stop, 0, s.len() as int);
    assert(s.subrange(0, s.len() as int) =~= s);
    reveal_strlit("yes");
    reveal_strlit("no");
    assert(ascii_lower(s)[0] == s[0]);
    assert(ascii_lower("yes"@)[0] == 'y' && ascii_lower("no"@)[0] == 'n');
}

proof fn lemma_fraction(negative: bool, w: Seq<char>, f: Seq<char>)
    requires
        w.len() > 0 && all_digits(w) && all_digits(f),
    ensures
        number_has_fraction(read_number(written(negative, w, f))->0) <==> exists|k: int|
            0 <= k < f.len() && (#[trigger] f[k]) != '0',
{
    lemma_written(negative, w, f);
    let all = w + f;
    let z = skip_in(all, CharSet::One('0'), 0);
    lemma_skip_in(all, CharSet::One('0'), 0);
    match read_number(written(negative, w, f))->0 {
        NumberV::Finite { digits, exponent, .. } => {
            assert(digits =~= all.subrange(z, all.len() as int));
            if exists|i: int|
                0 <= i < digits.len() && i >= digits.len() + exponent && #[trigger] digits[i]
                    != '0' {
                let i = choose|i: int|
                    0 <= i < digits.len() && i >= digits.len() + exponent && #[trigger] digits[i]
                        != '0';
                assert(digits[i] == all[i + z]);
                assert(f[i + z - w.len()] != '0');
            }
            if exists|k: int| 0 <= k < f.len() && (#[trigger] f[k]) != '0' {
                let k = choose|k: int| 0 <= k < f.len() && (#[trigger] f[k]) != '0';
                let j = w.len() + k;
                assert(all[j] == f[k]);
                if j < z {
                    assert(CharSet::One('0').has(all[j]));
                }
                assert(digits[j - z] == all[j]);
            }
        },
        _ => {},
    }
}

#[verifier::rlimit(50)]
proof fn lemma_places(negative: bool, w: Seq<char>, f: Seq<char>)
    requires
        w.len() > 0 && all_digits(w) && all_digits(f),
        f.len() <= usize::MAX,
    ensures
        decimal_places_of(written(negative, w, f)) > 3 <==> exists|k: int|
            3 <= k < f.len() && (#[trigger] f[k]) != '0',
{
    let s = written(negative, w, f);
    let head = if negative {
        seq!['-'] + w
    } else {
        w
    };
    let dot = CharSet::One('.');
    assert forall|k: int| 0 <= k < head.len() implies !dot.has(#[trigger] head[k]) by {
        let j = if negative {
            k - 1
        } else {
            k
        };
        if j >= 0 {
            assert(head[k] == w[j]);
            assert(is_digit(w[j]));
        }
    }
    if f.len() > 0 {
        assert(s =~= head + seq!['.'] + f);
        law_split_first(head, '.', f);
        let zero = CharSet::One('0');
        let n = skip_back(f, zero, f.len() as int);
        lemma_trailing(f, f.len() as int);
        let t = trim_end_of(f, zero);
        assert(t.len() == n);
        assert forall|k: int| 0 <= k < t.len() implies (#[trigger] t[k] as u32) < 128 by {
            assert(t[k] == f[k]);
            assert(is_digit(f[k]));
        }
        assert(vstd::utf8::is_ascii_chars(t));
        vstd::utf8::is_ascii_chars_encode_utf8(t);
        if n > 3 {
            assert(f[n - 1] != '0');
        }
    } else {
        assert(s =~= head);
        lemma_find_is(s, dot, 0, s.len() as int);
    }
}

proof fn lemma_trailing(f: Seq<char>, n: int)
    requires
        0 <= n <= f.len(),
    ensures
        ({
            let m = skip_back(f, CharSet::One('0'), n);
            &&& 0 <= m <= n
            &&& m > 0 ==> f[m - 1] != '0'
            &&& forall|k: int| m <= k < n ==> (#[trigger] f[k]) == '0'
        }),
    decreases n,
{
    if n > 0 && f[n - 1] == '0' {
        lemma_trailing(f, n - 1);
    }
}

// ---------------------------------------------------------------------------
// More on numbers

/// A number is zero exactly if all its digits are, and is neither a word nor infinite.
pub proof fn law_zero(negative: bool, whole: Seq<char>, fraction: Seq<char>)
    requires
        whole.len() > 0 && all_digits(whole) && all_digits(fraction),
    ensures
        is_zero_text(written(negative, whole, fraction)) <==> units(negative, whole, fraction) == 0,
        is_zero_value(Value::Int(0)),
        forall|n: i64| n != 0 ==> !(#[trigger] is_zero_value(Value::Int(n))),
{
    lemma_written(negative, whole, fraction);
}

/// The words for what is no finite number are read as such, in whatever case; other words
/// are no numbers.
pub proof fn law_words_for_numbers(s: Seq<char>)
    requires
        s.len() > 0,
        s[0] != '+' && s[0] != '-',
    ensures
        ascii_lower(s) == "inf"@ || ascii_lower(s) == "infinity"@ ==> read_number(s) == Some(
            NumberV::Infinite { negative: false },
        ),
        ascii_lower(s) == "nan"@ ==> read_number(s) == Some(NumberV::Nan),
        !is_digit(s[0]) && s[0] != '.' && ascii_lower(s) != "inf"@ && ascii_lower(s) != "infinity"@
            && ascii_lower(s) != "nan"@ ==> read_number(s) is None,
{
    reveal_strlit("inf");
    reveal_strlit("infinity");
    reveal_strlit("nan");
    assert("nan"@[0] == 'n' && "inf"@[0] == 'i' && "infinity"@[0] == 'i');
    if !is_digit(s[0]) && s[0] != '.' {
        lemma_skip_is(s, CharSet::Digit, 0, 0);
        assert(s.subrange(0, 0) + Seq::<char>::empty() =~= Seq::<char>::empty());
    }
}

/// A power of ten behind a number moves its point.
pub proof fn law_powers_of_ten(whole: Seq<char>, k: i32)
    requires
        whole.len() > 0 && all_digits(whole),
    ensures
        read_number(whole + seq!['e'] + decimal(k as int)) matches Some(
            NumberV::Finite { negative, digits, exponent },
        ) && !negative && exponent == k && digits_value(digits, digits.len() as int)
            == digits_value(whole, whole.len() as int),
{
    let d = decimal(k as int);
    let s = whole + seq!['e'] + d;
    let n = whole.len() as int;
    reveal_strlit("inf");
    reveal_strlit("infinity");
    reveal_strlit("nan");
    assert(is_digit(whole[0]) && s[0] == whole[0]);
    assert(ascii_lower(s)[0] == s[0]);
    assert forall|j: int| 0 <= j < n implies CharSet::Digit.has(#[trigger] s[j]) by {
        assert(s[j] == whole[j]);
        assert(is_digit(whole[j]));
    }
    assert(s[n] == 'e');
    lemma_skip_is(s, CharSet::Digit, 0, n);
    assert(s.subrange(0, n) + Seq::<char>::empty() =~= whole);
    assert(s.subrange(n + 1, s.len() as int) =~= d);
    law_decimal_is_read(k as int);
    lemma_skip_in(whole, CharSet::One('0'), 0);
    let z = skip_in(whole, CharSet::One('0'), 0);
    assert forall|j: int| 0 <= j < z implies whole[j] == '0' by {
        assert(CharSet::One('0').has(whole[j]));
    }
    lemma_leading_zeros(whole, z, n);
}

/// An integer with a plus sign is the integer; with a minus sign, its negative; anything
/// but digits behind the sign is no integer.
pub proof fn law_signs(d: Seq<char>)
    requires
        d.len() > 0 && all_digits(d),
    ensures
        parse_int(d, true) == Some(digits_value(d, d.len() as int)),
        parse_int(seq!['+'] + d, true) == Some(digits_value(d, d.len() as int)),
        parse_int(seq!['-'] + d, true) == Some(-digits_value(d, d.len() as int)),
        parse_int(seq!['-'] + d, false) is None,
        parse_int(Seq::empty(), true) is None,
        parse_int(seq!['-'], true) is None,
{
    assert(is_digit(d[0]));
    let p = seq!['+'] + d;
    let m = seq!['-'] + d;
    assert(p.subrange(1, p.len() as int) =~= d);
    assert(m.subrange(1, m.len() as int) =~= d);
    assert(!is_digit(m[0]));
    let one = seq!['-'];
    assert(one.subrange(1, 1) =~= Seq::<char>::empty());
}

// ---------------------------------------------------------------------------
// More on fields

/// A number or variable: a name of a variable is reported, as `CW246`, exactly if variables
/// are checked, the project sets some, this one is not known, and it leads to no scope.
pub proof fn law_names_for_variables(
    ctx: CtxV,
    l: Leaf,
    i: IndexV,
    is_int: bool,
    is_32bit: bool,
    range: (Seq<char>, Seq<char>),
    sc: Option<ScopeV>,
    loop_vars: Seq<Seq<char>>,
)
    requires
        ctx.idx == Some(i),
        string_text(l.value) is Some,
        is_variable_name(string_text(l.value)->0),
        read_number(string_text(l.value)->0) is None,
        ascii_lower(string_text(l.value)->0) != "yes"@,
        ascii_lower(string_text(l.value)->0) != "no"@,
    ensures
        ({
            let v = string_text(l.value)->0;
            let e = leaf_problems(
                ctx,
                l,
                FieldV::VariableField { is_int, is_32bit, min: range.0, max: range.1 },
                sc,
                loop_vars,
            );
            let scope = sc matches Some(s) && is_scope_word(s.registry, v);
            let wrong = ctx.var_checks && i.variables != Set::<Seq<char>>::empty() && !is_set(
                ctx,
                i,
                v,
                loop_vars,
            ) && !scope;
            &&& !wrong ==> e.len() == 0
            &&& wrong ==> is_one(e, "CW246"@, ctx.file, l.pos.start)
        }),
{
    reveal_strlit("yes");
    reveal_strlit("no");
    assert(ascii_lower("yes"@) =~= "yes"@);
    assert(ascii_lower("no"@) =~= "no"@);
    lemma_variable_name(string_text(l.value)->0);
}

/// What is filled in when the game runs is taken in place of any value: a text that starts
/// with `@` or `[`, or has `$$` in it.
pub proof fn law_dynamic_values(
    ctx: CtxV,
    l: Leaf,
    t: ValueTypeV,
    rest: Seq<char>,
    before: Seq<char>,
    sc: Option<ScopeV>,
    loop_vars: Seq<Seq<char>>,
)
    requires
        l.value is String,
        t != ValueTypeV::MathExpr,
        unquoted(value_text(l.value)) == seq!['@'] + rest || unquoted(value_text(l.value))
            == seq!['['] + rest || unquoted(value_text(l.value)) == before + "$$"@ + rest,
    ensures
        taken_exactly_if(ctx, l, FieldV::ValueField(t), sc, loop_vars, true),
{
    reveal_strlit("$$");
    let s = before + "$$"@ + rest;
    let n = before.len() as int;
    assert(s.subrange(n, n + 2) =~= "$$"@);
    assert(occurs_at(s, "$$"@, n));
}

/// A reference to a subtype, a value that is filled in when the game runs, and an empty one
/// are not looked up.
pub proof fn law_references_not_looked_up(
    ctx: CtxV,
    l: Leaf,
    type_: Seq<char>,
    sc: Option<ScopeV>,
    loop_vars: Seq<Seq<char>>,
)
    requires
        type_.contains('.') || unquoted(value_text(l.value)).len() == 0 || unquoted(
            value_text(l.value),
        )[0] == '[',
    ensures
        leaf_problems(
            ctx,
            l,
            FieldV::TypeField(TypeTypeV::Simple(type_)),
            sc,
            loop_vars,
        ).len() == 0,
{
}

/// A block is no value: no field for one value takes it.
pub proof fn law_blocks_are_no_values(
    ctx: CtxV,
    l: Leaf,
    t: ValueTypeV,
    sc: Option<ScopeV>,
    loop_vars: Seq<Seq<char>>,
)
    requires
        l.value is Clause,
        t != ValueTypeV::MathExpr,
    ensures
        taken_exactly_if(ctx, l, FieldV::ValueField(t), sc, loop_vars, false),
{
}

/// Codes of a portrait are hexadecimal digits, thirty-two of them, or, for its properties,
/// eight.
pub proof fn law_portrait_codes(
    ctx: CtxV,
    l: Leaf,
    sc: Option<ScopeV>,
    loop_vars: Seq<Seq<char>>,
)
    requires
        string_text(l.value) is Some,
        !is_dynamic_text(unquoted(string_text(l.value)->0)),
    ensures
        ({
            let s = unquoted(string_text(l.value)->0);
            let hex = forall|i: int|
                0 <= i < s.len() ==> "0123456789abcdefABCDEF"@.contains(#[trigger] s[i]);
            &&& taken_exactly_if(
                ctx,
                l,
                FieldV::ValueField(ValueTypeV::Ck2Dna),
                sc,
                loop_vars,
                s.len() == 32 && hex,
            )
            &&& taken_exactly_if(
                ctx,
                l,
                FieldV::ValueField(ValueTypeV::Ck2DnaProperty),
                sc,
                loop_vars,
                (s.len() == 8 || s.len() == 32) && hex,
            )
        }),
{
    let s = unquoted(string_text(l.value)->0);
    reveal_strlit("0123456789abcdefABCDEF");
    let h = "0123456789abcdefABCDEF"@;
    assert forall|c: char| #[trigger] h.contains(c) == is_hex_digit(c) by {
        if is_digit(c) {
            let i = c as int - '0' as int;
            assert(h[i] as int == '0' as int + i);
            assert(h[i] == c);
        } else if 'a' <= c <= 'f' {
            let i = 10 + c as int - 'a' as int;
            assert(h[i] as int == 'a' as int + i - 10);
            assert(h[i] == c);
        } else if 'A' <= c <= 'F' {
            let i = 16 + c as int - 'A' as int;
            assert(h[i] as int == 'A' as int + i - 16);
            assert(h[i] == c);
        }
    }
    if all_hex(s) {
        assert forall|i: int| 0 <= i < s.len() implies h.contains(#[trigger] s[i]) by {
            assert(is_hex_digit(s[i]));
        }
    }
    if forall|i: int| 0 <= i < s.len() ==> h.contains(#[trigger] s[i]) {
        assert forall|i: int| 0 <= i < s.len() implies is_hex_digit(#[trigger] s[i]) by {
            assert(h.contains(s[i]));
        }
    }
}

// ---------------------------------------------------------------------------
// Defaults, extensions, files of assets

/// What follows a `?` or a `^` behind the name of a variable does not count.
pub proof fn law_defaults_of_variables(v: Seq<char>, rest: Seq<char>)
    requires
        is_variable_name(v),
    ensures
        without_default(v + seq!['?'] + rest) == v,
        without_default(v + seq!['^'] + rest) == v,
{
    lemma_variable_name(v);
    lemma_cut(v, '?', rest);
    lemma_cut(v, '^', rest);
}

proof fn lemma_cut(v: Seq<char>, c: char, rest: Seq<char>)
    requires
        is_variable_name(v),
        c == '?' || c == '^',
    ensures
        without_default(v + seq![c] + rest) == v,
{
    let s = v + seq![c] + rest;
    let stop = CharSet::Either('?', '^');
    assert forall|i: int| 0 <= i < v.len() implies !stop.has(#[trigger] s[i]) by {
        assert(s[i] == v[i]);
        assert(is_word_char(v[i]));
    }
    assert(s[v.len() as int] == c);
    lemma_find_is(s, stop, 0, v.len() as int);
    assert(s.subrange(0, v.len() as int) =~= v);
    assert(is_word_char(v[0]) && is_word_char(v.last()));
    lemma_trim_bare(v, CharSet::White);
}

/// A variable that is built in may be listed with something behind an `@`.
pub proof fn law_built_in_with_more(rs: RuleSetV, name: Seq<char>, rest: Seq<char>, k: int)
    requires
        rs.values.contains_key("variable"@),
        0 <= k < rs.values["variable"@].len(),
        is_free_of(name, CharSet::One('@')),
        rs.values["variable"@][k] == name + seq!['@'] + rest,
    ensures
        is_builtin(rs, name),
{
    law_split_first(name, '@', rest);
    let m = rs.values["variable"@];
    assert(eq_ci(before_first(m[k], CharSet::One('@')), name));
}

/// The extension that a field asks for is added where the path lacks it.
pub proof fn law_extensions(v: Seq<char>, e: Seq<char>)
    requires
        e.len() > 0,
    ensures
        with_extension(v + e, Some(e)) == v + e,
        !ends(ascii_lower(v), ascii_lower(e)) ==> with_extension(v, Some(e)) == v + e,
        with_extension(v, None) == v,
        with_extension(v, Some(Seq::empty())) == v,
{
    let a = ascii_lower(v + e);
    assert(a.subrange(a.len() - e.len(), a.len() as int) =~= ascii_lower(e));
}

/// In a file of assets, a path may stand beside the file itself.
pub proof fn law_assets(
    ctx: CtxV,
    l: Leaf,
    i: IndexV,
    v: Seq<char>,
    sc: Option<ScopeV>,
    loop_vars: Seq<Seq<char>>,
)
    requires
        ctx.idx == Some(i),
        string_text(l.value) == Some(v),
        has_bare_ends(v, CharSet::White),
        has_bare_ends(v, CharSet::One('"')),
        ends(ascii_lower(ctx.file), ".asset"@),
        i.files.contains(beside(ctx.file, v)),
    ensures
        leaf_problems(
            ctx,
            l,
            FieldV::FilepathField { prefix: None, extension: None },
            sc,
            loop_vars,
        ).len() == 0,
{
    lemma_trim_bare(v, CharSet::One('"'));
    lemma_trim_bare(v, CharSet::White);
}

/// A field for one word takes a number or a truth value that reads as the word, and a
/// block.
pub proof fn law_word_as_number(
    ctx: CtxV,
    l: Leaf,
    word: Seq<char>,
    n: i64,
    sc: Option<ScopeV>,
    loop_vars: Seq<Seq<char>>,
)
    ensures
        l.value == Value::Int(n) ==> taken_exactly_if(
            ctx,
            l,
            FieldV::SpecificField(word),
            sc,
            loop_vars,
            word == decimal(n as int),
        ),
        l.value == Value::Bool(true) ==> taken_exactly_if(
            ctx,
            l,
            FieldV::SpecificField(word),
            sc,
            loop_vars,
            word == "yes"@,
        ),
        l.value == Value::Bool(false) ==> taken_exactly_if(
            ctx,
            l,
            FieldV::SpecificField(word),
            sc,
            loop_vars,
            word == "no"@,
        ),
{
}

/// What is expected, in the words of a message.
pub proof fn law_expected(min: i32, max: i32, s: Seq<char>)
    ensures
        expectation(FieldV::ValueField(ValueTypeV::Bool)) == "Bool"@,
        expectation(FieldV::ValueField(ValueTypeV::Int { min, max })) == "Int { "@ + ("min: "@
            + decimal(min as int) + ", max: "@ + decimal(max as int) + " }"@),
        expectation(FieldV::SpecificField(s)) == "'"@ + s + "'"@,
        expectation(FieldV::ScalarField) == "any value"@,
        expectation(FieldV::ValueField(ValueTypeV::Enum(s))) == "Enum"@ + "("@ + quoted_text(s)
            + ")"@,
{
}

/// The message on a value that its field does not take names the field, the value and what
/// was expected.
pub proof fn law_message_on_values(ctx: CtxV, l: Leaf, right: FieldV)
    requires
        !takes_value(right, l.value, ctx.rs),
    ensures
        mismatch_problems(ctx, l, right)[0].message == "Field '"@ + l.key@ + "' has value '"@
            + value_text(l.value) + "', expected "@ + expectation(right),
{
    let text = "Field '"@ + l.key@ + "' has value '"@ + value_text(l.value) + "', expected "@
        + expectation(right);
    let none = Seq::<char>::empty();
    reveal_strlit("{0}");
    assert(cw240().template =~= none + "{0}"@ + none);
    law_messages(cw240(), none, none, text);
    assert(none + text + none =~= text);
}

/// A bound prints with a point and a digit on both sides of it.
pub proof fn law_printed_bounds(whole: Seq<char>, fraction: Seq<char>)
    requires
        0 < whole.len() <= 16,
        all_digits(whole) && all_digits(fraction),
        whole[0] != '0',
    ensures
        fraction.len() == 0 && whole.last() != '0' ==> bound_text(whole) == whole + ".0"@,
        fraction.len() > 0 && fraction.last() != '0' ==> bound_text(written(false, whole, fraction))
            == whole + "."@ + fraction,
{
    reveal_strlit(".0");
    reveal_strlit(".");
    reveal_strlit("");
    let s = written(false, whole, fraction);
    let all = whole + fraction;
    lemma_written(false, whole, fraction);
    lemma_skip_is(all, CharSet::One('0'), 0, 0);
    assert(trim_start_of(all, CharSet::One('0')) =~= all);
    let none = Seq::<char>::empty();
    if fraction.len() == 0 {
        assert(s =~= whole);
        assert(all =~= whole);
        if whole.last() != '0' {
            lemma_trim_bare(whole, CharSet::One('0'));
            assert(""@ + (whole + zeros(0) + ".0"@) =~= whole + ".0"@);
        }
    } else if fraction.last() != '0' {
        assert(all.last() == fraction.last());
        lemma_trim_bare(all, CharSet::One('0'));
        let n = whole.len() as int;
        assert(all.subrange(0, n) =~= whole);
        assert(all.subrange(n, all.len() as int) =~= fraction);
        assert(""@ + (whole + "."@ + fraction) =~= whole + "."@ + fraction);
    }
}

/// Where a field adds text around names, a value refers to an instance whose name is the
/// value without that text, the value itself, or the value with that text around it; and
/// is reported where there is none.
pub proof fn law_names_with_text_around(
    ctx: CtxV,
    l: Leaf,
    i: IndexV,
    prefix: Seq<char>,
    type_: Seq<char>,
    suffix: Seq<char>,
    sc: Option<ScopeV>,
    loop_vars: Seq<Seq<char>>,
)
    requires
        ctx.idx == Some(i),
        i.complete,
        !type_.contains('.'),
        type_ != "event"@,
        unquoted(value_text(l.value)).len() > 0,
        unquoted(value_text(l.value))[0] != '[',
        exists|k: int| 0 <= k < i.entries.len() && (#[trigger] i.entries[k]).0 == type_,
    ensures
        ({
            let v = unquoted(value_text(l.value));
            let e = leaf_problems(
                ctx,
                l,
                FieldV::TypeField(TypeTypeV::Complex { prefix, name: type_, suffix }),
                sc,
                loop_vars,
            );
            let known = is_instance(i, type_, without_affixes(v, prefix, suffix)) || is_instance(
                i,
                type_,
                v,
            ) || is_instance(i, type_, prefix + v + suffix);
            &&& known ==> e.len() == 0
            &&& !known ==> is_one(e, "CW500"@, ctx.file, l.pos.start)
        }),
{
    let v = unquoted(value_text(l.value));
    lemma_is_instance(i, type_, without_affixes(v, prefix, suffix));
    lemma_is_instance(i, type_, v);
    lemma_is_instance(i, type_, prefix + v + suffix);
}

/// The text that a field adds is taken off where it stands, at each end by itself.
pub proof fn law_text_is_taken_off(prefix: Seq<char>, name: Seq<char>, suffix: Seq<char>)
    ensures
        without_affixes(prefix + name + suffix, prefix, suffix) == name,
        !starts(name, prefix) && !ends(name, suffix) ==> without_affixes(name, prefix, suffix)
            == name,
{
    let v = prefix + name + suffix;
    assert(v.subrange(0, prefix.len() as int) =~= prefix);
    let a = v.subrange(prefix.len() as int, v.len() as int);
    assert(a =~= name + suffix);
    assert(a.subrange(a.len() - suffix.len(), a.len() as int) =~= suffix);
    assert(a.subrange(0, a.len() - suffix.len()) =~= name);
}

/// Every finite number lies between the two infinite ones, and nothing is comparable with
/// what is no number.
pub proof fn law_infinite_numbers(n: NumberV)
    ensures
        n is Finite ==> number_le(NumberV::Infinite { negative: true }, n) && number_le(
            n,
            NumberV::Infinite { negative: false },
        ) && !number_le(n, NumberV::Infinite { negative: true }) && !number_le(
            NumberV::Infinite { negative: false },
            n,
        ),
        !number_le(NumberV::Nan, n) && !number_le(n, NumberV::Nan),
        number_le(
            NumberV::Infinite { negative: true },
            NumberV::Infinite { negative: false },
        ),
        !number_le(
            NumberV::Infinite { negative: false },
            NumberV::Infinite { negative: true },
        ),
{
}

/// A text without a bound that is a number is in no range.
pub proof fn law_ranges_need_numbers(s: Seq<char>, min: Seq<char>, max: Seq<char>)
    ensures
        read_number(s) is None || read_number(min) is None || read_number(max) is None
            ==> !text_within(s, min, max),
{
}

} // verus!
