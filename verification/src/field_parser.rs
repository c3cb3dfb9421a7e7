//! Reading field types: the words and bracketed forms that stand on either side
//! of a rule.

use vstd::prelude::*;
use vstd::string::*;

use crate::number::{read, read_number};
use crate::rules_types::{
    FieldV, Marker, NewField, TypeType, TypeTypeV, ValueType, ValueTypeV, opt_view,
};
use crate::text::{
    CharSet, bracket_inner, contains_char, decimal, ends_char, ends_with_char, find_in, find_set,
    in_brackets, opt_text, parse_i32, parse_int_within, print_i64, same, split_once,
    split_once_spec, split_once_text, split_once_text_spec, starts_char, starts_with_char,
    string_of, texts, to_chars, trim, trim_matches, trim_of, trimmed,
};

verus! {

/// The largest and smallest number where no range is given.
pub const FLOAT_MAX: &'static str = "1000000000000";

pub const FLOAT_MIN: &'static str = "-1000000000000";

pub const INT_MAX: i32 = 2_147_483_647;

pub const INT_MIN: i32 = -2_147_483_648;

// ---------------------------------------------------------------------------
// Ranges

/// A bound of an integer range; `inf` and `-inf` stand for the ends of `i32`.
pub open spec fn int_bound(s: Seq<char>) -> Option<int> {
    if s == "inf"@ {
        Some(INT_MAX as int)
    } else if s == "-inf"@ {
        Some(INT_MIN as int)
    } else {
        parse_int_within(s, true, i32::MIN as int, i32::MAX as int)
    }
}

/// A bound of an integer range.
pub fn parse_int_sentinel(s: &str) -> (r: Option<i32>)
    ensures
        match r {
            Some(v) => int_bound(s@) == Some(v as int),
            None => int_bound(s@) is None,
        },
{
    if same(s, "inf") {
        Some(INT_MAX)
    } else if same(s, "-inf") {
        Some(INT_MIN)
    } else {
        parse_i32(s)
    }
}

/// A bound of a range of numbers, as it is written; `inf` and `-inf` stand for
/// the largest and smallest number.
pub open spec fn float_bound(s: Seq<char>) -> Option<Seq<char>> {
    if s == "inf"@ {
        Some(FLOAT_MAX@)
    } else if s == "-inf"@ {
        Some(FLOAT_MIN@)
    } else if read_number(s) is Some {
        Some(s)
    } else {
        None
    }
}

/// A bound of a range of numbers.
pub fn parse_float_sentinel(s: &str) -> (r: Option<String>)
    ensures
        opt_text(r) == float_bound(s@),
{
    if same(s, "inf") {
        Some(FLOAT_MAX.to_owned())
    } else if same(s, "-inf") {
        Some(FLOAT_MIN.to_owned())
    } else {
        match read(s) {
            Some(_) => Some(s.to_owned()),
            None => None,
        }
    }
}

/// The texts on both sides of `..`, without white space around them.
pub open spec fn range_ends(inner: Seq<char>) -> Option<(Seq<char>, Seq<char>)> {
    match split_once_text_spec(inner, ".."@) {
        Some((a, b)) => Some((trimmed(a), trimmed(b))),
        None => None,
    }
}

/// The range of numbers that `inner` gives; a default for each bound that it
/// does not give.
pub open spec fn float_range(inner: Seq<char>) -> (Seq<char>, Seq<char>) {
    match range_ends(inner) {
        Some((a, b)) => (
            match float_bound(a) {
                Some(x) => x,
                None => FLOAT_MIN@,
            },
            match float_bound(b) {
                Some(x) => x,
                None => FLOAT_MAX@,
            },
        ),
        None => (FLOAT_MIN@, FLOAT_MAX@),
    }
}

/// The range of numbers that `inner` gives.
pub fn parse_float_range(inner: &str) -> (r: (String, String))
    ensures
        (r.0@, r.1@) == float_range(inner@),
{
    match split_once_text(inner, "..") {
        Some((a, b)) => {
            let lo = match parse_float_sentinel(trim(a)) {
                Some(x) => x,
                None => FLOAT_MIN.to_owned(),
            };
            let hi = match parse_float_sentinel(trim(b)) {
                Some(x) => x,
                None => FLOAT_MAX.to_owned(),
            };
            (lo, hi)
        },
        None => (FLOAT_MIN.to_owned(), FLOAT_MAX.to_owned()),
    }
}

/// An integer bound written as a number, or a default.
pub open spec fn int_bound_text(s: Seq<char>, default: int) -> Seq<char> {
    match int_bound(s) {
        Some(v) => decimal(v),
        None => decimal(default),
    }
}

/// The range of integers that `inner` gives, each bound written as a number.
pub open spec fn int_range_text(inner: Seq<char>) -> (Seq<char>, Seq<char>) {
    match range_ends(inner) {
        Some((a, b)) => (int_bound_text(a, INT_MIN as int), int_bound_text(b, INT_MAX as int)),
        None => (decimal(INT_MIN as int), decimal(INT_MAX as int)),
    }
}

fn int_bound_or(s: &str, default: i32) -> (r: String)
    ensures
        r@ == int_bound_text(s@, default as int),
{
    match parse_int_sentinel(s) {
        Some(v) => print_i64(v as i64),
        None => print_i64(default as i64),
    }
}

/// The range of integers that `inner` gives, each bound written as a number.
pub fn parse_int_range_as_float(inner: &str) -> (r: (String, String))
    ensures
        (r.0@, r.1@) == int_range_text(inner@),
{
    match split_once_text(inner, "..") {
        Some((a, b)) => (int_bound_or(trim(a), INT_MIN), int_bound_or(trim(b), INT_MAX)),
        None => (print_i64(INT_MIN as i64), print_i64(INT_MAX as i64)),
    }
}

// ---------------------------------------------------------------------------
// Words

pub open spec fn any_float() -> FieldV {
    FieldV::ValueField(ValueTypeV::Float { min: FLOAT_MIN@, max: FLOAT_MAX@ })
}

pub open spec fn any_int() -> FieldV {
    FieldV::ValueField(ValueTypeV::Int { min: INT_MIN, max: INT_MAX })
}

pub open spec fn variable_field(is_int: bool, is_32bit: bool, range: (Seq<char>, Seq<char>)) -> FieldV {
    FieldV::VariableField { is_int, is_32bit, min: range.0, max: range.1 }
}

pub open spec fn value_marker(is_int: bool, range: (Seq<char>, Seq<char>)) -> FieldV {
    FieldV::ValueScopeMarkerField { is_int, min: range.0, max: range.1 }
}

pub open spec fn full_float_range() -> (Seq<char>, Seq<char>) {
    (FLOAT_MIN@, FLOAT_MAX@)
}

pub open spec fn full_int_range() -> (Seq<char>, Seq<char>) {
    (decimal(INT_MIN as int), decimal(INT_MAX as int))
}

/// The field types that are single words.
pub open spec fn word_field(t: Seq<char>) -> Option<FieldV> {
    if t == "scalar"@ {
        Some(FieldV::ScalarField)
    } else if t == "bool"@ {
        Some(FieldV::ValueField(ValueTypeV::Bool))
    } else if t == "int"@ {
        Some(any_int())
    } else if t == "float"@ {
        Some(any_float())
    } else if t == "percentage_field"@ || t == "percent_field"@ {
        Some(FieldV::ValueField(ValueTypeV::Percent))
    } else if t == "math_expr"@ {
        Some(FieldV::ValueField(ValueTypeV::MathExpr))
    } else if t == "localisation"@ {
        Some(FieldV::LocalisationField { synced: false, is_inline: false })
    } else if t == "localisation_synced"@ {
        Some(FieldV::LocalisationField { synced: true, is_inline: false })
    } else if t == "localisation_inline"@ {
        Some(FieldV::LocalisationField { synced: false, is_inline: true })
    } else if t == "filepath"@ {
        Some(FieldV::FilepathField { prefix: None, extension: None })
    } else if t == "date_field"@ {
        Some(FieldV::ValueField(ValueTypeV::Date))
    } else if t == "datetime_field"@ {
        Some(FieldV::ValueField(ValueTypeV::DateTime))
    } else if t == "scope_field"@ {
        Some(FieldV::ScopeField(seq!["any"@]))
    } else if t == "variable_field"@ {
        Some(variable_field(false, false, full_float_range()))
    } else if t == "int_variable_field"@ {
        Some(variable_field(true, false, full_int_range()))
    } else if t == "variable_field_32"@ {
        Some(variable_field(false, true, full_float_range()))
    } else if t == "int_variable_field_32"@ {
        Some(variable_field(true, true, full_int_range()))
    } else if t == "value_field"@ {
        Some(value_marker(false, full_float_range()))
    } else if t == "int_value_field"@ {
        Some(value_marker(true, full_int_range()))
    } else if t == "portrait_dna_field"@ || t == "ck2_dna_field"@ {
        Some(FieldV::ValueField(ValueTypeV::Ck2Dna))
    } else if t == "portrait_properties_field"@ || t == "ck2_dna_property_field"@ {
        Some(FieldV::ValueField(ValueTypeV::Ck2DnaProperty))
    } else if t == "ir_family_name_field"@ {
        Some(FieldV::ValueField(ValueTypeV::IrFamilyName))
    } else if t == "ir_country_tag_field"@ {
        Some(FieldV::MarkerField(Marker::IrCountryTag))
    } else if t == "colour_field"@ || t == "color_field"@ {
        Some(FieldV::MarkerField(Marker::ColourField))
    } else if t == "ignore_field"@ {
        Some(FieldV::IgnoreMarkerField)
    } else if t == "stellaris_name_format"@ {
        Some(FieldV::ValueField(ValueTypeV::StlNameFormat(Seq::empty())))
    } else {
        None
    }
}

fn one_scope(s: &str) -> (r: NewField)
    ensures
        r@ == FieldV::ScopeField(seq![s@]),
{
    let mut v: Vec<String> = Vec::new();
    v.push(s.to_owned());
    assert(texts(v@) =~= seq![s@]);
    NewField::ScopeField(v)
}

fn variable_of(is_int: bool, is_32bit: bool, range: (String, String)) -> (r: NewField)
    ensures
        r@ == variable_field(is_int, is_32bit, (range.0@, range.1@)),
{
    NewField::VariableField { is_int, is_32bit, min: range.0, max: range.1 }
}

fn value_marker_of(is_int: bool, range: (String, String)) -> (r: NewField)
    ensures
        r@ == value_marker(is_int, (range.0@, range.1@)),
{
    NewField::ValueScopeMarkerField { is_int, min: range.0, max: range.1 }
}

fn full_floats() -> (r: (String, String))
    ensures
        (r.0@, r.1@) == full_float_range(),
{
    (FLOAT_MIN.to_owned(), FLOAT_MAX.to_owned())
}

fn full_ints() -> (r: (String, String))
    ensures
        (r.0@, r.1@) == full_int_range(),
{
    (print_i64(INT_MIN as i64), print_i64(INT_MAX as i64))
}

fn field_of_word(t: &str) -> (r: Option<NewField>)
    ensures
        opt_view(r) == word_field(t@),
{
    if same(t, "scalar") {
        Some(NewField::ScalarField)
    } else if same(t, "bool") {
        Some(NewField::ValueField(ValueType::Bool))
    } else if same(t, "int") {
        Some(NewField::ValueField(ValueType::Int { min: INT_MIN, max: INT_MAX }))
    } else if same(t, "float") {
        let r = full_floats();
        Some(NewField::ValueField(ValueType::Float { min: r.0, max: r.1 }))
    } else if same(t, "percentage_field") || same(t, "percent_field") {
        Some(NewField::ValueField(ValueType::Percent))
    } else if same(t, "math_expr") {
        Some(NewField::ValueField(ValueType::MathExpr))
    } else if same(t, "localisation") {
        Some(NewField::LocalisationField { synced: false, is_inline: false })
    } else if same(t, "localisation_synced") {
        Some(NewField::LocalisationField { synced: true, is_inline: false })
    } else if same(t, "localisation_inline") {
        Some(NewField::LocalisationField { synced: false, is_inline: true })
    } else if same(t, "filepath") {
        Some(NewField::FilepathField { prefix: None, extension: None })
    } else if same(t, "date_field") {
        Some(NewField::ValueField(ValueType::Date))
    } else if same(t, "datetime_field") {
        Some(NewField::ValueField(ValueType::DateTime))
    } else if same(t, "scope_field") {
        Some(one_scope("any"))
    } else if same(t, "variable_field") {
        Some(variable_of(false, false, full_floats()))
    } else if same(t, "int_variable_field") {
        Some(variable_of(true, false, full_ints()))
    } else if same(t, "variable_field_32") {
        Some(variable_of(false, true, full_floats()))
    } else if same(t, "int_variable_field_32") {
        Some(variable_of(true, true, full_ints()))
    } else if same(t, "value_field") {
        Some(value_marker_of(false, full_floats()))
    } else if same(t, "int_value_field") {
        Some(value_marker_of(true, full_ints()))
    } else if same(t, "portrait_dna_field") || same(t, "ck2_dna_field") {
        Some(NewField::ValueField(ValueType::Ck2Dna))
    } else if same(t, "portrait_properties_field") || same(t, "ck2_dna_property_field") {
        Some(NewField::ValueField(ValueType::Ck2DnaProperty))
    } else if same(t, "ir_family_name_field") {
        Some(NewField::ValueField(ValueType::IrFamilyName))
    } else if same(t, "ir_country_tag_field") {
        Some(NewField::MarkerField(Marker::IrCountryTag))
    } else if same(t, "colour_field") || same(t, "color_field") {
        Some(NewField::MarkerField(Marker::ColourField))
    } else if same(t, "ignore_field") {
        Some(NewField::IgnoreMarkerField)
    } else if same(t, "stellaris_name_format") {
        Some(NewField::ValueField(ValueType::StlNameFormat(String::new())))
    } else {
        None
    }
}

// ---------------------------------------------------------------------------
// Bracketed forms

/// `filepath[folder]` or `filepath[folder,extension]`.
pub open spec fn filepath_field(inner: Seq<char>) -> FieldV {
    match split_once_spec(inner, ',') {
        Some((folder, ext)) => FieldV::FilepathField { prefix: Some(folder), extension: Some(ext) },
        None => FieldV::FilepathField { prefix: Some(inner), extension: None },
    }
}

/// `int[min..max]`; any integer where a bound cannot be read.
pub open spec fn ranged_int(inner: Seq<char>) -> FieldV {
    match range_ends(inner) {
        Some((a, b)) => match (int_bound(a), int_bound(b)) {
            (Some(lo), Some(hi)) => FieldV::ValueField(
                ValueTypeV::Int { min: lo as i32, max: hi as i32 },
            ),
            _ => any_int(),
        },
        None => any_int(),
    }
}

/// `float[min..max]`; any number where a bound cannot be read.
pub open spec fn ranged_float(inner: Seq<char>) -> FieldV {
    match range_ends(inner) {
        Some((a, b)) => match (float_bound(a), float_bound(b)) {
            (Some(lo), Some(hi)) => FieldV::ValueField(ValueTypeV::Float { min: lo, max: hi }),
            _ => any_float(),
        },
        None => any_float(),
    }
}

/// The field types that are a word with a text in brackets.
pub open spec fn bracket_field(t: Seq<char>) -> Option<FieldV> {
    if let Some(x) = bracket_inner(t, "filepath["@) {
        Some(filepath_field(x))
    } else if let Some(x) = bracket_inner(t, "int["@) {
        Some(ranged_int(x))
    } else if let Some(x) = bracket_inner(t, "float["@) {
        Some(ranged_float(x))
    } else if let Some(x) = bracket_inner(t, "enum["@) {
        Some(FieldV::ValueField(ValueTypeV::Enum(x)))
    } else if let Some(x) = bracket_inner(t, "complex_enum["@) {
        Some(FieldV::ValueField(ValueTypeV::Enum(x)))
    } else if let Some(x) = bracket_inner(t, "value["@) {
        Some(FieldV::VariableGetField(x))
    } else if let Some(x) = bracket_inner(t, "value_set["@) {
        Some(FieldV::VariableSetField(x))
    } else if let Some(x) = bracket_inner(t, "scope["@) {
        Some(FieldV::ScopeField(seq![x]))
    } else if let Some(x) = bracket_inner(t, "event_target["@) {
        Some(FieldV::ScopeField(seq![x]))
    } else if let Some(x) = bracket_inner(t, "scope_group["@) {
        Some(FieldV::ScopeField(seq!["any"@]))
    } else if let Some(x) = bracket_inner(t, "alias_keys_field["@) {
        Some(FieldV::AliasValueKeysField(x))
    } else if let Some(x) = bracket_inner(t, "alias_name["@) {
        Some(FieldV::AliasField(x))
    } else if let Some(x) = bracket_inner(t, "alias_match_left["@) {
        Some(FieldV::AliasField(x))
    } else if let Some(x) = bracket_inner(t, "single_alias_right["@) {
        Some(FieldV::SingleAliasField(x))
    } else if let Some(x) = bracket_inner(t, "icon["@) {
        Some(FieldV::IconField(x))
    } else if let Some(x) = bracket_inner(t, "variable_field["@) {
        Some(variable_field(false, false, float_range(x)))
    } else if let Some(x) = bracket_inner(t, "int_variable_field["@) {
        Some(variable_field(true, false, int_range_text(x)))
    } else if let Some(x) = bracket_inner(t, "variable_field_32["@) {
        Some(variable_field(false, true, float_range(x)))
    } else if let Some(x) = bracket_inner(t, "int_variable_field_32["@) {
        Some(variable_field(true, true, int_range_text(x)))
    } else if let Some(x) = bracket_inner(t, "value_field["@) {
        Some(value_marker(false, float_range(x)))
    } else if let Some(x) = bracket_inner(t, "int_value_field["@) {
        Some(value_marker(true, int_range_text(x)))
    } else if let Some(x) = bracket_inner(t, "stellaris_name_format["@) {
        Some(FieldV::ValueField(ValueTypeV::StlNameFormat(x)))
    } else if let Some(x) = bracket_inner(t, "colour["@) {
        Some(FieldV::MarkerField(Marker::ColourField))
    } else {
        None
    }
}

fn field_of_filepath(inner: &str) -> (r: NewField)
    ensures
        r@ == filepath_field(inner@),
{
    match split_once(inner, ',') {
        Some((folder, ext)) => NewField::FilepathField {
            prefix: Some(folder.to_owned()),
            extension: Some(ext.to_owned()),
        },
        None => NewField::FilepathField { prefix: Some(inner.to_owned()), extension: None },
    }
}

fn field_of_int_range(inner: &str) -> (r: NewField)
    ensures
        r@ == ranged_int(inner@),
{
    match split_once_text(inner, "..") {
        Some((a, b)) => {
            if let (Some(lo), Some(hi)) = (
                parse_int_sentinel(trim(a)),
                parse_int_sentinel(trim(b)),
            ) {
                return NewField::ValueField(ValueType::Int { min: lo, max: hi });
            }
        },
        None => {},
    }
    NewField::ValueField(ValueType::Int { min: INT_MIN, max: INT_MAX })
}

fn field_of_float_range(inner: &str) -> (r: NewField)
    ensures
        r@ == ranged_float(inner@),
{
    match split_once_text(inner, "..") {
        Some((a, b)) => {
            if let (Some(lo), Some(hi)) = (
                parse_float_sentinel(trim(a)),
                parse_float_sentinel(trim(b)),
            ) {
                return NewField::ValueField(ValueType::Float { min: lo, max: hi });
            }
        },
        None => {},
    }
    let r = full_floats();
    NewField::ValueField(ValueType::Float { min: r.0, max: r.1 })
}

fn field_of_brackets(t: &str) -> (r: Option<NewField>)
    ensures
        opt_view(r) == bracket_field(t@),
{
    if let Some(x) = in_brackets(t, "filepath[") {
        Some(field_of_filepath(x))
    } else if let Some(x) = in_brackets(t, "int[") {
        Some(field_of_int_range(x))
    } else if let Some(x) = in_brackets(t, "float[") {
        Some(field_of_float_range(x))
    } else if let Some(x) = in_brackets(t, "enum[") {
        Some(NewField::ValueField(ValueType::Enum(x.to_owned())))
    } else if let Some(x) = in_brackets(t, "complex_enum[") {
        Some(NewField::ValueField(ValueType::Enum(x.to_owned())))
    } else if let Some(x) = in_brackets(t, "value[") {
        Some(NewField::VariableGetField(x.to_owned()))
    } else if let Some(x) = in_brackets(t, "value_set[") {
        Some(NewField::VariableSetField(x.to_owned()))
    } else if let Some(x) = in_brackets(t, "scope[") {
        Some(one_scope(x))
    } else if let Some(x) = in_brackets(t, "event_target[") {
        Some(one_scope(x))
    } else if let Some(_x) = in_brackets(t, "scope_group[") {
        Some(one_scope("any"))
    } else if let Some(x) = in_brackets(t, "alias_keys_field[") {
        Some(NewField::AliasValueKeysField(x.to_owned()))
    } else if let Some(x) = in_brackets(t, "alias_name[") {
        Some(NewField::AliasField(x.to_owned()))
    } else if let Some(x) = in_brackets(t, "alias_match_left[") {
        Some(NewField::AliasField(x.to_owned()))
    } else if let Some(x) = in_brackets(t, "single_alias_right[") {
        Some(NewField::SingleAliasField(x.to_owned()))
    } else if let Some(x) = in_brackets(t, "icon[") {
        Some(NewField::IconField(x.to_owned()))
    } else if let Some(x) = in_brackets(t, "variable_field[") {
        Some(variable_of(false, false, parse_float_range(x)))
    } else if let Some(x) = in_brackets(t, "int_variable_field[") {
        Some(variable_of(true, false, parse_int_range_as_float(x)))
    } else if let Some(x) = in_brackets(t, "variable_field_32[") {
        Some(variable_of(false, true, parse_float_range(x)))
    } else if let Some(x) = in_brackets(t, "int_variable_field_32[") {
        Some(variable_of(true, true, parse_int_range_as_float(x)))
    } else if let Some(x) = in_brackets(t, "value_field[") {
        Some(value_marker_of(false, parse_float_range(x)))
    } else if let Some(x) = in_brackets(t, "int_value_field[") {
        Some(value_marker_of(true, parse_int_range_as_float(x)))
    } else if let Some(x) = in_brackets(t, "stellaris_name_format[") {
        Some(NewField::ValueField(ValueType::StlNameFormat(x.to_owned())))
    } else if let Some(_x) = in_brackets(t, "colour[") {
        Some(NewField::MarkerField(Marker::ColourField))
    } else {
        None
    }
}

// ---------------------------------------------------------------------------
// Type references

/// `<type>`, or `prefix<type>suffix`.
pub open spec fn type_field(t: Seq<char>) -> Option<FieldV> {
    if starts_char(t, '<') && ends_char(t, '>') && !t.contains(' ') {
        Some(FieldV::TypeField(TypeTypeV::Simple(t.subrange(1, t.len() - 1))))
    } else {
        let open = find_in(t, CharSet::One('<'), 0);
        let close = find_in(t, CharSet::One('>'), 0);
        if open < close < t.len() {
            Some(
                FieldV::TypeField(
                    TypeTypeV::Complex {
                        prefix: t.subrange(0, open),
                        name: t.subrange(open + 1, close),
                        suffix: t.subrange(close + 1, t.len() as int),
                    },
                ),
            )
        } else {
            None
        }
    }
}

fn field_of_type(t: &str) -> (r: Option<NewField>)
    ensures
        opt_view(r) == type_field(t@),
{
    let n: usize = t.unicode_len();
    if starts_with_char(t, '<') && ends_with_char(t, '>') && !contains_char(t, ' ') {
        return Some(NewField::TypeField(TypeType::Simple(t.substring_char(1, n - 1).to_owned())));
    }
    let cs = to_chars(t);
    let open: usize = find_set(&cs, CharSet::One('<'), 0);
    let close: usize = find_set(&cs, CharSet::One('>'), 0);
    if open < close && close < cs.len() {
        Some(
            NewField::TypeField(
                TypeType::Complex {
                    prefix: string_of(&cs, 0, open),
                    name: string_of(&cs, open + 1, close),
                    suffix: string_of(&cs, close + 1, n),
                },
            ),
        )
    } else {
        None
    }
}

/// The field that a text stands for: a word, a bracketed form, a type reference,
/// or else that text itself. White space and then quotes around it do not count.
pub open spec fn field_of(s: Seq<char>) -> FieldV {
    let t = trim_of(trimmed(s), CharSet::One('"'));
    match word_field(t) {
        Some(f) => f,
        None => match bracket_field(t) {
            Some(f) => f,
            None => match type_field(t) {
                Some(f) => f,
                None => FieldV::SpecificField(t),
            },
        },
    }
}

/// The field that a text stands for.
pub fn field_from_string(s: &str) -> (r: NewField)
    ensures
        r@ == field_of(s@),
{
    let t = trim_matches(trim(s), CharSet::One('"'));
    match field_of_word(t) {
        Some(f) => f,
        None => match field_of_brackets(t) {
            Some(f) => f,
            None => match field_of_type(t) {
                Some(f) => f,
                None => NewField::SpecificField(t.to_owned()),
            },
        },
    }
}

} // verus!
