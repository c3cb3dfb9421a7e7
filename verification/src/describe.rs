//! Fields in words, for messages.

use vstd::prelude::*;

use crate::number::{read, read_number, write_number, written_number};
use crate::rules_types::{FieldV, Marker, NewField, TypeType, TypeTypeV, ValueType, ValueTypeV};
use crate::text::{decimal, opt_text, print_i64, texts};

verus! {

/// A text in quotes, with escapes for what cannot be printed as it is.
pub uninterp spec fn quoted_text(s: Seq<char>) -> Seq<char>;

/// `format!` with `{:?}` on a `str`: the text in quotes, with escapes, a function of
/// its characters alone.
#[verifier::external_body]
fn quote(s: &str) -> (r: String)
    ensures
        r@ == quoted_text(s@),
{
    format!("{:?}", s)
}

pub open spec fn bool_text(b: bool) -> Seq<char> {
    if b {
        "true"@
    } else {
        "false"@
    }
}

fn print_bool(b: bool) -> (r: &'static str)
    ensures
        r@ == bool_text(b),
{
    if b {
        "true"
    } else {
        "false"
    }
}

/// A text that may be missing.
pub open spec fn option_text(o: Option<Seq<char>>) -> Seq<char> {
    match o {
        Some(s) => wrapped_text("Some"@, quoted_text(s)),
        None => "None"@,
    }
}

fn print_option(o: &Option<String>) -> (r: String)
    ensures
        r@ == option_text(opt_text(*o)),
{
    match o {
        Some(s) => wrapped("Some", quote(s.as_str()).as_str()),
        None => "None".to_owned(),
    }
}

/// The texts in quotes, the first `n` of them, with commas between them.
pub open spec fn quoted_list(v: Seq<Seq<char>>, n: int) -> Seq<char>
    decreases n,
{
    if n <= 0 || n > v.len() {
        Seq::empty()
    } else if n == 1 {
        quoted_text(v[0])
    } else {
        quoted_list(v, n - 1) + ", "@ + quoted_text(v[n - 1])
    }
}

/// A list of texts in brackets.
pub open spec fn list_text(v: Seq<Seq<char>>) -> Seq<char> {
    "["@ + quoted_list(v, v.len() as int) + "]"@
}

fn print_list(v: &Vec<String>) -> (r: String)
    ensures
        r@ == list_text(texts(v@)),
{
    let ghost all = texts(v@);
    let mut inner = String::new();
    let mut i: usize = 0;
    while i < v.len()
        invariant
            i <= v@.len(),
            all == texts(v@),
            inner@ == quoted_list(all, i as int),
        decreases v@.len() - i,
    {
        assert(all[i as int] == v@[i as int]@);
        let q = quote(v[i].as_str());
        if i > 0 {
            inner.append(", ");
            inner.append(q.as_str());
        } else {
            inner = q;
        }
        i += 1;
    }
    let mut out = "[".to_owned();
    out.append(inner.as_str());
    out.append("]");
    out
}

/// `name(inner)`.
pub open spec fn wrapped_text(name: Seq<char>, inner: Seq<char>) -> Seq<char> {
    name + "("@ + inner + ")"@
}

fn wrapped(name: &str, inner: &str) -> (r: String)
    ensures
        r@ == wrapped_text(name@, inner@),
{
    let mut out = name.to_owned();
    out.append("(");
    out.append(inner);
    out.append(")");
    out
}

/// A bound of a range of numbers: `-0.5`, `1000.0`.
pub open spec fn bound_text(s: Seq<char>) -> Seq<char> {
    match read_number(s) {
        Some(n) => written_number(n),
        None => s,
    }
}

fn print_bound(s: &str) -> (r: String)
    ensures
        r@ == bound_text(s@),
{
    match read(s) {
        Some(n) => write_number(&n),
        None => s.to_owned(),
    }
}

/// `min: a, max: b }`.
pub open spec fn range_text(min: Seq<char>, max: Seq<char>) -> Seq<char> {
    "min: "@ + min + ", max: "@ + max + " }"@
}

/// `min: a, max: b }`, with numbers.
pub open spec fn number_range_text(min: Seq<char>, max: Seq<char>) -> Seq<char> {
    range_text(bound_text(min), bound_text(max))
}

fn print_number_range(min: &str, max: &str) -> (r: String)
    ensures
        r@ == number_range_text(min@, max@),
{
    print_range(print_bound(min).as_str(), print_bound(max).as_str())
}

fn print_range(min: &str, max: &str) -> (r: String)
    ensures
        r@ == range_text(min@, max@),
{
    let mut out = "min: ".to_owned();
    out.append(min);
    out.append(", max: ");
    out.append(max);
    out.append(" }");
    out
}

/// A kind of value in words.
pub open spec fn value_type_text(t: ValueTypeV) -> Seq<char> {
    match t {
        ValueTypeV::Enum(s) => wrapped_text("Enum"@, quoted_text(s)),
        ValueTypeV::Float { min, max } => "Float { "@ + number_range_text(min, max),
        ValueTypeV::Bool => "Bool"@,
        ValueTypeV::Int { min, max } => "Int { "@ + range_text(
            decimal(min as int),
            decimal(max as int),
        ),
        ValueTypeV::Percent => "Percent"@,
        ValueTypeV::Date => "Date"@,
        ValueTypeV::DateTime => "DateTime"@,
        ValueTypeV::Ck2Dna => "Ck2Dna"@,
        ValueTypeV::Ck2DnaProperty => "Ck2DnaProperty"@,
        ValueTypeV::IrFamilyName => "IrFamilyName"@,
        ValueTypeV::StlNameFormat(s) => wrapped_text("StlNameFormat"@, quoted_text(s)),
        ValueTypeV::MathExpr => "MathExpr"@,
    }
}

/// A kind of value in words.
pub fn describe_value_type(t: &ValueType) -> (r: String)
    ensures
        r@ == value_type_text(t@),
{
    match t {
        ValueType::Enum(s) => wrapped("Enum", quote(s.as_str()).as_str()),
        ValueType::Float { min, max } => {
            let mut out = "Float { ".to_owned();
            out.append(print_number_range(min.as_str(), max.as_str()).as_str());
            out
        },
        ValueType::Bool => "Bool".to_owned(),
        ValueType::Int { min, max } => {
            let mut out = "Int { ".to_owned();
            let a = print_i64(*min as i64);
            let b = print_i64(*max as i64);
            out.append(print_range(a.as_str(), b.as_str()).as_str());
            out
        },
        ValueType::Percent => "Percent".to_owned(),
        ValueType::Date => "Date".to_owned(),
        ValueType::DateTime => "DateTime".to_owned(),
        ValueType::Ck2Dna => "Ck2Dna".to_owned(),
        ValueType::Ck2DnaProperty => "Ck2DnaProperty".to_owned(),
        ValueType::IrFamilyName => "IrFamilyName".to_owned(),
        ValueType::StlNameFormat(s) => wrapped("StlNameFormat", quote(s.as_str()).as_str()),
        ValueType::MathExpr => "MathExpr".to_owned(),
    }
}

/// A reference to a type in words.
pub open spec fn type_type_text(t: TypeTypeV) -> Seq<char> {
    match t {
        TypeTypeV::Simple(s) => wrapped_text("Simple"@, quoted_text(s)),
        TypeTypeV::Complex { prefix, name, suffix } => "Complex { prefix: "@ + quoted_text(prefix)
            + ", name: "@ + quoted_text(name) + ", suffix: "@ + quoted_text(suffix) + " }"@,
    }
}

/// A reference to a type in words.
pub fn describe_type_type(t: &TypeType) -> (r: String)
    ensures
        r@ == type_type_text(t@),
{
    match t {
        TypeType::Simple(s) => wrapped("Simple", quote(s.as_str()).as_str()),
        TypeType::Complex { prefix, name, suffix } => {
            let mut out = "Complex { prefix: ".to_owned();
            out.append(quote(prefix.as_str()).as_str());
            out.append(", name: ");
            out.append(quote(name.as_str()).as_str());
            out.append(", suffix: ");
            out.append(quote(suffix.as_str()).as_str());
            out.append(" }");
            out
        },
    }
}

/// A field in words.
pub open spec fn field_text(f: FieldV) -> Seq<char>
    decreases f,
{
    match f {
        FieldV::ValueField(t) => wrapped_text("ValueField"@, value_type_text(t)),
        FieldV::SpecificField(s) => wrapped_text("SpecificField"@, quoted_text(s)),
        FieldV::ScalarField => "ScalarField"@,
        FieldV::TypeField(t) => wrapped_text("TypeField"@, type_type_text(t)),
        FieldV::ScopeField(v) => wrapped_text("ScopeField"@, list_text(v)),
        FieldV::LocalisationField { synced, is_inline } => "LocalisationField { synced: "@
            + bool_text(synced) + ", is_inline: "@ + bool_text(is_inline) + " }"@,
        FieldV::FilepathField { prefix, extension } => "FilepathField { prefix: "@ + option_text(
            prefix,
        ) + ", extension: "@ + option_text(extension) + " }"@,
        FieldV::IconField(s) => wrapped_text("IconField"@, quoted_text(s)),
        FieldV::AliasValueKeysField(s) => wrapped_text("AliasValueKeysField"@, quoted_text(s)),
        FieldV::AliasField(s) => wrapped_text("AliasField"@, quoted_text(s)),
        FieldV::SingleAliasField(s) => wrapped_text("SingleAliasField"@, quoted_text(s)),
        FieldV::VariableSetField(s) => wrapped_text("VariableSetField"@, quoted_text(s)),
        FieldV::VariableGetField(s) => wrapped_text("VariableGetField"@, quoted_text(s)),
        FieldV::VariableField { is_int, is_32bit, min, max } => "VariableField { is_int: "@
            + bool_text(is_int) + ", is_32bit: "@ + bool_text(is_32bit) + ", "@ + number_range_text(
            min,
            max,
        ),
        FieldV::ValueScopeMarkerField { is_int, min, max } => "ValueScopeMarkerField { is_int: "@
            + bool_text(is_int) + ", "@ + number_range_text(min, max),
        FieldV::ValueScopeField { is_int, min, max } => "ValueScopeField { is_int: "@ + bool_text(
            is_int,
        ) + ", "@ + number_range_text(min, max),
        FieldV::MarkerField(Marker::ColourField) => "MarkerField(ColourField)"@,
        FieldV::MarkerField(Marker::IrCountryTag) => "MarkerField(IrCountryTag)"@,
        FieldV::IgnoreMarkerField => "IgnoreMarkerField"@,
        FieldV::IgnoreField(inner) => wrapped_text("IgnoreField"@, field_text(*inner)),
    }
}

/// A field in words.
pub fn describe_field(f: &NewField) -> (r: String)
    ensures
        r@ == field_text(f@),
    decreases f,
{
    match f {
        NewField::ValueField(t) => wrapped("ValueField", describe_value_type(t).as_str()),
        NewField::SpecificField(s) => wrapped("SpecificField", quote(s.as_str()).as_str()),
        NewField::ScalarField => "ScalarField".to_owned(),
        NewField::TypeField(t) => wrapped("TypeField", describe_type_type(t).as_str()),
        NewField::ScopeField(v) => wrapped("ScopeField", print_list(v).as_str()),
        NewField::LocalisationField { synced, is_inline } => {
            let mut out = "LocalisationField { synced: ".to_owned();
            out.append(print_bool(*synced));
            out.append(", is_inline: ");
            out.append(print_bool(*is_inline));
            out.append(" }");
            out
        },
        NewField::FilepathField { prefix, extension } => {
            let mut out = "FilepathField { prefix: ".to_owned();
            out.append(print_option(prefix).as_str());
            out.append(", extension: ");
            out.append(print_option(extension).as_str());
            out.append(" }");
            out
        },
        NewField::IconField(s) => wrapped("IconField", quote(s.as_str()).as_str()),
        NewField::AliasValueKeysField(s) => wrapped(
            "AliasValueKeysField",
            quote(s.as_str()).as_str(),
        ),
        NewField::AliasField(s) => wrapped("AliasField", quote(s.as_str()).as_str()),
        NewField::SingleAliasField(s) => wrapped("SingleAliasField", quote(s.as_str()).as_str()),
        NewField::VariableSetField(s) => wrapped("VariableSetField", quote(s.as_str()).as_str()),
        NewField::VariableGetField(s) => wrapped("VariableGetField", quote(s.as_str()).as_str()),
        NewField::VariableField { is_int, is_32bit, min, max } => {
            let mut out = "VariableField { is_int: ".to_owned();
            out.append(print_bool(*is_int));
            out.append(", is_32bit: ");
            out.append(print_bool(*is_32bit));
            out.append(", ");
            out.append(print_number_range(min.as_str(), max.as_str()).as_str());
            out
        },
        NewField::ValueScopeMarkerField { is_int, min, max } => {
            let mut out = "ValueScopeMarkerField { is_int: ".to_owned();
            out.append(print_bool(*is_int));
            out.append(", ");
            out.append(print_number_range(min.as_str(), max.as_str()).as_str());
            out
        },
        NewField::ValueScopeField { is_int, min, max } => {
            let mut out = "ValueScopeField { is_int: ".to_owned();
            out.append(print_bool(*is_int));
            out.append(", ");
            out.append(print_number_range(min.as_str(), max.as_str()).as_str());
            out
        },
        NewField::MarkerField(Marker::ColourField) => "MarkerField(ColourField)".to_owned(),
        NewField::MarkerField(Marker::IrCountryTag) => "MarkerField(IrCountryTag)".to_owned(),
        NewField::IgnoreMarkerField => "IgnoreMarkerField".to_owned(),
        NewField::IgnoreField(inner) => wrapped("IgnoreField", describe_field(&**inner).as_str()),
    }
}

/// What a field expects, in words.
pub open spec fn expectation(f: FieldV) -> Seq<char> {
    match f {
        FieldV::ValueField(t) => value_type_text(t),
        FieldV::ScalarField => "any value"@,
        FieldV::SpecificField(s) => "'"@ + s + "'"@,
        FieldV::TypeField(t) => type_type_text(t),
        FieldV::ScopeField(v) => "scope "@ + list_text(v),
        FieldV::LocalisationField { synced, .. } => "localisation (synced="@ + bool_text(synced)
            + ")"@,
        _ => "unknown field type"@,
    }
}

/// What a field expects, in words.
pub fn field_to_description(f: &NewField) -> (r: String)
    ensures
        r@ == expectation(f@),
{
    match f {
        NewField::ValueField(t) => describe_value_type(t),
        NewField::ScalarField => "any value".to_owned(),
        NewField::SpecificField(s) => {
            let mut out = "'".to_owned();
            out.append(s.as_str());
            out.append("'");
            out
        },
        NewField::TypeField(t) => describe_type_type(t),
        NewField::ScopeField(v) => {
            let mut out = "scope ".to_owned();
            out.append(print_list(v).as_str());
            out
        },
        NewField::LocalisationField { synced, .. } => {
            let mut out = "localisation (synced=".to_owned();
            out.append(print_bool(*synced));
            out.append(")");
            out
        },
        _ => "unknown field type".to_owned(),
    }
}

} // verus!
