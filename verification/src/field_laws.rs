//! What the words of a configuration stand for.

use vstd::prelude::*;

use crate::ast::Value;
use crate::config_laws::{is_name, lemma_decimal_text, lemma_name, lemma_range};
use crate::field_parser::{bracket_field, field_of, word_field};
use crate::number::read_number;
use crate::rule_converter::{colour_rules, config_text, unquoted};
use crate::rules_types::{FieldV, RuleTypeV, RuleV, TypeTypeV, ValueTypeV};
use crate::text::{
    CharSet, bracket_inner, decimal, is_white, is_word_char, lemma_find_in, starts, trim_of,
    trimmed,
};
use crate::text_laws::{has_bare_ends, is_free_of, law_split_first, lemma_find_is, lemma_trim_bare};
use crate::value_laws::law_decimal_is_read;

verus! {

/// The text is the word, with white space around it and, inside of that, quotes.
pub open spec fn says(s: Seq<char>, word: Seq<char>) -> bool {
    trim_of(trim_of(s, CharSet::White), CharSet::One('"')) == word
}

/// Each word for a kind of value stands for that kind.
#[verifier::rlimit(50)]
pub proof fn law_words_for_values(s: Seq<char>)
    ensures
        says(s, "scalar"@) ==> field_of(s) == FieldV::ScalarField,
        says(s, "bool"@) ==> field_of(s) == FieldV::ValueField(ValueTypeV::Bool),
        says(s, "int"@) ==> field_of(s) == FieldV::ValueField(
            ValueTypeV::Int { min: i32::MIN, max: i32::MAX },
        ),
        says(s, "float"@) ==> field_of(s) == FieldV::ValueField(
            ValueTypeV::Float { min: "-1000000000000"@, max: "1000000000000"@ },
        ),
        says(s, "percentage_field"@) ==> field_of(s) == FieldV::ValueField(ValueTypeV::Percent),
        says(s, "math_expr"@) ==> field_of(s) == FieldV::ValueField(ValueTypeV::MathExpr),
        says(s, "date_field"@) ==> field_of(s) == FieldV::ValueField(ValueTypeV::Date),
        says(s, "datetime_field"@) ==> field_of(s) == FieldV::ValueField(ValueTypeV::DateTime),
{
    reveal_strlit("scalar");
    reveal_strlit("bool");
    reveal_strlit("int");
    reveal_strlit("float");
    reveal_strlit("percentage_field");
    reveal_strlit("percent_field");
    reveal_strlit("math_expr");
    reveal_strlit("localisation");
    reveal_strlit("localisation_synced");
    reveal_strlit("localisation_inline");
    reveal_strlit("filepath");
    reveal_strlit("date_field");
    reveal_strlit("datetime_field");
    assert("scalar"@[0] == 's' && "bool"@[0] == 'b' && "int"@[0] == 'i' && "float"@[0] == 'f');
    assert("percentage_field"@[0] == 'p' && "percent_field"@[0] == 'p' && "math_expr"@[0] == 'm');
    assert("localisation"@[0] == 'l' && "localisation_synced"@[0] == 'l');
    assert("localisation_inline"@[0] == 'l' && "filepath"@[0] == 'f');
    assert("date_field"@[0] == 'd' && "datetime_field"@[0] == 'd');
}

/// Each word for a text, a file, a scope or a variable stands for it.
#[verifier::rlimit(50)]
pub proof fn law_words_for_references(s: Seq<char>)
    ensures
        says(s, "localisation"@) ==> field_of(s) == (FieldV::LocalisationField {
            synced: false,
            is_inline: false,
        }),
        says(s, "localisation_synced"@) ==> field_of(s) == (FieldV::LocalisationField {
            synced: true,
            is_inline: false,
        }),
        says(s, "localisation_inline"@) ==> field_of(s) == (FieldV::LocalisationField {
            synced: false,
            is_inline: true,
        }),
        says(s, "filepath"@) ==> field_of(s) == (FieldV::FilepathField {
            prefix: None,
            extension: None,
        }),
        says(s, "scope_field"@) ==> field_of(s) == FieldV::ScopeField(seq!["any"@]),
        says(s, "variable_field"@) ==> field_of(s) == (FieldV::VariableField {
            is_int: false,
            is_32bit: false,
            min: "-1000000000000"@,
            max: "1000000000000"@,
        }),
        says(s, "int_variable_field"@) ==> field_of(s) == (FieldV::VariableField {
            is_int: true,
            is_32bit: false,
            min: decimal(i32::MIN as int),
            max: decimal(i32::MAX as int),
        }),
        says(s, "variable_field_32"@) ==> field_of(s) == (FieldV::VariableField {
            is_int: false,
            is_32bit: true,
            min: "-1000000000000"@,
            max: "1000000000000"@,
        }),
        says(s, "int_variable_field_32"@) ==> field_of(s) == (FieldV::VariableField {
            is_int: true,
            is_32bit: true,
            min: decimal(i32::MIN as int),
            max: decimal(i32::MAX as int),
        }),
{
    reveal_strlit("scalar");
    reveal_strlit("bool");
    reveal_strlit("int");
    reveal_strlit("float");
    reveal_strlit("percentage_field");
    reveal_strlit("percent_field");
    reveal_strlit("math_expr");
    reveal_strlit("localisation");
    reveal_strlit("localisation_synced");
    reveal_strlit("localisation_inline");
    reveal_strlit("filepath");
    reveal_strlit("date_field");
    reveal_strlit("datetime_field");
    reveal_strlit("scope_field");
    reveal_strlit("variable_field");
    reveal_strlit("int_variable_field");
    reveal_strlit("variable_field_32");
    reveal_strlit("int_variable_field_32");
    assert("scalar"@[0] == 's' && "bool"@[0] == 'b' && "int"@[0] == 'i' && "float"@[0] == 'f');
    assert("percentage_field"@[0] == 'p' && "percent_field"@[0] == 'p' && "math_expr"@[0] == 'm');
    assert("localisation"@[0] == 'l' && "localisation_synced"@[0] == 'l');
    assert("localisation_inline"@[0] == 'l' && "filepath"@[0] == 'f');
    assert("localisation_inline"@[13] == 'i' && "localisation_synced"@[13] == 's');
    assert("date_field"@[0] == 'd' && "datetime_field"@[0] == 'd');
    assert("scope_field"@[0] == 's' && "variable_field"@[0] == 'v');
    assert("int_variable_field"@[0] == 'i' && "int_variable_field_32"@[0] == 'i');
    assert("variable_field_32"@[0] == 'v');
}

// ---------------------------------------------------------------------------
// Words with something in brackets

/// The word with the text in brackets.
pub open spec fn bracketed(word: Seq<char>, inner: Seq<char>) -> Seq<char> {
    word + inner + seq![']']
}

proof fn lemma_differs(t: Seq<char>, p: Seq<char>, k: int)
    requires
        0 <= k < p.len(),
        k >= t.len() || t[k] != p[k],
    ensures
        bracket_inner(t, p) is None,
{
    if starts(t, p) {
        assert(t.subrange(0, p.len() as int)[k] == t[k]);
    }
}

proof fn lemma_inner(word: Seq<char>, inner: Seq<char>)
    ensures
        bracket_inner(bracketed(word, inner), word) == Some(inner),
{
    let t = bracketed(word, inner);
    assert(t.subrange(0, word.len() as int) =~= word);
    assert(t.subrange(word.len() as int, t.len() - 1) =~= inner);
    assert(t.last() == ']');
}

/// A text in brackets is no word of its own, and neither white space nor quotes are cut
/// from it.
proof fn lemma_bracketed(word: Seq<char>, inner: Seq<char>)
    requires
        word.len() > 0,
        !is_white(word[0]),
        word[0] != '"',
    ensures
        trim_of(trimmed(bracketed(word, inner)), CharSet::One('"')) == bracketed(word, inner),
        word_field(bracketed(word, inner)) is None,
{
    let t = bracketed(word, inner);
    assert(t[0] == word[0] && t.last() == ']');
    lemma_trim_bare(t, CharSet::White);
    lemma_trim_bare(t, CharSet::One('"'));
    lemma_words_end(t);
}

#[verifier::rlimit(50)]
proof fn lemma_words_end(t: Seq<char>)
    requires
        t.len() > 0,
        t.last() == ']',
    ensures
        word_field(t) is None,
{
    reveal_strlit("bool");
    reveal_strlit("ck2_dna_field");
    reveal_strlit("ck2_dna_property_field");
    reveal_strlit("color_field");
    reveal_strlit("colour_field");
    reveal_strlit("date_field");
    reveal_strlit("datetime_field");
    reveal_strlit("filepath");
    reveal_strlit("float");
    reveal_strlit("ignore_field");
    reveal_strlit("int");
    reveal_strlit("int_value_field");
    reveal_strlit("int_variable_field");
    reveal_strlit("int_variable_field_32");
    reveal_strlit("ir_country_tag_field");
    reveal_strlit("ir_family_name_field");
    reveal_strlit("localisation");
    reveal_strlit("localisation_inline");
    reveal_strlit("localisation_synced");
    reveal_strlit("percent_field");
    reveal_strlit("percentage_field");
    reveal_strlit("math_expr");
    reveal_strlit("portrait_dna_field");
    reveal_strlit("portrait_properties_field");
    reveal_strlit("scalar");
    reveal_strlit("scope_field");
    reveal_strlit("stellaris_name_format");
    reveal_strlit("value_field");
    reveal_strlit("variable_field");
    reveal_strlit("variable_field_32");
}

/// `int[a..b]` is a field for integers from `a` to `b`, and `float[a..b]` one for numbers.
pub proof fn law_ranges(a: i32, b: i32, lo: Seq<char>, hi: Seq<char>)
    requires
        is_free_of(lo, CharSet::One('.')),
        has_bare_ends(lo, CharSet::White),
        has_bare_ends(hi, CharSet::White),
        read_number(lo) is Some,
        read_number(hi) is Some,
        lo != "inf"@ && lo != "-inf"@ && hi != "inf"@ && hi != "-inf"@,
    ensures
        field_of(
            bracketed("int["@, decimal(a as int) + seq!['.', '.'] + decimal(b as int)),
        ) == FieldV::ValueField(ValueTypeV::Int { min: a, max: b }),
        field_of(bracketed("float["@, lo + seq!['.', '.'] + hi)) == FieldV::ValueField(
            ValueTypeV::Float { min: lo, max: hi },
        ),
{
    reveal_strlit("filepath[");
    reveal_strlit("int[");
    reveal_strlit("float[");
    let x = decimal(a as int) + seq!['.', '.'] + decimal(b as int);
    let t = bracketed("int["@, x);
    assert("int["@[0] == 'i');
    lemma_bracketed("int["@, x);
    lemma_inner("int["@, x);
    assert(t[0] == 'i');
    lemma_differs(t, "filepath["@, 0);
    lemma_decimal_text(a as int);
    lemma_decimal_text(b as int);
    lemma_range(decimal(a as int), decimal(b as int));
    lemma_trim_bare(decimal(a as int), CharSet::White);
    lemma_trim_bare(decimal(b as int), CharSet::White);
    law_decimal_is_read(a as int);
    law_decimal_is_read(b as int);
    let y = lo + seq!['.', '.'] + hi;
    let u = bracketed("float["@, y);
    assert("float["@[0] == 'f' && "float["@[1] == 'l');
    lemma_bracketed("float["@, y);
    lemma_inner("float["@, y);
    assert(u[0] == 'f' && u[1] == 'l');
    assert("filepath["@[1] == 'i' && "int["@[0] == 'i');
    lemma_differs(u, "filepath["@, 1);
    lemma_differs(u, "int["@, 0);
    lemma_range(lo, hi);
    lemma_trim_bare(lo, CharSet::White);
    lemma_trim_bare(hi, CharSet::White);
}

/// What stands in brackets behind a word is what the word is about: the members of an
/// enum or of a value set, a scope, the aliases of a category, a single alias, a folder.
#[verifier::rlimit(50)]
pub proof fn law_brackets(x: Seq<char>)
    ensures
        field_of(bracketed("enum["@, x)) == FieldV::ValueField(ValueTypeV::Enum(x)),
        field_of(bracketed("value["@, x)) == FieldV::VariableGetField(x),
        field_of(bracketed("value_set["@, x)) == FieldV::VariableSetField(x),
        field_of(bracketed("scope["@, x)) == FieldV::ScopeField(seq![x]),
        field_of(bracketed("alias_name["@, x)) == FieldV::AliasField(x),
        field_of(bracketed("alias_match_left["@, x)) == FieldV::AliasField(x),
        field_of(bracketed("single_alias_right["@, x)) == FieldV::SingleAliasField(x),
        is_free_of(x, CharSet::One(',')) ==> field_of(bracketed("filepath["@, x)) == (
        FieldV::FilepathField { prefix: Some(x), extension: None }),
{
    reveal_strlit("filepath[");
    reveal_strlit("int[");
    reveal_strlit("float[");
    reveal_strlit("enum[");
    reveal_strlit("complex_enum[");
    reveal_strlit("value[");
    reveal_strlit("value_set[");
    reveal_strlit("scope[");
    reveal_strlit("event_target[");
    reveal_strlit("scope_group[");
    reveal_strlit("alias_keys_field[");
    reveal_strlit("alias_name[");
    reveal_strlit("alias_match_left[");
    reveal_strlit("single_alias_right[");
    assert("filepath["@[0] == 'f' && "int["@[0] == 'i' && "float["@[0] == 'f' && "enum["@[0] == 'e'
        && "complex_enum["@[0] == 'c' && "value["@[0] == 'v' && "value_set["@[0] == 'v'
        && "scope["@[0] == 's' && "event_target["@[0] == 'e' && "scope_group["@[0] == 's'
        && "alias_keys_field["@[0] == 'a' && "alias_name["@[0] == 'a' && "alias_match_left["@[0]
        == 'a' && "single_alias_right["@[0] == 's');
    let e = bracketed("enum["@, x);
    assert(e[0] == 'e');
    lemma_bracketed("enum["@, x);
    lemma_inner("enum["@, x);
    lemma_differs(e, "filepath["@, 0);
    lemma_differs(e, "int["@, 0);
    lemma_differs(e, "float["@, 0);
    let v = bracketed("value["@, x);
    assert(v[0] == 'v');
    lemma_bracketed("value["@, x);
    lemma_inner("value["@, x);
    lemma_differs(v, "filepath["@, 0);
    lemma_differs(v, "int["@, 0);
    lemma_differs(v, "float["@, 0);
    lemma_differs(v, "enum["@, 0);
    lemma_differs(v, "complex_enum["@, 0);
    let w = bracketed("value_set["@, x);
    assert(w[0] == 'v' && w[5] == '_');
    lemma_bracketed("value_set["@, x);
    lemma_inner("value_set["@, x);
    lemma_differs(w, "filepath["@, 0);
    lemma_differs(w, "int["@, 0);
    lemma_differs(w, "float["@, 0);
    lemma_differs(w, "enum["@, 0);
    lemma_differs(w, "complex_enum["@, 0);
    lemma_differs(w, "value["@, 5);
    lemma_alias_brackets(x);
    let f = bracketed("filepath["@, x);
    lemma_bracketed("filepath["@, x);
    lemma_inner("filepath["@, x);
    if is_free_of(x, CharSet::One(',')) {
        lemma_find_is(x, CharSet::One(','), 0, x.len() as int);
    }
}

proof fn lemma_none_before_scope(t: Seq<char>)
    requires
        t.len() > 0,
        t[0] == 's' || t[0] == 'a',
    ensures
        bracket_inner(t, "filepath["@) is None,
        bracket_inner(t, "int["@) is None,
        bracket_inner(t, "float["@) is None,
        bracket_inner(t, "enum["@) is None,
        bracket_inner(t, "complex_enum["@) is None,
        bracket_inner(t, "value["@) is None,
        bracket_inner(t, "value_set["@) is None,
        bracket_inner(t, "event_target["@) is None,
{
    reveal_strlit("filepath[");
    reveal_strlit("int[");
    reveal_strlit("float[");
    reveal_strlit("enum[");
    reveal_strlit("complex_enum[");
    reveal_strlit("value[");
    reveal_strlit("value_set[");
    reveal_strlit("event_target[");
    assert("filepath["@[0] == 'f' && "int["@[0] == 'i' && "float["@[0] == 'f' && "enum["@[0] == 'e'
        && "complex_enum["@[0] == 'c' && "value["@[0] == 'v' && "value_set["@[0] == 'v'
        && "event_target["@[0] == 'e');
    lemma_differs(t, "filepath["@, 0);
    lemma_differs(t, "int["@, 0);
    lemma_differs(t, "float["@, 0);
    lemma_differs(t, "enum["@, 0);
    lemma_differs(t, "complex_enum["@, 0);
    lemma_differs(t, "value["@, 0);
    lemma_differs(t, "value_set["@, 0);
    lemma_differs(t, "event_target["@, 0);
}

#[verifier::rlimit(50)]
proof fn lemma_alias_brackets(x: Seq<char>)
    ensures
        field_of(bracketed("scope["@, x)) == FieldV::ScopeField(seq![x]),
        field_of(bracketed("alias_name["@, x)) == FieldV::AliasField(x),
        field_of(bracketed("alias_match_left["@, x)) == FieldV::AliasField(x),
        field_of(bracketed("single_alias_right["@, x)) == FieldV::SingleAliasField(x),
{
    reveal_strlit("scope[");
    reveal_strlit("scope_group[");
    reveal_strlit("alias_keys_field[");
    reveal_strlit("alias_name[");
    reveal_strlit("alias_match_left[");
    reveal_strlit("single_alias_right[");
    assert("scope["@[0] == 's' && "scope_group["@[0] == 's' && "alias_keys_field["@[0] == 'a'
        && "alias_name["@[0] == 'a' && "alias_match_left["@[0] == 'a' && "single_alias_right["@[0]
        == 's');
    assert("alias_keys_field["@[6] == 'k' && "alias_name["@[6] == 'n' && "alias_match_left["@[6]
        == 'm');
    assert("single_alias_right["@[1] == 'i' && "scope["@[1] == 'c' && "scope_group["@[1] == 'c');
    let s = bracketed("scope["@, x);
    assert(s[0] == 's');
    lemma_bracketed("scope["@, x);
    lemma_inner("scope["@, x);
    lemma_none_before_scope(s);
    let a = bracketed("alias_name["@, x);
    assert(a[0] == 'a' && a[6] == 'n');
    lemma_bracketed("alias_name["@, x);
    lemma_inner("alias_name["@, x);
    lemma_none_before_scope(a);
    lemma_differs(a, "scope["@, 0);
    lemma_differs(a, "scope_group["@, 0);
    lemma_differs(a, "alias_keys_field["@, 6);
    let m = bracketed("alias_match_left["@, x);
    assert(m[0] == 'a' && m[6] == 'm');
    lemma_bracketed("alias_match_left["@, x);
    lemma_inner("alias_match_left["@, x);
    lemma_none_before_scope(m);
    lemma_differs(m, "scope["@, 0);
    lemma_differs(m, "scope_group["@, 0);
    lemma_differs(m, "alias_keys_field["@, 6);
    lemma_differs(m, "alias_name["@, 6);
    let r = bracketed("single_alias_right["@, x);
    assert(r[0] == 's' && r[1] == 'i');
    lemma_bracketed("single_alias_right["@, x);
    lemma_inner("single_alias_right["@, x);
    lemma_none_before_scope(r);
    lemma_differs(r, "scope["@, 1);
    lemma_differs(r, "scope_group["@, 1);
    lemma_differs(r, "alias_keys_field["@, 0);
    lemma_differs(r, "alias_name["@, 0);
    lemma_differs(r, "alias_match_left["@, 0);
}

/// `<type>` refers to the instances of a type, and with text around it to their names with
/// that text around them.
#[verifier::rlimit(50)]
pub proof fn law_type_references(before: Seq<char>, name: Seq<char>, after: Seq<char>)
    requires
        is_name(before),
        is_name(name),
        is_name(after),
        before[0] == 't',
    ensures
        field_of(seq!['<'] + name + seq!['>']) == FieldV::TypeField(TypeTypeV::Simple(name)),
        field_of(before + seq!['<'] + name + seq!['>'] + after) == FieldV::TypeField(
            TypeTypeV::Complex { prefix: before, name, suffix: after },
        ),
{
    lemma_name(before);
    lemma_name(name);
    lemma_name(after);
    let t = seq!['<'] + name + seq!['>'];
    assert(t[0] == '<' && t.last() == '>');
    lemma_trim_bare(t, CharSet::White);
    lemma_trim_bare(t, CharSet::One('"'));
    assert(t.subrange(1, t.len() - 1) =~= name);
    if t.contains(' ') {
        let i = choose|i: int| 0 <= i < t.len() && t[i] == ' ';
        assert(t[i] == name[i - 1]);
        assert(!CharSet::White.has(name[i - 1]));
    }
    lemma_no_word_with(t, 0);
    let u = before + seq!['<'] + name + seq!['>'] + after;
    assert(u[0] == before[0] && u.last() == after.last());
    lemma_trim_bare(u, CharSet::White);
    lemma_trim_bare(u, CharSet::One('"'));
    let open = before.len() as int;
    let close = open + 1 + name.len();
    assert(u[open] == '<');
    lemma_no_word_with(u, open);
    assert(is_word_char(before[0]) && is_word_char(after[after.len() - 1]));
    assert forall|k: int| 0 <= k < open implies u[k] == before[k] && is_word_char(
        #[trigger] u[k],
    ) by {
        assert(is_word_char(before[k]));
    }
    assert forall|k: int| open < k < close implies is_word_char(#[trigger] u[k]) by {
        assert(u[k] == name[k - open - 1]);
        assert(is_word_char(name[k - open - 1]));
    }
    assert(u[close] == '>');
    assert forall|k: int| 0 <= k < open implies !CharSet::One('<').has(#[trigger] u[k]) by {
        assert(is_word_char(u[k]));
    }
    assert forall|k: int| 0 <= k < close implies !CharSet::One('>').has(#[trigger] u[k]) by {
        if k != open {
            assert(is_word_char(u[k]));
        }
    }
    lemma_find_is(u, CharSet::One('<'), 0, open);
    lemma_find_is(u, CharSet::One('>'), 0, close);
    assert(u.subrange(0, open) =~= before);
    assert(u.subrange(open + 1, close) =~= name);
    assert(u.subrange(close + 1, u.len() as int) =~= after);
}

/// No word of a configuration has an angle bracket in it, and no bracketed form starts
/// with `<` or `t`.
#[verifier::rlimit(50)]
proof fn lemma_no_word_with(t: Seq<char>, k: int)
    requires
        0 <= k < t.len(),
        t[k] == '<',
        t[0] == '<' || t[0] == 't',
        t.last() != ']',
    ensures
        word_field(t) is None,
        bracket_field(t) is None,
{
    reveal_strlit("bool");
    reveal_strlit("ck2_dna_field");
    reveal_strlit("ck2_dna_property_field");
    reveal_strlit("color_field");
    reveal_strlit("colour_field");
    reveal_strlit("date_field");
    reveal_strlit("datetime_field");
    reveal_strlit("filepath");
    reveal_strlit("float");
    reveal_strlit("ignore_field");
    reveal_strlit("int");
    reveal_strlit("int_value_field");
    reveal_strlit("int_variable_field");
    reveal_strlit("int_variable_field_32");
    reveal_strlit("ir_country_tag_field");
    reveal_strlit("ir_family_name_field");
    reveal_strlit("localisation");
    reveal_strlit("localisation_inline");
    reveal_strlit("localisation_synced");
    reveal_strlit("percent_field");
    reveal_strlit("percentage_field");
    reveal_strlit("math_expr");
    reveal_strlit("portrait_dna_field");
    reveal_strlit("portrait_properties_field");
    reveal_strlit("scalar");
    reveal_strlit("scope_field");
    reveal_strlit("stellaris_name_format");
    reveal_strlit("value_field");
    reveal_strlit("variable_field");
    reveal_strlit("variable_field_32");
}

/// A word that stands for nothing else stands for itself.
pub proof fn law_other_words(w: Seq<char>)
    requires
        is_name(w),
        word_field(w) is None,
    ensures
        field_of(w) == FieldV::SpecificField(w),
{
    lemma_name(w);
    lemma_trim_bare(w, CharSet::White);
    lemma_trim_bare(w, CharSet::One('"'));
    assert(is_word_char(w.last()));
    assert(w.last() != ']');
    assert forall|k: int| 0 <= k < w.len() implies !CharSet::One('<').has(#[trigger] w[k]) by {
        assert(is_word_char(w[k]));
    }
    lemma_find_is(w, CharSet::One('<'), 0, w.len() as int);
    lemma_find_in(w, CharSet::One('>'), 0);
}

/// The body of a colour has three or four numbers: up to 255 each in `rgb`, up to 2 each in
/// `hsv`, of either kind otherwise.
pub proof fn law_colours(kind: Seq<char>)
    ensures
        ({
            let r = colour_rules(bracketed("colour["@, kind));
            let whole = FieldV::ValueField(ValueTypeV::Int { min: 0, max: 255 });
            let part = FieldV::ValueField(ValueTypeV::Float { min: "0.0"@, max: "2.0"@ });
            let is = |x: RuleV, f: FieldV|
                x.0 == (RuleTypeV::LeafValueRule { right: f }) && x.1.min == 3 && x.1.max == 4;
            &&& kind == "rgb"@ ==> r.len() == 1 && is(r[0], whole)
            &&& kind == "hsv"@ ==> r.len() == 1 && is(r[0], part)
            &&& kind != "rgb"@ && kind != "hsv"@ ==> r.len() == 2 && is(r[0], whole) && is(
                r[1],
                part,
            )
        }),
{
    lemma_inner("colour["@, kind);
    reveal_strlit("rgb");
    reveal_strlit("hsv");
    assert("rgb"@[0] == 'r' && "hsv"@[0] == 'h');
}

/// A folder and an extension stand in brackets, in that order, with a comma between them.
pub proof fn law_file_fields(folder: Seq<char>, ext: Seq<char>)
    requires
        is_free_of(folder, CharSet::One(',')),
    ensures
        field_of(bracketed("filepath["@, folder + seq![','] + ext)) == (FieldV::FilepathField {
            prefix: Some(folder),
            extension: Some(ext),
        }),
{
    reveal_strlit("filepath[");
    let x = folder + seq![','] + ext;
    assert("filepath["@[0] == 'f');
    lemma_bracketed("filepath["@, x);
    lemma_inner("filepath["@, x);
    law_split_first(folder, ',', ext);
}

/// The text of a value is without its quotes; `yes` and `no` stand for truth values, and a
/// block has no text.
pub proof fn law_config_texts(n: i64, s: Seq<char>)
    ensures
        config_text(Value::Int(n)) == decimal(n as int),
        config_text(Value::Bool(true)) == "yes"@,
        config_text(Value::Bool(false)) == "no"@,
        unquoted(seq!['"'] + s + seq!['"']) == s,
        s.len() == 0 || s[0] != '"' ==> unquoted(s) == s,
{
    let q = seq!['"'] + s + seq!['"'];
    assert(q.subrange(1, q.len() - 1) =~= s);
    assert(q.last() == '"');
}

} // verus!
