//! Questions about single values and keys.

use vstd::prelude::*;

use crate::ast::{Child, Comment, Leaf, LeafValue, Value};
use crate::number::{is_zero, le, number_is_zero, number_le, read, read_number};
use crate::rule_converter::{unquote_key, unquoted};
use crate::rules_types::{EnumDefinition, EnumV};
use crate::ruleset::{RuleSet, RuleSetV};
use crate::text::{
    CharSet, all_digits, byte_len, contains, contains_char, contains_ci, contains_text, decimal,
    ends, ends_with, eq_ci, is_digit, is_hex_digit, is_upper, list_contains_ci, parse_i32,
    parse_int_within, parse_u32, print_i64, same, same_ci, split, split_once, split_once_spec,
    split_spec, starts_char, starts_with_char, texts, to_chars, trim_end, trim_end_of,
};

verus! {

/// The text of a value in a script: as it stands in the file, with `{...}` for a
/// block.
pub open spec fn value_text(v: Value) -> Seq<char> {
    match v {
        Value::String(s) => s@,
        Value::QString(s) => s@,
        Value::Float(s) => s@,
        Value::Int(i) => decimal(i as int),
        Value::Bool(b) => if b {
            "true"@
        } else {
            "false"@
        },
        Value::Clause(_) => "{...}"@,
    }
}

/// The text of a value in a script.
pub fn leaf_value_to_string(value: &Value) -> (r: String)
    ensures
        r@ == value_text(*value),
{
    match value {
        Value::String(s) => s.clone(),
        Value::QString(s) => s.clone(),
        Value::Float(s) => s.clone(),
        Value::Int(i) => print_i64(*i),
        Value::Bool(b) => if *b {
            "true".to_owned()
        } else {
            "false".to_owned()
        },
        Value::Clause(_) => "{...}".to_owned(),
    }
}

/// The text of a bare or quoted string.
pub open spec fn string_text(v: Value) -> Option<Seq<char>> {
    match v {
        Value::String(s) => Some(s@),
        Value::QString(s) => Some(s@),
        _ => None,
    }
}

/// The number of bytes behind the first point, without the zeros at the end: of a number
/// that is its decimal places.
pub open spec fn decimal_places_of(s: Seq<char>) -> int {
    match split_once_spec(s, '.') {
        Some((_, fraction)) => byte_len(trim_end_of(fraction, CharSet::One('0'))),
        None => 0,
    }
}

/// The number of decimal places, without the zeros at the end: three in
/// `0.1230`.
pub fn decimal_places(s: &str) -> (r: usize)
    ensures
        r == decimal_places_of(s@),
{
    match split_once(s, '.') {
        Some((_, fraction)) => trim_end(fraction, CharSet::One('0')).len(),
        None => 0,
    }
}

/// The value is zero as a number.
pub open spec fn is_zero_value(v: Value) -> bool {
    match v {
        Value::Int(n) => n == 0,
        Value::Float(s) => is_zero_text(s@),
        Value::String(s) => is_zero_text(unquoted(s@)),
        Value::QString(s) => is_zero_text(unquoted(s@)),
        _ => false,
    }
}

/// The text writes down zero.
pub open spec fn is_zero_text(s: Seq<char>) -> bool {
    match read_number(s) {
        Some(n) => number_is_zero(n),
        None => false,
    }
}

fn text_is_zero(s: &str) -> (r: bool)
    ensures
        r == is_zero_text(s@),
{
    match read(s) {
        Some(n) => is_zero(&n),
        None => false,
    }
}

/// Whether the value is zero as a number: `0`, `0.0` or `"0"`.
pub fn value_is_zero(value: &Value) -> (r: bool)
    ensures
        r == is_zero_value(*value),
{
    match value {
        Value::Int(n) => *n == 0,
        Value::Float(s) => text_is_zero(s.as_str()),
        Value::String(s) => text_is_zero(unquote_key(s.as_str())),
        Value::QString(s) => text_is_zero(unquote_key(s.as_str())),
        _ => false,
    }
}

/// The number that the text writes down is between two others.
pub open spec fn text_within(s: Seq<char>, min: Seq<char>, max: Seq<char>) -> bool {
    match (read_number(s), read_number(min), read_number(max)) {
        (Some(v), Some(a), Some(b)) => number_le(a, v) && number_le(v, b),
        _ => false,
    }
}

/// Whether the number that the text writes down is between two others.
pub fn within(s: &str, min: &str, max: &str) -> (r: bool)
    ensures
        r == text_within(s@, min@, max@),
{
    match read(s) {
        Some(v) => match read(min) {
            Some(a) => match read(max) {
                Some(b) => le(&a, &v) && le(&v, &b),
                None => false,
            },
            None => false,
        },
        None => false,
    }
}

/// Whether the text writes down a number.
pub fn is_number(s: &str) -> (r: bool)
    ensures
        r == (read_number(s@) is Some),
{
    read(s).is_some()
}

/// Where a child starts; nowhere for a comment.
pub open spec fn start_pos(c: Child) -> Option<(u32, u16)> {
    match c {
        Child::Leaf(l) => Some((l.pos.start.line, l.pos.start.col)),
        Child::LeafValue(lv) => Some((lv.pos.start.line, lv.pos.start.col)),
        Child::Comment(_) => None,
    }
}

/// Where a child starts.
pub fn child_start_pos(child: &Child) -> (r: Option<(u32, u16)>)
    ensures
        r == start_pos(*child),
{
    match child {
        Child::Leaf(l) => Some((l.pos.start.line, l.pos.start.col)),
        Child::LeafValue(lv) => Some((lv.pos.start.line, lv.pos.start.col)),
        Child::Comment(_) => None,
    }
}

/// The child is a leaf of that key, whatever its case and quotes.
pub open spec fn has_key(c: Child, key: Seq<char>) -> bool {
    match c {
        Child::Leaf(l) => eq_ci(unquoted(l.key@), unquoted(key)),
        _ => false,
    }
}

/// Whether the child is a leaf of that key, whatever its case and quotes.
pub fn child_key_matches(child: &Child, key: &str) -> (r: bool)
    ensures
        r == has_key(*child, key@),
{
    match child {
        Child::Leaf(l) => same_ci(unquote_key(l.key.as_str()), unquote_key(key)),
        _ => false,
    }
}

/// The text has an ASCII upper case letter.
pub open spec fn has_upper(s: Seq<char>) -> bool {
    exists|i: int| 0 <= i < s.len() && is_upper(#[trigger] s[i])
}

/// Whether the text has an ASCII upper case letter.
#[verifier::loop_isolation(false)]
pub fn any_upper(s: &str) -> (r: bool)
    ensures
        r == has_upper(s@),
{
    let cs = to_chars(s);
    let mut i: usize = 0;
    while i < cs.len()
        invariant
            i <= cs@.len(),
            forall|j: int| 0 <= j < i ==> !is_upper(#[trigger] cs@[j]),
        decreases cs@.len() - i,
    {
        if 'A' <= cs[i] && cs[i] <= 'Z' {
            return true;
        }
        i += 1;
    }
    false
}

/// Whether the text has digits only.
#[verifier::loop_isolation(false)]
pub fn only_digits(s: &str) -> (r: bool)
    ensures
        r == all_digits(s@),
{
    let cs = to_chars(s);
    let mut i: usize = 0;
    while i < cs.len()
        invariant
            i <= cs@.len(),
            forall|j: int| 0 <= j < i ==> is_digit(#[trigger] cs@[j]),
        decreases cs@.len() - i,
    {
        if !('0' <= cs[i] && cs[i] <= '9') {
            return false;
        }
        i += 1;
    }
    true
}

/// The text has hexadecimal digits only.
pub open spec fn all_hex(s: Seq<char>) -> bool {
    forall|i: int| 0 <= i < s.len() ==> is_hex_digit(#[trigger] s[i])
}

/// Whether the text has hexadecimal digits only.
#[verifier::loop_isolation(false)]
pub fn only_hex(s: &str) -> (r: bool)
    ensures
        r == all_hex(s@),
{
    let cs = to_chars(s);
    let mut i: usize = 0;
    while i < cs.len()
        invariant
            i <= cs@.len(),
            forall|j: int| 0 <= j < i ==> is_hex_digit(#[trigger] cs@[j]),
        decreases cs@.len() - i,
    {
        let c = cs[i];
        if !(('0' <= c && c <= '9') || ('a' <= c && c <= 'f') || ('A' <= c && c <= 'F')) {
            return false;
        }
        i += 1;
    }
    true
}

/// A key that names something in the game's data: an id in digits, a tag in upper
/// case, or `prefix:name`.
pub open spec fn is_data_ref(key: Seq<char>) -> bool {
    key.len() > 0 && (key.contains(':') || all_digits(key) || has_upper(key))
}

/// Whether a key names something in the game's data. Plain effect and trigger names
/// in lower case do not.
pub fn looks_like_data_ref(key: &str) -> (r: bool)
    ensures
        r == is_data_ref(key@),
{
    key.unicode_len() > 0 && (contains_char(key, ':') || only_digits(key) || any_upper(key))
}

pub open spec fn is_i32(s: Seq<char>) -> bool {
    parse_int_within(s, true, i32::MIN as int, i32::MAX as int) is Some
}

pub open spec fn is_u32(s: Seq<char>) -> bool {
    parse_int_within(s, false, 0, u32::MAX as int) is Some
}

/// The text has the shape of a date: year, month and day between dots.
pub open spec fn date_shape(s: Seq<char>) -> bool {
    let p = split_spec(s, CharSet::One('.'));
    p.len() == 3 && is_i32(p[0]) && is_u32(p[1]) && is_u32(p[2])
}

/// The text has the shape of a date, or of a date with an hour behind it.
pub open spec fn datetime_shape(s: Seq<char>) -> bool {
    let p = split_spec(s, CharSet::One('.'));
    date_shape(s) || (p.len() == 4 && is_i32(p[0]) && is_u32(p[1]) && is_u32(p[2]) && is_u32(p[3]))
}

/// Whether the text has the shape of a date.
pub fn is_date_shape(s: &str) -> (r: bool)
    ensures
        r == date_shape(s@),
{
    let p = split(s, CharSet::One('.'));
    if p.len() != 3 {
        return false;
    }
    assert(texts(p@)[0] == p@[0]@ && texts(p@)[1] == p@[1]@ && texts(p@)[2] == p@[2]@);
    parse_i32(p[0].as_str()).is_some() && parse_u32(p[1].as_str()).is_some() && parse_u32(
        p[2].as_str(),
    ).is_some()
}

/// Whether the text has the shape of a date, or of a date with an hour behind it.
pub fn is_datetime_shape(s: &str) -> (r: bool)
    ensures
        r == datetime_shape(s@),
{
    if is_date_shape(s) {
        return true;
    }
    let p = split(s, CharSet::One('.'));
    if p.len() != 4 {
        return false;
    }
    assert(texts(p@)[0] == p@[0]@ && texts(p@)[1] == p@[1]@ && texts(p@)[2] == p@[2]@ && texts(
        p@,
    )[3] == p@[3]@);
    parse_i32(p[0].as_str()).is_some() && parse_u32(p[1].as_str()).is_some() && parse_u32(
        p[2].as_str(),
    ).is_some() && parse_u32(p[3].as_str()).is_some()
}

// ---------------------------------------------------------------------------
// Enums

/// Up to this number of members an enum is taken to list all of them.
pub const AUTHORITATIVE_ENUM_SIZE: usize = 5;

/// The enum lists all its members.
pub open spec fn is_authoritative(e: EnumV) -> bool {
    e.values.len() <= AUTHORITATIVE_ENUM_SIZE
}

/// Whether an enum lists all its members. A larger one is likely an incomplete
/// catalogue of game data, so a value that it does not list is accepted.
pub fn enum_is_authoritative(def: &EnumDefinition) -> (r: bool)
    ensures
        r == is_authoritative(def@),
{
    def.values.len() <= AUTHORITATIVE_ENUM_SIZE
}

/// A member of the enum is a scripted constant, whose value is not known.
pub open spec fn has_constant(v: Seq<Seq<char>>) -> bool {
    exists|i: int| 0 <= i < v.len() && starts_char(#[trigger] v[i], '@')
}

/// Whether a member is a scripted constant.
pub fn any_constant(v: &Vec<String>) -> (r: bool)
    ensures
        r == has_constant(texts(v@)),
{
    let mut i: usize = 0;
    while i < v.len()
        invariant
            i <= v@.len(),
            forall|j: int| 0 <= j < i ==> !starts_char(#[trigger] texts(v@)[j], '@'),
        decreases v@.len() - i,
    {
        assert(texts(v@)[i as int] == v@[i as int]@);
        if starts_with_char(v[i].as_str(), '@') {
            return true;
        }
        i += 1;
    }
    false
}

/// The enum of that name, if it has members.
pub open spec fn enum_named(rs: RuleSetV, name: Seq<char>) -> Option<EnumV> {
    if rs.enum_by_name.contains_key(name) && rs.enum_by_name[name] < rs.enums.len()
        && rs.enums[rs.enum_by_name[name] as int].values.len() > 0 {
        Some(rs.enums[rs.enum_by_name[name] as int])
    } else {
        None
    }
}

/// The enum of that name, if it has members.
pub fn find_enum<'a>(ruleset: &'a RuleSet, name: &str) -> (r: Option<&'a EnumDefinition>)
    ensures
        match r {
            Some(e) => enum_named(ruleset@, name@) == Some(e@),
            None => enum_named(ruleset@, name@) is None,
        },
{
    match ruleset.enum_by_name.get(name) {
        Some(i) => {
            if *i < ruleset.enums.len() {
                assert(ruleset@.enums[*i as int] == ruleset.enums@[*i as int]@);
                if ruleset.enums[*i].values.len() > 0 {
                    return Some(&ruleset.enums[*i]);
                }
            }
            None
        },
        None => None,
    }
}

/// The value counts as a member of the enum of that name.
pub open spec fn enum_accepts(rs: RuleSetV, name: Seq<char>, value: Seq<char>) -> bool {
    match enum_named(rs, name) {
        Some(e) => contains_ci(e.values, value) || has_constant(e.values) || (!is_authoritative(e)
            && value.len() > 0),
        None => true,
    }
}

/// Whether the value counts as a member of the enum of that name. Case does not
/// matter. Anything does for an enum without members, which come from game data,
/// and for one with a scripted constant among them.
pub fn enum_contains(ruleset: &RuleSet, name: &str, value: &str) -> (r: bool)
    ensures
        r == enum_accepts(ruleset@, name@, value@),
{
    match find_enum(ruleset, name) {
        Some(e) => list_contains_ci(&e.values, value) || any_constant(&e.values) || (
        !enum_is_authoritative(e) && value.unicode_len() > 0),
        None => true,
    }
}

// ---------------------------------------------------------------------------
// Paths

/// The segments of `part` stand in `path`, one behind the other.
pub open spec fn has_segments(path: Seq<char>, part: Seq<char>) -> bool {
    contains_text("/"@ + path + "/"@, "/"@ + part + "/"@)
}

/// Whether whole segments of `path` are `part`: `events` is no part of
/// `my_events_backup/x.txt`.
pub fn path_contains_segment(path: &str, part: &str) -> (r: bool)
    ensures
        r == has_segments(path@, part@),
{
    let mut a = "/".to_owned();
    a.append(path);
    a.append("/");
    let mut b = "/".to_owned();
    b.append(part);
    b.append("/");
    contains(a.as_str(), b.as_str())
}

/// The directory is the one that the pattern asks for: with `strict` its last
/// segments are the pattern, else any of them are.
pub open spec fn dir_matches(dir: Seq<char>, pattern: Seq<char>, strict: bool) -> bool {
    if strict {
        dir == pattern || ends(dir, "/"@ + pattern)
    } else {
        has_segments(dir, pattern)
    }
}

/// Whether the directory is the one that the pattern asks for.
pub fn dir_matches_pattern(dir: &str, pattern: &str, strict: bool) -> (r: bool)
    ensures
        r == dir_matches(dir@, pattern@, strict),
{
    if strict {
        let mut p = "/".to_owned();
        p.append(pattern);
        same(dir, pattern) || ends_with(dir, p.as_str())
    } else {
        path_contains_segment(dir, pattern)
    }
}

/// The text is one of the two, whatever its case.
pub open spec fn one_of_ci(s: Seq<char>, a: Seq<char>, b: Seq<char>) -> bool {
    eq_ci(s, a) || eq_ci(s, b)
}

/// The text is `yes` or `no`, whatever its case.
pub fn is_yes_or_no(s: &str) -> (r: bool)
    ensures
        r == one_of_ci(s@, "yes"@, "no"@),
{
    same_ci(s, "yes") || same_ci(s, "no")
}

} // verus!
