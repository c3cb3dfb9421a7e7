//! Checks of the value of one leaf against the field on the right of its rule.

use vstd::prelude::*;

use crate::ast::{Leaf, SourcePos, Value};
use crate::common::{
    decimal_places, decimal_places_of, is_yes_or_no, leaf_value_to_string, one_of_ci, value_text,
};
use crate::context::{CtxV, ValidationCtx, opt_scope};
use crate::describe::{expectation, field_to_description};
use crate::diagnostic::{ErrorV, ValidationError, add_one, coded, report, report1, stated};
use crate::error_codes::{
    cw113, cw113_missing_file, cw222, cw222_undefined_event, cw240, cw240_unexpected_value, cw246,
    cw246_unset_variable, cw270, cw270_variable_too_small, cw271, cw271_variable_int_only, cw500,
    cw500_type_not_found,
};
use crate::field_match::{field_matches_value, is_dynamic_text, takes_value, text_is_dynamic};
use crate::loc_field::{loc_field_problems, validate_localisation_field};
use crate::number::{has_fraction, number_has_fraction, read, read_number};
use crate::rule_converter::{unquote_key, unquoted};
use crate::rules_types::{FieldV, NewField, TypeType, TypeTypeV, ValueType, ValueTypeV, views};
use crate::ruleset::{RuleSet, RuleSetV};
use crate::scope::{is_scope_word, resolves_as_scope_key, target_problem, validate_scope_target};
use crate::scope_engine::{ScopeContext, ScopeV};
use crate::text::{
    CharSet, ascii_lower, before_first, contains_char, ends, ends_with, eq_ci, head_before,
    list_contains, opt_text, same, same_ci, starts, starts_char, starts_with, starts_with_char,
    strip_end, strip_prefix, strip_start, strip_suffix, texts, to_ascii_lower, trim, trim_matches,
    trim_of, trimmed,
};
use crate::type_index::{
    FileIndex, IndexV, TypeIndex, VarIndex, beside, file_name, is_subtype_key, variable_name,
};

verus! {

/// A text without the quotes and the white space around it.
pub open spec fn bare_text(raw: Seq<char>) -> Seq<char> {
    trimmed(trim_of(raw, CharSet::One('"')))
}

/// A text without the quotes and the white space around it.
pub fn to_bare<'a>(raw: &'a str) -> (r: &'a str)
    ensures
        r@ == bare_text(raw@),
{
    trim(trim_matches(raw, CharSet::One('"')))
}

// ---------------------------------------------------------------------------
// Variables

/// The base of some member, before an `@`, is the name, whatever its case.
pub open spec fn is_base_of_member(members: Seq<Seq<char>>, name: Seq<char>) -> bool {
    exists|i: int|
        0 <= i < members.len() && eq_ci(
            before_first(#[trigger] members[i], CharSet::One('@')),
            name,
        )
}

/// The name is that of a variable that the configuration declares as built in.
pub open spec fn is_builtin(rs: RuleSetV, name: Seq<char>) -> bool {
    rs.values.contains_key("variable"@) && is_base_of_member(rs.values["variable"@], name)
}

/// Whether the name is that of a variable that the configuration declares as built
/// in: nothing ever sets it. A member may carry a scope behind an `@`.
#[verifier::loop_isolation(false)]
pub fn is_builtin_variable(ruleset: &RuleSet, name: &str) -> (r: bool)
    ensures
        r == is_builtin(ruleset@, name@),
{
    match ruleset.values.get("variable") {
        Some(v) => {
            assert(v.deep_view() =~= texts(v@));
            let ghost all = texts(v@);
            let mut i: usize = 0;
            while i < v.len()
                invariant
                    i <= v@.len(),
                    forall|j: int|
                        0 <= j < i ==> !eq_ci(
                            before_first(#[trigger] all[j], CharSet::One('@')),
                            name@,
                        ),
                decreases v@.len() - i,
            {
                assert(all[i as int] == v@[i as int]@);
                if same_ci(head_before(v[i].as_str(), CharSet::One('@')), name) {
                    return true;
                }
                i += 1;
            }
            false
        },
        None => false,
    }
}

/// The project sets variables, and this is none of them, nor one of a loop around
/// it, nor one that is built in.
pub open spec fn is_unset(ctx: CtxV, name: Seq<char>, loop_vars: Seq<Seq<char>>) -> bool {
    !is_builtin(ctx.rs, name) && !loop_vars.contains(variable_name(name)) && match ctx.idx {
        Some(i) => i.variables != Set::<Seq<char>>::empty() && !i.variables.contains(
            variable_name(name),
        ),
        None => false,
    }
}

fn variable_is_unset(ctx: &ValidationCtx, name: &str, loop_vars: &Vec<String>) -> (r: bool)
    ensures
        r == is_unset(ctx@, name@, texts(loop_vars@)),
{
    if is_builtin_variable(ctx.ruleset, name) {
        return false;
    }
    let norm = VarIndex::normalize(name);
    if list_contains(loop_vars, norm.as_str()) {
        return false;
    }
    match ctx.type_index {
        Some(i) => !i.var_index.is_empty() && !i.var_index.contains(name),
        None => false,
    }
}

/// A value without a default behind it.
pub open spec fn without_default(v: Seq<char>) -> Seq<char> {
    trimmed(before_first(v, CharSet::Either('?', '^')))
}

/// A variable that is not set.
pub open spec fn unset_problem(ctx: CtxV, name: Seq<char>, pos: SourcePos) -> ErrorV {
    coded(cw246(), ctx.file, pos.line, pos.col, seq![name])
}

fn report_unset(ctx: &ValidationCtx, name: &str, pos: SourcePos) -> (r: ValidationError)
    ensures
        r@ == unset_problem(ctx@, name@, pos),
{
    report1(&cw246_unset_variable(), ctx.file_path, pos.line, pos.col, name)
}

/// What is wrong with the reading of a variable: nothing sets it.
pub open spec fn variable_get_problems(
    ctx: CtxV,
    raw: Seq<char>,
    pos: SourcePos,
    loop_vars: Seq<Seq<char>>,
) -> Seq<ErrorV> {
    let v = bare_text(raw);
    let core = without_default(v);
    if ctx.var_checks && v.len() > 0 && !is_dynamic_text(v) && !v.contains(':') && core.len() > 0
        && is_unset(ctx, core, loop_vars) {
        seq![unset_problem(ctx, core, pos)]
    } else {
        Seq::empty()
    }
}

/// Reports a variable that is read although nothing sets it. What is filled in when
/// the game runs is accepted.
pub fn check_variable_get(
    ctx: &ValidationCtx,
    raw: &str,
    pos: SourcePos,
    loop_vars: &Vec<String>,
) -> (r: Vec<ValidationError>)
    ensures
        views(r@) == variable_get_problems(ctx@, raw@, pos, texts(loop_vars@)),
{
    let mut out: Vec<ValidationError> = Vec::new();
    assert(views(out@) =~= Seq::empty());
    let v = to_bare(raw);
    if ctx.var_checks && v.unicode_len() > 0 && !text_is_dynamic(v) && !contains_char(v, ':') {
        let core = trim(head_before(v, CharSet::Either('?', '^')));
        if core.unicode_len() > 0 && variable_is_unset(ctx, core, loop_vars) {
            add_one(&mut out, report_unset(ctx, core, pos));
        }
    }
    assert(views(out@) =~= variable_get_problems(ctx@, raw@, pos, texts(loop_vars@)));
    out
}

/// The text may stand for a number or a variable without being either.
pub open spec fn bypasses(value: Value, v: Seq<char>) -> bool {
    v.len() == 0 || is_dynamic_text(v) || value is Bool || one_of_ci(v, "yes"@, "no"@)
}

/// What is wrong with a number or variable.
pub open spec fn variable_problems(
    ctx: CtxV,
    value: Value,
    is_int: bool,
    is_32bit: bool,
    pos: SourcePos,
    sc: Option<ScopeV>,
    loop_vars: Seq<Seq<char>>,
) -> Seq<ErrorV> {
    let v = bare_text(value_text(value));
    let core = without_default(v);
    if bypasses(value, v) {
        Seq::empty()
    } else {
        match read_number(core) {
            Some(n) => if is_int && number_has_fraction(n) {
                seq![coded(cw271(), ctx.file, pos.line, pos.col, Seq::empty())]
            } else if is_32bit && decimal_places_of(core) > 3 {
                seq![coded(cw270(), ctx.file, pos.line, pos.col, Seq::empty())]
            } else {
                Seq::empty()
            },
            None => {
                let scopeish = match sc {
                    Some(s) => is_scope_word(s.registry, core),
                    None => false,
                };
                if ctx.var_checks && !core.contains('.') && !core.contains(':') && !scopeish
                    && is_unset(ctx, core, loop_vars) {
                    seq![unset_problem(ctx, core, pos)]
                } else {
                    Seq::empty()
                }
            },
        }
    }
}

fn check_variable(
    ctx: &ValidationCtx,
    value: &Value,
    is_int: bool,
    is_32bit: bool,
    pos: SourcePos,
    scope_context: Option<&ScopeContext>,
    loop_vars: &Vec<String>,
) -> (r: Vec<ValidationError>)
    ensures
        views(r@) == variable_problems(
            ctx@,
            *value,
            is_int,
            is_32bit,
            pos,
            opt_scope(scope_context),
            texts(loop_vars@),
        ),
{
    let mut out: Vec<ValidationError> = Vec::new();
    assert(views(out@) =~= Seq::empty());
    let raw = leaf_value_to_string(value);
    let v = to_bare(raw.as_str());
    let is_bool = match value {
        Value::Bool(_) => true,
        _ => false,
    };
    if v.unicode_len() > 0 && !text_is_dynamic(v) && !is_bool && !is_yes_or_no(v) {
        let core = trim(head_before(v, CharSet::Either('?', '^')));
        match read(core) {
            Some(n) => {
                if is_int && has_fraction(&n) {
                    add_one(
                        &mut out,
                        report(&cw271_variable_int_only(), ctx.file_path, pos.line, pos.col),
                    );
                } else if is_32bit && decimal_places(core) > 3 {
                    add_one(
                        &mut out,
                        report(&cw270_variable_too_small(), ctx.file_path, pos.line, pos.col),
                    );
                }
            },
            None => {
                let scopeish = match scope_context {
                    Some(s) => resolves_as_scope_key(s, core),
                    None => false,
                };
                if ctx.var_checks && !contains_char(core, '.') && !contains_char(core, ':')
                    && !scopeish && variable_is_unset(ctx, core, loop_vars) {
                    add_one(&mut out, report_unset(ctx, core, pos));
                }
            },
        }
    }
    assert(views(out@) =~= variable_problems(
        ctx@,
        *value,
        is_int,
        is_32bit,
        pos,
        opt_scope(scope_context),
        texts(loop_vars@),
    ));
    out
}

// ---------------------------------------------------------------------------
// Instances

/// The text without what it may start and end with.
pub open spec fn without_affixes(v: Seq<char>, prefix: Seq<char>, suffix: Seq<char>) -> Seq<char> {
    let a = match strip_start(v, prefix) {
        Some(t) => t,
        None => v,
    };
    match strip_end(a, suffix) {
        Some(t) => t,
        None => a,
    }
}

/// The name that a value is looked up by.
pub open spec fn lookup_name(t: TypeTypeV, v: Seq<char>) -> Seq<char> {
    match t {
        TypeTypeV::Simple(_) => v,
        TypeTypeV::Complex { prefix, suffix, .. } => without_affixes(v, prefix, suffix),
    }
}

/// The type that is referred to.
pub open spec fn referred_type(t: TypeTypeV) -> Seq<char> {
    match t {
        TypeTypeV::Simple(n) => n,
        TypeTypeV::Complex { name, .. } => name,
    }
}

/// An instance is referred to: by its name, or, where the field adds text around
/// names, with that text, without it, or with it added once more.
pub open spec fn refers_to_instance(i: IndexV, t: TypeTypeV, v: Seq<char>) -> bool {
    let type_ = referred_type(t);
    i.has(type_, lookup_name(t, v)) || match t {
        TypeTypeV::Simple(_) => false,
        TypeTypeV::Complex { prefix, suffix, .. } => i.has(type_, v) || i.has(
            type_,
            prefix + v + suffix,
        ),
    }
}

/// A reference to an instance that does not exist.
pub open spec fn instance_problem(
    ctx: CtxV,
    key: Seq<char>,
    t: TypeTypeV,
    v: Seq<char>,
    pos: SourcePos,
) -> ErrorV {
    let name = lookup_name(t, v);
    let type_ = referred_type(t);
    if type_ == "event"@ {
        coded(cw222(), ctx.file, pos.line, pos.col, seq![name])
    } else {
        stated(
            cw500(),
            cw500().severity,
            ctx.file,
            pos.line,
            pos.col,
            "Field '"@ + key + "' references '"@ + name
                + "' which is not a known instance of type '"@ + type_ + "'"@,
        )
    }
}

/// What is wrong with a value that must name an instance of a type. Nothing is said
/// of an empty value, of one that is filled in when the game runs, of a subtype, or
/// where not all instances are known.
pub open spec fn type_problems(
    ctx: CtxV,
    key: Seq<char>,
    t: TypeTypeV,
    raw: Seq<char>,
    pos: SourcePos,
) -> Seq<ErrorV> {
    let v = unquoted(raw);
    let type_ = referred_type(t);
    match ctx.idx {
        Some(i) => if v.len() > 0 && !starts_char(v, '[') && !type_.contains('.') && i.complete
            && i.populated(type_) && !refers_to_instance(i, t, v) {
            seq![instance_problem(ctx, key, t, v, pos)]
        } else {
            Seq::empty()
        },
        None => Seq::empty(),
    }
}

fn strip_affixes<'a>(v: &'a str, prefix: &str, suffix: &str) -> (r: &'a str)
    ensures
        r@ == without_affixes(v@, prefix@, suffix@),
{
    let a = match strip_prefix(v, prefix) {
        Some(t) => t,
        None => v,
    };
    match strip_suffix(a, suffix) {
        Some(t) => t,
        None => a,
    }
}

fn find_lookup_name<'a>(t: &TypeType, v: &'a str) -> (r: &'a str)
    ensures
        r@ == lookup_name(t@, v@),
{
    match t {
        TypeType::Simple(_) => v,
        TypeType::Complex { prefix, suffix, .. } => strip_affixes(
            v,
            prefix.as_str(),
            suffix.as_str(),
        ),
    }
}

fn find_referred_type(t: &TypeType) -> (r: &str)
    ensures
        r@ == referred_type(t@),
{
    match t {
        TypeType::Simple(n) => n.as_str(),
        TypeType::Complex { name, .. } => name.as_str(),
    }
}

fn resolves(idx: &TypeIndex, t: &TypeType, v: &str) -> (r: bool)
    ensures
        r == refers_to_instance(idx@, t@, v@),
{
    let type_ = find_referred_type(t);
    if idx.contains(type_, find_lookup_name(t, v)) {
        return true;
    }
    match t {
        TypeType::Simple(_) => false,
        TypeType::Complex { prefix, suffix, .. } => {
            if idx.contains(type_, v) {
                return true;
            }
            let mut full = prefix.clone();
            full.append(v);
            full.append(suffix.as_str());
            idx.contains(type_, full.as_str())
        },
    }
}

fn report_instance(
    ctx: &ValidationCtx,
    key: &str,
    t: &TypeType,
    v: &str,
    pos: SourcePos,
) -> (r: ValidationError)
    ensures
        r@ == instance_problem(ctx@, key@, t@, v@, pos),
{
    let name = find_lookup_name(t, v);
    let type_ = find_referred_type(t);
    if same(type_, "event") {
        report1(&cw222_undefined_event(), ctx.file_path, pos.line, pos.col, name)
    } else {
        let mut message = "Field '".to_owned();
        message.append(key);
        message.append("' references '");
        message.append(name);
        message.append("' which is not a known instance of type '");
        message.append(type_);
        message.append("'");
        let code = cw500_type_not_found();
        ValidationError::from_code_with(
            &code,
            code.severity,
            ctx.file_path,
            pos.line,
            pos.col,
            message,
        )
    }
}

fn check_type(ctx: &ValidationCtx, key: &str, t: &TypeType, raw: &str, pos: SourcePos) -> (r: Vec<
    ValidationError,
>)
    ensures
        views(r@) == type_problems(ctx@, key@, t@, raw@, pos),
{
    let mut out: Vec<ValidationError> = Vec::new();
    assert(views(out@) =~= Seq::empty());
    let v = unquote_key(raw);
    let type_ = find_referred_type(t);
    match ctx.type_index {
        Some(idx) => {
            if v.unicode_len() > 0 && !starts_with_char(v, '[') && !is_subtype_key(type_)
                && idx.complete && idx.has_instances(type_) && !resolves(idx, t, v) {
                add_one(&mut out, report_instance(ctx, key, t, v, pos));
            }
        },
        None => {},
    }
    assert(views(out@) =~= type_problems(ctx@, key@, t@, raw@, pos));
    out
}

// ---------------------------------------------------------------------------
// Files

/// The same texture in the other format.
pub open spec fn sibling_texture(path: Seq<char>) -> Option<Seq<char>> {
    let lower = ascii_lower(path);
    match strip_end(lower, ".dds"@) {
        Some(stem) => Some(stem + ".tga"@),
        None => match strip_end(lower, ".tga"@) {
            Some(stem) => Some(stem + ".dds"@),
            None => None,
        },
    }
}

/// The same texture is shipped in the other format.
pub open spec fn has_sibling(files: Set<Seq<char>>, path: Seq<char>) -> bool {
    match sibling_texture(path) {
        Some(s) => files.contains(file_name(s)),
        None => false,
    }
}

/// Whether the same texture is shipped in the other format: the game takes either.
pub fn texture_sibling_exists(candidate: &str, file_index: &FileIndex) -> (r: bool)
    ensures
        r == has_sibling(file_index@, candidate@),
{
    let lower = to_ascii_lower(candidate);
    match strip_suffix(lower.as_str(), ".dds") {
        Some(stem) => {
            let mut s = stem.to_owned();
            s.append(".tga");
            file_index.contains(s.as_str())
        },
        None => match strip_suffix(lower.as_str(), ".tga") {
            Some(stem) => {
                let mut s = stem.to_owned();
                s.append(".dds");
                file_index.contains(s.as_str())
            },
            None => false,
        },
    }
}

/// The path with the extension that the field adds, if it lacks it.
pub open spec fn with_extension(v: Seq<char>, ext: Option<Seq<char>>) -> Seq<char> {
    match ext {
        Some(e) => if e.len() > 0 && !ends(ascii_lower(v), ascii_lower(e)) {
            v + e
        } else {
            v
        },
        None => v,
    }
}

/// The path with the prefix and the extension that the field adds, where it lacks
/// them.
pub open spec fn full_path(
    v: Seq<char>,
    prefix: Option<Seq<char>>,
    ext: Option<Seq<char>>,
) -> Seq<char> {
    match prefix {
        Some(p) => if !starts(ascii_lower(v), ascii_lower(p)) {
            p + with_extension(v, ext)
        } else {
            with_extension(v, ext)
        },
        None => with_extension(v, ext),
    }
}

/// The path is put together when the game runs.
pub open spec fn is_dynamic_path(v: Seq<char>) -> bool {
    v.len() == 0 || v.contains('$') || v.contains('[') || v.contains('<')
}

/// What is wrong with a path to a file. In a file of assets, a path may stand beside
/// the file itself.
pub open spec fn file_problems(
    ctx: CtxV,
    raw: Seq<char>,
    prefix: Option<Seq<char>>,
    ext: Option<Seq<char>>,
    pos: SourcePos,
) -> Seq<ErrorV> {
    let v = bare_text(raw);
    let path = full_path(v, prefix, ext);
    match ctx.idx {
        Some(i) => if i.files != Set::<Seq<char>>::empty() && !is_dynamic_path(v)
            && !i.files.contains(file_name(path)) && !has_sibling(i.files, path) && !(ends(
            ascii_lower(ctx.file),
            ".asset"@,
        ) && i.files.contains(beside(ctx.file, with_extension(v, ext)))) {
            seq![coded(cw113(), ctx.file, pos.line, pos.col, seq![path])]
        } else {
            Seq::empty()
        },
        None => Seq::empty(),
    }
}

fn add_extension(v: &str, ext: &Option<String>) -> (r: String)
    ensures
        r@ == with_extension(v@, opt_text(*ext)),
{
    let mut out = v.to_owned();
    match ext {
        Some(e) => {
            let a = to_ascii_lower(v);
            let b = to_ascii_lower(e.as_str());
            if e.as_str().unicode_len() > 0 && !ends_with(a.as_str(), b.as_str()) {
                out.append(e.as_str());
            }
        },
        None => {},
    }
    out
}

fn add_prefix(v: &str, prefix: &Option<String>, ext: &Option<String>) -> (r: String)
    ensures
        r@ == full_path(v@, opt_text(*prefix), opt_text(*ext)),
{
    let rel = add_extension(v, ext);
    match prefix {
        Some(p) => {
            let a = to_ascii_lower(v);
            let b = to_ascii_lower(p.as_str());
            if !starts_with(a.as_str(), b.as_str()) {
                let mut out = p.clone();
                out.append(rel.as_str());
                out
            } else {
                rel
            }
        },
        None => rel,
    }
}

fn check_file(
    ctx: &ValidationCtx,
    raw: &str,
    prefix: &Option<String>,
    ext: &Option<String>,
    pos: SourcePos,
) -> (r: Vec<ValidationError>)
    ensures
        views(r@) == file_problems(ctx@, raw@, opt_text(*prefix), opt_text(*ext), pos),
{
    let mut out: Vec<ValidationError> = Vec::new();
    assert(views(out@) =~= Seq::empty());
    match ctx.type_index {
        Some(idx) => {
            let v = to_bare(raw);
            if !idx.file_index.is_empty() && v.unicode_len() > 0 && !contains_char(v, '$')
                && !contains_char(v, '[') && !contains_char(v, '<') {
                let path = add_prefix(v, prefix, ext);
                let rel = add_extension(v, ext);
                let file_lower = to_ascii_lower(ctx.file_path);
                let in_place = ends_with(file_lower.as_str(), ".asset")
                    && idx.file_index.resolve_relative(ctx.file_path, rel.as_str());
                if !idx.file_index.contains(path.as_str()) && !texture_sibling_exists(
                    path.as_str(),
                    &idx.file_index,
                ) && !in_place {
                    add_one(
                        &mut out,
                        report1(
                            &cw113_missing_file(),
                            ctx.file_path,
                            pos.line,
                            pos.col,
                            path.as_str(),
                        ),
                    );
                }
            }
        },
        None => {},
    }
    assert(views(out@) =~= file_problems(ctx@, raw@, opt_text(*prefix), opt_text(*ext), pos));
    out
}

// ---------------------------------------------------------------------------
// All fields

/// What is wrong with a value that its field does not accept.
pub open spec fn mismatch_problems(ctx: CtxV, leaf: Leaf, right: FieldV) -> Seq<ErrorV> {
    if takes_value(right, leaf.value, ctx.rs) {
        Seq::empty()
    } else {
        seq![
            coded(
                cw240(),
                ctx.file,
                leaf.pos.start.line,
                leaf.pos.start.col,
                seq![
                    "Field '"@ + leaf.key@ + "' has value '"@ + value_text(leaf.value)
                        + "', expected "@ + expectation(right),
                ],
            ),
        ]
    }
}

/// What is wrong with a target.
pub open spec fn scope_problems(
    ctx: CtxV,
    leaf: Leaf,
    right: FieldV,
    sc: Option<ScopeV>,
) -> Seq<ErrorV> {
    match (right, sc) {
        (FieldV::ScopeField(expected), Some(s)) => if ctx.scope_checks {
            target_problem(s, value_text(leaf.value), expected, leaf.pos.start, ctx.file)
        } else {
            Seq::empty()
        },
        _ => Seq::empty(),
    }
}

/// What is wrong with the value of a leaf, taken as one value, whose rule has the field
/// `right` on the right. Each kind of reference is looked up where the data for it is
/// loaded; the operand of an arithmetic expression may be any value.
pub open spec fn single_value_problems(
    ctx: CtxV,
    leaf: Leaf,
    right: FieldV,
    sc: Option<ScopeV>,
    loop_vars: Seq<Seq<char>>,
) -> Seq<ErrorV> {
    let pos = leaf.pos.start;
    match right {
        FieldV::ValueField(ValueTypeV::MathExpr) => Seq::empty(),
        FieldV::LocalisationField { synced, is_inline } => loc_field_problems(
            ctx,
            leaf,
            synced,
            is_inline,
            sc,
        ),
        FieldV::TypeField(t) => type_problems(ctx, leaf.key@, t, value_text(leaf.value), pos),
        FieldV::FilepathField { prefix, extension } => file_problems(
            ctx,
            value_text(leaf.value),
            prefix,
            extension,
            pos,
        ),
        FieldV::VariableField { is_int, is_32bit, .. } => variable_problems(
            ctx,
            leaf.value,
            is_int,
            is_32bit,
            pos,
            sc,
            loop_vars,
        ),
        FieldV::VariableGetField(_) => variable_get_problems(
            ctx,
            value_text(leaf.value),
            pos,
            loop_vars,
        ),
        _ => scope_problems(ctx, leaf, right, sc) + mismatch_problems(ctx, leaf, right),
    }
}

fn check_scope(
    ctx: &ValidationCtx,
    leaf: &Leaf,
    right: &NewField,
    scope_context: Option<&ScopeContext>,
) -> (r: Vec<ValidationError>)
    ensures
        views(r@) == scope_problems(ctx@, *leaf, right@, opt_scope(scope_context)),
{
    let mut out: Vec<ValidationError> = Vec::new();
    assert(views(out@) =~= Seq::empty());
    match right {
        NewField::ScopeField(expected) => match scope_context {
            Some(s) => {
                if ctx.scope_checks {
                    let value = leaf_value_to_string(&leaf.value);
                    validate_scope_target(
                        s,
                        value.as_str(),
                        expected,
                        leaf.pos.start,
                        ctx.file_path,
                        &mut out,
                    );
                }
            },
            None => {},
        },
        _ => {},
    }
    assert(views(out@) =~= scope_problems(ctx@, *leaf, right@, opt_scope(scope_context)));
    out
}

fn check_mismatch(ctx: &ValidationCtx, leaf: &Leaf, right: &NewField, out: &mut Vec<ValidationError>)
    ensures
        views(final(out)@) == views(old(out)@) + mismatch_problems(ctx@, *leaf, right@),
{
    let ghost start = views(out@);
    if !field_matches_value(right, &leaf.value, ctx.ruleset) {
        let mut message = "Field '".to_owned();
        message.append(leaf.key.as_str());
        message.append("' has value '");
        message.append(leaf_value_to_string(&leaf.value).as_str());
        message.append("', expected ");
        message.append(field_to_description(right).as_str());
        add_one(
            out,
            report1(
                &cw240_unexpected_value(),
                ctx.file_path,
                leaf.pos.start.line,
                leaf.pos.start.col,
                message.as_str(),
            ),
        );
    }
    assert(views(out@) =~= start + mismatch_problems(ctx@, *leaf, right@));
}

/// Reports what is wrong with the value of a leaf, taken as one value, whose rule has
/// the field `right` on the right.
pub fn check_single_value(
    ctx: &ValidationCtx,
    leaf: &Leaf,
    right: &NewField,
    scope_context: Option<&ScopeContext>,
    loop_vars: &Vec<String>,
) -> (r: Vec<ValidationError>)
    ensures
        views(r@) == single_value_problems(
            ctx@,
            *leaf,
            right@,
            opt_scope(scope_context),
            texts(loop_vars@),
        ),
{
    let pos = leaf.pos.start;
    match right {
        NewField::ValueField(ValueType::MathExpr) => {
            let out: Vec<ValidationError> = Vec::new();
            assert(views(out@) =~= Seq::empty());
            out
        },
        NewField::LocalisationField { synced, is_inline } => validate_localisation_field(
            ctx,
            leaf,
            *synced,
            *is_inline,
            scope_context,
        ),
        NewField::TypeField(t) => check_type(
            ctx,
            leaf.key.as_str(),
            t,
            leaf_value_to_string(&leaf.value).as_str(),
            pos,
        ),
        NewField::FilepathField { prefix, extension } => check_file(
            ctx,
            leaf_value_to_string(&leaf.value).as_str(),
            prefix,
            extension,
            pos,
        ),
        NewField::VariableField { is_int, is_32bit, .. } => check_variable(
            ctx,
            &leaf.value,
            *is_int,
            *is_32bit,
            pos,
            scope_context,
            loop_vars,
        ),
        NewField::VariableGetField(_) => check_variable_get(
            ctx,
            leaf_value_to_string(&leaf.value).as_str(),
            pos,
            loop_vars,
        ),
        _ => {
            let mut out = check_scope(ctx, leaf, right, scope_context);
            check_mismatch(ctx, leaf, right, &mut out);
            out
        },
    }
}

} // verus!
