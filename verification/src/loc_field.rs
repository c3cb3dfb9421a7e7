//! References to localisation, and the names of modifiers.

use vstd::prelude::*;

use crate::ast::{Leaf, SourceRange, Value};
use crate::common::{is_number, is_yes_or_no, leaf_value_to_string, one_of_ci, value_text};
use crate::context::{
    CtxV, LocCommandDiagnostic, LocDiagnosticV, LocIndex, LocIndexV, ValidationCtx,
    command_diagnostics, in_names, missing_languages, names_contain, opt_scope,
};
use crate::diagnostic::{
    ErrorV, SuggestedFix, ValidationError, add_one, coded, ending, fixed_by, replace_fix, report1,
    report2, report3,
};
use crate::error_codes::{
    cw100, cw100_missing_localisation, cw122, cw122_loc_key_in_inline, cw226,
    cw226_invalid_loc_command, cw260, cw260_loc_command_wrong_scope, cw266,
    cw266_loc_command_not_in_data_type,
};
use crate::key_buffer::{fold_key, folded};
use crate::number::read_number;
use crate::rules_types::{lemma_views_push, views};
use crate::ruleset::RuleSet;
use crate::scope::{names_of, scope_names};
use crate::scope_engine::{RegistryV, ScopeContext, ScopeId, ScopeRegistry, ScopeV, empty_registry};
use crate::text::{
    CharSet, NameSet, char_is_white, contains_char, find_char, find_char_spec, is_white, join,
    join_spec, lowercase, replace, starts_char, starts_with_char, texts, to_chars, to_lowercase,
    trim_matches, trim_of,
};
use crate::type_index::{IndexV, InstanceV, TypeIndex, instances_of};

verus! {

// ---------------------------------------------------------------------------
// Modifiers

/// A template with a type in angle brackets: what stands before the brackets, the
/// type, and what stands behind them.
pub open spec fn template_parts(m: Seq<char>) -> Option<(Seq<char>, Seq<char>, Seq<char>)> {
    match (find_char_spec(m, '<'), find_char_spec(m, '>')) {
        (Some(open), Some(close)) => if open < close {
            Some(
                (
                    m.subrange(0, open),
                    m.subrange(open + 1, close),
                    m.subrange(close + 1, m.len() as int),
                ),
            )
        } else {
            None
        },
        _ => None,
    }
}

/// The set with the template filled in by the first `n` instances, in lower case.
pub open spec fn with_instances(
    s: Set<Seq<char>>,
    pre: Seq<char>,
    suf: Seq<char>,
    inst: Seq<InstanceV>,
    n: int,
) -> Set<Seq<char>>
    decreases n,
{
    if n <= 0 || n > inst.len() {
        s
    } else {
        with_instances(s, pre, suf, inst, n - 1).insert(
            lowercase(pre + inst[n - 1].name + suf),
        )
    }
}

/// The set with one modifier, or with those that a template stands for.
pub open spec fn with_modifier(s: Set<Seq<char>>, m: Seq<char>, idx: IndexV) -> Set<Seq<char>> {
    match template_parts(m) {
        Some((pre, type_, suf)) => {
            let inst = instances_of(idx.entries, type_, idx.entries.len() as int);
            with_instances(s, pre, suf, inst, inst.len() as int)
        },
        None => s.insert(lowercase(m)),
    }
}

/// The names of the first `n` modifiers.
pub open spec fn modifier_names(ms: Seq<Seq<char>>, idx: IndexV, n: int) -> Set<Seq<char>>
    decreases n,
{
    if n <= 0 || n > ms.len() {
        Set::empty()
    } else {
        with_modifier(modifier_names(ms, idx, n - 1), ms[n - 1], idx)
    }
}

fn add_modifier(out: &mut NameSet, m: &str, type_index: &TypeIndex)
    ensures
        final(out)@ == with_modifier(old(out)@, m@, type_index@),
{
    let ghost start = out@;
    match (find_char(m, '<'), find_char(m, '>')) {
        (Some(open), Some(close)) if open < close => {
            let n: usize = m.unicode_len();
            let pre = m.substring_char(0, open);
            let type_ = m.substring_char(open + 1, close);
            let suf = m.substring_char(close + 1, n);
            let inst = type_index.instances(type_);
            let ghost all = views(inst@);
            let mut i: usize = 0;
            while i < inst.len()
                invariant
                    i <= inst@.len(),
                    all == views(inst@),
                    out@ == with_instances(start, pre@, suf@, all, i as int),
                decreases inst@.len() - i,
            {
                assert(all[i as int] == inst@[i as int]@);
                let mut name = pre.to_owned();
                name.append(inst[i].name.as_str());
                name.append(suf);
                out.insert(to_lowercase(name.as_str()));
                i += 1;
            }
        },
        _ => {
            out.insert(to_lowercase(m));
        },
    }
}

/// The names of the modifiers that a rule set declares, in lower case. A name with a
/// type in it stands for one modifier for each instance of the type.
pub fn build_modifier_keys(ruleset: &RuleSet, type_index: &TypeIndex) -> (r: NameSet)
    ensures
        r@ == modifier_names(
            ruleset@.modifiers,
            type_index@,
            ruleset@.modifiers.len() as int,
        ),
{
    let mut out = NameSet::new();
    let mut i: usize = 0;
    while i < ruleset.modifiers.len()
        invariant
            i <= ruleset.modifiers@.len(),
            out@ == modifier_names(ruleset@.modifiers, type_index@, i as int),
        decreases ruleset.modifiers@.len() - i,
    {
        assert(ruleset@.modifiers[i as int] == ruleset.modifiers@[i as int]@);
        add_modifier(&mut out, ruleset.modifiers[i].as_str(), type_index);
        i += 1;
    }
    out
}

// ---------------------------------------------------------------------------
// References

/// A character that a bare word may not hold.
pub open spec fn ends_word(c: char) -> bool {
    is_white(c) || c == '{' || c == '}' || c == '=' || c == '<' || c == '>' || c == '!' || c
        == '?' || c == '"' || c == '#' || c == ',' || c == ';'
}

/// The text can stand without quotes and still be read as a string.
pub open spec fn is_bare(s: Seq<char>) -> bool {
    s.len() > 0 && !one_of_ci(s, "yes"@, "no"@) && read_number(s) is None && forall|i: int|
        0 <= i < s.len() ==> !ends_word(#[trigger] s[i])
}

/// Whether the text can stand without quotes and still be read as a string.
#[verifier::loop_isolation(false)]
pub fn is_bare_string_value(s: &str) -> (r: bool)
    ensures
        r == is_bare(s@),
{
    if s.unicode_len() == 0 || is_yes_or_no(s) || is_number(s) {
        return false;
    }
    let cs = to_chars(s);
    let mut i: usize = 0;
    while i < cs.len()
        invariant
            i <= cs@.len(),
            forall|j: int| 0 <= j < i ==> !ends_word(#[trigger] cs@[j]),
        decreases cs@.len() - i,
    {
        let c = cs[i];
        if char_is_white(c) || c == '{' || c == '}' || c == '=' || c == '<' || c == '>' || c == '!'
            || c == '?' || c == '"' || c == '#' || c == ',' || c == ';' {
            return false;
        }
        i += 1;
    }
    true
}

/// The text is no plain reference to a key: it is empty, prose, or filled in when
/// the game runs.
pub open spec fn is_no_reference(key: Seq<char>) -> bool {
    key.len() == 0 || key.contains(' ') || (key.contains('[') && key.contains(']'))
        || key.contains('$') || starts_char(key, '@')
}

/// The key is missing in `lang`.
pub open spec fn missing_key(
    file: Seq<char>,
    pos: SourceRange,
    key: Seq<char>,
    lang: Seq<char>,
) -> ErrorV {
    ending(coded(cw100(), file, pos.start.line, pos.start.col, seq![key, lang]), pos.end)
}

/// The key is missing in each of the first `n` languages.
pub open spec fn missing_in(
    file: Seq<char>,
    pos: SourceRange,
    key: Seq<char>,
    langs: Seq<Seq<char>>,
    n: int,
) -> Seq<ErrorV>
    decreases n,
{
    if n <= 0 || n > langs.len() {
        Seq::empty()
    } else {
        missing_in(file, pos, key, langs, n - 1).push(missing_key(file, pos, key, langs[n - 1]))
    }
}

/// How a reference is written and what its field asks for.
#[derive(Clone, Copy)]
pub struct LocReference {
    pub quoted: bool,
    /// The key must exist in every language.
    pub synced: bool,
    /// The text may be shown as it is.
    pub is_inline: bool,
    pub pos: SourceRange,
    pub value_pos: SourceRange,
}

/// A quoted text that is a key, which may have been meant.
pub open spec fn quoted_key(file: Seq<char>, at: LocReference, key: Seq<char>) -> ErrorV {
    ending(
        fixed_by(
            coded(cw122(), file, at.pos.start.line, at.pos.start.col, seq![key]),
            replace_fix("Remove unnecessary quotes"@, at.value_pos, key),
        ),
        at.pos.end,
    )
}

/// What is wrong with the key itself.
pub open spec fn existence_problems(
    ctx: CtxV,
    loc: LocIndexV,
    key: Seq<char>,
    at: LocReference,
) -> Seq<ErrorV> {
    let lower = folded(key);
    let typed = in_names(ctx.extra_loc_keys, lower);
    let exists_ = loc.has_key(lower) || typed;
    if at.is_inline {
        if at.quoted && exists_ && is_bare(key) {
            seq![quoted_key(ctx.file, at, key)]
        } else if !at.quoted && !exists_ {
            seq![missing_key(ctx.file, at.pos, key, "any language"@)]
        } else {
            Seq::empty()
        }
    } else if at.synced && !typed {
        let langs = missing_languages(loc.languages, lower, loc.languages.len() as int);
        missing_in(ctx.file, at.pos, key, langs, langs.len() as int)
    } else if !exists_ {
        seq![missing_key(ctx.file, at.pos, key, "any language"@)]
    } else {
        Seq::empty()
    }
}

/// The registry of a context; an empty one where scopes are not followed.
pub open spec fn registry_or_empty(sc: Option<ScopeV>) -> RegistryV {
    match sc {
        Some(s) => s.registry,
        None => empty_registry(),
    }
}

/// What is wrong with a command, as a diagnostic.
pub open spec fn command_problem(
    d: LocDiagnosticV,
    key: Seq<char>,
    pos: SourceRange,
    file: Seq<char>,
    reg: RegistryV,
) -> ErrorV {
    let e = match d {
        LocDiagnosticV::WrongScope { command, current_scope, expected_scopes } => coded(
            cw260(),
            file,
            pos.start.line,
            pos.start.col,
            seq![
                command,
                reg.name_of(current_scope),
                join_spec(
                    scope_names(reg, expected_scopes, expected_scopes.len() as int),
                    ", "@,
                ),
            ],
        ),
        LocDiagnosticV::ChainEndsInScope { command } => coded(
            cw266(),
            file,
            pos.start.line,
            pos.start.col,
            seq![key, command, "scope"@],
        ),
        LocDiagnosticV::NotFound { command } => coded(
            cw226(),
            file,
            pos.start.line,
            pos.start.col,
            seq![key, command],
        ),
    };
    ending(e, pos.end)
}

/// What is wrong with the first `n` commands.
pub open spec fn command_problems(
    d: Seq<LocDiagnosticV>,
    key: Seq<char>,
    pos: SourceRange,
    file: Seq<char>,
    reg: RegistryV,
    n: int,
) -> Seq<ErrorV>
    decreases n,
{
    if n <= 0 || n > d.len() {
        Seq::empty()
    } else {
        command_problems(d, key, pos, file, reg, n - 1).push(
            command_problem(d[n - 1], key, pos, file, reg),
        )
    }
}

/// What is wrong with a reference to localisation: with its key, and with the
/// commands in its text where it is shown.
pub open spec fn reference_problems(
    ctx: CtxV,
    key: Seq<char>,
    at: LocReference,
    sc: Option<ScopeV>,
) -> Seq<ErrorV> {
    match ctx.loc {
        None => Seq::empty(),
        Some(loc) => if is_no_reference(key) {
            Seq::empty()
        } else {
            let lower = folded(key);
            let scope = match sc {
                Some(s) => s.current(),
                None => ScopeId::Any,
            };
            let d = command_diagnostics(loc.commands, lower, scope, 0);
            existence_problems(ctx, loc, key, at) + (if loc.has_key(lower) || in_names(
                ctx.extra_loc_keys,
                lower,
            ) {
                command_problems(d, key, at.pos, ctx.file, registry_or_empty(sc), d.len() as int)
            } else {
                Seq::empty()
            })
        },
    }
}

fn report_missing(file: &str, pos: SourceRange, key: &str, lang: &str) -> (r: ValidationError)
    ensures
        r@ == missing_key(file@, pos, key@, lang@),
{
    report2(
        &cw100_missing_localisation(),
        file,
        pos.start.line,
        pos.start.col,
        key,
        lang,
    ).with_end(pos.end)
}

fn report_missing_in(file: &str, pos: SourceRange, key: &str, langs: &Vec<String>) -> (r: Vec<
    ValidationError,
>)
    ensures
        views(r@) == missing_in(file@, pos, key@, texts(langs@), langs@.len() as int),
{
    let mut out: Vec<ValidationError> = Vec::new();
    let ghost all = texts(langs@);
    let mut i: usize = 0;
    assert(views(out@) =~= missing_in(file@, pos, key@, all, 0));
    while i < langs.len()
        invariant
            i <= langs@.len(),
            all == texts(langs@),
            views(out@) == missing_in(file@, pos, key@, all, i as int),
        decreases langs@.len() - i,
    {
        assert(all[i as int] == langs@[i as int]@);
        let ghost before = out@;
        let e = report_missing(file, pos, key, langs[i].as_str());
        out.push(e);
        proof {
            lemma_views_push(before, e);
        }
        i += 1;
    }
    out
}

fn report_existence(
    ctx: &ValidationCtx,
    loc: &LocIndex,
    key: &str,
    lower: &str,
    at: LocReference,
) -> (r: Vec<ValidationError>)
    requires
        lower@ == folded(key@),
    ensures
        views(r@) == existence_problems(ctx@, loc@, key@, at),
{
    let typed = names_contain(ctx.extra_loc_keys, lower);
    let exists_ = loc.exists_any(lower) || typed;
    let file = ctx.file_path;
    let mut out: Vec<ValidationError> = Vec::new();
    assert(views(out@) =~= Seq::empty());
    if at.is_inline {
        if at.quoted && exists_ && is_bare_string_value(key) {
            let fix = SuggestedFix::replace("Remove unnecessary quotes", at.value_pos, key);
            let e = report1(
                &cw122_loc_key_in_inline(),
                file,
                at.pos.start.line,
                at.pos.start.col,
                key,
            ).with_fix(fix).with_end(at.pos.end);
            add_one(&mut out, e);
        } else if !at.quoted && !exists_ {
            add_one(&mut out, report_missing(file, at.pos, key, "any language"));
        }
    } else if at.synced && !typed {
        return report_missing_in(file, at.pos, key, &loc.missing_synced_languages(lower));
    } else if !exists_ {
        add_one(&mut out, report_missing(file, at.pos, key, "any language"));
    }
    assert(views(out@) =~= existence_problems(ctx@, loc@, key@, at));
    out
}

fn report_command(
    d: &LocCommandDiagnostic,
    key: &str,
    pos: SourceRange,
    file: &str,
    reg: &ScopeRegistry,
) -> (r: ValidationError)
    ensures
        r@ == command_problem(d@, key@, pos, file@, reg@),
{
    let (line, col) = (pos.start.line, pos.start.col);
    let e = match d {
        LocCommandDiagnostic::WrongScope { command, current_scope, expected_scopes } => {
            let names = names_of(reg, expected_scopes);
            report3(
                &cw260_loc_command_wrong_scope(),
                file,
                line,
                col,
                command.as_str(),
                reg.name_of(*current_scope).as_str(),
                join(&names, ", ").as_str(),
            )
        },
        LocCommandDiagnostic::ChainEndsInScope { command } => report3(
            &cw266_loc_command_not_in_data_type(),
            file,
            line,
            col,
            key,
            command.as_str(),
            "scope",
        ),
        LocCommandDiagnostic::NotFound { command } => report2(
            &cw226_invalid_loc_command(),
            file,
            line,
            col,
            key,
            command.as_str(),
        ),
    };
    e.with_end(pos.end)
}

fn report_commands(
    d: &Vec<LocCommandDiagnostic>,
    key: &str,
    pos: SourceRange,
    file: &str,
    reg: &ScopeRegistry,
    out: &mut Vec<ValidationError>,
)
    ensures
        views(final(out)@) == views(old(out)@) + command_problems(
            views(d@),
            key@,
            pos,
            file@,
            reg@,
            d@.len() as int,
        ),
{
    let ghost start = views(out@);
    let ghost all = views(d@);
    let mut i: usize = 0;
    assert(views(out@) =~= start + command_problems(all, key@, pos, file@, reg@, 0));
    while i < d.len()
        invariant
            i <= d@.len(),
            all == views(d@),
            views(out@) == start + command_problems(all, key@, pos, file@, reg@, i as int),
        decreases d@.len() - i,
    {
        assert(all[i as int] == d@[i as int]@);
        add_one(out, report_command(&d[i], key, pos, file, reg));
        assert(views(out@) =~= start + command_problems(all, key@, pos, file@, reg@, i + 1));
        i += 1;
    }
}

/// Reports what is wrong with a reference to localisation. Without localisation
/// loaded nothing is.
pub fn check_loc_key(
    ctx: &ValidationCtx,
    key: &str,
    at: LocReference,
    scope_context: Option<&ScopeContext>,
) -> (r: Vec<ValidationError>)
    ensures
        views(r@) == reference_problems(ctx@, key@, at, opt_scope(scope_context)),
{
    let loc = match ctx.loc_index {
        Some(l) => l,
        None => {
            let out: Vec<ValidationError> = Vec::new();
            assert(views(out@) =~= Seq::empty());
            return out;
        },
    };
    if key.unicode_len() == 0 || contains_char(key, ' ') || (contains_char(key, '[')
        && contains_char(key, ']')) || contains_char(key, '$') || starts_with_char(key, '@') {
        let out: Vec<ValidationError> = Vec::new();
        assert(views(out@) =~= Seq::empty());
        return out;
    }
    let lower = fold_key(key);
    let mut out = report_existence(ctx, loc, key, lower.as_str(), at);
    let ghost first = views(out@);
    if loc.exists_any(lower.as_str()) || names_contain(ctx.extra_loc_keys, lower.as_str()) {
        let scope = match scope_context {
            Some(s) => s.current(),
            None => ScopeId::Any,
        };
        match loc.diagnostics(lower.as_str(), scope) {
            Some(d) => {
                match scope_context {
                    Some(s) => {
                        report_commands(d, key, at.pos, ctx.file_path, s.registry, &mut out);
                    },
                    None => {
                        let reg = ScopeRegistry::new();
                        report_commands(d, key, at.pos, ctx.file_path, &reg, &mut out);
                    },
                }
            },
            None => {},
        }
    }
    assert(views(out@) =~= reference_problems(ctx@, key@, at, opt_scope(scope_context)));
    out
}

/// What is wrong with a leaf whose value refers to localisation. A block is a
/// reference with parameters, whose key is a leaf of its own.
pub open spec fn loc_field_problems(
    ctx: CtxV,
    leaf: Leaf,
    synced: bool,
    is_inline: bool,
    sc: Option<ScopeV>,
) -> Seq<ErrorV> {
    if leaf.value is Clause {
        Seq::empty()
    } else {
        reference_problems(
            ctx,
            trim_of(value_text(leaf.value), CharSet::One('"')),
            LocReference {
                quoted: leaf.value is QString,
                synced,
                is_inline,
                pos: leaf.pos,
                value_pos: leaf.value_pos,
            },
            sc,
        )
    }
}

/// Reports what is wrong with a leaf whose value refers to localisation.
pub fn validate_localisation_field(
    ctx: &ValidationCtx,
    leaf: &Leaf,
    synced: bool,
    is_inline: bool,
    scope_context: Option<&ScopeContext>,
) -> (r: Vec<ValidationError>)
    ensures
        views(r@) == loc_field_problems(
            ctx@,
            *leaf,
            synced,
            is_inline,
            opt_scope(scope_context),
        ),
{
    let quoted = match &leaf.value {
        Value::Clause(_) => {
            let out: Vec<ValidationError> = Vec::new();
            assert(views(out@) =~= Seq::empty());
            return out;
        },
        Value::QString(_) => true,
        _ => false,
    };
    let raw = leaf_value_to_string(&leaf.value);
    let key = trim_matches(raw.as_str(), CharSet::One('"'));
    let at = LocReference {
        quoted,
        synced,
        is_inline,
        pos: leaf.pos,
        value_pos: leaf.value_pos,
    };
    check_loc_key(ctx, key, at, scope_context)
}

} // verus!
