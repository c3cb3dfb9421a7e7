//! The children of a block against the rules for it.
//!
//! A child may be accepted by several rules. It is valid if it is so under any of
//! them; where it is under none, the problems under the rule with the fewest are
//! reported.

use vstd::prelude::*;

use crate::ast::{Child, Comment, Leaf, LeafValue, SourcePos, Value};
use crate::cardinality::{cardinality_problems, enforce_cardinality};
use crate::common::{
    is_data_ref, is_zero_value, leaf_value_to_string, looks_like_data_ref, value_is_zero,
    value_text,
};
use crate::context::{CtxV, ValidationCtx, in_names, names_contain, opt_scope};
use crate::diagnostic::{
    ErrorV, ValidationError, add_all, add_one, coded, report1, report2, report3, stated,
};
use crate::error_codes::{
    CodeV, ErrorSeverity, cw104, cw104_incorrect_trigger_scope, cw105,
    cw105_incorrect_effect_scope, cw106, cw106_incorrect_scope_scope, cw235, cw235_zero_modifier,
    cw247, cw247_rule_wrong_scope, cw248, cw248_invalid_scope_command, cw262,
    cw262_unexpected_property_node, cw263, cw263_unexpected_property_leaf, cw264,
    cw264_unexpected_property_leaf_value, cw265, cw265_unexpected_property_value_clause, cw267,
    cw267_unexpected_alias_key_value, cw282, cw282_redundant_default_bool,
};
use crate::field_match::{
    Overload, alias_overloads, field_matches_value, matching, matching_candidates, overloads,
    refs_view, takes_value,
};
use crate::leaf_check::{
    bare_text, check_single_value, check_variable_get, single_value_problems, to_bare,
    variable_get_problems,
};
use crate::rule_converter::{unquote_key, unquoted};
use crate::rules_types::{
    FieldV, NewField, Options, OptionsV, RuleType, RuleTypeV, RuleV, ValueType, ValueTypeV,
    opt_view, rule_view, rules_view, views,
};
use crate::ruleset::RuleSetV;
use crate::scope::{block_scope, enter_block_scope, scope_fits, scope_matches_required};
use crate::scope_engine::{
    RegistryV, ScopeContext, ScopeId, ScopeRegistry, ScopeResult, ScopeResultV, ScopeV,
};
use crate::subtype::{flatten_nested_subtype_rules, flattened};
use crate::text::{
    ascii_lower, clone_list, contains_char, eq_ci, join, join_spec, lowercase, same, same_ci,
    starts_char, starts_with_char, texts, to_ascii_lower, to_chars, to_lowercase,
};
use crate::type_index::{Game, VarIndex, variable_name};

verus! {

// ---------------------------------------------------------------------------
// Scopes

/// The context in a block of that key, if scopes are followed.
pub open spec fn opt_block_scope(
    sc: Option<ScopeV>,
    key: Seq<char>,
    o: OptionsV,
    game: Option<Game>,
    numeric_state_ok: bool,
) -> Option<ScopeV> {
    match sc {
        Some(s) => Some(block_scope(s, key, o, game, numeric_state_ok)),
        None => None,
    }
}

/// The context in a block of that key, if scopes are followed.
pub fn scope_in_block<'a>(
    scope_context: Option<&ScopeContext<'a>>,
    key: &str,
    opts: &Options,
    game: Option<Game>,
    numeric_state_ok: bool,
) -> (r: Option<ScopeContext<'a>>)
    ensures
        opt_view(r) == opt_block_scope(
            opt_scope(scope_context),
            key@,
            opts@,
            game,
            numeric_state_ok,
        ),
{
    match scope_context {
        Some(s) => {
            let mut inner = s.clone();
            enter_block_scope(&mut inner, key, opts, game, numeric_state_ok);
            Some(inner)
        },
        None => None,
    }
}

/// A context by reference.
pub fn scope_ref<'a, 'b>(o: &'b Option<ScopeContext<'a>>) -> (r: Option<&'b ScopeContext<'a>>)
    ensures
        opt_scope(r) == opt_view(*o),
{
    match o {
        Some(s) => Some(s),
        None => None,
    }
}

/// A rule that is used in a scope that it does not support.
pub open spec fn required_scope_problems(
    ctx: CtxV,
    leaf: Leaf,
    key: Seq<char>,
    o: OptionsV,
    sc: Option<ScopeV>,
) -> Seq<ErrorV> {
    match sc {
        Some(s) => if o.required_scopes.len() > 0 && !scope_fits(
            s.registry,
            s.current(),
            o.required_scopes,
        ) {
            seq![
                coded(
                    cw247(),
                    ctx.file,
                    leaf.pos.start.line,
                    leaf.pos.start.col,
                    seq![
                        key,
                        s.registry.name_of(s.current()),
                        join_spec(o.required_scopes, " or "@),
                    ],
                ),
            ]
        } else {
            Seq::empty()
        },
        None => Seq::empty(),
    }
}

fn check_required_scopes(
    ctx: &ValidationCtx,
    leaf: &Leaf,
    key: &str,
    opts: &Options,
    scope_context: Option<&ScopeContext>,
) -> (r: Vec<ValidationError>)
    ensures
        views(r@) == required_scope_problems(
            ctx@,
            *leaf,
            key@,
            opts@,
            opt_scope(scope_context),
        ),
{
    let mut out: Vec<ValidationError> = Vec::new();
    assert(views(out@) =~= Seq::empty());
    match scope_context {
        Some(s) => {
            if opts.required_scopes.len() > 0 && !scope_matches_required(
                s.current(),
                s.registry,
                &opts.required_scopes,
            ) {
                add_one(
                    &mut out,
                    report3(
                        &cw247_rule_wrong_scope(),
                        ctx.file_path,
                        leaf.pos.start.line,
                        leaf.pos.start.col,
                        key,
                        s.registry.name_of(s.current()).as_str(),
                        join(&opts.required_scopes, " or ").as_str(),
                    ),
                );
            }
        },
        None => {},
    }
    assert(views(out@) =~= required_scope_problems(
        ctx@,
        *leaf,
        key@,
        opts@,
        opt_scope(scope_context),
    ));
    out
}

// ---------------------------------------------------------------------------
// Aliases

/// A usage that has not the shape of its alias.
pub open spec fn mismatch_problem(
    ctx: CtxV,
    category: Seq<char>,
    value: Seq<char>,
    pos: SourcePos,
) -> ErrorV {
    coded(cw267(), ctx.file, pos.line, pos.col, seq![category, value])
}

fn alias_mismatch_error(ctx: &ValidationCtx, category: &str, value: &str, pos: SourcePos) -> (r:
    ValidationError)
    ensures
        r@ == mismatch_problem(ctx@, category@, value@, pos),
{
    report2(
        &cw267_unexpected_alias_key_value(),
        ctx.file_path,
        pos.line,
        pos.col,
        category,
        value,
    )
}

/// A chain that holds a part that is no command.
pub open spec fn chain_problems(
    ctx: CtxV,
    key: Seq<char>,
    pos: SourcePos,
    sc: Option<ScopeV>,
) -> Seq<ErrorV> {
    match sc {
        Some(s) => if ctx.scope_checks && key.contains('.') && !is_data_ref(key) && s.command(key)
            == ScopeResultV::NotFound {
            seq![coded(cw248(), ctx.file, pos.line, pos.col, seq![key])]
        } else {
            Seq::empty()
        },
        None => Seq::empty(),
    }
}

fn check_chain(
    ctx: &ValidationCtx,
    key: &str,
    pos: SourcePos,
    scope_context: Option<&ScopeContext>,
) -> (r: Vec<ValidationError>)
    ensures
        views(r@) == chain_problems(ctx@, key@, pos, opt_scope(scope_context)),
{
    let mut out: Vec<ValidationError> = Vec::new();
    assert(views(out@) =~= Seq::empty());
    match scope_context {
        Some(s) => {
            if ctx.scope_checks && contains_char(key, '.') && !looks_like_data_ref(key) {
                match s.probe(key) {
                    ScopeResult::NotFound => {
                        add_one(
                            &mut out,
                            report1(
                                &cw248_invalid_scope_command(),
                                ctx.file_path,
                                pos.line,
                                pos.col,
                                key,
                            ),
                        );
                    },
                    _ => {},
                }
            }
        },
        None => {},
    }
    assert(views(out@) =~= chain_problems(ctx@, key@, pos, opt_scope(scope_context)));
    out
}

/// Some of the overloads is certain.
pub open spec fn any_confident(ov: Seq<(RuleV, bool)>) -> bool {
    exists|i: int| 0 <= i < ov.len() && (#[trigger] ov[i]).1
}

/// Some certain overload may be used in the scope.
pub open spec fn some_scope_fits(reg: RegistryV, scope: ScopeId, ov: Seq<(RuleV, bool)>) -> bool {
    exists|i: int|
        0 <= i < ov.len() && (#[trigger] ov[i]).1 && scope_fits(
            reg,
            scope,
            ov[i].0.1.required_scopes,
        )
}

/// The text `a` comes before `b`, character by character.
pub open spec fn text_before(a: Seq<char>, b: Seq<char>) -> bool
    decreases a.len(),
{
    if b.len() == 0 {
        false
    } else if a.len() == 0 {
        true
    } else if a[0] != b[0] {
        (a[0] as u32) < (b[0] as u32)
    } else {
        text_before(a.subrange(1, a.len() as int), b.subrange(1, b.len() as int))
    }
}

/// A sorted list with the text in its place, once.
pub open spec fn inserted(v: Seq<Seq<char>>, s: Seq<char>) -> Seq<Seq<char>>
    decreases v.len(),
{
    if v.len() == 0 {
        seq![s]
    } else if v[0] == s {
        v
    } else if text_before(s, v[0]) {
        seq![s] + v
    } else {
        seq![v[0]] + inserted(v.subrange(1, v.len() as int), s)
    }
}

/// A sorted list with the first `n` texts in their places.
pub open spec fn all_inserted(v: Seq<Seq<char>>, more: Seq<Seq<char>>, n: int) -> Seq<Seq<char>>
    decreases n,
{
    if n <= 0 || n > more.len() {
        v
    } else {
        inserted(all_inserted(v, more, n - 1), more[n - 1])
    }
}

/// The scopes that the certain ones of the first `n` overloads require, sorted, each
/// once.
pub open spec fn required_by(ov: Seq<(RuleV, bool)>, n: int) -> Seq<Seq<char>>
    decreases n,
{
    if n <= 0 || n > ov.len() {
        Seq::empty()
    } else if ov[n - 1].1 {
        let names = ov[n - 1].0.1.required_scopes;
        all_inserted(required_by(ov, n - 1), names, names.len() as int)
    } else {
        required_by(ov, n - 1)
    }
}

/// The code for a usage in the wrong scope.
pub open spec fn wrong_scope_code(category: Seq<char>) -> CodeV {
    if category == "trigger"@ {
        cw104()
    } else if category == "effect"@ {
        cw105()
    } else {
        cw106()
    }
}

/// A usage in a scope that none of its certain overloads supports. The scope of a
/// modifier says where it takes effect, not where it may stand.
pub open spec fn alias_scope_problems(
    ctx: CtxV,
    category: Seq<char>,
    key: Seq<char>,
    pos: SourcePos,
    sc: Option<ScopeV>,
    ov: Seq<(RuleV, bool)>,
) -> Seq<ErrorV> {
    match sc {
        Some(s) => if ctx.scope_checks && category != "modifier"@ && any_confident(ov)
            && !some_scope_fits(s.registry, s.current(), ov) {
            seq![
                coded(
                    wrong_scope_code(category),
                    ctx.file,
                    pos.line,
                    pos.col,
                    seq![
                        key,
                        s.registry.name_of(s.current()),
                        join_spec(required_by(ov, ov.len() as int), " or "@),
                    ],
                ),
            ]
        } else {
            Seq::empty()
        },
        None => Seq::empty(),
    }
}

/// Whether `a` comes before `b`, character by character.
fn comes_before(a: &Vec<char>, b: &Vec<char>) -> (r: bool)
    ensures
        r == text_before(a@, b@),
{
    let mut i: usize = 0;
    assert(a@.subrange(0, a@.len() as int) =~= a@);
    assert(b@.subrange(0, b@.len() as int) =~= b@);
    while i < a.len() && i < b.len()
        invariant
            i <= a@.len(),
            i <= b@.len(),
            text_before(a@, b@) == text_before(
                a@.subrange(i as int, a@.len() as int),
                b@.subrange(i as int, b@.len() as int),
            ),
        decreases a@.len() - i,
    {
        if a[i] != b[i] {
            return (a[i] as u32) < (b[i] as u32);
        }
        assert(a@.subrange(i as int, a@.len() as int).subrange(1, a@.len() - i) =~= a@.subrange(
            i + 1,
            a@.len() as int,
        ));
        assert(b@.subrange(i as int, b@.len() as int).subrange(1, b@.len() - i) =~= b@.subrange(
            i + 1,
            b@.len() as int,
        ));
        i += 1;
    }
    i < b.len()
}

proof fn lemma_inserted_at(v: Seq<Seq<char>>, s: Seq<char>, k: int)
    requires
        0 <= k <= v.len(),
        forall|j: int| 0 <= j < k ==> #[trigger] v[j] != s && !text_before(s, v[j]),
    ensures
        inserted(v, s) == v.subrange(0, k) + inserted(v.subrange(k, v.len() as int), s),
    decreases k,
{
    if k == 0 {
        assert(v.subrange(0, v.len() as int) =~= v);
        assert(v.subrange(0, 0) + inserted(v, s) =~= inserted(v, s));
    } else {
        let w = v.subrange(1, v.len() as int);
        assert(v[0] != s && !text_before(s, v[0]));
        assert forall|j: int| 0 <= j < k - 1 implies #[trigger] w[j] != s && !text_before(
            s,
            w[j],
        ) by {
            assert(w[j] == v[j + 1]);
        }
        lemma_inserted_at(w, s, k - 1);
        assert(w.subrange(k - 1, w.len() as int) =~= v.subrange(k, v.len() as int));
        assert(seq![v[0]] + w.subrange(0, k - 1) =~= v.subrange(0, k));
        assert(seq![v[0]] + (w.subrange(0, k - 1) + inserted(
            v.subrange(k, v.len() as int),
            s,
        )) =~= v.subrange(0, k) + inserted(v.subrange(k, v.len() as int), s));
    }
}

/// Puts the text in its place in a sorted list, unless it is there.
fn insert_sorted(v: &mut Vec<String>, s: &str)
    ensures
        texts(final(v)@) == inserted(texts(old(v)@), s@),
{
    let ghost all = texts(v@);
    let ghost start = v@;
    let cs = to_chars(s);
    let mut i: usize = 0;
    while i < v.len()
        invariant
            i <= v@.len(),
            v@ == start,
            all == texts(v@),
            cs@ == s@,
            forall|j: int| 0 <= j < i ==> #[trigger] all[j] != s@ && !text_before(s@, all[j]),
        ensures
            i <= v@.len(),
            v@ == start,
            all == texts(v@),
            forall|j: int| 0 <= j < i ==> #[trigger] all[j] != s@ && !text_before(s@, all[j]),
            i < v@.len() ==> all[i as int] == s@ || text_before(s@, all[i as int]),
        decreases v@.len() - i,
    {
        assert(all[i as int] == v@[i as int]@);
        let other = to_chars(v[i].as_str());
        if same(v[i].as_str(), s) || comes_before(&cs, &other) {
            break;
        }
        i += 1;
    }
    proof {
        lemma_inserted_at(all, s@, i as int);
    }
    let ghost rest = all.subrange(i as int, all.len() as int);
    if i < v.len() {
        assert(rest[0] == all[i as int]);
        assert(all[i as int] == v@[i as int]@);
        if same(v[i].as_str(), s) {
            assert(all.subrange(0, i as int) + rest =~= all);
            return;
        }
    }
    v.insert(i, s.to_owned());
    assert(texts(v@) =~= all.subrange(0, i as int) + (seq![s@] + rest));
    assert(inserted(rest, s@) =~= seq![s@] + rest);
}

fn insert_all(v: &mut Vec<String>, more: &Vec<String>)
    ensures
        texts(final(v)@) == all_inserted(texts(old(v)@), texts(more@), more@.len() as int),
{
    let ghost start = texts(v@);
    let ghost all = texts(more@);
    let mut i: usize = 0;
    while i < more.len()
        invariant
            i <= more@.len(),
            all == texts(more@),
            texts(v@) == all_inserted(start, all, i as int),
        decreases more@.len() - i,
    {
        assert(all[i as int] == more@[i as int]@);
        insert_sorted(v, more[i].as_str());
        i += 1;
    }
}

fn find_required(ov: &Vec<Overload>) -> (r: Vec<String>)
    ensures
        texts(r@) == required_by(views(ov@), ov@.len() as int),
{
    let mut out: Vec<String> = Vec::new();
    let ghost all = views(ov@);
    let mut i: usize = 0;
    assert(texts(out@) =~= required_by(all, 0));
    while i < ov.len()
        invariant
            i <= ov@.len(),
            all == views(ov@),
            texts(out@) == required_by(all, i as int),
        decreases ov@.len() - i,
    {
        assert(all[i as int] == ov@[i as int]@);
        if ov[i].confident {
            insert_all(&mut out, &ov[i].rule.1.required_scopes);
        }
        i += 1;
    }
    out
}

/// Whether some overload is certain, and whether some certain one may be used in the
/// scope.
#[verifier::loop_isolation(false)]
fn test_scopes(ov: &Vec<Overload>, registry: &ScopeRegistry, scope: ScopeId) -> (r: (bool, bool))
    ensures
        r.0 == any_confident(views(ov@)),
        r.1 == some_scope_fits(registry@, scope, views(ov@)),
{
    let ghost all = views(ov@);
    let mut any = false;
    let mut i: usize = 0;
    while i < ov.len()
        invariant
            i <= ov@.len(),
            any == (exists|j: int| 0 <= j < i && (#[trigger] all[j]).1),
            forall|j: int|
                0 <= j < i ==> !((#[trigger] all[j]).1 && scope_fits(
                    registry@,
                    scope,
                    all[j].0.1.required_scopes,
                )),
        decreases ov@.len() - i,
    {
        assert(all[i as int] == ov@[i as int]@);
        if ov[i].confident {
            any = true;
            if scope_matches_required(scope, registry, &ov[i].rule.1.required_scopes) {
                return (true, true);
            }
        }
        i += 1;
    }
    (any, false)
}

fn check_alias_scope(
    ctx: &ValidationCtx,
    category: &str,
    key: &str,
    pos: SourcePos,
    scope_context: Option<&ScopeContext>,
    ov: &Vec<Overload>,
) -> (r: Vec<ValidationError>)
    ensures
        views(r@) == alias_scope_problems(
            ctx@,
            category@,
            key@,
            pos,
            opt_scope(scope_context),
            views(ov@),
        ),
{
    let mut out: Vec<ValidationError> = Vec::new();
    assert(views(out@) =~= Seq::empty());
    match scope_context {
        Some(s) => {
            if ctx.scope_checks && !same(category, "modifier") {
                let (any, fits) = test_scopes(ov, s.registry, s.current());
                if any && !fits {
                    let code = if same(category, "trigger") {
                        cw104_incorrect_trigger_scope()
                    } else if same(category, "effect") {
                        cw105_incorrect_effect_scope()
                    } else {
                        cw106_incorrect_scope_scope()
                    };
                    let required = find_required(ov);
                    add_one(
                        &mut out,
                        report3(
                            &code,
                            ctx.file_path,
                            pos.line,
                            pos.col,
                            key,
                            s.registry.name_of(s.current()).as_str(),
                            join(&required, " or ").as_str(),
                        ),
                    );
                }
            }
        },
        None => {},
    }
    assert(views(out@) =~= alias_scope_problems(
        ctx@,
        category@,
        key@,
        pos,
        opt_scope(scope_context),
        views(ov@),
    ));
    out
}

// ---------------------------------------------------------------------------
// Variables of loops

/// The name of the variable that a loop sets where the field for it is left out.
pub open spec fn loop_default(key: Seq<char>) -> Option<Seq<char>> {
    if key == "value"@ {
        Some("v"@)
    } else if key == "index"@ {
        Some("i"@)
    } else if key == "break"@ {
        Some("break"@)
    } else {
        None
    }
}

/// The name of the variable that a loop sets where the field for it is left out.
pub fn loop_var_default(key: &str) -> (r: Option<&'static str>)
    ensures
        match r {
            Some(s) => loop_default(key@) == Some(s@),
            None => loop_default(key@) is None,
        },
{
    if same(key, "value") {
        Some("v")
    } else if same(key, "index") {
        Some("i")
    } else if same(key, "break") {
        Some("break")
    } else {
        None
    }
}

/// The field of a loop's rule that names a variable of the loop.
pub open spec fn loop_field(rt: RuleTypeV) -> Option<Seq<char>> {
    match rt {
        RuleTypeV::LeafRule {
            left: FieldV::SpecificField(key),
            right: FieldV::VariableSetField(_),
        } => if loop_default(key) is Some {
            Some(key)
        } else {
            None
        },
        _ => None,
    }
}

/// The names that those of the first `n` children that are leaves of the key give.
pub open spec fn given_names(ch: Seq<Child>, key: Seq<char>, n: int) -> Seq<Seq<char>>
    decreases n,
{
    if n <= 0 || n > ch.len() {
        Seq::empty()
    } else {
        let before = given_names(ch, key, n - 1);
        match ch[n - 1] {
            Child::Leaf(l) => {
                let name = variable_name(value_text(l.value));
                if eq_ci(unquoted(l.key@), key) && name.len() > 0 {
                    before.push(name)
                } else {
                    before
                }
            },
            _ => before,
        }
    }
}

/// The variables that a loop sets, by the first `n` of its rules: under the names
/// that they have by default, and under those that the block gives them.
pub open spec fn loop_names(rules: Seq<RuleV>, ch: Seq<Child>, n: int) -> Seq<Seq<char>>
    decreases n,
{
    if n <= 0 || n > rules.len() {
        Seq::empty()
    } else {
        let before = loop_names(rules, ch, n - 1);
        match loop_field(rules[n - 1].0) {
            Some(key) => before.push(variable_name(loop_default(key)->0)) + given_names(
                ch,
                key,
                ch.len() as int,
            ),
            None => before,
        }
    }
}

fn add_given_names(out: &mut Vec<String>, children: &Vec<Child>, key: &str)
    ensures
        texts(final(out)@) == texts(old(out)@) + given_names(
            children@,
            key@,
            children@.len() as int,
        ),
{
    let ghost start = texts(out@);
    let mut i: usize = 0;
    assert(texts(out@) =~= start + given_names(children@, key@, 0));
    while i < children.len()
        invariant
            i <= children@.len(),
            texts(out@) == start + given_names(children@, key@, i as int),
        decreases children@.len() - i,
    {
        match &children[i] {
            Child::Leaf(l) => {
                if same_ci(unquote_key(l.key.as_str()), key) {
                    let name = VarIndex::normalize(leaf_value_to_string(&l.value).as_str());
                    if name.as_str().unicode_len() > 0 {
                        let ghost before = texts(out@);
                        let ghost n = name@;
                        out.push(name);
                        assert(texts(out@) =~= before.push(n));
                    }
                }
            },
            _ => {},
        }
        assert(texts(out@) =~= start + given_names(children@, key@, i + 1));
        i += 1;
    }
}

/// The variables that are set in a block: those of the loops around it, and those
/// that the block itself sets if it is a loop. A loop is known by its rules.
pub fn collect_loop_vars(
    around: &Vec<String>,
    rules: &Vec<(RuleType, Options)>,
    children: &Vec<Child>,
) -> (r: Vec<String>)
    ensures
        texts(r@) == texts(around@) + loop_names(
            rules_view(rules@),
            children@,
            rules@.len() as int,
        ),
{
    let mut out = clone_list(around);
    let ghost start = texts(around@);
    let ghost all = rules_view(rules@);
    let mut i: usize = 0;
    assert(texts(out@) =~= start + loop_names(all, children@, 0));
    while i < rules.len()
        invariant
            i <= rules@.len(),
            all == rules_view(rules@),
            texts(out@) == start + loop_names(all, children@, i as int),
        decreases rules@.len() - i,
    {
        assert(all[i as int] == (rule_view(rules@[i as int].0), rules@[i as int].1@));
        match &rules[i].0 {
            RuleType::LeafRule {
                left: NewField::SpecificField(key),
                right: NewField::VariableSetField(_),
            } => match loop_var_default(key.as_str()) {
                Some(d) => {
                    let ghost before = texts(out@);
                    let name = VarIndex::normalize(d);
                    let ghost n = name@;
                    out.push(name);
                    assert(texts(out@) =~= before.push(n));
                    add_given_names(&mut out, children, key.as_str());
                },
                None => {},
            },
            _ => {},
        }
        assert(texts(out@) =~= start + loop_names(all, children@, i + 1));
        i += 1;
    }
    out
}

// ---------------------------------------------------------------------------
// Single leaves

/// A boolean that repeats the default that its rule declares.
pub open spec fn default_bool_problems(ctx: CtxV, leaf: Leaf, o: OptionsV) -> Seq<ErrorV> {
    let v = bare_text(value_text(leaf.value));
    let lower = ascii_lower(v);
    match o.default_bool {
        Some(d) => if ((lower == "yes"@ || lower == "true"@) && d) || ((lower == "no"@ || lower
            == "false"@) && !d) {
            seq![
                coded(
                    cw282(),
                    ctx.file,
                    leaf.pos.start.line,
                    leaf.pos.start.col,
                    seq![v],
                ),
            ]
        } else {
            Seq::empty()
        },
        None => Seq::empty(),
    }
}

fn check_default_bool(ctx: &ValidationCtx, leaf: &Leaf, opts: &Options, out: &mut Vec<
    ValidationError,
>)
    ensures
        views(final(out)@) == views(old(out)@) + default_bool_problems(ctx@, *leaf, opts@),
{
    let ghost start = views(out@);
    match opts.default_bool {
        Some(d) => {
            let raw = leaf_value_to_string(&leaf.value);
            let v = to_bare(raw.as_str());
            let low = to_ascii_lower(v);
            let l = low.as_str();
            if ((same(l, "yes") || same(l, "true")) && d) || ((same(l, "no") || same(l, "false"))
                && !d) {
                add_one(
                    out,
                    report1(
                        &cw282_redundant_default_bool(),
                        ctx.file_path,
                        leaf.pos.start.line,
                        leaf.pos.start.col,
                        v,
                    ),
                );
            }
        },
        None => {},
    }
    assert(views(out@) =~= start + default_bool_problems(ctx@, *leaf, opts@));
}

/// What is wrong with a leaf that no rule is for. A modifier may stand anywhere, but
/// does nothing where it is zero; so may a variable that is set as the file is read.
pub open spec fn unmatched_problems(ctx: CtxV, leaf: Leaf) -> Seq<ErrorV> {
    let key = unquoted(leaf.key@);
    let (line, col) = (leaf.pos.start.line, leaf.pos.start.col);
    if in_names(ctx.modifier_keys, lowercase(key)) {
        if is_zero_value(leaf.value) {
            seq![coded(cw235(), ctx.file, line, col, seq![key])]
        } else {
            Seq::empty()
        }
    } else if starts_char(key, '@') {
        Seq::empty()
    } else {
        seq![unexpected_problem(ctx, leaf)]
    }
}

/// A leaf that has no place where it stands.
pub open spec fn unexpected_problem(ctx: CtxV, leaf: Leaf) -> ErrorV {
    let key = unquoted(leaf.key@);
    let (line, col) = (leaf.pos.start.line, leaf.pos.start.col);
    if leaf.value is Clause {
        stated(
            cw262(),
            ErrorSeverity::Error,
            ctx.file,
            line,
            col,
            "Unexpected block '"@ + key + "'"@,
        )
    } else {
        stated(
            cw263(),
            ErrorSeverity::Error,
            ctx.file,
            line,
            col,
            "Unexpected field '"@ + key + "'"@,
        )
    }
}

fn report_unexpected(ctx: &ValidationCtx, leaf: &Leaf) -> (r: ValidationError)
    ensures
        r@ == unexpected_problem(ctx@, *leaf),
{
    let key = unquote_key(leaf.key.as_str());
    let is_clause = match &leaf.value {
        Value::Clause(_) => true,
        _ => false,
    };
    let (mut message, code) = if is_clause {
        ("Unexpected block '".to_owned(), cw262_unexpected_property_node())
    } else {
        ("Unexpected field '".to_owned(), cw263_unexpected_property_leaf())
    };
    message.append(key);
    message.append("'");
    ValidationError::from_code_with(
        &code,
        ErrorSeverity::Error,
        ctx.file_path,
        leaf.pos.start.line,
        leaf.pos.start.col,
        message,
    )
}

fn check_unmatched(ctx: &ValidationCtx, leaf: &Leaf) -> (r: Vec<ValidationError>)
    ensures
        views(r@) == unmatched_problems(ctx@, *leaf),
{
    let mut out: Vec<ValidationError> = Vec::new();
    assert(views(out@) =~= Seq::empty());
    let key = unquote_key(leaf.key.as_str());
    let (line, col) = (leaf.pos.start.line, leaf.pos.start.col);
    let lower = to_lowercase(key);
    if names_contain(ctx.modifier_keys, lower.as_str()) {
        if value_is_zero(&leaf.value) {
            add_one(&mut out, report1(&cw235_zero_modifier(), ctx.file_path, line, col, key));
        }
    } else if !starts_with_char(key, '@') {
        add_one(&mut out, report_unexpected(ctx, leaf));
    }
    assert(views(out@) =~= unmatched_problems(ctx@, *leaf));
    out
}

/// A bare value that no rule is for.
pub open spec fn bare_value_problem(ctx: CtxV, lv: LeafValue) -> ErrorV {
    coded(
        cw264(),
        ctx.file,
        lv.pos.start.line,
        lv.pos.start.col,
        seq!["Unexpected bare value '"@ + value_text(lv.value) + "'"@],
    )
}

/// Reports a bare value that no rule is for.
pub fn report_bare_value(ctx: &ValidationCtx, lv: &LeafValue) -> (r: ValidationError)
    ensures
        r@ == bare_value_problem(ctx@, *lv),
{
    let mut message = "Unexpected bare value '".to_owned();
    message.append(leaf_value_to_string(&lv.value).as_str());
    message.append("'");
    report1(
        &cw264_unexpected_property_leaf_value(),
        ctx.file_path,
        lv.pos.start.line,
        lv.pos.start.col,
        message.as_str(),
    )
}

/// The field of the first rule for bare values, from the `i`th on, that accepts the
/// value.
pub open spec fn value_rule(rules: Seq<RuleV>, v: Value, rs: RuleSetV, i: int) -> Option<FieldV>
    decreases rules.len() - i,
{
    if i < 0 || i >= rules.len() {
        None
    } else {
        match rules[i].0 {
            RuleTypeV::LeafValueRule { right } => if takes_value(right, v, rs) {
                Some(right)
            } else {
                value_rule(rules, v, rs, i + 1)
            },
            _ => value_rule(rules, v, rs, i + 1),
        }
    }
}

/// What is wrong with a bare value that is no block.
pub open spec fn value_problems_in(
    ctx: CtxV,
    lv: LeafValue,
    rules: Seq<RuleV>,
    loop_vars: Seq<Seq<char>>,
) -> Seq<ErrorV> {
    match value_rule(rules, lv.value, ctx.rs, 0) {
        Some(FieldV::VariableGetField(_)) => variable_get_problems(
            ctx,
            value_text(lv.value),
            lv.pos.start,
            loop_vars,
        ),
        Some(_) => Seq::empty(),
        None => seq![bare_value_problem(ctx, lv)],
    }
}

#[verifier::loop_isolation(false)]
fn check_bare_value(
    ctx: &ValidationCtx,
    lv: &LeafValue,
    rules: &Vec<(RuleType, Options)>,
    loop_vars: &Vec<String>,
) -> (r: Vec<ValidationError>)
    ensures
        views(r@) == value_problems_in(ctx@, *lv, rules_view(rules@), texts(loop_vars@)),
{
    let mut out: Vec<ValidationError> = Vec::new();
    assert(views(out@) =~= Seq::empty());
    let ghost all = rules_view(rules@);
    let mut i: usize = 0;
    while i < rules.len()
        invariant
            i <= rules@.len(),
            value_rule(all, lv.value, ctx@.rs, 0) == value_rule(
                all,
                lv.value,
                ctx@.rs,
                i as int,
            ),
        decreases rules@.len() - i,
    {
        assert(all[i as int] == (rule_view(rules@[i as int].0), rules@[i as int].1@));
        match &rules[i].0 {
            RuleType::LeafValueRule { right } => {
                if field_matches_value(right, &lv.value, ctx.ruleset) {
                    return match right {
                        NewField::VariableGetField(_) => check_variable_get(
                            ctx,
                            leaf_value_to_string(&lv.value).as_str(),
                            lv.pos.start,
                            loop_vars,
                        ),
                        _ => out,
                    };
                }
            },
            _ => {},
        }
        i += 1;
    }
    add_one(&mut out, report_bare_value(ctx, lv));
    assert(views(out@) =~= seq![bare_value_problem(ctx@, *lv)]);
    out
}

/// The rules of the first rule for bare blocks, from the `i`th on.
pub open spec fn clause_rule(rules: Seq<RuleV>, i: int) -> Option<Seq<RuleV>>
    decreases rules.len() - i,
{
    if i < 0 || i >= rules.len() {
        None
    } else {
        match rules[i].0 {
            RuleTypeV::ValueClauseRule { rules: inner } => Some(inner),
            _ => clause_rule(rules, i + 1),
        }
    }
}

fn find_clause_rule<'a>(rules: &'a Vec<(RuleType, Options)>) -> (r: Option<
    &'a Vec<(RuleType, Options)>,
>)
    ensures
        match r {
            Some(v) => clause_rule(rules_view(rules@), 0) == Some(rules_view(v@)),
            None => clause_rule(rules_view(rules@), 0) is None,
        },
{
    let ghost all = rules_view(rules@);
    let mut i: usize = 0;
    while i < rules.len()
        invariant
            i <= rules@.len(),
            all == rules_view(rules@),
            clause_rule(all, 0) == clause_rule(all, i as int),
        decreases rules@.len() - i,
    {
        assert(all[i as int] == (rule_view(rules@[i as int].0), rules@[i as int].1@));
        match &rules[i].0 {
            RuleType::ValueClauseRule { rules: inner } => {
                return Some(inner);
            },
            _ => {},
        }
        i += 1;
    }
    None
}

/// A bare block that no rule is for.
pub open spec fn bare_block_problem(ctx: CtxV, lv: LeafValue) -> ErrorV {
    coded(
        cw265(),
        ctx.file,
        lv.pos.start.line,
        lv.pos.start.col,
        seq!["Unexpected value clause '{...}'"@],
    )
}

fn report_bare_block(ctx: &ValidationCtx, lv: &LeafValue) -> (r: ValidationError)
    ensures
        r@ == bare_block_problem(ctx@, *lv),
{
    report1(
        &cw265_unexpected_property_value_clause(),
        ctx.file_path,
        lv.pos.start.line,
        lv.pos.start.col,
        "Unexpected value clause '{...}'",
    )
}

// ---------------------------------------------------------------------------
// Arithmetic expressions

pub open spec fn is_math_field(f: FieldV) -> bool {
    f == FieldV::ValueField(ValueTypeV::MathExpr)
}

/// The rule makes its value an arithmetic expression.
pub open spec fn is_math_rule(rt: RuleTypeV) -> bool {
    rt matches RuleTypeV::LeafRule { right, .. } && is_math_field(right)
}

/// The first of the rules `m[i..]` that makes its value an arithmetic expression.
pub open spec fn first_math(m: Seq<RuleV>, i: int) -> Option<RuleV>
    decreases m.len() - i,
{
    if i < 0 || i >= m.len() {
        None
    } else if is_math_rule(m[i].0) {
        Some(m[i])
    } else {
        first_math(m, i + 1)
    }
}

/// Some overload makes its value an arithmetic expression.
pub open spec fn has_math(ov: Seq<(RuleV, bool)>) -> bool {
    exists|i: int| 0 <= i < ov.len() && is_math_rule((#[trigger] ov[i]).0.0)
}

/// The key of what an arithmetic expression starts from.
pub open spec fn is_math_base(key: Seq<char>) -> bool {
    eq_ci("value"@, key)
}

/// The category of the aliases that are operators.
pub open spec fn math_category() -> Seq<char> {
    "mathexpr"@
}

/// The rule set has an operator of that name.
pub open spec fn is_math_operator(ctx: CtxV, key: Seq<char>) -> bool {
    overloads(ctx.rs, ctx.idx, math_category(), key).len() > 0
}

fn rule_right_is_math_expr(rt: &RuleType) -> (r: bool)
    ensures
        r == is_math_rule(rt@),
{
    match rt {
        RuleType::LeafRule { right: NewField::ValueField(ValueType::MathExpr), .. } => true,
        _ => false,
    }
}

fn find_math_rule<'a>(rules: &Vec<&'a (RuleType, Options)>) -> (r: Option<
    &'a (RuleType, Options),
>)
    ensures
        match r {
            Some(x) => first_math(refs_view(rules@), 0) == Some((rule_view(x.0), x.1@)),
            None => first_math(refs_view(rules@), 0) is None,
        },
{
    let ghost all = refs_view(rules@);
    let mut i: usize = 0;
    while i < rules.len()
        invariant
            i <= rules@.len(),
            all == refs_view(rules@),
            first_math(all, 0) == first_math(all, i as int),
        decreases rules@.len() - i,
    {
        assert(all[i as int] == (rule_view(rules@[i as int].0), rules@[i as int].1@));
        if rule_right_is_math_expr(&rules[i].0) {
            return Some(rules[i]);
        }
        i += 1;
    }
    None
}

fn any_overload_is_math(ov: &Vec<Overload>) -> (r: bool)
    ensures
        r == has_math(views(ov@)),
{
    let ghost all = views(ov@);
    let mut i: usize = 0;
    while i < ov.len()
        invariant
            i <= ov@.len(),
            all == views(ov@),
            forall|j: int| 0 <= j < i ==> !is_math_rule((#[trigger] all[j]).0.0),
        decreases ov@.len() - i,
    {
        assert(all[i as int] == ov@[i as int]@);
        if rule_right_is_math_expr(&ov[i].rule.0) {
            assert(is_math_rule(all[i as int].0.0));
            return true;
        }
        i += 1;
    }
    false
}

// ---------------------------------------------------------------------------
// Blocks

/// A start as line and column.
pub open spec fn pos_of(p: SourcePos) -> (u32, u16) {
    (p.line, p.col)
}

/// What is wrong with the children of a block.
pub open spec fn block_problems(
    ctx: CtxV,
    ch: Seq<Child>,
    rules: Seq<RuleV>,
    sc: Option<ScopeV>,
    loop_vars: Seq<Seq<char>>,
    block_pos: (u32, u16),
) -> Seq<ErrorV>
    decreases ch, 1int, 0int,
{
    let flat = flattened(rules, rules.len() as int);
    each_child_problems(ctx, ch, flat, sc, loop_vars, ch.len() as int) + cardinality_problems(
        ctx,
        ch,
        flat,
        block_pos,
    )
}

/// What is wrong with each of the first `n` children.
pub open spec fn each_child_problems(
    ctx: CtxV,
    ch: Seq<Child>,
    rules: Seq<RuleV>,
    sc: Option<ScopeV>,
    loop_vars: Seq<Seq<char>>,
    n: int,
) -> Seq<ErrorV>
    decreases ch, 0int, n,
{
    if n <= 0 || n > ch.len() {
        Seq::empty()
    } else {
        each_child_problems(ctx, ch, rules, sc, loop_vars, n - 1) + in_block_problems(
            ctx,
            ch[n - 1],
            rules,
            sc,
            loop_vars,
        )
    }
}

/// What is wrong with a child. A block under a key that some rule makes an arithmetic
/// expression is one, whatever the other rules for the key are.
pub open spec fn in_block_problems(
    ctx: CtxV,
    c: Child,
    rules: Seq<RuleV>,
    sc: Option<ScopeV>,
    loop_vars: Seq<Seq<char>>,
) -> Seq<ErrorV>
    decreases c, 0int, 0int,
{
    match c {
        Child::Leaf(l) => {
            let m = matching(rules, unquoted(l.key@), ctx.rs, ctx.idx);
            match first_math(m, 0) {
                Some(r) if l.value is Clause => rule_problems(ctx, l, r, sc, loop_vars),
                _ => if m.len() == 0 {
                    unmatched_problems(ctx, l)
                } else {
                    fewest_problems(ctx, l, m, sc, loop_vars, m.len() as int)
                },
            }
        },
        Child::LeafValue(lv) => match lv.value {
            Value::Clause(inner) => match clause_rule(rules, 0) {
                Some(r) => block_problems(ctx, inner@, r, sc, loop_vars, pos_of(lv.pos.start)),
                None => seq![bare_block_problem(ctx, lv)],
            },
            _ => value_problems_in(ctx, lv, rules, loop_vars),
        },
        Child::Comment(_) => Seq::empty(),
    }
}

/// What is wrong with a leaf under that of the first `n` rules under which the least
/// is, the first one among equals.
pub open spec fn fewest_problems(
    ctx: CtxV,
    l: Leaf,
    rules: Seq<RuleV>,
    sc: Option<ScopeV>,
    loop_vars: Seq<Seq<char>>,
    n: int,
) -> Seq<ErrorV>
    decreases l, 5int, n,
{
    if n <= 0 || n > rules.len() {
        Seq::empty()
    } else {
        let e = rule_problems(ctx, l, rules[n - 1], sc, loop_vars);
        let before = fewest_problems(ctx, l, rules, sc, loop_vars, n - 1);
        if n == 1 || e.len() < before.len() {
            e
        } else {
            before
        }
    }
}

/// What is wrong with a leaf under a rule.
pub open spec fn rule_problems(
    ctx: CtxV,
    l: Leaf,
    r: RuleV,
    sc: Option<ScopeV>,
    loop_vars: Seq<Seq<char>>,
) -> Seq<ErrorV>
    decreases l, 4int, 0int,
{
    let key = unquoted(l.key@);
    let wrong_scope = required_scope_problems(ctx, l, key, r.1, sc);
    match r.0 {
        RuleTypeV::LeafRule { left: FieldV::IgnoreField(_), .. } => Seq::empty(),
        RuleTypeV::NodeRule { left: FieldV::IgnoreField(_), .. } => Seq::empty(),
        RuleTypeV::LeafRule { left: FieldV::AliasField(category), .. } => wrong_scope
            + alias_problems(ctx, category, l, sc, loop_vars),
        RuleTypeV::NodeRule { left: FieldV::AliasField(category), .. } => wrong_scope
            + alias_problems(ctx, category, l, sc, loop_vars),
        RuleTypeV::LeafRule { right, .. } => wrong_scope + leaf_problems(
            ctx,
            l,
            right,
            sc,
            loop_vars,
        ) + default_bool_problems(ctx, l, r.1),
        RuleTypeV::NodeRule { rules, .. } => match l.value {
            Value::Clause(inner) => wrong_scope + block_problems(
                ctx,
                inner@,
                rules,
                opt_block_scope(sc, key, r.1, ctx.game, false),
                loop_vars,
                pos_of(l.pos.start),
            ),
            _ => wrong_scope.push(
                mismatch_problem(ctx, key, value_text(l.value), l.pos.start),
            ),
        },
        _ => wrong_scope,
    }
}

/// What is wrong with a usage of an alias. Nothing is where the category has none of
/// that name. A block under an alias of which some overload is an arithmetic
/// expression is one, whatever the other overloads are.
pub open spec fn alias_problems(
    ctx: CtxV,
    category: Seq<char>,
    l: Leaf,
    sc: Option<ScopeV>,
    loop_vars: Seq<Seq<char>>,
) -> Seq<ErrorV>
    decreases l, 3int, 0int,
{
    let key = unquoted(l.key@);
    let ov = overloads(ctx.rs, ctx.idx, category, key);
    let before = chain_problems(ctx, key, l.pos.start, sc) + alias_scope_problems(
        ctx,
        category,
        key,
        l.pos.start,
        sc,
        ov,
    );
    if ov.len() == 0 {
        Seq::empty()
    } else if l.value is Clause && has_math(ov) {
        before + operand_problems(ctx, l, sc, loop_vars)
    } else {
        let best = fewest_in_overloads(ctx, category, l, ov, sc, loop_vars, ov.len() as int);
        before + (match best {
            Some(e) => e,
            None => Seq::empty(),
        })
    }
}

/// What is wrong with a usage under that of the first `n` overloads under which the
/// least is, the first one among equals.
pub open spec fn fewest_in_overloads(
    ctx: CtxV,
    category: Seq<char>,
    l: Leaf,
    ov: Seq<(RuleV, bool)>,
    sc: Option<ScopeV>,
    loop_vars: Seq<Seq<char>>,
    n: int,
) -> Option<Seq<ErrorV>>
    decreases l, 2int, n,
{
    if n <= 0 || n > ov.len() {
        None
    } else {
        let before = fewest_in_overloads(ctx, category, l, ov, sc, loop_vars, n - 1);
        match overload_problems(ctx, category, l, ov[n - 1].0, sc, loop_vars) {
            Some(e) => match before {
                Some(b) => if e.len() < b.len() {
                    Some(e)
                } else {
                    before
                },
                None => Some(e),
            },
            None => before,
        }
    }
}

/// What is wrong with a usage under an overload; none for one that is no rule for a
/// leaf. A body sees the variables that the usage sets as a loop.
pub open spec fn overload_problems(
    ctx: CtxV,
    category: Seq<char>,
    l: Leaf,
    r: RuleV,
    sc: Option<ScopeV>,
    loop_vars: Seq<Seq<char>>,
) -> Option<Seq<ErrorV>>
    decreases l, 1int, 0int,
{
    match r.0 {
        RuleTypeV::LeafRule { right, .. } => Some(leaf_problems(ctx, l, right, sc, loop_vars)),
        RuleTypeV::NodeRule { rules, .. } => match l.value {
            Value::Clause(inner) => Some(
                block_problems(
                    ctx,
                    inner@,
                    rules,
                    opt_block_scope(sc, unquoted(l.key@), r.1, ctx.game, true),
                    loop_vars + loop_names(rules, inner@, rules.len() as int),
                    pos_of(l.pos.start),
                ),
            ),
            _ => Some(
                seq![mismatch_problem(ctx, category, value_text(l.value), l.pos.start)],
            ),
        },
        _ => None,
    }
}

/// What is wrong with the value of a leaf whose rule has the field `right` on the
/// right.
pub open spec fn leaf_problems(
    ctx: CtxV,
    l: Leaf,
    right: FieldV,
    sc: Option<ScopeV>,
    loop_vars: Seq<Seq<char>>,
) -> Seq<ErrorV>
    decreases l, 0int, 1int,
{
    if is_math_field(right) {
        operand_problems(ctx, l, sc, loop_vars)
    } else {
        single_value_problems(ctx, l, right, sc, loop_vars)
    }
}

/// What is wrong with an operand of an arithmetic expression: nothing with a number or
/// a variable; a block is an expression itself.
pub open spec fn operand_problems(
    ctx: CtxV,
    l: Leaf,
    sc: Option<ScopeV>,
    loop_vars: Seq<Seq<char>>,
) -> Seq<ErrorV>
    decreases l, 0int, 0int,
{
    match l.value {
        Value::Clause(inner) => math_problems(ctx, inner@, sc, loop_vars, inner@.len() as int),
        _ => Seq::empty(),
    }
}

/// What is wrong with the first `n` children of an arithmetic expression.
pub open spec fn math_problems(
    ctx: CtxV,
    ch: Seq<Child>,
    sc: Option<ScopeV>,
    loop_vars: Seq<Seq<char>>,
    n: int,
) -> Seq<ErrorV>
    decreases ch, 0int, n,
{
    if n <= 0 || n > ch.len() {
        Seq::empty()
    } else {
        math_problems(ctx, ch, sc, loop_vars, n - 1) + in_math_problems(
            ctx,
            ch[n - 1],
            sc,
            loop_vars,
        )
    }
}

/// What is wrong with a child of an arithmetic expression, which is its base, under the
/// key `value`, or an operator. Nothing else may stand there.
pub open spec fn in_math_problems(
    ctx: CtxV,
    c: Child,
    sc: Option<ScopeV>,
    loop_vars: Seq<Seq<char>>,
) -> Seq<ErrorV>
    decreases c, 0int, 0int,
{
    match c {
        Child::Leaf(l) => {
            let key = unquoted(l.key@);
            if is_math_base(key) {
                operand_problems(ctx, l, sc, loop_vars)
            } else if is_math_operator(ctx, key) {
                alias_problems(ctx, math_category(), l, sc, loop_vars)
            } else {
                seq![unexpected_problem(ctx, l)]
            }
        },
        Child::LeafValue(lv) => match lv.value {
            Value::Clause(_) => seq![bare_block_problem(ctx, lv)],
            _ => seq![bare_value_problem(ctx, lv)],
        },
        Child::Comment(_) => Seq::empty(),
    }
}

/// Reports what is wrong with the children of a block: with each of them, and with
/// how often they appear.
pub fn validate_children(
    ctx: &ValidationCtx,
    children: &Vec<Child>,
    rules: &Vec<(RuleType, Options)>,
    scope_context: Option<&ScopeContext>,
    loop_vars: &Vec<String>,
    block_pos: (u32, u16),
) -> (r: Vec<ValidationError>)
    ensures
        views(r@) == block_problems(
            ctx@,
            children@,
            rules_view(rules@),
            opt_scope(scope_context),
            texts(loop_vars@),
            block_pos,
        ),
    decreases children, 1int,
{
    let flat = flatten_nested_subtype_rules(rules);
    let mut out = validate_each_child(ctx, children, &flat, scope_context, loop_vars);
    enforce_cardinality(ctx, children, &flat, block_pos, &mut out);
    out
}

/// Reports what is wrong with each child of a block.
fn validate_each_child(
    ctx: &ValidationCtx,
    children: &Vec<Child>,
    rules: &Vec<(RuleType, Options)>,
    scope_context: Option<&ScopeContext>,
    loop_vars: &Vec<String>,
) -> (r: Vec<ValidationError>)
    ensures
        views(r@) == each_child_problems(
            ctx@,
            children@,
            rules_view(rules@),
            opt_scope(scope_context),
            texts(loop_vars@),
            children@.len() as int,
        ),
    decreases children, 0int,
{
    let ghost all = rules_view(rules@);
    let ghost sc = opt_scope(scope_context);
    let ghost lv = texts(loop_vars@);
    let mut out: Vec<ValidationError> = Vec::new();
    let mut i: usize = 0;
    assert(views(out@) =~= each_child_problems(ctx@, children@, all, sc, lv, 0));
    while i < children.len()
        invariant
            i <= children@.len(),
            all == rules_view(rules@),
            sc == opt_scope(scope_context),
            lv == texts(loop_vars@),
            views(out@) == each_child_problems(ctx@, children@, all, sc, lv, i as int),
        decreases children@.len() - i,
    {
        let more = validate_child(ctx, &children[i], rules, scope_context, loop_vars);
        add_all(&mut out, more);
        i += 1;
    }
    out
}

/// Reports what is wrong with a child.
fn validate_child(
    ctx: &ValidationCtx,
    child: &Child,
    rules: &Vec<(RuleType, Options)>,
    scope_context: Option<&ScopeContext>,
    loop_vars: &Vec<String>,
) -> (r: Vec<ValidationError>)
    ensures
        views(r@) == in_block_problems(
            ctx@,
            *child,
            rules_view(rules@),
            opt_scope(scope_context),
            texts(loop_vars@),
        ),
    decreases child, 0int,
{
    match child {
        Child::Leaf(l) => {
            let key = unquote_key(l.key.as_str());
            let m = matching_candidates(rules, key, ctx.ruleset, ctx.type_index);
            let is_clause = match &l.value {
                Value::Clause(_) => true,
                _ => false,
            };
            match find_math_rule(&m) {
                Some(r) if is_clause => validate_leaf_against_rule(
                    ctx,
                    l,
                    r,
                    scope_context,
                    loop_vars,
                ),
                _ => if m.len() == 0 {
                    check_unmatched(ctx, l)
                } else {
                    pick_best_candidate(ctx, l, &m, scope_context, loop_vars)
                },
            }
        },
        Child::LeafValue(lv) => match &lv.value {
            Value::Clause(inner) => match find_clause_rule(rules) {
                Some(r) => validate_children(
                    ctx,
                    inner,
                    r,
                    scope_context,
                    loop_vars,
                    (lv.pos.start.line, lv.pos.start.col),
                ),
                None => {
                    let mut out: Vec<ValidationError> = Vec::new();
                    add_one(&mut out, report_bare_block(ctx, lv));
                    assert(views(out@) =~= seq![bare_block_problem(ctx@, *lv)]);
                    out
                },
            },
            _ => check_bare_value(ctx, lv, rules, loop_vars),
        },
        Child::Comment(_) => {
            let out: Vec<ValidationError> = Vec::new();
            assert(views(out@) =~= Seq::empty());
            out
        },
    }
}

/// Reports what is wrong with a leaf under the rule under which the least is.
fn pick_best_candidate(
    ctx: &ValidationCtx,
    leaf: &Leaf,
    rules: &Vec<&(RuleType, Options)>,
    scope_context: Option<&ScopeContext>,
    loop_vars: &Vec<String>,
) -> (r: Vec<ValidationError>)
    ensures
        views(r@) == fewest_problems(
            ctx@,
            *leaf,
            refs_view(rules@),
            opt_scope(scope_context),
            texts(loop_vars@),
            rules@.len() as int,
        ),
    decreases leaf, 5int,
{
    let ghost all = refs_view(rules@);
    let ghost sc = opt_scope(scope_context);
    let ghost lv = texts(loop_vars@);
    let mut best: Vec<ValidationError> = Vec::new();
    let mut i: usize = 0;
    assert(views(best@) =~= fewest_problems(ctx@, *leaf, all, sc, lv, 0));
    while i < rules.len()
        invariant
            i <= rules@.len(),
            all == refs_view(rules@),
            sc == opt_scope(scope_context),
            lv == texts(loop_vars@),
            views(best@) == fewest_problems(ctx@, *leaf, all, sc, lv, i as int),
        decreases rules@.len() - i,
    {
        assert(all[i as int] == (rule_view(rules@[i as int].0), rules@[i as int].1@));
        let e = validate_leaf_against_rule(ctx, leaf, rules[i], scope_context, loop_vars);
        assert(views(e@).len() == e@.len() && views(best@).len() == best@.len());
        if i == 0 || e.len() < best.len() {
            best = e;
        }
        i += 1;
    }
    best
}

/// Reports what is wrong with a leaf under a rule.
fn validate_leaf_against_rule(
    ctx: &ValidationCtx,
    leaf: &Leaf,
    rule: &(RuleType, Options),
    scope_context: Option<&ScopeContext>,
    loop_vars: &Vec<String>,
) -> (r: Vec<ValidationError>)
    ensures
        views(r@) == rule_problems(
            ctx@,
            *leaf,
            (rule_view(rule.0), rule.1@),
            opt_scope(scope_context),
            texts(loop_vars@),
        ),
    decreases leaf, 4int,
{
    let key = unquote_key(leaf.key.as_str());
    let opts = &rule.1;
    match &rule.0 {
        RuleType::LeafRule { left: NewField::IgnoreField(_), .. } => {
            let out: Vec<ValidationError> = Vec::new();
            assert(views(out@) =~= Seq::empty());
            out
        },
        RuleType::NodeRule { left: NewField::IgnoreField(_), .. } => {
            let out: Vec<ValidationError> = Vec::new();
            assert(views(out@) =~= Seq::empty());
            out
        },
        RuleType::LeafRule { left: NewField::AliasField(category), .. } => {
            let mut out = check_required_scopes(ctx, leaf, key, opts, scope_context);
            let more = validate_alias_usage(
                ctx,
                category.as_str(),
                leaf,
                scope_context,
                loop_vars,
            );
            add_all(&mut out, more);
            out
        },
        RuleType::NodeRule { left: NewField::AliasField(category), .. } => {
            let mut out = check_required_scopes(ctx, leaf, key, opts, scope_context);
            let more = validate_alias_usage(
                ctx,
                category.as_str(),
                leaf,
                scope_context,
                loop_vars,
            );
            add_all(&mut out, more);
            out
        },
        RuleType::LeafRule { right, .. } => {
            let mut out = check_required_scopes(ctx, leaf, key, opts, scope_context);
            let more = validate_leaf(ctx, leaf, right, scope_context, loop_vars);
            add_all(&mut out, more);
            check_default_bool(ctx, leaf, opts, &mut out);
            out
        },
        RuleType::NodeRule { rules, .. } => {
            let mut out = check_required_scopes(ctx, leaf, key, opts, scope_context);
            let ghost first = views(out@);
            match &leaf.value {
                Value::Clause(inner) => {
                    let entered = scope_in_block(scope_context, key, opts, ctx.game, false);
                    let more = validate_children(
                        ctx,
                        inner,
                        rules,
                        scope_ref(&entered),
                        loop_vars,
                        (leaf.pos.start.line, leaf.pos.start.col),
                    );
                    add_all(&mut out, more);
                },
                _ => {
                    let value = leaf_value_to_string(&leaf.value);
                    let e = alias_mismatch_error(ctx, key, value.as_str(), leaf.pos.start);
                    add_one(&mut out, e);
                    assert(first + seq![e@] =~= first.push(e@));
                },
            }
            out
        },
        _ => check_required_scopes(ctx, leaf, key, opts, scope_context),
    }
}

/// Reports what is wrong with a usage of an alias, under that of its overloads under
/// which the least is.
fn validate_alias_usage(
    ctx: &ValidationCtx,
    category: &str,
    leaf: &Leaf,
    scope_context: Option<&ScopeContext>,
    loop_vars: &Vec<String>,
) -> (r: Vec<ValidationError>)
    ensures
        views(r@) == alias_problems(
            ctx@,
            category@,
            *leaf,
            opt_scope(scope_context),
            texts(loop_vars@),
        ),
    decreases leaf, 3int,
{
    let key = unquote_key(leaf.key.as_str());
    let ov = alias_overloads(ctx.ruleset, ctx.type_index, category, key);
    let ghost all = views(ov@);
    let ghost sc = opt_scope(scope_context);
    let ghost lv = texts(loop_vars@);
    if ov.len() == 0 {
        let out: Vec<ValidationError> = Vec::new();
        assert(views(out@) =~= Seq::empty());
        return out;
    }
    let mut out = check_chain(ctx, key, leaf.pos.start, scope_context);
    let more = check_alias_scope(ctx, category, key, leaf.pos.start, scope_context, &ov);
    add_all(&mut out, more);
    let ghost first = views(out@);
    let is_clause = match &leaf.value {
        Value::Clause(_) => true,
        _ => false,
    };
    if is_clause && any_overload_is_math(&ov) {
        let more = check_operand(ctx, leaf, scope_context, loop_vars);
        add_all(&mut out, more);
        return out;
    }
    let mut best: Option<Vec<ValidationError>> = None;
    let mut i: usize = 0;
    while i < ov.len()
        invariant
            i <= ov@.len(),
            all == views(ov@),
            sc == opt_scope(scope_context),
            lv == texts(loop_vars@),
            opt_errors(best) == fewest_in_overloads(
                ctx@,
                category@,
                *leaf,
                all,
                sc,
                lv,
                i as int,
            ),
        decreases ov@.len() - i,
    {
        assert(all[i as int] == ov@[i as int]@);
        match validate_overload(ctx, category, leaf, ov[i].rule, scope_context, loop_vars) {
            Some(e) => {
                let better = match &best {
                    Some(b) => e.len() < b.len(),
                    None => true,
                };
                if better {
                    best = Some(e);
                }
            },
            None => {},
        }
        i += 1;
    }
    match best {
        Some(b) => {
            add_all(&mut out, b);
        },
        None => {
            assert(first + Seq::<ErrorV>::empty() =~= first);
        },
    }
    out
}

/// Diagnostics that may be missing.
pub open spec fn opt_errors(o: Option<Vec<ValidationError>>) -> Option<Seq<ErrorV>> {
    match o {
        Some(v) => Some(views(v@)),
        None => None,
    }
}

fn validate_overload(
    ctx: &ValidationCtx,
    category: &str,
    leaf: &Leaf,
    rule: &(RuleType, Options),
    scope_context: Option<&ScopeContext>,
    loop_vars: &Vec<String>,
) -> (r: Option<Vec<ValidationError>>)
    ensures
        opt_errors(r) == overload_problems(
            ctx@,
            category@,
            *leaf,
            (rule_view(rule.0), rule.1@),
            opt_scope(scope_context),
            texts(loop_vars@),
        ),
    decreases leaf, 2int,
{
    let key = unquote_key(leaf.key.as_str());
    match &rule.0 {
        RuleType::LeafRule { right, .. } => Some(
            validate_leaf(ctx, leaf, right, scope_context, loop_vars),
        ),
        RuleType::NodeRule { rules, .. } => match &leaf.value {
            Value::Clause(inner) => {
                let entered = scope_in_block(scope_context, key, &rule.1, ctx.game, true);
                let vars = collect_loop_vars(loop_vars, rules, inner);
                Some(
                    validate_children(
                        ctx,
                        inner,
                        rules,
                        scope_ref(&entered),
                        &vars,
                        (leaf.pos.start.line, leaf.pos.start.col),
                    ),
                )
            },
            _ => {
                let mut out: Vec<ValidationError> = Vec::new();
                let value = leaf_value_to_string(&leaf.value);
                let e = alias_mismatch_error(ctx, category, value.as_str(), leaf.pos.start);
                add_one(&mut out, e);
                assert(views(out@) =~= seq![e@]);
                Some(out)
            },
        },
        _ => None,
    }
}

/// Reports what is wrong with the value of a leaf whose rule has the field `right` on
/// the right.
pub fn validate_leaf(
    ctx: &ValidationCtx,
    leaf: &Leaf,
    right: &NewField,
    scope_context: Option<&ScopeContext>,
    loop_vars: &Vec<String>,
) -> (r: Vec<ValidationError>)
    ensures
        views(r@) == leaf_problems(
            ctx@,
            *leaf,
            right@,
            opt_scope(scope_context),
            texts(loop_vars@),
        ),
    decreases leaf, 1int,
{
    match right {
        NewField::ValueField(ValueType::MathExpr) => check_operand(
            ctx,
            leaf,
            scope_context,
            loop_vars,
        ),
        _ => check_single_value(ctx, leaf, right, scope_context, loop_vars),
    }
}

/// Reports what is wrong with an operand of an arithmetic expression.
fn check_operand(
    ctx: &ValidationCtx,
    leaf: &Leaf,
    scope_context: Option<&ScopeContext>,
    loop_vars: &Vec<String>,
) -> (r: Vec<ValidationError>)
    ensures
        views(r@) == operand_problems(
            ctx@,
            *leaf,
            opt_scope(scope_context),
            texts(loop_vars@),
        ),
    decreases leaf, 0int,
{
    match &leaf.value {
        Value::Clause(inner) => validate_math_clause(ctx, inner, scope_context, loop_vars),
        _ => {
            let out: Vec<ValidationError> = Vec::new();
            assert(views(out@) =~= Seq::empty());
            out
        },
    }
}

/// Reports what is wrong with the children of an arithmetic expression.
pub fn validate_math_clause(
    ctx: &ValidationCtx,
    children: &Vec<Child>,
    scope_context: Option<&ScopeContext>,
    loop_vars: &Vec<String>,
) -> (r: Vec<ValidationError>)
    ensures
        views(r@) == math_problems(
            ctx@,
            children@,
            opt_scope(scope_context),
            texts(loop_vars@),
            children@.len() as int,
        ),
    decreases children, 0int,
{
    let ghost sc = opt_scope(scope_context);
    let ghost lv = texts(loop_vars@);
    let mut out: Vec<ValidationError> = Vec::new();
    let mut i: usize = 0;
    assert(views(out@) =~= math_problems(ctx@, children@, sc, lv, 0));
    while i < children.len()
        invariant
            i <= children@.len(),
            sc == opt_scope(scope_context),
            lv == texts(loop_vars@),
            views(out@) == math_problems(ctx@, children@, sc, lv, i as int),
        decreases children@.len() - i,
    {
        let more = validate_math_child(ctx, &children[i], scope_context, loop_vars);
        add_all(&mut out, more);
        i += 1;
    }
    out
}

fn validate_math_child(
    ctx: &ValidationCtx,
    child: &Child,
    scope_context: Option<&ScopeContext>,
    loop_vars: &Vec<String>,
) -> (r: Vec<ValidationError>)
    ensures
        views(r@) == in_math_problems(
            ctx@,
            *child,
            opt_scope(scope_context),
            texts(loop_vars@),
        ),
    decreases child, 0int,
{
    let mut out: Vec<ValidationError> = Vec::new();
    match child {
        Child::Leaf(l) => {
            let key = unquote_key(l.key.as_str());
            if same_ci("value", key) {
                return check_operand(ctx, l, scope_context, loop_vars);
            }
            let ov = alias_overloads(ctx.ruleset, ctx.type_index, "mathexpr", key);
            assert(views(ov@).len() == ov@.len());
            if ov.len() > 0 {
                return validate_alias_usage(ctx, "mathexpr", l, scope_context, loop_vars);
            }
            add_one(&mut out, report_unexpected(ctx, l));
            assert(views(out@) =~= seq![unexpected_problem(ctx@, *l)]);
        },
        Child::LeafValue(lv) => match &lv.value {
            Value::Clause(_) => {
                add_one(&mut out, report_bare_block(ctx, lv));
                assert(views(out@) =~= seq![bare_block_problem(ctx@, *lv)]);
            },
            _ => {
                add_one(&mut out, report_bare_value(ctx, lv));
                assert(views(out@) =~= seq![bare_value_problem(ctx@, *lv)]);
            },
        },
        Child::Comment(_) => {
            assert(views(out@) =~= Seq::empty());
        },
    }
    out
}

} // verus!
