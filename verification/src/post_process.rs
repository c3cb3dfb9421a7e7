//! Passes over a merged rule set that replace field types which stand for rules:
//! value markers, references to single aliases, colours, and ignored fields.
//!
//! They run once all files are merged, so that a single alias can be used in one
//! file and defined in another.

use vstd::prelude::*;
use vstd::string::*;

use crate::rules_types::{
    FieldV, Marker, NewField, Options, OptionsV, RootRule, RootRuleV, RuleType, RuleTypeV, RuleV,
    ValueType, ValueTypeV, clone_rules, default_options, lemma_rules_empty, lemma_rules_push,
    lemma_views_push, rules_view, views,
};
use crate::ruleset::{RuleSet, RuleSetV};
use crate::text::{list_contains, same, texts};

verus! {

/// How often the references among single aliases are replaced.
pub const MAX_ROUNDS: usize = 10;

/// Single aliases with their rules.
pub type AliasesV = Seq<(Seq<char>, RuleV)>;

/// The rules in the body of a rule that has one.
pub open spec fn body_rules(rt: RuleTypeV) -> Option<Seq<RuleV>> {
    match rt {
        RuleTypeV::NodeRule { rules, .. } => Some(rules),
        RuleTypeV::ValueClauseRule { rules } => Some(rules),
        RuleTypeV::SubtypeRule { rules, .. } => Some(rules),
        _ => None,
    }
}

/// A rule with another body.
pub open spec fn with_body(rt: RuleTypeV, body: Seq<RuleV>) -> RuleTypeV {
    match rt {
        RuleTypeV::NodeRule { left, .. } => RuleTypeV::NodeRule { left, rules: body },
        RuleTypeV::ValueClauseRule { .. } => RuleTypeV::ValueClauseRule { rules: body },
        RuleTypeV::SubtypeRule { name, positive, .. } => RuleTypeV::SubtypeRule {
            name,
            positive,
            rules: body,
        },
        _ => rt,
    }
}

// ---------------------------------------------------------------------------
// Value markers

/// A value marker turned into the field that it marks; any other field as it is.
pub open spec fn unmarked_field(f: FieldV) -> FieldV {
    match f {
        FieldV::ValueScopeMarkerField { is_int, min, max } => FieldV::ValueScopeField {
            is_int,
            min,
            max,
        },
        _ => f,
    }
}

/// A rule with the value markers in it, at any depth, turned into fields.
pub open spec fn unmarked(rt: RuleTypeV) -> RuleTypeV
    decreases rt, 0int,
{
    match rt {
        RuleTypeV::LeafRule { left, right } => RuleTypeV::LeafRule {
            left: unmarked_field(left),
            right: unmarked_field(right),
        },
        RuleTypeV::LeafValueRule { right } => RuleTypeV::LeafValueRule {
            right: unmarked_field(right),
        },
        RuleTypeV::NodeRule { left, rules } => RuleTypeV::NodeRule {
            left: unmarked_field(left),
            rules: unmarked_list(rules, rules.len() as int),
        },
        RuleTypeV::ValueClauseRule { rules } => RuleTypeV::ValueClauseRule {
            rules: unmarked_list(rules, rules.len() as int),
        },
        RuleTypeV::SubtypeRule { name, positive, rules } => RuleTypeV::SubtypeRule {
            name,
            positive,
            rules: unmarked_list(rules, rules.len() as int),
        },
    }
}

/// [`unmarked`] of the first `n` rules.
pub open spec fn unmarked_list(rules: Seq<RuleV>, n: int) -> Seq<RuleV>
    decreases rules, n,
{
    if n <= 0 || n > rules.len() {
        Seq::empty()
    } else {
        unmarked_list(rules, n - 1).push((unmarked(rules[n - 1].0), rules[n - 1].1))
    }
}

fn rewrite_vsm_field(f: &NewField) -> (r: NewField)
    ensures
        r@ == unmarked_field(f@),
{
    match f {
        NewField::ValueScopeMarkerField { is_int, min, max } => NewField::ValueScopeField {
            is_int: *is_int,
            min: min.clone(),
            max: max.clone(),
        },
        _ => f.clone(),
    }
}

/// Turns the value markers of a rule into fields.
pub fn rewrite_vsm_in_rule(rt: &RuleType) -> (r: RuleType)
    ensures
        r@ == unmarked(rt@),
    decreases rt, 0int,
{
    match rt {
        RuleType::LeafRule { left, right } => RuleType::LeafRule {
            left: rewrite_vsm_field(left),
            right: rewrite_vsm_field(right),
        },
        RuleType::LeafValueRule { right } => RuleType::LeafValueRule {
            right: rewrite_vsm_field(right),
        },
        RuleType::NodeRule { left, rules } => RuleType::NodeRule {
            left: rewrite_vsm_field(left),
            rules: rewrite_vsm_in_list(rules),
        },
        RuleType::ValueClauseRule { rules } => RuleType::ValueClauseRule {
            rules: rewrite_vsm_in_list(rules),
        },
        RuleType::SubtypeRule { name, positive, rules } => RuleType::SubtypeRule {
            name: name.clone(),
            positive: *positive,
            rules: rewrite_vsm_in_list(rules),
        },
    }
}

/// Turns the value markers in a list of rules into fields.
pub fn rewrite_vsm_in_list(rules: &Vec<(RuleType, Options)>) -> (r: Vec<(RuleType, Options)>)
    ensures
        rules_view(r@) == unmarked_list(rules_view(rules@), rules@.len() as int),
    decreases rules, 1int,
{
    let mut out: Vec<(RuleType, Options)> = Vec::new();
    let mut i: usize = 0;
    proof {
        lemma_rules_empty();
    }
    while i < rules.len()
        invariant
            i <= rules@.len(),
            rules_view(out@) == unmarked_list(rules_view(rules@), i as int),
        decreases rules@.len() - i,
    {
        let ghost before = out@;
        let x = (rewrite_vsm_in_rule(&rules[i].0), rules[i].1.clone());
        out.push(x);
        proof {
            lemma_rules_push(before, x);
        }
        i += 1;
    }
    out
}

// ---------------------------------------------------------------------------
// Single aliases

/// The rule of the first single alias of a name in `m[i..]`.
pub open spec fn find_single(m: AliasesV, name: Seq<char>, i: int) -> Option<RuleTypeV>
    decreases m.len() - i,
{
    if i < 0 || i >= m.len() {
        None
    } else if m[i].0 == name {
        Some(m[i].1.0)
    } else {
        find_single(m, name, i + 1)
    }
}

/// The single alias that a rule refers to.
pub open spec fn single_ref(rt: RuleTypeV) -> Option<Seq<char>> {
    match rt {
        RuleTypeV::LeafRule { right: FieldV::SingleAliasField(name), .. } => Some(name),
        _ => None,
    }
}

pub open spec fn leaf_left(rt: RuleTypeV) -> FieldV {
    match rt {
        RuleTypeV::LeafRule { left, .. } => left,
        _ => FieldV::ScalarField,
    }
}

/// A rule of a body with the references to single aliases in it, at any depth,
/// replaced by what the aliases hold. A reference keeps its key and its options;
/// one to an alias that is not defined stays.
pub open spec fn inlined(rt: RuleTypeV, m: AliasesV) -> RuleTypeV
    decreases rt, 0int,
{
    match single_ref(rt) {
        Some(name) => match find_single(m, name, 0) {
            Some(RuleTypeV::LeafRule { right, .. }) => RuleTypeV::LeafRule {
                left: leaf_left(rt),
                right,
            },
            Some(RuleTypeV::NodeRule { rules, .. }) => RuleTypeV::NodeRule {
                left: leaf_left(rt),
                rules,
            },
            Some(other) => other,
            None => rt,
        },
        None => inlined_body(rt, m),
    }
}

/// A rule whose body has the references in it replaced.
pub open spec fn inlined_body(rt: RuleTypeV, m: AliasesV) -> RuleTypeV
    decreases rt, 0int, 0int,
{
    match rt {
        RuleTypeV::NodeRule { left, rules } => RuleTypeV::NodeRule {
            left,
            rules: inlined_list(rules, m, rules.len() as int),
        },
        RuleTypeV::ValueClauseRule { rules } => RuleTypeV::ValueClauseRule {
            rules: inlined_list(rules, m, rules.len() as int),
        },
        RuleTypeV::SubtypeRule { name, positive, rules } => RuleTypeV::SubtypeRule {
            name,
            positive,
            rules: inlined_list(rules, m, rules.len() as int),
        },
        _ => rt,
    }
}

/// [`inlined`] of the first `n` rules.
pub open spec fn inlined_list(rules: Seq<RuleV>, m: AliasesV, n: int) -> Seq<RuleV>
    decreases rules, n, 1int,
{
    if n <= 0 || n > rules.len() {
        Seq::empty()
    } else {
        inlined_list(rules, m, n - 1).push((inlined(rules[n - 1].0, m), rules[n - 1].1))
    }
}

/// [`inlined`] for a rule that stands on its own: a reference to an alias that is
/// neither a field nor a block stays.
pub open spec fn inlined_root(rt: RuleTypeV, m: AliasesV) -> RuleTypeV {
    match single_ref(rt) {
        Some(name) => match find_single(m, name, 0) {
            Some(RuleTypeV::LeafRule { .. }) => inlined(rt, m),
            Some(RuleTypeV::NodeRule { .. }) => inlined(rt, m),
            _ => rt,
        },
        None => inlined_body(rt, m),
    }
}

/// The names of single aliases, in order.
pub open spec fn alias_names(m: AliasesV) -> Seq<Seq<char>> {
    Seq::new(m.len(), |i: int| m[i].0)
}

/// Some reference in a rule, at any depth, is to an alias of one of the names.
pub open spec fn has_ref(rt: RuleTypeV, names: Seq<Seq<char>>) -> bool
    decreases rt, 0int,
{
    match single_ref(rt) {
        Some(name) => names.contains(name),
        None => match rt {
            RuleTypeV::NodeRule { rules, .. } => list_has_ref(rules, names, rules.len() as int),
            RuleTypeV::ValueClauseRule { rules } => list_has_ref(
                rules,
                names,
                rules.len() as int,
            ),
            RuleTypeV::SubtypeRule { rules, .. } => list_has_ref(
                rules,
                names,
                rules.len() as int,
            ),
            _ => false,
        },
    }
}

/// Some reference in the first `n` rules is to an alias of one of the names.
pub open spec fn list_has_ref(rules: Seq<RuleV>, names: Seq<Seq<char>>, n: int) -> bool
    decreases rules, n,
{
    if n <= 0 || n > rules.len() {
        false
    } else {
        list_has_ref(rules, names, n - 1) || has_ref(rules[n - 1].0, names)
    }
}

/// The names of the single aliases that a rule refers to, at any depth, in order.
pub open spec fn refs_of(rt: RuleTypeV) -> Seq<Seq<char>>
    decreases rt, 0int,
{
    match single_ref(rt) {
        Some(name) => seq![name],
        None => match rt {
            RuleTypeV::NodeRule { rules, .. } => list_refs_of(rules, rules.len() as int),
            RuleTypeV::ValueClauseRule { rules } => list_refs_of(rules, rules.len() as int),
            RuleTypeV::SubtypeRule { rules, .. } => list_refs_of(rules, rules.len() as int),
            _ => Seq::empty(),
        },
    }
}

/// [`refs_of`] of the first `n` rules.
pub open spec fn list_refs_of(rules: Seq<RuleV>, n: int) -> Seq<Seq<char>>
    decreases rules, n,
{
    if n <= 0 || n > rules.len() {
        Seq::empty()
    } else {
        list_refs_of(rules, n - 1) + refs_of(rules[n - 1].0)
    }
}

/// Some alias has a reference to one of the names.
pub open spec fn aliases_have_ref(s: AliasesV, names: Seq<Seq<char>>) -> bool {
    exists|i: int| 0 <= i < s.len() && has_ref((#[trigger] s[i]).1.0, names)
}

/// The single alias of the name `a` refers to the one of the name `b`.
pub open spec fn refers(m: AliasesV, a: Seq<char>, b: Seq<char>) -> bool {
    find_single(m, a, 0) matches Some(rt) && refs_of(rt).contains(b)
}

/// From the single alias of the name `a`, `k` references lead to the name `b`.
pub open spec fn reaches_in(m: AliasesV, a: Seq<char>, b: Seq<char>, k: nat) -> bool
    decreases k,
{
    if k == 0 {
        a == b
    } else {
        exists|c: Seq<char>| #[trigger]
            refers(m, a, c) && reaches_in(m, c, b, (k - 1) as nat)
    }
}

/// The references from the single alias of the name `a` lead to the name `b`.
pub open spec fn reaches(m: AliasesV, a: Seq<char>, b: Seq<char>) -> bool {
    exists|k: nat| k > 0 && #[trigger] reaches_in(m, a, b, k)
}

/// The single alias of that name refers to itself, if only through others.
pub open spec fn is_cyclic(m: AliasesV, name: Seq<char>) -> bool {
    reaches(m, name, name)
}

/// The names of those of the first `n` single aliases that refer to themselves, each
/// once.
pub open spec fn cyclic_names(m: AliasesV, n: int) -> Seq<Seq<char>>
    decreases n,
{
    if n <= 0 || n > m.len() {
        Seq::empty()
    } else {
        let head = cyclic_names(m, n - 1);
        if is_cyclic(m, m[n - 1].0) && !head.contains(m[n - 1].0) {
            head.push(m[n - 1].0)
        } else {
            head
        }
    }
}

/// The first `n` aliases, without those of the names.
pub open spec fn without(s: AliasesV, names: Seq<Seq<char>>, n: int) -> AliasesV
    decreases n,
{
    if n <= 0 || n > s.len() {
        Seq::empty()
    } else if names.contains(s[n - 1].0) {
        without(s, names, n - 1)
    } else {
        without(s, names, n - 1).push(s[n - 1])
    }
}

/// Every alias with the references in it replaced once.
pub open spec fn inlined_aliases(s: AliasesV, m: AliasesV) -> AliasesV {
    Seq::new(s.len(), |i: int| (s[i].0, (inlined_root(s[i].1.0, m), s[i].1.1)))
}

/// The single aliases with the references among them replaced, round by round, until
/// none is left to replace or `rounds` are over. References to the names `cyclic`,
/// which would never come to an end, stay.
pub open spec fn inline_rounds(s: AliasesV, cyclic: Seq<Seq<char>>, rounds: nat) -> AliasesV
    decreases rounds,
{
    let open = without(s, cyclic, s.len() as int);
    if rounds == 0 || !aliases_have_ref(s, alias_names(open)) {
        s
    } else {
        inline_rounds(inlined_aliases(s, open), cyclic, (rounds - 1) as nat)
    }
}

fn lookup_single_alias<'a>(m: &'a Vec<(String, (RuleType, Options))>, name: &str) -> (r: Option<
    &'a RuleType,
>)
    ensures
        match r {
            Some(x) => find_single(views(m@), name@, 0) == Some(x@),
            None => find_single(views(m@), name@, 0) is None,
        },
{
    let mut i: usize = 0;
    while i < m.len()
        invariant
            i <= m@.len(),
            find_single(views(m@), name@, 0) == find_single(views(m@), name@, i as int),
        decreases m@.len() - i,
    {
        assert(views(m@)[i as int] == m@[i as int]@);
        if same(m[i].0.as_str(), name) {
            return Some(&m[i].1.0);
        }
        i += 1;
    }
    None
}

/// Replaces the references to single aliases in a rule of a body.
pub fn inline_rule(rt: &RuleType, m: &Vec<(String, (RuleType, Options))>) -> (r: RuleType)
    ensures
        r@ == inlined(rt@, views(m@)),
    decreases rt, 1int,
{
    if let RuleType::LeafRule { left, right: NewField::SingleAliasField(name) } = rt {
        return match lookup_single_alias(m, name.as_str()) {
            Some(RuleType::LeafRule { right, .. }) => RuleType::LeafRule {
                left: left.clone(),
                right: right.clone(),
            },
            Some(RuleType::NodeRule { rules, .. }) => RuleType::NodeRule {
                left: left.clone(),
                rules: clone_rules(rules),
            },
            Some(other) => other.clone(),
            None => rt.clone(),
        };
    }
    inline_body(rt, m)
}

fn inline_body(rt: &RuleType, m: &Vec<(String, (RuleType, Options))>) -> (r: RuleType)
    ensures
        r@ == inlined_body(rt@, views(m@)),
    decreases rt, 0int,
{
    match rt {
        RuleType::NodeRule { left, rules } => RuleType::NodeRule {
            left: left.clone(),
            rules: inline_rules_list(rules, m),
        },
        RuleType::ValueClauseRule { rules } => RuleType::ValueClauseRule {
            rules: inline_rules_list(rules, m),
        },
        RuleType::SubtypeRule { name, positive, rules } => RuleType::SubtypeRule {
            name: name.clone(),
            positive: *positive,
            rules: inline_rules_list(rules, m),
        },
        _ => rt.clone(),
    }
}

/// Replaces the references to single aliases in a list of rules.
pub fn inline_rules_list(
    rules: &Vec<(RuleType, Options)>,
    m: &Vec<(String, (RuleType, Options))>,
) -> (r: Vec<(RuleType, Options)>)
    ensures
        rules_view(r@) == inlined_list(rules_view(rules@), views(m@), rules@.len() as int),
    decreases rules, 2int,
{
    let mut out: Vec<(RuleType, Options)> = Vec::new();
    let mut i: usize = 0;
    proof {
        lemma_rules_empty();
    }
    while i < rules.len()
        invariant
            i <= rules@.len(),
            rules_view(out@) == inlined_list(rules_view(rules@), views(m@), i as int),
        decreases rules@.len() - i,
    {
        let ghost before = out@;
        let x = (inline_rule(&rules[i].0, m), rules[i].1.clone());
        out.push(x);
        proof {
            lemma_rules_push(before, x);
        }
        i += 1;
    }
    out
}

/// Replaces the references to single aliases in a rule that stands on its own.
pub fn inline_single_alias_rule(rt: &RuleType, m: &Vec<(String, (RuleType, Options))>) -> (r:
    RuleType)
    ensures
        r@ == inlined_root(rt@, views(m@)),
{
    if let RuleType::LeafRule { right: NewField::SingleAliasField(name), .. } = rt {
        return match lookup_single_alias(m, name.as_str()) {
            Some(RuleType::LeafRule { .. }) => inline_rule(rt, m),
            Some(RuleType::NodeRule { .. }) => inline_rule(rt, m),
            _ => rt.clone(),
        };
    }
    inline_body(rt, m)
}

/// Whether some reference in a rule is to an alias of one of the names.
pub fn refers_to_any(rt: &RuleType, names: &Vec<String>) -> (r: bool)
    ensures
        r == has_ref(rt@, texts(names@)),
    decreases rt, 0int,
{
    match rt {
        RuleType::LeafRule { right, .. } => match right {
            NewField::SingleAliasField(name) => list_contains(names, name.as_str()),
            _ => false,
        },
        RuleType::NodeRule { rules, .. } => list_refers_to_any(rules, names),
        RuleType::ValueClauseRule { rules } => list_refers_to_any(rules, names),
        RuleType::SubtypeRule { rules, .. } => list_refers_to_any(rules, names),
        _ => false,
    }
}

proof fn lemma_list_has_ref(rules: Seq<RuleV>, names: Seq<Seq<char>>, i: int, n: int)
    requires
        0 <= i <= n <= rules.len(),
        list_has_ref(rules, names, i),
    ensures
        list_has_ref(rules, names, n),
    decreases n - i,
{
    if i < n {
        lemma_list_has_ref(rules, names, i, n - 1);
    }
}

fn list_refers_to_any(rules: &Vec<(RuleType, Options)>, names: &Vec<String>) -> (r: bool)
    ensures
        r == list_has_ref(rules_view(rules@), texts(names@), rules@.len() as int),
    decreases rules, 1int,
{
    let mut i: usize = 0;
    while i < rules.len()
        invariant
            i <= rules@.len(),
            !list_has_ref(rules_view(rules@), texts(names@), i as int),
        decreases rules@.len() - i,
    {
        if refers_to_any(&rules[i].0, names) {
            proof {
                lemma_list_has_ref(
                    rules_view(rules@),
                    texts(names@),
                    i + 1,
                    rules@.len() as int,
                );
            }
            return true;
        }
        i += 1;
    }
    false
}

fn names_of_aliases(m: &Vec<(String, (RuleType, Options))>) -> (r: Vec<String>)
    ensures
        texts(r@) == alias_names(views(m@)),
{
    let mut out: Vec<String> = Vec::new();
    let ghost all = alias_names(views(m@));
    let mut i: usize = 0;
    assert(texts(out@) =~= all.take(0));
    while i < m.len()
        invariant
            i <= m@.len(),
            all == alias_names(views(m@)),
            texts(out@) == all.take(i as int),
        decreases m@.len() - i,
    {
        assert(views(m@)[i as int] == m@[i as int]@);
        let ghost before = texts(out@);
        out.push(m[i].0.clone());
        assert(texts(out@) =~= before.push(all[i as int]));
        assert(all.take(i + 1) =~= all.take(i as int).push(all[i as int]));
        i += 1;
    }
    assert(all.take(i as int) =~= all);
    out
}

fn any_alias_refers(m: &Vec<(String, (RuleType, Options))>, names: &Vec<String>) -> (r: bool)
    ensures
        r == aliases_have_ref(views(m@), texts(names@)),
{
    let ghost all = views(m@);
    let mut i: usize = 0;
    while i < m.len()
        invariant
            i <= m@.len(),
            all == views(m@),
            forall|j: int| 0 <= j < i ==> !has_ref((#[trigger] all[j]).1.0, texts(names@)),
        decreases m@.len() - i,
    {
        assert(all[i as int] == m@[i as int]@);
        if refers_to_any(&m[i].1.0, names) {
            assert(has_ref(all[i as int].1.0, texts(names@)));
            return true;
        }
        i += 1;
    }
    false
}

// ---------------------------------------------------------------------------
// Cycles

/// One more reference at the end of a path.
proof fn lemma_reaches_further(m: AliasesV, a: Seq<char>, b: Seq<char>, c: Seq<char>, k: nat)
    requires
        reaches_in(m, a, b, k),
        refers(m, b, c),
    ensures
        reaches_in(m, a, c, k + 1),
    decreases k,
{
    if k == 0 {
        assert(reaches_in(m, c, c, 0));
    } else {
        let x = choose|x: Seq<char>| #[trigger]
            refers(m, a, x) && reaches_in(m, x, b, (k - 1) as nat);
        lemma_reaches_further(m, x, b, c, (k - 1) as nat);
    }
}

pub proof fn lemma_found_at(m: AliasesV, name: Seq<char>, i: int)
    requires
        0 <= i <= m.len(),
    ensures
        match find_single(m, name, i) {
            Some(rt) => exists|j: int|
                i <= j < m.len() && (#[trigger] m[j]).0 == name && m[j].1.0 == rt,
            None => forall|j: int| i <= j < m.len() ==> (#[trigger] m[j]).0 != name,
        },
    decreases m.len() - i,
{
    if i < m.len() && m[i].0 != name {
        lemma_found_at(m, name, i + 1);
    }
}

/// The marked names are exactly those that the alias refers to, those that these refer
/// to, and so on.
pub open spec fn marks_reached(m: AliasesV, a: Seq<char>, seen: Seq<bool>) -> bool {
    &&& seen.len() == m.len()
    &&& forall|j: int| 0 <= j < m.len() ==> (#[trigger] seen[j] <==> reaches(m, a, m[j].0))
}

/// What a marked alias refers to is marked.
pub open spec fn is_closed_at(m: AliasesV, b: Seq<char>, seen: Seq<bool>) -> bool {
    forall|j: int|
        0 <= j < m.len() && #[trigger] refers(m, b, m[j].0) ==> seen[j]
}

proof fn lemma_closed(m: AliasesV, b: Seq<char>, j: int, k: nat, seen: Seq<bool>)
    requires
        seen.len() == m.len(),
        0 <= j < m.len(),
        k > 0,
        is_closed_at(m, b, seen),
        forall|i: int|
            0 <= i < m.len() && #[trigger] seen[i] ==> is_closed_at(m, m[i].0, seen),
        reaches_in(m, b, m[j].0, k),
    ensures
        seen[j],
    decreases k,
{
    let c = choose|c: Seq<char>| #[trigger]
        refers(m, b, c) && reaches_in(m, c, m[j].0, (k - 1) as nat);
    if k == 1 {
        assert(c == m[j].0);
    } else {
        let d = choose|d: Seq<char>| #[trigger]
            refers(m, c, d) && reaches_in(m, d, m[j].0, (k - 2) as nat);
        lemma_found_at(m, c, 0);
        let i = choose|i: int| 0 <= i < m.len() && (#[trigger] m[i]).0 == c;
        assert(refers(m, b, m[i].0));
        assert(seen[i]);
        lemma_closed(m, c, j, (k - 1) as nat, seen);
    }
}

/// Adds the names of the single aliases that a rule refers to.
fn collect_refs(rt: &RuleType, out: &mut Vec<String>)
    ensures
        texts(final(out)@) == texts(old(out)@) + refs_of(rt@),
    decreases rt, 0int,
{
    let ghost start = texts(out@);
    match rt {
        RuleType::LeafRule { right, .. } => match right {
            NewField::SingleAliasField(name) => {
                out.push(name.clone());
                assert(texts(out@) =~= start + seq![name@]);
            },
            _ => {
                assert(start + Seq::empty() =~= start);
            },
        },
        RuleType::NodeRule { rules, .. } => collect_list_refs(rules, out),
        RuleType::ValueClauseRule { rules } => collect_list_refs(rules, out),
        RuleType::SubtypeRule { rules, .. } => collect_list_refs(rules, out),
        _ => {
            assert(start + Seq::empty() =~= start);
        },
    }
}

fn collect_list_refs(rules: &Vec<(RuleType, Options)>, out: &mut Vec<String>)
    ensures
        texts(final(out)@) == texts(old(out)@) + list_refs_of(
            rules_view(rules@),
            rules@.len() as int,
        ),
    decreases rules, 1int,
{
    let ghost start = texts(out@);
    let ghost all = rules_view(rules@);
    let mut i: usize = 0;
    assert(start + Seq::empty() =~= start);
    while i < rules.len()
        invariant
            i <= rules@.len(),
            all == rules_view(rules@),
            texts(out@) == start + list_refs_of(all, i as int),
        decreases rules@.len() - i,
    {
        collect_refs(&rules[i].0, out);
        i += 1;
        assert(texts(out@) =~= start + list_refs_of(all, i as int));
    }
}

/// The marks are those of the aliases that the one of the name `a` refers to.
pub open spec fn marks_referred(m: AliasesV, a: Seq<char>, row: Seq<bool>) -> bool {
    &&& row.len() == m.len()
    &&& forall|j: int| 0 <= j < m.len() ==> (#[trigger] row[j] <==> refers(m, a, m[j].0))
}

/// Marks the single aliases that the one of a name refers to.
fn find_referred(m: &Vec<(String, (RuleType, Options))>, name: &str) -> (r: Vec<bool>)
    ensures
        marks_referred(views(m@), name@, r@),
{
    let ghost all = views(m@);
    let mut refs: Vec<String> = Vec::new();
    match lookup_single_alias(m, name) {
        Some(body) => collect_refs(body, &mut refs),
        None => {},
    }
    proof {
        assert(texts(Seq::<String>::empty()) =~= Seq::empty());
        match find_single(all, name@, 0) {
            Some(rt) => assert(texts(refs@) =~= refs_of(rt)),
            None => {},
        }
    }
    let mut out: Vec<bool> = Vec::new();
    let mut j: usize = 0;
    while j < m.len()
        invariant
            j <= m@.len(),
            all == views(m@),
            out@.len() == j,
            forall|b: Seq<char>| texts(refs@).contains(b) <==> #[trigger] refers(all, name@, b),
            forall|i: int| 0 <= i < j ==> (#[trigger] out@[i] <==> refers(all, name@, all[i].0)),
        decreases m@.len() - j,
    {
        assert(all[j as int] == m@[j as int]@);
        out.push(list_contains(&refs, m[j].0.as_str()));
        j += 1;
    }
    out
}

/// The number of the first `n` marks that are not set.
spec fn unset(seen: Seq<bool>, n: int) -> nat
    decreases n,
{
    if n <= 0 || n > seen.len() {
        0
    } else if seen[n - 1] {
        unset(seen, n - 1)
    } else {
        unset(seen, n - 1) + 1
    }
}

proof fn lemma_unset(seen: Seq<bool>, i: int, n: int)
    requires
        0 <= n <= seen.len(),
        0 <= i < seen.len(),
        !seen[i],
    ensures
        unset(seen.update(i, true), n) == unset(seen, n) - (if i < n {
            1int
        } else {
            0int
        }),
    decreases n,
{
    if n > 0 {
        lemma_unset(seen, i, n - 1);
    }
}

/// Marks what one alias refers to, and notes what was not marked before.
fn mark_referred(row: &Vec<bool>, seen: &mut Vec<bool>, pending: &mut Vec<usize>)
    requires
        row@.len() == old(seen)@.len(),
    ensures
        final(seen)@.len() == old(seen)@.len(),
        forall|j: int|
            0 <= j < row@.len() ==> (#[trigger] final(seen)@[j] <==> old(seen)@[j] || row@[j]),
        forall|j: int|
            0 <= j < row@.len() && #[trigger] final(seen)@[j] && !old(seen)@[j]
                ==> final(pending)@.contains(j as usize),
        forall|j: usize| #[trigger] old(pending)@.contains(j) ==> final(pending)@.contains(j),
        forall|j: usize| #[trigger]
            final(pending)@.contains(j) ==> old(pending)@.contains(j) || (j < row@.len()
                && final(seen)@[j as int]),
        2 * unset(final(seen)@, row@.len() as int) + final(pending)@.len() <= 2 * unset(
            old(seen)@,
            row@.len() as int,
        ) + old(pending)@.len(),
{
    let ghost n = row@.len() as int;
    let mut j: usize = 0;
    while j < row.len()
        invariant
            j <= row@.len(),
            n == row@.len(),
            seen@.len() == row@.len(),
            row@.len() == old(seen)@.len(),
            forall|i: int|
                0 <= i < n ==> (#[trigger] seen@[i] <==> old(seen)@[i] || (i < j && row@[i])),
            forall|i: int|
                0 <= i < n && #[trigger] seen@[i] && !old(seen)@[i] ==> pending@.contains(
                    i as usize,
                ),
            forall|i: usize| #[trigger] old(pending)@.contains(i) ==> pending@.contains(i),
            forall|i: usize| #[trigger]
                pending@.contains(i) ==> old(pending)@.contains(i) || (i < n && seen@[i as int]),
            2 * unset(seen@, n) + pending@.len() <= 2 * unset(old(seen)@, n) + old(pending)@.len(),
        decreases row@.len() - j,
    {
        if row[j] && !seen[j] {
            let ghost before = pending@;
            proof {
                lemma_unset(seen@, j as int, n);
            }
            seen.set(j, true);
            pending.push(j);
            proof {
                assert(pending@[before.len() as int] == j);
                assert forall|i: usize| #[trigger] before.contains(i) implies pending@.contains(
                    i,
                ) by {
                    let k = choose|k: int| 0 <= k < before.len() && before[k] == i;
                    assert(pending@[k] == i);
                }
                assert forall|i: usize| #[trigger] pending@.contains(i) implies before.contains(i)
                    || i == j by {
                    let k = choose|k: int| 0 <= k < pending@.len() && pending@[k] == i;
                    if k < before.len() {
                        assert(before[k] == i);
                    }
                }
            }
        }
        j += 1;
    }
}

/// Marks the single aliases that the one of a name leads to. A row tells what an alias
/// refers to itself.
fn find_reached(
    m: &Vec<(String, (RuleType, Options))>,
    rows: &Vec<Vec<bool>>,
    x: usize,
) -> (r: Vec<bool>)
    requires
        x < m@.len(),
        rows@.len() == m@.len(),
        forall|i: int|
            0 <= i < m@.len() ==> marks_referred(
                views(m@),
                views(m@)[i].0,
                (#[trigger] rows@[i])@,
            ),
    ensures
        marks_reached(views(m@), views(m@)[x as int].0, r@),
{
    let ghost all = views(m@);
    let ghost name = all[x as int].0;
    let mut seen: Vec<bool> = Vec::new();
    let mut pending: Vec<usize> = Vec::new();
    let mut i: usize = 0;
    while i < m.len()
        invariant
            i <= m@.len(),
            seen@.len() == i,
            forall|j: int| 0 <= j < i ==> !(#[trigger] seen@[j]),
        decreases m@.len() - i,
    {
        seen.push(false);
        i += 1;
    }
    assert(marks_referred(all, name, rows@[x as int]@));
    mark_referred(&rows[x], &mut seen, &mut pending);
    assert forall|j: int| 0 <= j < m@.len() && #[trigger] seen@[j] implies reaches(
        all,
        name,
        all[j].0,
    ) by {
        assert(refers(all, name, all[j].0));
        assert(reaches_in(all, all[j].0, all[j].0, 0));
        assert(reaches_in(all, name, all[j].0, 1));
    }
    while pending.len() > 0
        invariant
            all == views(m@),
            seen@.len() == m@.len(),
            rows@.len() == m@.len(),
            forall|i: int|
                0 <= i < m@.len() ==> marks_referred(all, all[i].0, (#[trigger] rows@[i])@),
            is_closed_at(all, name, seen@),
            forall|j: int|
                0 <= j < m@.len() && #[trigger] seen@[j] ==> reaches(all, name, all[j].0),
            forall|j: int|
                0 <= j < m@.len() && #[trigger] seen@[j] ==> pending@.contains(j as usize)
                    || is_closed_at(all, all[j].0, seen@),
            forall|j: usize| #[trigger]
                pending@.contains(j) ==> j < m@.len() && seen@[j as int],
        decreases 2 * unset(seen@, m@.len() as int) + pending@.len(),
    {
        let ghost todo = pending@;
        let ghost before = seen@;
        let k: usize = pending.len() - 1;
        assert(pending@.contains(pending@[k as int]));
        let y: usize = pending[k];
        pending.pop();
        let ghost left = pending@;
        assert(left =~= todo.take(k as int));
        assert forall|j: usize| #[trigger] todo.contains(j) && j != y implies left.contains(j) by {
            let t = choose|t: int| 0 <= t < todo.len() && todo[t] == j;
            assert(left[t] == j);
        }
        assert forall|j: usize| #[trigger] left.contains(j) implies todo.contains(j) by {
            let t = choose|t: int| 0 <= t < left.len() && left[t] == j;
            assert(todo[t] == j);
        }
        assert(marks_referred(all, all[y as int].0, rows@[y as int]@));
        mark_referred(&rows[y], &mut seen, &mut pending);
        assert forall|j: int| 0 <= j < m@.len() && #[trigger] seen@[j] implies reaches(
            all,
            name,
            all[j].0,
        ) && (pending@.contains(j as usize) || is_closed_at(all, all[j].0, seen@)) by {
            if before[j] {
                if j == y {
                    assert(is_closed_at(all, all[j].0, seen@));
                } else if todo.contains(j as usize) {
                    assert(j < seen.len());
                    assert(left.contains(j as usize));
                } else {
                    assert(is_closed_at(all, all[j].0, before));
                }
            } else {
                let c = choose|c: nat|
                    c > 0 && #[trigger] reaches_in(all, name, all[y as int].0, c);
                assert(reaches(all, name, all[y as int].0));
                lemma_reaches_further(all, name, all[y as int].0, all[j].0, c);
                assert(reaches_in(all, name, all[j].0, c + 1));
            }
        }
        assert(is_closed_at(all, name, before));
    }
    assert forall|j: int| 0 <= j < all.len() implies (#[trigger] seen@[j] <==> reaches(
        all,
        name,
        all[j].0,
    )) by {
        if reaches(all, name, all[j].0) {
            let c = choose|c: nat| c > 0 && #[trigger] reaches_in(all, name, all[j].0, c);
            lemma_closed(all, name, j, c, seen@);
        }
    }
    seen
}

/// The names of the single aliases that refer to themselves, if only through others.
pub fn find_cyclic(m: &Vec<(String, (RuleType, Options))>) -> (r: Vec<String>)
    ensures
        texts(r@) == cyclic_names(views(m@), m@.len() as int),
{
    let ghost all = views(m@);
    let mut rows: Vec<Vec<bool>> = Vec::new();
    let mut i: usize = 0;
    while i < m.len()
        invariant
            i <= m@.len(),
            all == views(m@),
            rows@.len() == i,
            forall|j: int| 0 <= j < i ==> marks_referred(all, all[j].0, (#[trigger] rows@[j])@),
        decreases m@.len() - i,
    {
        assert(all[i as int] == m@[i as int]@);
        rows.push(find_referred(m, m[i].0.as_str()));
        i += 1;
    }
    let mut out: Vec<String> = Vec::new();
    let mut i: usize = 0;
    assert(texts(out@) =~= Seq::empty());
    while i < m.len()
        invariant
            i <= m@.len(),
            all == views(m@),
            rows@.len() == m@.len(),
            forall|j: int|
                0 <= j < m@.len() ==> marks_referred(all, all[j].0, (#[trigger] rows@[j])@),
            texts(out@) == cyclic_names(all, i as int),
        decreases m@.len() - i,
    {
        assert(all[i as int] == m@[i as int]@);
        let reached = find_reached(m, &rows, i);
        if reached[i] && !list_contains(&out, m[i].0.as_str()) {
            let ghost before = texts(out@);
            out.push(m[i].0.clone());
            assert(texts(out@) =~= before.push(all[i as int].0));
        }
        i += 1;
    }
    out
}

fn leave_out(m: &Vec<(String, (RuleType, Options))>, names: &Vec<String>) -> (r: Vec<
    (String, (RuleType, Options)),
>)
    ensures
        views(r@) == without(views(m@), texts(names@), m@.len() as int),
{
    let ghost all = views(m@);
    let mut out: Vec<(String, (RuleType, Options))> = Vec::new();
    let mut i: usize = 0;
    assert(views(out@) =~= Seq::empty());
    while i < m.len()
        invariant
            i <= m@.len(),
            all == views(m@),
            views(out@) == without(all, texts(names@), i as int),
        decreases m@.len() - i,
    {
        assert(all[i as int] == m@[i as int]@);
        if !list_contains(names, m[i].0.as_str()) {
            let ghost before = out@;
            let x = (m[i].0.clone(), (m[i].1.0.clone(), m[i].1.1.clone()));
            out.push(x);
            proof {
                lemma_views_push(before, x);
            }
        }
        i += 1;
    }
    out
}

fn inline_aliases_once(
    s: &Vec<(String, (RuleType, Options))>,
    m: &Vec<(String, (RuleType, Options))>,
) -> (r: Vec<(String, (RuleType, Options))>)
    ensures
        views(r@) == inlined_aliases(views(s@), views(m@)),
{
    let mut out: Vec<(String, (RuleType, Options))> = Vec::new();
    let mut i: usize = 0;
    let ghost target = inlined_aliases(views(s@), views(m@));
    while i < s.len()
        invariant
            i <= s@.len(),
            target == inlined_aliases(views(s@), views(m@)),
            views(out@) == target.subrange(0, i as int),
        decreases s@.len() - i,
    {
        let ghost before = out@;
        assert(views(s@)[i as int] == s@[i as int]@);
        let x = (s[i].0.clone(), (inline_single_alias_rule(&s[i].1.0, m), s[i].1.1.clone()));
        out.push(x);
        proof {
            lemma_views_push(before, x);
            assert(target.subrange(0, i + 1) =~= target.subrange(0, i as int).push(
                target[i as int],
            ));
        }
        i += 1;
    }
    assert(target.subrange(0, i as int) =~= target);
    out
}

/// Replaces the references that single aliases make to each other, but for those to
/// the names `cyclic`.
pub fn expand_single_aliases(
    aliases: Vec<(String, (RuleType, Options))>,
    cyclic: &Vec<String>,
) -> (r: Vec<(String, (RuleType, Options))>)
    ensures
        views(r@) == inline_rounds(views(aliases@), texts(cyclic@), MAX_ROUNDS as nat),
{
    let mut current = aliases;
    let mut rounds: usize = MAX_ROUNDS;
    while rounds > 0
        invariant
            inline_rounds(views(current@), texts(cyclic@), rounds as nat) == inline_rounds(
                views(aliases@),
                texts(cyclic@),
                MAX_ROUNDS as nat,
            ),
        decreases rounds,
    {
        let open = leave_out(&current, cyclic);
        let names = names_of_aliases(&open);
        if !any_alias_refers(&current, &names) {
            return current;
        }
        current = inline_aliases_once(&current, &open);
        rounds -= 1;
    }
    current
}

// ---------------------------------------------------------------------------
// Colours and country tags

/// The rule for the components of a colour.
pub open spec fn component_rule() -> RuleV {
    (
        RuleTypeV::LeafValueRule {
            right: FieldV::ValueField(ValueTypeV::Float { min: "-256.0"@, max: "256.0"@ }),
        },
        OptionsV { min: 3, max: 3, strict_min: true, leafvalue: true, ..default_options() },
    )
}

pub open spec fn country_tag_enum() -> FieldV {
    FieldV::ValueField(ValueTypeV::Enum("country_tags"@))
}

pub open spec fn country_tag_variable() -> FieldV {
    FieldV::VariableGetField("dynamic_country_tag"@)
}

/// The rules that a rule of a body stands for: a colour is a block of three
/// components, a country tag is a member of the enum or a variable.
pub open spec fn coloured(r: RuleV) -> Seq<RuleV>
    decreases r, 0int,
{
    match r.0 {
        RuleTypeV::LeafRule { left, right: FieldV::MarkerField(Marker::ColourField) } => seq![
            (RuleTypeV::NodeRule { left, rules: seq![component_rule()] }, r.1),
        ],
        RuleTypeV::LeafRule { left, right: FieldV::MarkerField(Marker::IrCountryTag) } => seq![
            (RuleTypeV::LeafRule { left, right: country_tag_enum() }, r.1),
            (RuleTypeV::LeafRule { left, right: country_tag_variable() }, r.1),
        ],
        RuleTypeV::LeafRule { left: FieldV::MarkerField(Marker::IrCountryTag), right } => seq![
            (RuleTypeV::LeafRule { left: country_tag_enum(), right }, r.1),
            (RuleTypeV::LeafRule { left: country_tag_variable(), right }, r.1),
        ],
        RuleTypeV::NodeRule { left: FieldV::MarkerField(Marker::IrCountryTag), rules } => seq![
            (
                RuleTypeV::NodeRule {
                    left: country_tag_enum(),
                    rules: coloured_list(rules, rules.len() as int),
                },
                r.1,
            ),
            (
                RuleTypeV::NodeRule {
                    left: country_tag_variable(),
                    rules: coloured_list(rules, rules.len() as int),
                },
                r.1,
            ),
        ],
        RuleTypeV::NodeRule { left, rules } => seq![
            (
                RuleTypeV::NodeRule { left, rules: coloured_list(rules, rules.len() as int) },
                r.1,
            ),
        ],
        RuleTypeV::ValueClauseRule { rules } => seq![
            (
                RuleTypeV::ValueClauseRule { rules: coloured_list(rules, rules.len() as int) },
                r.1,
            ),
        ],
        RuleTypeV::SubtypeRule { name, positive, rules } => seq![
            (
                RuleTypeV::SubtypeRule {
                    name,
                    positive,
                    rules: coloured_list(rules, rules.len() as int),
                },
                r.1,
            ),
        ],
        _ => seq![r],
    }
}

/// [`coloured`] of the first `n` rules.
pub open spec fn coloured_list(rules: Seq<RuleV>, n: int) -> Seq<RuleV>
    decreases rules, n,
{
    if n <= 0 || n > rules.len() {
        Seq::empty()
    } else {
        coloured_list(rules, n - 1) + coloured(rules[n - 1])
    }
}

/// A rule that stands on its own, with the markers in its body expanded.
pub open spec fn coloured_root(rt: RuleTypeV) -> RuleTypeV {
    match body_rules(rt) {
        Some(rules) => with_body(rt, coloured_list(rules, rules.len() as int)),
        None => rt,
    }
}

fn make_component_rule() -> (r: (RuleType, Options))
    ensures
        r@ == component_rule(),
{
    let mut o = Options::default();
    o.min = 3;
    o.max = 3;
    o.strict_min = true;
    o.leafvalue = true;
    assert(o@ =~= component_rule().1);
    (
        RuleType::LeafValueRule {
            right: NewField::ValueField(
                ValueType::Float { min: "-256.0".to_owned(), max: "256.0".to_owned() },
            ),
        },
        o,
    )
}

fn tag_enum() -> (r: NewField)
    ensures
        r@ == country_tag_enum(),
{
    NewField::ValueField(ValueType::Enum("country_tags".to_owned()))
}

fn tag_variable() -> (r: NewField)
    ensures
        r@ == country_tag_variable(),
{
    NewField::VariableGetField("dynamic_country_tag".to_owned())
}

/// The rules that a rule of a body stands for.
pub fn expand_colour_rule(rule: &(RuleType, Options), out: &mut Vec<(RuleType, Options)>)
    ensures
        rules_view(final(out)@) == rules_view(old(out)@) + coloured(rule@),
    decreases rule, 0int,
{
    let ghost start = rules_view(out@);
    let ghost held = out@;
    match &rule.0 {
        RuleType::LeafRule { left, right: NewField::MarkerField(Marker::ColourField) } => {
            let mut inner: Vec<(RuleType, Options)> = Vec::new();
            inner.push(make_component_rule());
            assert(rules_view(inner@) =~= seq![component_rule()]);
            out.push((RuleType::NodeRule { left: left.clone(), rules: inner }, rule.1.clone()));
        },
        RuleType::LeafRule { left, right: NewField::MarkerField(Marker::IrCountryTag) } => {
            out.push(
                (RuleType::LeafRule { left: left.clone(), right: tag_enum() }, rule.1.clone()),
            );
            out.push(
                (RuleType::LeafRule { left: left.clone(), right: tag_variable() }, rule.1.clone()),
            );
        },
        RuleType::LeafRule { left: NewField::MarkerField(Marker::IrCountryTag), right } => {
            out.push(
                (RuleType::LeafRule { left: tag_enum(), right: right.clone() }, rule.1.clone()),
            );
            out.push(
                (RuleType::LeafRule { left: tag_variable(), right: right.clone() }, rule.1.clone()),
            );
        },
        RuleType::NodeRule { left: NewField::MarkerField(Marker::IrCountryTag), rules } => {
            let a = expand_colour_in_list(rules);
            let b = expand_colour_in_list(rules);
            out.push((RuleType::NodeRule { left: tag_enum(), rules: a }, rule.1.clone()));
            out.push((RuleType::NodeRule { left: tag_variable(), rules: b }, rule.1.clone()));
        },
        RuleType::NodeRule { left, rules } => {
            let a = expand_colour_in_list(rules);
            out.push((RuleType::NodeRule { left: left.clone(), rules: a }, rule.1.clone()));
        },
        RuleType::ValueClauseRule { rules } => {
            let a = expand_colour_in_list(rules);
            out.push((RuleType::ValueClauseRule { rules: a }, rule.1.clone()));
        },
        RuleType::SubtypeRule { name, positive, rules } => {
            let a = expand_colour_in_list(rules);
            out.push(
                (
                    RuleType::SubtypeRule { name: name.clone(), positive: *positive, rules: a },
                    rule.1.clone(),
                ),
            );
        },
        _ => {
            out.push((rule.0.clone(), rule.1.clone()));
        },
    }
    assert(rules_view(out@) =~= start + coloured(rule@));
}

/// Expands the colours and country tags in a list of rules.
pub fn expand_colour_in_list(rules: &Vec<(RuleType, Options)>) -> (r: Vec<(RuleType, Options)>)
    ensures
        rules_view(r@) == coloured_list(rules_view(rules@), rules@.len() as int),
    decreases rules, 1int,
{
    let mut out: Vec<(RuleType, Options)> = Vec::new();
    let mut i: usize = 0;
    proof {
        lemma_rules_empty();
    }
    while i < rules.len()
        invariant
            i <= rules@.len(),
            rules_view(out@) == coloured_list(rules_view(rules@), i as int),
        decreases rules@.len() - i,
    {
        assert(rules_view(rules@)[i as int] == rules@[i as int]@);
        expand_colour_rule(&rules[i], &mut out);
        i += 1;
    }
    out
}

/// Expands the colours and country tags in the body of a rule.
pub fn expand_colour_in_rule(rt: &RuleType) -> (r: RuleType)
    ensures
        r@ == coloured_root(rt@),
{
    match rt {
        RuleType::NodeRule { left, rules } => RuleType::NodeRule {
            left: left.clone(),
            rules: expand_colour_in_list(rules),
        },
        RuleType::ValueClauseRule { rules } => RuleType::ValueClauseRule {
            rules: expand_colour_in_list(rules),
        },
        RuleType::SubtypeRule { name, positive, rules } => RuleType::SubtypeRule {
            name: name.clone(),
            positive: *positive,
            rules: expand_colour_in_list(rules),
        },
        _ => rt.clone(),
    }
}

// ---------------------------------------------------------------------------
// Ignored fields

/// A rule of a body with the fields in it that are to be ignored turned into
/// blocks under an ignored key.
pub open spec fn ignoring(rt: RuleTypeV) -> RuleTypeV
    decreases rt, 0int,
{
    match rt {
        RuleTypeV::LeafRule { left, right: FieldV::IgnoreMarkerField } => RuleTypeV::NodeRule {
            left: FieldV::IgnoreField(Box::new(left)),
            rules: Seq::empty(),
        },
        RuleTypeV::NodeRule { left, rules } => RuleTypeV::NodeRule {
            left,
            rules: ignoring_list(rules, rules.len() as int),
        },
        RuleTypeV::ValueClauseRule { rules } => RuleTypeV::ValueClauseRule {
            rules: ignoring_list(rules, rules.len() as int),
        },
        RuleTypeV::SubtypeRule { name, positive, rules } => RuleTypeV::SubtypeRule {
            name,
            positive,
            rules: ignoring_list(rules, rules.len() as int),
        },
        _ => rt,
    }
}

/// [`ignoring`] of the first `n` rules.
pub open spec fn ignoring_list(rules: Seq<RuleV>, n: int) -> Seq<RuleV>
    decreases rules, n,
{
    if n <= 0 || n > rules.len() {
        Seq::empty()
    } else {
        ignoring_list(rules, n - 1).push((ignoring(rules[n - 1].0), rules[n - 1].1))
    }
}

/// A rule that stands on its own, with the ignored fields in its body expanded.
pub open spec fn ignoring_root(rt: RuleTypeV) -> RuleTypeV {
    match body_rules(rt) {
        Some(rules) => with_body(rt, ignoring_list(rules, rules.len() as int)),
        None => rt,
    }
}

fn expand_ignore_rule(rt: &RuleType) -> (r: RuleType)
    ensures
        r@ == ignoring(rt@),
    decreases rt, 0int,
{
    match rt {
        RuleType::LeafRule { left, right: NewField::IgnoreMarkerField } => {
            proof {
                lemma_rules_empty();
            }
            RuleType::NodeRule {
                left: NewField::IgnoreField(Box::new(left.clone())),
                rules: Vec::new(),
            }
        },
        RuleType::NodeRule { left, rules } => RuleType::NodeRule {
            left: left.clone(),
            rules: expand_ignore_in_list(rules),
        },
        RuleType::ValueClauseRule { rules } => RuleType::ValueClauseRule {
            rules: expand_ignore_in_list(rules),
        },
        RuleType::SubtypeRule { name, positive, rules } => RuleType::SubtypeRule {
            name: name.clone(),
            positive: *positive,
            rules: expand_ignore_in_list(rules),
        },
        _ => rt.clone(),
    }
}

/// Expands the ignored fields in a list of rules.
pub fn expand_ignore_in_list(rules: &Vec<(RuleType, Options)>) -> (r: Vec<(RuleType, Options)>)
    ensures
        rules_view(r@) == ignoring_list(rules_view(rules@), rules@.len() as int),
    decreases rules, 1int,
{
    let mut out: Vec<(RuleType, Options)> = Vec::new();
    let mut i: usize = 0;
    proof {
        lemma_rules_empty();
    }
    while i < rules.len()
        invariant
            i <= rules@.len(),
            rules_view(out@) == ignoring_list(rules_view(rules@), i as int),
        decreases rules@.len() - i,
    {
        let ghost before = out@;
        let x = (expand_ignore_rule(&rules[i].0), rules[i].1.clone());
        out.push(x);
        proof {
            lemma_rules_push(before, x);
        }
        i += 1;
    }
    out
}

/// Expands the ignored fields in the body of a rule.
pub fn expand_ignore_in_rule(rt: &RuleType) -> (r: RuleType)
    ensures
        r@ == ignoring_root(rt@),
{
    match rt {
        RuleType::NodeRule { left, rules } => RuleType::NodeRule {
            left: left.clone(),
            rules: expand_ignore_in_list(rules),
        },
        RuleType::ValueClauseRule { rules } => RuleType::ValueClauseRule {
            rules: expand_ignore_in_list(rules),
        },
        RuleType::SubtypeRule { name, positive, rules } => RuleType::SubtypeRule {
            name: name.clone(),
            positive: *positive,
            rules: expand_ignore_in_list(rules),
        },
        _ => rt.clone(),
    }
}

// ---------------------------------------------------------------------------
// All passes

/// One of the passes over the rules of a rule set.
#[derive(Clone, Copy, PartialEq, Eq, Structural)]
pub enum Pass {
    ValueMarkers,
    SingleAliases,
    Colours,
    IgnoredFields,
}

/// What a pass makes of a rule that stands on its own; `m` are the single aliases.
pub open spec fn pass_rule(p: Pass, rt: RuleTypeV, m: AliasesV) -> RuleTypeV {
    match p {
        Pass::ValueMarkers => unmarked(rt),
        Pass::SingleAliases => inlined_root(rt, m),
        Pass::Colours => coloured_root(rt),
        Pass::IgnoredFields => ignoring_root(rt),
    }
}

pub open spec fn pass_root_rule(p: Pass, r: RootRuleV, m: AliasesV) -> RootRuleV {
    match r {
        RootRuleV::AliasRule(n, x) => RootRuleV::AliasRule(n, (pass_rule(p, x.0, m), x.1)),
        RootRuleV::SingleAliasRule(n, x) => RootRuleV::SingleAliasRule(
            n,
            (pass_rule(p, x.0, m), x.1),
        ),
        RootRuleV::TypeRule(n, x) => RootRuleV::TypeRule(n, (pass_rule(p, x.0, m), x.1)),
    }
}

pub open spec fn pass_root_rules(p: Pass, s: Seq<RootRuleV>, m: AliasesV) -> Seq<RootRuleV> {
    Seq::new(s.len(), |i: int| pass_root_rule(p, s[i], m))
}

pub open spec fn pass_aliases(p: Pass, s: AliasesV, m: AliasesV) -> AliasesV {
    Seq::new(s.len(), |i: int| (s[i].0, (pass_rule(p, s[i].1.0, m), s[i].1.1)))
}

/// A rule set with a pass run over its root rules, aliases and single aliases.
pub open spec fn pass_ruleset(p: Pass, rs: RuleSetV) -> RuleSetV {
    let m = rs.single_aliases;
    RuleSetV {
        root_rules: pass_root_rules(p, rs.root_rules, m),
        aliases: pass_aliases(p, rs.aliases, m),
        single_aliases: pass_aliases(p, rs.single_aliases, m),
        ..rs
    }
}

/// The single aliases of a rule set with the references among them replaced.
pub open spec fn expanded_singles(rs: RuleSetV) -> AliasesV {
    inline_rounds(
        pass_ruleset(Pass::ValueMarkers, rs).single_aliases,
        cyclic_names(rs.single_aliases, rs.single_aliases.len() as int),
        MAX_ROUNDS as nat,
    )
}

/// A rule set with all passes run over it.
pub open spec fn post_processed(rs: RuleSetV) -> RuleSetV {
    let a = pass_ruleset(Pass::ValueMarkers, rs);
    let b = RuleSetV { single_aliases: expanded_singles(rs), ..a };
    let c = pass_ruleset(Pass::SingleAliases, b);
    pass_ruleset(Pass::IgnoredFields, pass_ruleset(Pass::Colours, c))
}

fn run_on_rule(p: Pass, rt: &RuleType, m: &Vec<(String, (RuleType, Options))>) -> (r: RuleType)
    ensures
        r@ == pass_rule(p, rt@, views(m@)),
{
    match p {
        Pass::ValueMarkers => rewrite_vsm_in_rule(rt),
        Pass::SingleAliases => inline_single_alias_rule(rt, m),
        Pass::Colours => expand_colour_in_rule(rt),
        Pass::IgnoredFields => expand_ignore_in_rule(rt),
    }
}

fn run_on_root_rules(
    p: Pass,
    s: &Vec<RootRule>,
    m: &Vec<(String, (RuleType, Options))>,
) -> (r: Vec<RootRule>)
    ensures
        views(r@) == pass_root_rules(p, views(s@), views(m@)),
{
    let mut out: Vec<RootRule> = Vec::new();
    let mut i: usize = 0;
    let ghost target = pass_root_rules(p, views(s@), views(m@));
    while i < s.len()
        invariant
            i <= s@.len(),
            target == pass_root_rules(p, views(s@), views(m@)),
            views(out@) == target.subrange(0, i as int),
        decreases s@.len() - i,
    {
        let ghost before = out@;
        assert(views(s@)[i as int] == s@[i as int]@);
        let x = match &s[i] {
            RootRule::AliasRule(n, r) => RootRule::AliasRule(
                n.clone(),
                (run_on_rule(p, &r.0, m), r.1.clone()),
            ),
            RootRule::SingleAliasRule(n, r) => RootRule::SingleAliasRule(
                n.clone(),
                (run_on_rule(p, &r.0, m), r.1.clone()),
            ),
            RootRule::TypeRule(n, r) => RootRule::TypeRule(
                n.clone(),
                (run_on_rule(p, &r.0, m), r.1.clone()),
            ),
        };
        out.push(x);
        proof {
            lemma_views_push(before, x);
            assert(target.subrange(0, i + 1) =~= target.subrange(0, i as int).push(
                target[i as int],
            ));
        }
        i += 1;
    }
    assert(target.subrange(0, i as int) =~= target);
    out
}

fn run_on_aliases(
    p: Pass,
    s: &Vec<(String, (RuleType, Options))>,
    m: &Vec<(String, (RuleType, Options))>,
) -> (r: Vec<(String, (RuleType, Options))>)
    ensures
        views(r@) == pass_aliases(p, views(s@), views(m@)),
{
    let mut out: Vec<(String, (RuleType, Options))> = Vec::new();
    let mut i: usize = 0;
    let ghost target = pass_aliases(p, views(s@), views(m@));
    while i < s.len()
        invariant
            i <= s@.len(),
            target == pass_aliases(p, views(s@), views(m@)),
            views(out@) == target.subrange(0, i as int),
        decreases s@.len() - i,
    {
        let ghost before = out@;
        assert(views(s@)[i as int] == s@[i as int]@);
        let x = (s[i].0.clone(), (run_on_rule(p, &s[i].1.0, m), s[i].1.1.clone()));
        out.push(x);
        proof {
            lemma_views_push(before, x);
            assert(target.subrange(0, i + 1) =~= target.subrange(0, i as int).push(
                target[i as int],
            ));
        }
        i += 1;
    }
    assert(target.subrange(0, i as int) =~= target);
    out
}

/// Runs a pass over the root rules, the aliases and the single aliases.
pub fn for_each_root_rule(ruleset: &mut RuleSet, p: Pass)
    ensures
        final(ruleset)@ == pass_ruleset(p, old(ruleset)@),
{
    let root_rules = run_on_root_rules(p, &ruleset.root_rules, &ruleset.single_aliases);
    let aliases = run_on_aliases(p, &ruleset.aliases, &ruleset.single_aliases);
    let single_aliases = run_on_aliases(p, &ruleset.single_aliases, &ruleset.single_aliases);
    ruleset.root_rules = root_rules;
    ruleset.aliases = aliases;
    ruleset.single_aliases = single_aliases;
}

/// A single alias that could not be expanded.
#[derive(Debug, PartialEq)]
pub struct AliasExpansionError {
    pub name: String,
    pub message: String,
}

/// The model of an [`AliasExpansionError`].
#[verifier::ext_equal]
pub struct ExpansionErrorV {
    pub name: Seq<char>,
    pub message: Seq<char>,
}

impl View for AliasExpansionError {
    type V = ExpansionErrorV;

    open spec fn view(&self) -> ExpansionErrorV {
        ExpansionErrorV { name: self.name@, message: self.message@ }
    }
}

/// What is reported of a single alias that refers to itself through others.
pub open spec fn cycle_error(name: Seq<char>) -> ExpansionErrorV {
    ExpansionErrorV {
        name,
        message: "single_alias `"@ + name + "` is not expanded: it is part of a reference cycle"@,
    }
}

/// What is reported of a single alias whose references are still there after all
/// rounds, though they form no cycle.
pub open spec fn depth_error(name: Seq<char>) -> ExpansionErrorV {
    ExpansionErrorV {
        name,
        message: "single_alias `"@ + name + "` is not expanded: its references nest too deep"@,
    }
}

/// What is reported of the first `n` single aliases `s` after all rounds: a cycle, at
/// the first definition of each name in `cyclic`, and references to others that are
/// still there.
pub open spec fn refusals(s: AliasesV, cyclic: Seq<Seq<char>>, n: int) -> Seq<ExpansionErrorV>
    decreases n,
{
    if n <= 0 || n > s.len() {
        Seq::empty()
    } else {
        let head = refusals(s, cyclic, n - 1);
        let name = s[n - 1].0;
        let open = without(s, cyclic, s.len() as int);
        if cyclic.contains(name) {
            if alias_names(s).take(n - 1).contains(name) {
                head
            } else {
                head.push(cycle_error(name))
            }
        } else if has_ref(s[n - 1].1.0, alias_names(open)) {
            head.push(depth_error(name))
        } else {
            head
        }
    }
}

/// What is reported of the single aliases of a rule set.
pub open spec fn expansion_refusals(rs: RuleSetV) -> Seq<ExpansionErrorV> {
    let s = expanded_singles(rs);
    refusals(
        s,
        cyclic_names(rs.single_aliases, rs.single_aliases.len() as int),
        s.len() as int,
    )
}

fn is_named_before(m: &Vec<(String, (RuleType, Options))>, i: usize) -> (r: bool)
    requires
        i < m@.len(),
    ensures
        r == alias_names(views(m@)).take(i as int).contains(views(m@)[i as int].0),
{
    let ghost names = alias_names(views(m@)).take(i as int);
    assert(views(m@)[i as int] == m@[i as int]@);
    let mut j: usize = 0;
    while j < i
        invariant
            j <= i < m@.len(),
            names == alias_names(views(m@)).take(i as int),
            forall|k: int| 0 <= k < j ==> #[trigger] names[k] != m@[i as int].0@,
        decreases i - j,
    {
        assert(views(m@)[j as int] == m@[j as int]@);
        assert(names[j as int] == m@[j as int].0@);
        if same(m[j].0.as_str(), m[i].0.as_str()) {
            return true;
        }
        j += 1;
    }
    false
}

fn make_refusal(name: &str, reason: &str) -> (r: AliasExpansionError)
    ensures
        r@ == (ExpansionErrorV { name: name@, message: "single_alias `"@ + name@ + reason@ }),
{
    let mut message = "single_alias `".to_owned();
    message.append(name);
    message.append(reason);
    AliasExpansionError { name: name.to_owned(), message }
}

fn report_refusals(m: &Vec<(String, (RuleType, Options))>, cyclic: &Vec<String>) -> (r: Vec<
    AliasExpansionError,
>)
    ensures
        views(r@) == refusals(views(m@), texts(cyclic@), m@.len() as int),
{
    let open = leave_out(m, cyclic);
    let names = names_of_aliases(&open);
    let ghost all = views(m@);
    let mut out: Vec<AliasExpansionError> = Vec::new();
    let mut i: usize = 0;
    assert(views(out@) =~= Seq::empty());
    while i < m.len()
        invariant
            i <= m@.len(),
            all == views(m@),
            texts(names@) == alias_names(without(all, texts(cyclic@), all.len() as int)),
            views(out@) == refusals(all, texts(cyclic@), i as int),
        decreases m@.len() - i,
    {
        assert(all[i as int] == m@[i as int]@);
        let ghost before = out@;
        if list_contains(cyclic, m[i].0.as_str()) {
            if !is_named_before(m, i) {
                let e = make_refusal(
                    m[i].0.as_str(),
                    "` is not expanded: it is part of a reference cycle",
                );
                out.push(e);
                proof {
                    lemma_views_push(before, e);
                }
            }
        } else if refers_to_any(&m[i].1.0, &names) {
            let e = make_refusal(
                m[i].0.as_str(),
                "` is not expanded: its references nest too deep",
            );
            out.push(e);
            proof {
                lemma_views_push(before, e);
            }
        }
        i += 1;
    }
    out
}

/// Runs all passes over a rule set. Returns the single aliases that could not be
/// expanded.
pub fn post_process(ruleset: &mut RuleSet) -> (r: Vec<AliasExpansionError>)
    ensures
        final(ruleset)@ == post_processed(old(ruleset)@),
        views(r@) == expansion_refusals(old(ruleset)@),
{
    let cyclic = find_cyclic(&ruleset.single_aliases);
    for_each_root_rule(ruleset, Pass::ValueMarkers);
    let mut singles: Vec<(String, (RuleType, Options))> = Vec::new();
    std::mem::swap(&mut ruleset.single_aliases, &mut singles);
    ruleset.single_aliases = expand_single_aliases(singles, &cyclic);
    let refused = report_refusals(&ruleset.single_aliases, &cyclic);
    for_each_root_rule(ruleset, Pass::SingleAliases);
    for_each_root_rule(ruleset, Pass::Colours);
    for_each_root_rule(ruleset, Pass::IgnoredFields);
    refused
}

} // verus!
