//! How often the fields of a block appear, and how often they may.

use vstd::prelude::*;

use crate::ast::{Child, Leaf, LeafValue, Value};
use crate::common::{child_key_matches, child_start_pos, has_key, start_pos};
use crate::context::{CtxV, ValidationCtx};
use crate::describe::{describe_field, field_text};
use crate::diagnostic::{
    ErrorV, ValidationError, add_one, diag_severity, severity_to_error, stated,
};
use crate::error_codes::{ErrorSeverity, cw242, cw242_wrong_number};
use crate::name_counts::{NameCounts, SeenNames, count_in};
use crate::rule_converter::{unquote_key, unquoted};
use crate::rules_types::{
    FieldV, NewField, Options, OptionsV, RuleType, RuleTypeV, RuleV, rule_view, rules_view, views,
};
use crate::subtype::{count_values, values_like};
use crate::text::{ascii_lower, decimal, print_i64, print_usize, to_ascii_lower};

verus! {

/// The form of a key under which it is counted.
pub open spec fn counted_key(key: Seq<char>) -> Seq<char> {
    ascii_lower(unquoted(key))
}

/// The number of those of the first `n` children that are leaves of the key.
pub open spec fn key_count(ch: Seq<Child>, key: Seq<char>, n: int) -> int
    decreases n,
{
    if n <= 0 || n > ch.len() {
        0
    } else {
        key_count(ch, key, n - 1) + match ch[n - 1] {
            Child::Leaf(l) => if counted_key(l.key@) == key {
                1int
            } else {
                0int
            },
            _ => 0int,
        }
    }
}

/// The number of those of the first `n` children that are bare blocks.
pub open spec fn clause_count(ch: Seq<Child>, n: int) -> int
    decreases n,
{
    if n <= 0 || n > ch.len() {
        0
    } else {
        clause_count(ch, n - 1) + match ch[n - 1] {
            Child::LeafValue(lv) => if lv.value is Clause {
                1int
            } else {
                0int
            },
            _ => 0int,
        }
    }
}

proof fn lemma_key_count(ch: Seq<Child>, key: Seq<char>, n: int)
    requires
        0 <= n <= ch.len(),
    ensures
        0 <= key_count(ch, key, n) <= n,
    decreases n,
{
    if n > 0 {
        lemma_key_count(ch, key, n - 1);
    }
}

/// Counts the leaves of each key.
pub fn count_children(children: &Vec<Child>) -> (r: NameCounts)
    ensures
        forall|key: Seq<char>|
            #[trigger] count_in(r@, key) == key_count(children@, key, children@.len() as int),
{
    let mut counts = NameCounts::new();
    let mut i: usize = 0;
    while i < children.len()
        invariant
            i <= children@.len(),
            forall|key: Seq<char>|
                #[trigger] count_in(counts@, key) == key_count(children@, key, i as int),
        decreases children@.len() - i,
    {
        match &children[i] {
            Child::Leaf(l) => {
                let key = to_ascii_lower(unquote_key(l.key.as_str()));
                let n: usize = counts.count(key.as_str());
                proof {
                    lemma_key_count(children@, key@, i as int);
                    assert(count_in(counts@, key@) == key_count(children@, key@, i as int));
                }
                let ghost before = counts@;
                counts.set(key, n + 1);
                assert forall|k: Seq<char>| #[trigger] count_in(counts@, k) == key_count(
                    children@,
                    k,
                    i + 1,
                ) by {
                    assert(count_in(before, k) == key_count(children@, k, i as int));
                }
            },
            _ => {
                assert forall|k: Seq<char>| #[trigger] count_in(counts@, k) == key_count(
                    children@,
                    k,
                    i + 1,
                ) by {
                    assert(count_in(counts@, k) == key_count(children@, k, i as int));
                }
            },
        }
        i += 1;
    }
    counts
}

fn count_clauses(children: &Vec<Child>) -> (r: usize)
    ensures
        r == clause_count(children@, children@.len() as int),
{
    let mut n: usize = 0;
    let mut i: usize = 0;
    while i < children.len()
        invariant
            n <= i <= children@.len(),
            n == clause_count(children@, i as int),
        decreases children@.len() - i,
    {
        match &children[i] {
            Child::LeafValue(lv) => match &lv.value {
                Value::Clause(_) => {
                    n += 1;
                },
                _ => {},
            },
            _ => {},
        }
        i += 1;
    }
    n
}

/// The key that a rule for a leaf is for by name.
pub open spec fn rule_key(rt: RuleTypeV) -> Option<Seq<char>> {
    match rt {
        RuleTypeV::LeafRule { left: FieldV::SpecificField(s), .. } => Some(s),
        RuleTypeV::NodeRule { left: FieldV::SpecificField(s), .. } => Some(s),
        _ => None,
    }
}

/// The rule is for the key by name; the key is in lower case.
pub open spec fn is_for(rt: RuleTypeV, key: Seq<char>) -> bool {
    match rule_key(rt) {
        Some(s) => ascii_lower(s) == key,
        None => false,
    }
}

/// How often a key may appear: the least and the most that any of its rules says,
/// and whether all of them insist on the least.
#[verifier::ext_equal]
pub struct Bounds {
    pub min: i32,
    pub max: i32,
    pub strict: bool,
}

/// The bounds that allow what these, if there are any, and those of a rule allow.
pub open spec fn widened(before: Option<Bounds>, o: OptionsV) -> Bounds {
    match before {
        None => Bounds { min: o.min, max: o.max, strict: o.strict_min },
        Some(b) => Bounds {
            min: if o.min < b.min {
                o.min
            } else {
                b.min
            },
            max: if o.max > b.max {
                o.max
            } else {
                b.max
            },
            strict: b.strict && o.strict_min,
        },
    }
}

/// How often the key may appear, by those of the first `n` rules that are for it.
pub open spec fn bounds_of(rules: Seq<RuleV>, key: Seq<char>, n: int) -> Option<Bounds>
    decreases n,
{
    if n <= 0 || n > rules.len() {
        None
    } else {
        let before = bounds_of(rules, key, n - 1);
        let o = rules[n - 1].1;
        if is_for(rules[n - 1].0, key) {
            Some(widened(before, o))
        } else {
            before
        }
    }
}

fn get_rule_key(rt: &RuleType) -> (r: Option<&str>)
    ensures
        match r {
            Some(s) => rule_key(rule_view(*rt)) == Some(s@),
            None => rule_key(rule_view(*rt)) is None,
        },
{
    match rt {
        RuleType::LeafRule { left: NewField::SpecificField(s), .. } => Some(s.as_str()),
        RuleType::NodeRule { left: NewField::SpecificField(s), .. } => Some(s.as_str()),
        _ => None,
    }
}

/// How often each key may appear.
struct KeyBounds {
    /// The place of a key's bounds.
    places: NameCounts,
    bounds: Vec<Bounds>,
}

impl KeyBounds {
    /// The bounds of a key, if it has any.
    spec fn of(self, key: Seq<char>) -> Option<Bounds> {
        if self.places@.contains_key(key) {
            Some(self.bounds@[self.places@[key] as int])
        } else {
            None
        }
    }

    /// Each key has a place of its own.
    spec fn wf(self) -> bool {
        &&& forall|k: Seq<char>| #[trigger]
            self.places@.contains_key(k) ==> self.places@[k] < self.bounds@.len()
        &&& forall|j: Seq<char>, k: Seq<char>| #[trigger]
            self.places@.contains_key(j) && #[trigger] self.places@.contains_key(k)
                && self.places@[j] == self.places@[k] ==> j == k
    }

    /// Takes a rule for the key into account.
    fn widen(&mut self, key: String, o: &Options)
        requires
            old(self).wf(),
        ensures
            final(self).wf(),
            forall|k: Seq<char>| #[trigger]
                final(self).of(k) == if k == key@ {
                    Some(widened(old(self).of(k), o@))
                } else {
                    old(self).of(k)
                },
    {
        match self.places.get(key.as_str()) {
            Some(p) => {
                let b = widen_bounds(&self.bounds[p], o);
                self.bounds.set(p, b);
            },
            None => {
                self.places.set(key, self.bounds.len());
                self.bounds.push(Bounds { min: o.min, max: o.max, strict: o.strict_min });
            },
        }
    }

    fn get(&self, key: &str) -> (r: Option<&Bounds>)
        requires
            self.wf(),
        ensures
            match r {
                Some(b) => self.of(key@) == Some(*b),
                None => self.of(key@) is None,
            },
    {
        match self.places.get(key) {
            Some(p) => Some(&self.bounds[p]),
            None => None,
        }
    }
}

fn widen_bounds(b: &Bounds, o: &Options) -> (r: Bounds)
    ensures
        r == widened(Some(*b), o@),
{
    Bounds {
        min: if o.min < b.min {
            o.min
        } else {
            b.min
        },
        max: if o.max > b.max {
            o.max
        } else {
            b.max
        },
        strict: b.strict && o.strict_min,
    }
}

/// How often each key may appear, by its rules.
fn key_bounds(rules: &Vec<(RuleType, Options)>) -> (r: KeyBounds)
    ensures
        r.wf(),
        forall|key: Seq<char>| #[trigger]
            r.of(key) == bounds_of(rules_view(rules@), key, rules@.len() as int),
{
    let ghost all = rules_view(rules@);
    let mut out = KeyBounds { places: NameCounts::new(), bounds: Vec::new() };
    let mut i: usize = 0;
    while i < rules.len()
        invariant
            i <= rules@.len(),
            all == rules_view(rules@),
            out.wf(),
            forall|key: Seq<char>| #[trigger] out.of(key) == bounds_of(all, key, i as int),
        decreases rules@.len() - i,
    {
        assert(all[i as int] == (rule_view(rules@[i as int].0), rules@[i as int].1@));
        let ghost before = out;
        match get_rule_key(&rules[i].0) {
            Some(s) => {
                out.widen(to_ascii_lower(s), &rules[i].1);
            },
            None => {},
        }
        assert forall|key: Seq<char>| #[trigger] out.of(key) == bounds_of(all, key, i + 1) by {
            assert(before.of(key) == bounds_of(all, key, i as int));
        }
        i += 1;
    }
    out
}

/// Where the first child, from the `i`th on, that is no comment starts; `or` where
/// there is none.
pub open spec fn first_pos(ch: Seq<Child>, i: int, or: (u32, u16)) -> (u32, u16)
    decreases ch.len() - i,
{
    if i < 0 || i >= ch.len() {
        or
    } else {
        match start_pos(ch[i]) {
            Some(p) => p,
            None => first_pos(ch, i + 1, or),
        }
    }
}

/// Where the first leaf of the key, from the `i`th child on, starts; `or` where there
/// is none.
pub open spec fn key_pos(ch: Seq<Child>, key: Seq<char>, i: int, or: (u32, u16)) -> (u32, u16)
    decreases ch.len() - i,
{
    if i < 0 || i >= ch.len() {
        or
    } else if has_key(ch[i], key) {
        match start_pos(ch[i]) {
            Some(p) => p,
            None => or,
        }
    } else {
        key_pos(ch, key, i + 1, or)
    }
}

fn find_first_pos(children: &Vec<Child>, or: (u32, u16)) -> (r: (u32, u16))
    ensures
        r == first_pos(children@, 0, or),
{
    let mut i: usize = 0;
    while i < children.len()
        invariant
            i <= children@.len(),
            first_pos(children@, 0, or) == first_pos(children@, i as int, or),
        decreases children@.len() - i,
    {
        match child_start_pos(&children[i]) {
            Some(p) => {
                return p;
            },
            None => {},
        }
        i += 1;
    }
    or
}

fn find_key_pos(children: &Vec<Child>, key: &str, or: (u32, u16)) -> (r: (u32, u16))
    ensures
        r == key_pos(children@, key@, 0, or),
{
    let mut i: usize = 0;
    while i < children.len()
        invariant
            i <= children@.len(),
            key_pos(children@, key@, 0, or) == key_pos(children@, key@, i as int, or),
        decreases children@.len() - i,
    {
        if child_key_matches(&children[i], key) {
            return match child_start_pos(&children[i]) {
                Some(p) => p,
                None => or,
            };
        }
        i += 1;
    }
    or
}

/// A number that is out of bounds.
pub open spec fn number_text(what: Seq<char>, n: int, bound: Seq<char>, limit: i32) -> Seq<char> {
    what + " appears "@ + decimal(n) + " time(s), expected at "@ + bound + " "@ + decimal(
        limit as int,
    )
}

fn print_number(what: &str, n: usize, bound: &str, limit: i32) -> (r: String)
    ensures
        r@ == number_text(what@, n as int, bound@, limit),
{
    let mut out = what.to_owned();
    out.append(" appears ");
    out.append(print_usize(n).as_str());
    out.append(" time(s), expected at ");
    out.append(bound);
    out.append(" ");
    out.append(print_i64(limit as i64).as_str());
    out
}

/// What is wrong with a number: it is under a least that is insisted on, or over the
/// most. Each is reported at a place of its own.
pub open spec fn number_problems(
    file: Seq<char>,
    sev: ErrorSeverity,
    what: Seq<char>,
    n: int,
    b: Bounds,
    under_at: (u32, u16),
    over_at: (u32, u16),
) -> Seq<ErrorV> {
    (if n < b.min && b.strict {
        seq![
            stated(
                cw242(),
                sev,
                file,
                under_at.0,
                under_at.1,
                number_text(what, n, "least"@, b.min),
            ),
        ]
    } else {
        Seq::empty()
    }) + (if n > b.max {
        seq![
            stated(
                cw242(),
                sev,
                file,
                over_at.0,
                over_at.1,
                number_text(what, n, "most"@, b.max),
            ),
        ]
    } else {
        Seq::empty()
    })
}

fn report_number(
    file: &str,
    sev: ErrorSeverity,
    what: &str,
    n: usize,
    b: &Bounds,
    under_at: (u32, u16),
    over_at: (u32, u16),
    out: &mut Vec<ValidationError>,
)
    ensures
        views(final(out)@) == views(old(out)@) + number_problems(
            file@,
            sev,
            what@,
            n as int,
            *b,
            under_at,
            over_at,
        ),
{
    let ghost start = views(out@);
    let code = cw242_wrong_number();
    if (n as i128) < (b.min as i128) && b.strict {
        add_one(
            out,
            ValidationError::from_code_with(
                &code,
                sev,
                file,
                under_at.0,
                under_at.1,
                print_number(what, n, "least", b.min),
            ),
        );
    }
    if (n as i128) > (b.max as i128) {
        add_one(
            out,
            ValidationError::from_code_with(
                &code,
                sev,
                file,
                over_at.0,
                over_at.1,
                print_number(what, n, "most", b.max),
            ),
        );
    }
    assert(views(out@) =~= start + number_problems(
        file@,
        sev,
        what@,
        n as int,
        *b,
        under_at,
        over_at,
    ));
}

/// How grave a wrong number is: a warning, unless the rule says otherwise.
pub open spec fn number_severity(o: OptionsV) -> ErrorSeverity {
    match o.severity {
        Some(s) => diag_severity(s),
        None => ErrorSeverity::Warning,
    }
}

/// How often the rule's own children may appear.
pub open spec fn own_bounds(o: OptionsV) -> Bounds {
    Bounds { min: o.min, max: o.max, strict: o.strict_min }
}

/// What is wrong with how often children of the `i`th rule appear. A key is reported
/// once, for the first of its rules, by the widest of their bounds. `at` is where
/// the block is reported.
pub open spec fn rule_number_problems(
    ctx: CtxV,
    ch: Seq<Child>,
    rules: Seq<RuleV>,
    at: (u32, u16),
    i: int,
) -> Seq<ErrorV> {
    let r = rules[i];
    let sev = number_severity(r.1);
    match r.0 {
        RuleTypeV::LeafValueRule { right } => number_problems(
            ctx.file,
            sev,
            "LeafValue "@ + field_text(right),
            values_like(ch, right, ctx.rs, ch.len() as int),
            own_bounds(r.1),
            at,
            at,
        ),
        RuleTypeV::ValueClauseRule { .. } => number_problems(
            ctx.file,
            sev,
            "ValueClause"@,
            clause_count(ch, ch.len() as int),
            own_bounds(r.1),
            at,
            at,
        ),
        _ => match rule_key(r.0) {
            Some(s) => {
                let key = ascii_lower(s);
                match (bounds_of(rules, key, i), bounds_of(rules, key, rules.len() as int)) {
                    (None, Some(b)) => number_problems(
                        ctx.file,
                        sev,
                        "Field '"@ + s + "'"@,
                        key_count(ch, key, ch.len() as int),
                        b,
                        at,
                        key_pos(ch, key, 0, at),
                    ),
                    _ => Seq::empty(),
                }
            },
            None => Seq::empty(),
        },
    }
}

/// What is wrong with how often children of the first `n` rules appear.
pub open spec fn numbers_problems(
    ctx: CtxV,
    ch: Seq<Child>,
    rules: Seq<RuleV>,
    at: (u32, u16),
    n: int,
) -> Seq<ErrorV>
    decreases n,
{
    if n <= 0 || n > rules.len() {
        Seq::empty()
    } else {
        numbers_problems(ctx, ch, rules, at, n - 1) + rule_number_problems(
            ctx,
            ch,
            rules,
            at,
            n - 1,
        )
    }
}

/// What is wrong with how often the fields of a block appear. What is missing is
/// reported at the first child, or at the block itself where it has none.
pub open spec fn cardinality_problems(
    ctx: CtxV,
    ch: Seq<Child>,
    rules: Seq<RuleV>,
    block_pos: (u32, u16),
) -> Seq<ErrorV> {
    numbers_problems(ctx, ch, rules, first_pos(ch, 0, block_pos), rules.len() as int)
}

fn check_rule_number(
    ctx: &ValidationCtx,
    children: &Vec<Child>,
    rules: &Vec<(RuleType, Options)>,
    counts: &NameCounts,
    bounds: &KeyBounds,
    reported: &mut SeenNames,
    at: (u32, u16),
    i: usize,
    out: &mut Vec<ValidationError>,
)
    requires
        i < rules@.len(),
        bounds.wf(),
        forall|key: Seq<char>| #[trigger]
            bounds.of(key) == bounds_of(rules_view(rules@), key, rules@.len() as int),
        forall|key: Seq<char>| #[trigger]
            old(reported)@.contains(key) <==> bounds_of(rules_view(rules@), key, i as int) is Some,
        forall|key: Seq<char>|
            #[trigger] count_in(counts@, key) == key_count(
                children@,
                key,
                children@.len() as int,
            ),
    ensures
        views(final(out)@) == views(old(out)@) + rule_number_problems(
            ctx@,
            children@,
            rules_view(rules@),
            at,
            i as int,
        ),
        forall|key: Seq<char>| #[trigger]
            final(reported)@.contains(key) <==> bounds_of(rules_view(rules@), key, i + 1) is Some,
{
    let ghost start = views(out@);
    let ghost all = rules_view(rules@);
    assert(all[i as int] == (rule_view(rules@[i as int].0), rules@[i as int].1@));
    let file = ctx.file_path;
    let o = &rules[i].1;
    let sev = match &o.severity {
        Some(s) => severity_to_error(s),
        None => ErrorSeverity::Warning,
    };
    match &rules[i].0 {
        RuleType::LeafValueRule { right } => {
            let mut what = "LeafValue ".to_owned();
            what.append(describe_field(right).as_str());
            let n: usize = count_values(children, right, ctx.ruleset);
            let b = Bounds { min: o.min, max: o.max, strict: o.strict_min };
            report_number(file, sev, what.as_str(), n, &b, at, at, out);
        },
        RuleType::ValueClauseRule { .. } => {
            let n: usize = count_clauses(children);
            let b = Bounds { min: o.min, max: o.max, strict: o.strict_min };
            report_number(file, sev, "ValueClause", n, &b, at, at, out);
        },
        _ => match get_rule_key(&rules[i].0) {
            Some(s) => {
                let key = to_ascii_lower(s);
                let new = reported.note(key.clone());
                match (new, bounds.get(key.as_str())) {
                    (true, Some(b)) => {
                        let mut what = "Field '".to_owned();
                        what.append(s);
                        what.append("'");
                        let n: usize = counts.count(key.as_str());
                        let over_at = find_key_pos(children, key.as_str(), at);
                        assert(count_in(counts@, key@) == key_count(
                            children@,
                            key@,
                            children@.len() as int,
                        ));
                        report_number(file, sev, what.as_str(), n, b, at, over_at, out);
                    },
                    _ => {},
                }
            },
            None => {},
        },
    }
    assert(views(out@) =~= start + rule_number_problems(ctx@, children@, all, at, i as int));
}

/// Reports what is wrong with how often the fields of a block appear.
pub fn enforce_cardinality(
    ctx: &ValidationCtx,
    children: &Vec<Child>,
    rules: &Vec<(RuleType, Options)>,
    block_pos: (u32, u16),
    out: &mut Vec<ValidationError>,
)
    ensures
        views(final(out)@) == views(old(out)@) + cardinality_problems(
            ctx@,
            children@,
            rules_view(rules@),
            block_pos,
        ),
{
    let ghost start = views(out@);
    let ghost all = rules_view(rules@);
    let at = find_first_pos(children, block_pos);
    let counts = count_children(children);
    let bounds = key_bounds(rules);
    let mut reported = SeenNames::new();
    let mut i: usize = 0;
    assert(views(out@) =~= start + numbers_problems(ctx@, children@, all, at, 0));
    while i < rules.len()
        invariant
            i <= rules@.len(),
            all == rules_view(rules@),
            views(out@) == start + numbers_problems(ctx@, children@, all, at, i as int),
            forall|key: Seq<char>|
                #[trigger] count_in(counts@, key) == key_count(
                    children@,
                    key,
                    children@.len() as int,
                ),
            bounds.wf(),
            forall|key: Seq<char>| #[trigger]
                bounds.of(key) == bounds_of(all, key, rules@.len() as int),
            forall|key: Seq<char>| #[trigger]
                reported@.contains(key) <==> bounds_of(all, key, i as int) is Some,
        decreases rules@.len() - i,
    {
        check_rule_number(ctx, children, rules, &counts, &bounds, &mut reported, at, i, out);
        assert(views(out@) =~= start + numbers_problems(ctx@, children@, all, at, i + 1));
        i += 1;
    }
}

} // verus!
