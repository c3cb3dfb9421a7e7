//! Checks for Stellaris.

use vstd::prelude::*;

use crate::ast::{Child, Leaf, ParsedFile, SourcePos, Value};
use crate::common::{leaf_value_to_string, one_of_ci, value_text};
use crate::diagnostic::{ErrorV, ValidationError, add_one, coded, report, report1, stated};
use crate::error_codes::{
    CodeV, ErrorCode, ErrorSeverity, cw107, cw107_event_every_tick, cw108,
    cw108_research_leader_area, cw110, cw110_tech_cat_missing, cw120, cw120_possible_pretrigger,
    cw227, cw227_unknown_section_template, cw229, cw229_unknown_component_template, cw236,
    cw236_deprecated_else, cw237, cw237_ambiguous_if_else, cw238, cw238_if_else_order, cw250,
    cw250_planet_killer_missing, cw253, cw253_deprecated_set_name, cw301, cw301_pre_trigger_level,
};
use crate::field_match::opt_index;
use crate::game_common::{
    any_key, as_block, block_of, child_is_always_no, child_key_eq, has_child, is_always_no, is_key,
};
use crate::rule_converter::{unquote_key, unquoted};
use crate::rules_types::views;
use crate::ruleset::{RuleSet, RuleSetV};
use crate::text::{
    ascii_lower, ends, ends_with, eq_ci, opt_text, same, same_ci, starts, starts_with,
    to_ascii_lower,
};
use crate::type_index::{IndexV, TypeIndex};

verus! {

// ---------------------------------------------------------------------------
// Events

/// The trigger is better placed in front of the block that it stands in.
pub open spec fn is_pretrigger(rs: RuleSetV, key: Seq<char>) -> bool {
    rs.pretriggers.contains(ascii_lower(key))
}

/// Some child is a `trigger` block with `always = no` in it.
pub open spec fn never_triggers(ch: Seq<Child>) -> bool {
    exists|i: int|
        0 <= i < ch.len() && is_key(#[trigger] ch[i], "trigger"@) && is_always_no(ch[i])
}

/// The event says when it is tested.
pub open spec fn has_timing(ch: Seq<Child>) -> bool {
    any_key(ch, "mean_time_to_happen"@) || any_key(ch, "is_triggered_only"@) || any_key(
        ch,
        "fire_only_once"@,
    ) || any_key(ch, "base"@) || never_triggers(ch)
}

/// The pre-triggers among the first `n` children of an event's trigger.
pub open spec fn event_pretriggers(
    rs: RuleSetV,
    file: Seq<char>,
    ch: Seq<Child>,
    n: int,
) -> Seq<ErrorV>
    decreases n,
{
    if n <= 0 || n > ch.len() {
        Seq::empty()
    } else {
        let before = event_pretriggers(rs, file, ch, n - 1);
        match ch[n - 1] {
            Child::Leaf(l) => if is_pretrigger(rs, l.key@) {
                before.push(
                    stated(
                        cw301(),
                        ErrorSeverity::Information,
                        file,
                        l.pos.start.line,
                        0,
                        "Trigger '"@ + l.key@
                            + "' can be a pre-trigger at event root for better performance"@,
                    ),
                )
            } else {
                before
            },
            _ => before,
        }
    }
}

/// The pre-triggers in the triggers among the first `n` children of an event.
pub open spec fn in_triggers(rs: RuleSetV, file: Seq<char>, ch: Seq<Child>, n: int) -> Seq<ErrorV>
    decreases n,
{
    if n <= 0 || n > ch.len() {
        Seq::empty()
    } else {
        let before = in_triggers(rs, file, ch, n - 1);
        match block_of(ch[n - 1]) {
            Some((l, inner)) => if eq_ci(l.key@, "trigger"@) {
                before + event_pretriggers(rs, file, inner, inner.len() as int)
            } else {
                before
            },
            None => before,
        }
    }
}

/// What is wrong with an event: nothing says when it is tested, so that it is every
/// tick; and pre-triggers in its trigger.
pub open spec fn event_problems(rs: RuleSetV, file: Seq<char>, l: Leaf, ch: Seq<Child>) -> Seq<
    ErrorV,
> {
    (if has_timing(ch) {
        Seq::empty()
    } else {
        seq![coded(cw107(), file, l.pos.start.line, 0, Seq::empty())]
    }) + in_triggers(rs, file, ch, ch.len() as int)
}

#[verifier::loop_isolation(false)]
fn has_dead_trigger(children: &Vec<Child>) -> (r: bool)
    ensures
        r == never_triggers(children@),
{
    let mut i: usize = 0;
    while i < children.len()
        invariant
            i <= children@.len(),
            forall|j: int|
                0 <= j < i ==> !(is_key(#[trigger] children@[j], "trigger"@) && is_always_no(
                    children@[j],
                )),
        decreases children@.len() - i,
    {
        if child_key_eq(&children[i], "trigger") && child_is_always_no(&children[i]) {
            return true;
        }
        i += 1;
    }
    false
}

fn report_event_pretriggers(
    ruleset: &RuleSet,
    file: &str,
    children: &Vec<Child>,
    errors: &mut Vec<ValidationError>,
)
    ensures
        views(final(errors)@) == views(old(errors)@) + event_pretriggers(
            ruleset@,
            file@,
            children@,
            children@.len() as int,
        ),
{
    let ghost start = views(errors@);
    let ghost ch = children@;
    let mut i: usize = 0;
    assert(views(errors@) =~= start + event_pretriggers(ruleset@, file@, ch, 0));
    while i < children.len()
        invariant
            i <= children@.len(),
            ch == children@,
            views(errors@) == start + event_pretriggers(ruleset@, file@, ch, i as int),
        decreases children@.len() - i,
    {
        match &children[i] {
            Child::Leaf(l) => {
                let lower = to_ascii_lower(l.key.as_str());
                if ruleset.pretriggers.contains(lower.as_str()) {
                    let mut message = "Trigger '".to_owned();
                    message.append(l.key.as_str());
                    message.append("' can be a pre-trigger at event root for better performance");
                    add_one(
                        errors,
                        ValidationError::from_code_with(
                            &cw301_pre_trigger_level(),
                            ErrorSeverity::Information,
                            file,
                            l.pos.start.line,
                            0,
                            message,
                        ),
                    );
                }
            },
            _ => {},
        }
        assert(views(errors@) =~= start + event_pretriggers(ruleset@, file@, ch, i + 1));
        i += 1;
    }
}

fn validate_event(
    children: &Vec<Child>,
    line: u32,
    ruleset: &RuleSet,
    file: &str,
    errors: &mut Vec<ValidationError>,
    Ghost(l): Ghost<Leaf>,
)
    requires
        line == l.pos.start.line,
    ensures
        views(final(errors)@) == views(old(errors)@) + event_problems(
            ruleset@,
            file@,
            l,
            children@,
        ),
{
    let ghost start = views(errors@);
    let ghost ch = children@;
    if !(has_child(children, "mean_time_to_happen") || has_child(children, "is_triggered_only")
        || has_child(children, "fire_only_once") || has_child(children, "base")
        || has_dead_trigger(children)) {
        add_one(errors, report(&cw107_event_every_tick(), file, line, 0));
    }
    let ghost first = views(errors@);
    let mut i: usize = 0;
    assert(views(errors@) =~= first + in_triggers(ruleset@, file@, ch, 0));
    while i < children.len()
        invariant
            i <= children@.len(),
            ch == children@,
            views(errors@) == first + in_triggers(ruleset@, file@, ch, i as int),
        decreases children@.len() - i,
    {
        match as_block(&children[i]) {
            Some(b) => {
                if same_ci(b.key, "trigger") {
                    report_event_pretriggers(ruleset, file, b.children, errors);
                }
            },
            None => {},
        }
        assert(views(errors@) =~= first + in_triggers(ruleset@, file@, ch, i + 1));
        i += 1;
    }
    assert(views(errors@) =~= start + event_problems(ruleset@, file@, l, ch));
}

// ---------------------------------------------------------------------------
// Ship designs

/// A value that is no block, as a name.
pub open spec fn scalar_text(v: Value) -> Option<Seq<char>> {
    if v is Clause {
        None
    } else {
        Some(unquoted(value_text(v)))
    }
}

/// The name that the last of the first `n` children of that key gives, if it is no
/// block.
pub open spec fn last_scalar(ch: Seq<Child>, key: Seq<char>, n: int) -> Option<Seq<char>>
    decreases n,
{
    if n <= 0 || n > ch.len() {
        None
    } else {
        match ch[n - 1] {
            Child::Leaf(l) => if eq_ci(l.key@, key) {
                scalar_text(l.value)
            } else {
                last_scalar(ch, key, n - 1)
            },
            _ => last_scalar(ch, key, n - 1),
        }
    }
}

/// The name that the last child of that key gives, if it is no block.
pub fn last_child_scalar(children: &Vec<Child>, key: &str) -> (r: Option<String>)
    ensures
        opt_text(r) == last_scalar(children@, key@, children@.len() as int),
{
    let mut out: Option<String> = None;
    let mut i: usize = 0;
    while i < children.len()
        invariant
            i <= children@.len(),
            opt_text(out) == last_scalar(children@, key@, i as int),
        decreases children@.len() - i,
    {
        match &children[i] {
            Child::Leaf(l) => {
                if same_ci(l.key.as_str(), key) {
                    out =
                    match &l.value {
                        Value::Clause(_) => None,
                        _ => {
                            let text = leaf_value_to_string(&l.value);
                            Some(unquote_key(text.as_str()).to_owned())
                        },
                    };
                }
            },
            _ => {},
        }
        i += 1;
    }
    out
}

/// The part of a ship design refers to a template of the type that does not exist.
pub open spec fn template_problems(
    idx: IndexV,
    file: Seq<char>,
    l: Leaf,
    inner: Seq<Child>,
    type_: Seq<char>,
    code: CodeV,
) -> Seq<ErrorV> {
    match last_scalar(inner, "template"@, inner.len() as int) {
        Some(t) => if idx.has(type_, t) {
            Seq::empty()
        } else {
            seq![coded(code, file, l.pos.start.line, l.pos.start.col, seq![t])]
        },
        None => Seq::empty(),
    }
}

/// What is wrong with a part of a ship design.
pub open spec fn part_problems(idx: IndexV, file: Seq<char>, c: Child) -> Seq<ErrorV> {
    match block_of(c) {
        Some((l, inner)) => if eq_ci(l.key@, "section"@) {
            template_problems(idx, file, l, inner, "section_template"@, cw227())
        } else if eq_ci(l.key@, "component"@) {
            template_problems(idx, file, l, inner, "component_template"@, cw229())
        } else {
            Seq::empty()
        },
        None => Seq::empty(),
    }
}

/// What is wrong with the first `n` parts of a ship design.
pub open spec fn parts_problems(idx: IndexV, file: Seq<char>, ch: Seq<Child>, n: int) -> Seq<ErrorV>
    decreases n,
{
    if n <= 0 || n > ch.len() {
        Seq::empty()
    } else {
        parts_problems(idx, file, ch, n - 1) + part_problems(idx, file, ch[n - 1])
    }
}

/// What is wrong with the ship designs among the first `n` children.
pub open spec fn designs_problems(idx: IndexV, file: Seq<char>, ch: Seq<Child>, n: int) -> Seq<
    ErrorV,
>
    decreases n,
{
    if n <= 0 || n > ch.len() {
        Seq::empty()
    } else {
        let before = designs_problems(idx, file, ch, n - 1);
        match block_of(ch[n - 1]) {
            Some((l, inner)) => if one_of_ci(l.key@, "ship_design"@, "global_ship_design"@) {
                before + parts_problems(idx, file, inner, inner.len() as int)
            } else {
                before
            },
            None => before,
        }
    }
}

fn check_template(
    idx: &TypeIndex,
    file: &str,
    pos: SourcePos,
    inner: &Vec<Child>,
    type_: &str,
    code: &ErrorCode,
    errors: &mut Vec<ValidationError>,
    Ghost(l): Ghost<Leaf>,
)
    requires
        pos == l.pos.start,
    ensures
        views(final(errors)@) == views(old(errors)@) + template_problems(
            idx@,
            file@,
            l,
            inner@,
            type_@,
            code@,
        ),
{
    let ghost start = views(errors@);
    match last_child_scalar(inner, "template") {
        Some(t) => {
            if !idx.contains(type_, t.as_str()) {
                add_one(errors, report1(code, file, pos.line, pos.col, t.as_str()));
            }
        },
        None => {},
    }
    assert(views(errors@) =~= start + template_problems(
        idx@,
        file@,
        l,
        inner@,
        type_@,
        code@,
    ));
}

fn check_part(idx: &TypeIndex, file: &str, child: &Child, errors: &mut Vec<ValidationError>)
    ensures
        views(final(errors)@) == views(old(errors)@) + part_problems(idx@, file@, *child),
{
    let ghost start = views(errors@);
    match child {
        Child::Leaf(l) => match &l.value {
            Value::Clause(inner) => {
                if same_ci(l.key.as_str(), "section") {
                    check_template(
                        idx,
                        file,
                        l.pos.start,
                        inner,
                        "section_template",
                        &cw227_unknown_section_template(),
                        errors,
                        Ghost(*l),
                    );
                } else if same_ci(l.key.as_str(), "component") {
                    check_template(
                        idx,
                        file,
                        l.pos.start,
                        inner,
                        "component_template",
                        &cw229_unknown_component_template(),
                        errors,
                        Ghost(*l),
                    );
                }
            },
            _ => {},
        },
        _ => {},
    }
    assert(views(errors@) =~= start + part_problems(idx@, file@, *child));
}

fn check_parts(idx: &TypeIndex, file: &str, children: &Vec<Child>, errors: &mut Vec<ValidationError>)
    ensures
        views(final(errors)@) == views(old(errors)@) + parts_problems(
            idx@,
            file@,
            children@,
            children@.len() as int,
        ),
{
    let ghost start = views(errors@);
    let mut i: usize = 0;
    assert(views(errors@) =~= start + parts_problems(idx@, file@, children@, 0));
    while i < children.len()
        invariant
            i <= children@.len(),
            views(errors@) == start + parts_problems(idx@, file@, children@, i as int),
        decreases children@.len() - i,
    {
        check_part(idx, file, &children[i], errors);
        assert(views(errors@) =~= start + parts_problems(idx@, file@, children@, i + 1));
        i += 1;
    }
}

/// Reports the templates that ship designs refer to and that do not exist. Without an
/// index none are.
pub fn validate_ship_designs(
    children: &Vec<Child>,
    file: &str,
    type_index: Option<&TypeIndex>,
    errors: &mut Vec<ValidationError>,
)
    ensures
        views(final(errors)@) == views(old(errors)@) + (match opt_index(type_index) {
            Some(idx) => designs_problems(idx, file@, children@, children@.len() as int),
            None => Seq::empty(),
        }),
{
    let ghost start = views(errors@);
    match type_index {
        Some(idx) => {
            let mut i: usize = 0;
            assert(views(errors@) =~= start + designs_problems(idx@, file@, children@, 0));
            while i < children.len()
                invariant
                    i <= children@.len(),
                    views(errors@) == start + designs_problems(
                        idx@,
                        file@,
                        children@,
                        i as int,
                    ),
                decreases children@.len() - i,
            {
                match as_block(&children[i]) {
                    Some(b) => {
                        if same_ci(b.key, "ship_design") || same_ci(b.key, "global_ship_design") {
                            check_parts(idx, file, b.children, errors);
                        }
                    },
                    None => {},
                }
                assert(views(errors@) =~= start + designs_problems(
                    idx@,
                    file@,
                    children@,
                    i + 1,
                ));
                i += 1;
            }
        },
        None => {
            assert(start + Seq::<ErrorV>::empty() =~= start);
        },
    }
}

// ---------------------------------------------------------------------------
// Other blocks at the top of a file

/// The fields that a planet killer lacks, in words.
pub open spec fn lacking(ch: Seq<Child>) -> Seq<char> {
    let has_type = any_key(ch, "type"@);
    let has_damage = any_key(ch, "planet_damage"@) || any_key(ch, "armor_penetration"@) || any_key(
        ch,
        "armor_damage"@,
    );
    if !has_type && !has_damage {
        "type, damage"@
    } else if !has_type {
        "type"@
    } else if !has_damage {
        "damage"@
    } else {
        Seq::empty()
    }
}

/// What is wrong with a block at the top of a file. A technology has a category, a
/// research leader an area, and a planet killer a type and some damage.
pub open spec fn top_problems(rs: RuleSetV, file: Seq<char>, c: Child) -> Seq<ErrorV> {
    match block_of(c) {
        Some((l, inner)) => {
            let key = ascii_lower(l.key@);
            let line = l.pos.start.line;
            if ends(key, "_event"@) || key == "event"@ {
                event_problems(rs, file, l, inner)
            } else if key == "technology"@ || starts(key, "tech_"@) {
                if any_key(inner, "category"@) {
                    Seq::empty()
                } else {
                    seq![coded(cw110(), file, line, 0, Seq::empty())]
                }
            } else if key == "research_leader"@ {
                if any_key(inner, "area"@) {
                    Seq::empty()
                } else {
                    seq![coded(cw108(), file, line, 0, Seq::empty())]
                }
            } else if key == "planet_killer"@ {
                if lacking(inner).len() == 0 {
                    Seq::empty()
                } else {
                    seq![coded(cw250(), file, line, 0, seq![lacking(inner)])]
                }
            } else {
                Seq::empty()
            }
        },
        None => Seq::empty(),
    }
}

/// What is wrong with the first `n` blocks at the top of a file.
pub open spec fn tops_problems(rs: RuleSetV, file: Seq<char>, ch: Seq<Child>, n: int) -> Seq<ErrorV>
    decreases n,
{
    if n <= 0 || n > ch.len() {
        Seq::empty()
    } else {
        tops_problems(rs, file, ch, n - 1) + top_problems(rs, file, ch[n - 1])
    }
}

fn find_lacking(children: &Vec<Child>) -> (r: Option<&'static str>)
    ensures
        match r {
            Some(s) => s@ == lacking(children@) && s@.len() > 0,
            None => lacking(children@).len() == 0,
        },
{
    proof {
        reveal_strlit("type, damage");
        reveal_strlit("type");
        reveal_strlit("damage");
    }
    let has_type = has_child(children, "type");
    let has_damage = has_child(children, "planet_damage") || has_child(
        children,
        "armor_penetration",
    ) || has_child(children, "armor_damage");
    if !has_type && !has_damage {
        Some("type, damage")
    } else if !has_type {
        Some("type")
    } else if !has_damage {
        Some("damage")
    } else {
        None
    }
}

fn check_top(ruleset: &RuleSet, file: &str, child: &Child, errors: &mut Vec<ValidationError>)
    ensures
        views(final(errors)@) == views(old(errors)@) + top_problems(ruleset@, file@, *child),
{
    let ghost start = views(errors@);
    match child {
        Child::Leaf(l) => match &l.value {
            Value::Clause(inner) => {
                let lower = to_ascii_lower(l.key.as_str());
                let key = lower.as_str();
                let line = l.pos.start.line;
                if ends_with(key, "_event") || same(key, "event") {
                    validate_event(inner, line, ruleset, file, errors, Ghost(*l));
                } else if same(key, "technology") || starts_with(key, "tech_") {
                    if !has_child(inner, "category") {
                        add_one(errors, report(&cw110_tech_cat_missing(), file, line, 0));
                    }
                } else if same(key, "research_leader") {
                    if !has_child(inner, "area") {
                        add_one(errors, report(&cw108_research_leader_area(), file, line, 0));
                    }
                } else if same(key, "planet_killer") {
                    match find_lacking(inner) {
                        Some(what) => {
                            add_one(
                                errors,
                                report1(&cw250_planet_killer_missing(), file, line, 0, what),
                            );
                        },
                        None => {},
                    }
                }
            },
            _ => {},
        },
        _ => {},
    }
    assert(views(errors@) =~= start + top_problems(ruleset@, file@, *child));
}

// ---------------------------------------------------------------------------
// Pre-triggers anywhere

/// The pre-triggers among the first `n` children of a trigger.
pub open spec fn pretriggers_among(
    rs: RuleSetV,
    file: Seq<char>,
    ch: Seq<Child>,
    n: int,
) -> Seq<ErrorV>
    decreases n,
{
    if n <= 0 || n > ch.len() {
        Seq::empty()
    } else {
        let before = pretriggers_among(rs, file, ch, n - 1);
        match ch[n - 1] {
            Child::Leaf(l) => if is_pretrigger(rs, l.key@) {
                before.push(
                    coded(cw120(), file, l.pos.start.line, l.pos.start.col, seq![l.key@]),
                )
            } else {
                before
            },
            _ => before,
        }
    }
}

/// The pre-triggers directly in the triggers in a child and all below it.
pub open spec fn pretriggers_below(rs: RuleSetV, file: Seq<char>, c: Child) -> Seq<ErrorV>
    decreases c, 0int, 0int,
{
    match c {
        Child::Leaf(l) => match l.value {
            Value::Clause(inner) => (if eq_ci(l.key@, "trigger"@) {
                pretriggers_among(rs, file, inner@, inner@.len() as int)
            } else {
                Seq::empty()
            }) + all_pretriggers(rs, file, inner@, inner@.len() as int),
            _ => Seq::empty(),
        },
        _ => Seq::empty(),
    }
}

/// The pre-triggers directly in the triggers in the first `n` children and all below
/// them.
pub open spec fn all_pretriggers(
    rs: RuleSetV,
    file: Seq<char>,
    ch: Seq<Child>,
    n: int,
) -> Seq<ErrorV>
    decreases ch, 0int, n,
{
    if n <= 0 || n > ch.len() {
        Seq::empty()
    } else {
        all_pretriggers(rs, file, ch, n - 1) + pretriggers_below(rs, file, ch[n - 1])
    }
}

fn report_pretriggers(
    ruleset: &RuleSet,
    file: &str,
    children: &Vec<Child>,
    errors: &mut Vec<ValidationError>,
)
    ensures
        views(final(errors)@) == views(old(errors)@) + pretriggers_among(
            ruleset@,
            file@,
            children@,
            children@.len() as int,
        ),
{
    let ghost start = views(errors@);
    let ghost ch = children@;
    let mut i: usize = 0;
    assert(views(errors@) =~= start + pretriggers_among(ruleset@, file@, ch, 0));
    while i < children.len()
        invariant
            i <= children@.len(),
            ch == children@,
            views(errors@) == start + pretriggers_among(ruleset@, file@, ch, i as int),
        decreases children@.len() - i,
    {
        match &children[i] {
            Child::Leaf(l) => {
                let lower = to_ascii_lower(l.key.as_str());
                if ruleset.pretriggers.contains(lower.as_str()) {
                    add_one(
                        errors,
                        report1(
                            &cw120_possible_pretrigger(),
                            file,
                            l.pos.start.line,
                            l.pos.start.col,
                            l.key.as_str(),
                        ),
                    );
                }
            },
            _ => {},
        }
        assert(views(errors@) =~= start + pretriggers_among(ruleset@, file@, ch, i + 1));
        i += 1;
    }
}

fn walk_pretriggers_below(
    ruleset: &RuleSet,
    file: &str,
    child: &Child,
    errors: &mut Vec<ValidationError>,
)
    ensures
        views(final(errors)@) == views(old(errors)@) + pretriggers_below(
            ruleset@,
            file@,
            *child,
        ),
    decreases child, 0int,
{
    let ghost start = views(errors@);
    match child {
        Child::Leaf(l) => match &l.value {
            Value::Clause(inner) => {
                if same_ci(l.key.as_str(), "trigger") {
                    report_pretriggers(ruleset, file, inner, errors);
                }
                walk_pretriggers_in(ruleset, file, inner, errors);
            },
            _ => {},
        },
        _ => {},
    }
    assert(views(errors@) =~= start + pretriggers_below(ruleset@, file@, *child));
}

fn walk_pretriggers_in(
    ruleset: &RuleSet,
    file: &str,
    children: &Vec<Child>,
    errors: &mut Vec<ValidationError>,
)
    ensures
        views(final(errors)@) == views(old(errors)@) + all_pretriggers(
            ruleset@,
            file@,
            children@,
            children@.len() as int,
        ),
    decreases children, 0int,
{
    let ghost start = views(errors@);
    let mut i: usize = 0;
    assert(views(errors@) =~= start + all_pretriggers(ruleset@, file@, children@, 0));
    while i < children.len()
        invariant
            i <= children@.len(),
            views(errors@) == start + all_pretriggers(ruleset@, file@, children@, i as int),
        decreases children@.len() - i,
    {
        walk_pretriggers_below(ruleset, file, &children[i], errors);
        assert(views(errors@) =~= start + all_pretriggers(ruleset@, file@, children@, i + 1));
        i += 1;
    }
}

// ---------------------------------------------------------------------------
// If and else

/// A word of a chain of conditions.
#[derive(Clone, Copy, PartialEq, Eq, Structural)]
pub enum ChainWord {
    If,
    ElseIf,
    Else,
}

/// The word of a chain that a child is.
pub open spec fn chain_word(c: Child) -> Option<ChainWord> {
    if is_key(c, "if"@) {
        Some(ChainWord::If)
    } else if is_key(c, "else_if"@) {
        Some(ChainWord::ElseIf)
    } else if is_key(c, "else"@) {
        Some(ChainWord::Else)
    } else {
        None
    }
}

/// Among the children from the `i`th on, an `else` or `else_if` has no `if` before
/// it; `open` says whether a chain goes on.
pub open spec fn is_out_of_order(ch: Seq<Child>, i: int, open: bool) -> bool
    decreases ch.len() - i,
{
    if i < 0 || i >= ch.len() {
        false
    } else {
        match chain_word(ch[i]) {
            None => is_out_of_order(ch, i + 1, open),
            Some(w) => if open {
                is_out_of_order(ch, i + 1, w != ChainWord::Else)
            } else if w == ChainWord::If {
                is_out_of_order(ch, i + 1, true)
            } else {
                true
            },
        }
    }
}

/// What is wrong with the conditions of a block itself.
pub open spec fn own_chain_problems(l: Leaf, inner: Seq<Child>, file: Seq<char>) -> Seq<ErrorV> {
    let key = l.key@;
    let (line, col) = (l.pos.start.line, l.pos.start.col);
    let renamed = if one_of_ci(key, "set_empire_name"@, "set_planet_name"@) {
        seq![coded(cw253(), file, line, col, Seq::empty())]
    } else {
        Seq::empty()
    };
    let has_else = any_key(inner, "else"@);
    let has_if = any_key(inner, "if"@);
    let old_style = one_of_ci(key, "if"@, "else_if"@) && has_else && !has_if;
    let chain = if one_of_ci(key, "limit"@, "modifier"@) {
        Seq::empty()
    } else if old_style {
        seq![coded(cw236(), file, line, col, Seq::empty())]
    } else {
        (if eq_ci(key, "if"@) && has_else && has_if {
            seq![coded(cw237(), file, line, col, Seq::empty())]
        } else {
            Seq::empty()
        }) + (if is_out_of_order(inner, 0, false) {
            seq![coded(cw238(), file, line, col, Seq::empty())]
        } else {
            Seq::empty()
        })
    };
    renamed + chain
}

/// What is wrong with the conditions of a child and of all below it.
pub open spec fn chain_problems_below(c: Child, file: Seq<char>) -> Seq<ErrorV>
    decreases c, 0int, 0int,
{
    match c {
        Child::Leaf(l) => match l.value {
            Value::Clause(inner) => own_chain_problems(l, inner@, file) + all_chain_problems(
                inner@,
                inner@.len() as int,
                file,
            ),
            _ => Seq::empty(),
        },
        _ => Seq::empty(),
    }
}

/// What is wrong with the conditions of the first `n` children and of all below them.
pub open spec fn all_chain_problems(ch: Seq<Child>, n: int, file: Seq<char>) -> Seq<ErrorV>
    decreases ch, 0int, n,
{
    if n <= 0 || n > ch.len() {
        Seq::empty()
    } else {
        all_chain_problems(ch, n - 1, file) + chain_problems_below(ch[n - 1], file)
    }
}

fn find_chain_word(c: &Child) -> (r: Option<ChainWord>)
    ensures
        r == chain_word(*c),
{
    if child_key_eq(c, "if") {
        Some(ChainWord::If)
    } else if child_key_eq(c, "else_if") {
        Some(ChainWord::ElseIf)
    } else if child_key_eq(c, "else") {
        Some(ChainWord::Else)
    } else {
        None
    }
}

fn out_of_order(children: &Vec<Child>) -> (r: bool)
    ensures
        r == is_out_of_order(children@, 0, false),
{
    let mut open = false;
    let mut i: usize = 0;
    while i < children.len()
        invariant
            i <= children@.len(),
            is_out_of_order(children@, 0, false) == is_out_of_order(children@, i as int, open),
        decreases children@.len() - i,
    {
        match find_chain_word(&children[i]) {
            None => {},
            Some(w) => {
                if open {
                    open = w != ChainWord::Else;
                } else if w == ChainWord::If {
                    open = true;
                } else {
                    return true;
                }
            },
        }
        i += 1;
    }
    false
}

fn check_own_chain(
    key: &str,
    pos: SourcePos,
    inner: &Vec<Child>,
    file: &str,
    errors: &mut Vec<ValidationError>,
    Ghost(l): Ghost<Leaf>,
)
    requires
        key@ == l.key@,
        pos == l.pos.start,
    ensures
        views(final(errors)@) == views(old(errors)@) + own_chain_problems(l, inner@, file@),
{
    let ghost start = views(errors@);
    let (line, col) = (pos.line, pos.col);
    if same_ci(key, "set_empire_name") || same_ci(key, "set_planet_name") {
        add_one(errors, report(&cw253_deprecated_set_name(), file, line, col));
    }
    if !same_ci(key, "limit") && !same_ci(key, "modifier") {
        let has_else = has_child(inner, "else");
        let has_if = has_child(inner, "if");
        if (same_ci(key, "if") || same_ci(key, "else_if")) && has_else && !has_if {
            add_one(errors, report(&cw236_deprecated_else(), file, line, col));
        } else {
            if same_ci(key, "if") && has_else && has_if {
                add_one(errors, report(&cw237_ambiguous_if_else(), file, line, col));
            }
            if out_of_order(inner) {
                add_one(errors, report(&cw238_if_else_order(), file, line, col));
            }
        }
    }
    assert(views(errors@) =~= start + own_chain_problems(l, inner@, file@));
}

fn walk_if_else_below(child: &Child, file: &str, errors: &mut Vec<ValidationError>)
    ensures
        views(final(errors)@) == views(old(errors)@) + chain_problems_below(*child, file@),
    decreases child, 0int,
{
    let ghost start = views(errors@);
    match child {
        Child::Leaf(l) => match &l.value {
            Value::Clause(inner) => {
                check_own_chain(l.key.as_str(), l.pos.start, inner, file, errors, Ghost(*l));
                walk_if_else(inner, file, errors);
            },
            _ => {},
        },
        _ => {},
    }
    assert(views(errors@) =~= start + chain_problems_below(*child, file@));
}

fn walk_if_else(children: &Vec<Child>, file: &str, errors: &mut Vec<ValidationError>)
    ensures
        views(final(errors)@) == views(old(errors)@) + all_chain_problems(
            children@,
            children@.len() as int,
            file@,
        ),
    decreases children, 0int,
{
    let ghost start = views(errors@);
    let mut i: usize = 0;
    assert(views(errors@) =~= start + all_chain_problems(children@, 0, file@));
    while i < children.len()
        invariant
            i <= children@.len(),
            views(errors@) == start + all_chain_problems(children@, i as int, file@),
        decreases children@.len() - i,
    {
        walk_if_else_below(&children[i], file, errors);
        assert(views(errors@) =~= start + all_chain_problems(children@, i + 1, file@));
        i += 1;
    }
}

// ---------------------------------------------------------------------------
// All of them

/// What is wrong with a file of Stellaris.
pub open spec fn stellaris_problems(
    rs: RuleSetV,
    file: Seq<char>,
    ch: Seq<Child>,
    idx: Option<IndexV>,
) -> Seq<ErrorV> {
    let n = ch.len() as int;
    tops_problems(rs, file, ch, n) + (match idx {
        Some(i) => designs_problems(i, file, ch, n),
        None => Seq::empty(),
    }) + all_pretriggers(rs, file, ch, n) + all_chain_problems(ch, n, file)
}

/// Reports what is wrong with a file of Stellaris.
pub fn validate_stellaris(
    ast: &ParsedFile,
    ruleset: &RuleSet,
    file_path: &str,
    type_index: Option<&TypeIndex>,
    errors: &mut Vec<ValidationError>,
)
    ensures
        views(final(errors)@) == views(old(errors)@) + stellaris_problems(
            ruleset@,
            file_path@,
            ast.root_children@,
            opt_index(type_index),
        ),
{
    let ghost start = views(errors@);
    let children = &ast.root_children;
    let ghost ch = children@;
    let mut i: usize = 0;
    assert(views(errors@) =~= start + tops_problems(ruleset@, file_path@, ch, 0));
    while i < children.len()
        invariant
            i <= children@.len(),
            ch == children@,
            views(errors@) == start + tops_problems(ruleset@, file_path@, ch, i as int),
        decreases children@.len() - i,
    {
        check_top(ruleset, file_path, &children[i], errors);
        assert(views(errors@) =~= start + tops_problems(ruleset@, file_path@, ch, i + 1));
        i += 1;
    }
    validate_ship_designs(children, file_path, type_index, errors);
    walk_pretriggers_in(ruleset, file_path, children, errors);
    walk_if_else(children, file_path, errors);
    assert(views(errors@) =~= start + stellaris_problems(
        ruleset@,
        file_path@,
        ch,
        opt_index(type_index),
    ));
}

} // verus!
