//! What the checks of a game report, said of the blocks themselves.

use vstd::prelude::*;

use crate::ast::{Child, Comment, Leaf, LeafValue, SourcePos, Value};
use crate::check_laws::lemma_sum_contains;
use crate::common::value_text;
use crate::diagnostic::ErrorV;
use crate::game_common::{
    any_always_no, any_key, common_problems, exact_count, in_directory, is_always_no, is_key,
    says_no,
};
use crate::game_hoi4::{default_hints, default_hints_in, is_redundant, sole_always};
use crate::game_stellaris::{
    ChainWord, all_chain_problems, all_pretriggers, chain_word, designs_problems, event_problems,
    has_timing, in_triggers, is_out_of_order, last_scalar, own_chain_problems, part_problems,
    parts_problems, pretriggers_among, pretriggers_below, stellaris_problems, top_problems,
    tops_problems,
};
use crate::game_structural::{
    BoolState, child_hints, content_count, else_follows, hints, is_no_effect, joined_by,
    not_advice_for, own_hints, without_effect,
};
use crate::game_validators::game_problems;
use crate::resolve::type_named;
use crate::rule_converter::unquoted;
use crate::ruleset::RuleSetV;
use crate::text::{CharSet, ascii_lower, ends, eq_ci, replace_char_spec, split_spec, starts};
use crate::text_laws::{is_free_of, law_split_first, law_split_one, lemma_rfind_is};
use crate::type_index::{Game, IndexV};
use crate::type_laws::lemma_listed;
use crate::value_laws::{is_instance, is_one, lemma_is_instance, reports};

verus! {

/// The children but for comments.
pub open spec fn content(ch: Seq<Child>) -> Seq<Child> {
    ch.filter(|c: Child| !(c is Comment))
}

proof fn lemma_content(ch: Seq<Child>, n: int)
    requires
        0 <= n <= ch.len(),
    ensures
        content_count(ch, n) == content(ch.take(n)).len(),
    decreases n,
{
    reveal(Seq::filter);
    let t = ch.take(n);
    if n > 0 {
        lemma_content(ch, n - 1);
        assert(t.drop_last() =~= ch.take(n - 1));
        assert(t.last() == ch[n - 1]);
    } else {
        assert(t =~= Seq::<Child>::empty());
    }
}

/// The child does nothing: it is a comment, or a block `limit`.
pub open spec fn does_nothing(c: Child) -> bool {
    match c {
        Child::Comment(_) => true,
        Child::Leaf(l) => l.value is Clause && ascii_lower(l.key@) == "limit"@,
        Child::LeafValue(_) => false,
    }
}

proof fn lemma_keywords()
    ensures
        ascii_lower("not"@) == "not"@,
        ascii_lower("and"@) == "and"@,
        ascii_lower("or"@) == "or"@,
        ascii_lower("nor"@) == "nor"@,
        ascii_lower("if"@) == "if"@,
        ascii_lower("else_if"@) == "else_if"@,
        ascii_lower("else"@) == "else"@,
        ascii_lower("limit"@) == "limit"@,
        ascii_lower("value"@) == "value"@,
        ascii_lower("modifier"@) == "modifier"@,
        ascii_lower("count_triggers"@) == "count_triggers"@,
        "not"@.len() == 3 && "and"@.len() == 3 && "nor"@.len() == 3 && "or"@.len() == 2
            && "if"@.len() == 2 && "else_if"@.len() == 7 && "else"@.len() == 4 && "limit"@.len()
            == 5 && "modifier"@.len() == 8 && "count_triggers"@.len() == 14,
        "not"@[1] == 'o' && "nor"@[1] == 'o' && "and"@[1] == 'n' && "not"@[2] == 't' && "nor"@[2]
            == 'r' && "or"@[0] == 'o' && "if"@[0] == 'i',
{
    reveal_strlit("not");
    reveal_strlit("and");
    reveal_strlit("or");
    reveal_strlit("nor");
    reveal_strlit("if");
    reveal_strlit("else_if");
    reveal_strlit("else");
    reveal_strlit("limit");
    reveal_strlit("value");
    reveal_strlit("modifier");
    reveal_strlit("count_triggers");
    assert(ascii_lower("not"@) =~= "not"@);
    assert(ascii_lower("and"@) =~= "and"@);
    assert(ascii_lower("or"@) =~= "or"@);
    assert(ascii_lower("nor"@) =~= "nor"@);
    assert(ascii_lower("if"@) =~= "if"@);
    assert(ascii_lower("else_if"@) =~= "else_if"@);
    assert(ascii_lower("else"@) =~= "else"@);
    assert(ascii_lower("limit"@) =~= "limit"@);
    assert(ascii_lower("value"@) =~= "value"@);
    assert(ascii_lower("modifier"@) =~= "modifier"@);
    assert(ascii_lower("count_triggers"@) =~= "count_triggers"@);
}

// ---------------------------------------------------------------------------
// Operators and conditions

/// A `NOT` is reported, as `CW223`, exactly if it holds more than one thing; an `AND` where
/// everything must hold anyway, and an `OR` where one thing must, as `CW251`; an `if` or
/// `else_if` that does nothing as `CW121`; an empty `limit` as `CW281`. Nothing else is,
/// and case does not matter.
#[verifier::rlimit(50)]
pub proof fn law_operators(
    l: Leaf,
    inner: Seq<Child>,
    parent: BoolState,
    follows: bool,
    advice: Seq<char>,
    file: Seq<char>,
)
    ensures
        ({
            let e = own_hints(l, inner, parent, follows, advice, file);
            let k = ascii_lower(l.key@);
            let at = l.pos.start;
            let idle = forall|i: int| 0 <= i < inner.len() ==> does_nothing(#[trigger] inner[i]);
            &&& k == "not"@ && content(inner).len() > 1 ==> is_one(e, "CW223"@, file, at)
            &&& k == "not"@ && content(inner).len() <= 1 ==> e.len() == 0
            &&& k == "and"@ && parent == BoolState::And ==> is_one(e, "CW251"@, file, at)
            &&& k == "and"@ && parent != BoolState::And ==> e.len() == 0
            &&& k == "or"@ && parent == BoolState::Or ==> is_one(e, "CW251"@, file, at)
            &&& k == "or"@ && parent != BoolState::Or ==> e.len() == 0
            &&& (k == "if"@ || k == "else_if"@) && idle ==> is_one(e, "CW121"@, file, at) && (
            e[0].fix is None <==> follows)
            &&& (k == "if"@ || k == "else_if"@) && !idle ==> e.len() == 0
            &&& k == "limit"@ && content(inner).len() == 0 ==> is_one(e, "CW281"@, file, at)
            &&& k == "limit"@ && content(inner).len() > 0 ==> e.len() == 0
            &&& k != "not"@ && k != "and"@ && k != "or"@ && k != "if"@ && k != "else_if"@ && k
                != "limit"@ ==> e.len() == 0
        }),
{
    lemma_keywords();
    let n = inner.len() as int;
    lemma_content(inner, n);
    assert(inner.take(n) =~= inner);
    assert forall|i: int| 0 <= i < inner.len() implies does_nothing(#[trigger] inner[i])
        == is_no_effect(inner[i]) by {}
    let idle = forall|i: int| 0 <= i < inner.len() ==> does_nothing(#[trigger] inner[i]);
    if without_effect(inner) {
        assert forall|i: int| 0 <= i < inner.len() implies does_nothing(#[trigger] inner[i]) by {
            assert(is_no_effect(inner[i]));
        }
    }
    if idle {
        assert forall|i: int| 0 <= i < inner.len() implies is_no_effect(#[trigger] inner[i]) by {
            assert(does_nothing(inner[i]));
        }
        assert(without_effect(inner));
    }
}

/// Everything in an `AND`, and in a block that is no operator, must hold; one thing in an
/// `OR` or `NOR` must; in a `NOT` and in a count of triggers neither is so.
pub proof fn law_contexts(key: Seq<char>)
    ensures
        ({
            let k = ascii_lower(key);
            let c = joined_by(key);
            &&& k == "and"@ ==> c == BoolState::And
            &&& k == "or"@ || k == "nor"@ ==> c == BoolState::Or
            &&& k == "not"@ || k == "count_triggers"@ ==> c == BoolState::Neutral
            &&& k != "and"@ && k != "or"@ && k != "nor"@ && k != "not"@ && k != "count_triggers"@
                ==> c == BoolState::And
        }),
{
    lemma_keywords();
}

proof fn lemma_hints(
    ch: Seq<Child>,
    n: int,
    parent: BoolState,
    advice: Seq<char>,
    file: Seq<char>,
    e: ErrorV,
)
    requires
        0 <= n <= ch.len(),
    ensures
        hints(ch, n, parent, advice, file).contains(e) <==> exists|i: int|
            0 <= i < n && #[trigger] child_hints(
                ch[i],
                parent,
                else_follows(ch, i + 1),
                advice,
                file,
            ).contains(e),
    decreases n,
{
    if n > 0 {
        lemma_hints(ch, n - 1, parent, advice, file, e);
        let a = hints(ch, n - 1, parent, advice, file);
        let b = child_hints(ch[n - 1], parent, else_follows(ch, n), advice, file);
        lemma_sum_contains(a, b, e);
        if b.contains(e) {
            let i = n - 1;
            assert(child_hints(ch[i], parent, else_follows(ch, i + 1), advice, file).contains(e));
        }
    } else {
        assert(!hints(ch, 0, parent, advice, file).contains(e));
    }
}

/// A file has the hints on its blocks and on all blocks in them: on a block itself in the
/// context around it, and on those in it in the context that it makes. On an operator with
/// a `value` in it, which is arithmetic, there are none, but on what is in it there are.
#[verifier::rlimit(50)]
pub proof fn law_hints_at_any_depth(
    ch: Seq<Child>,
    parent: BoolState,
    advice: Seq<char>,
    file: Seq<char>,
    i: int,
    e: ErrorV,
)
    requires
        0 <= i < ch.len(),
        ch[i] is Leaf,
        ch[i]->Leaf_0.value is Clause,
    ensures
        ({
            let l = ch[i]->Leaf_0;
            let inner = l.value->Clause_0@;
            let k = ascii_lower(l.key@);
            let arithmetic = (k == "not"@ || k == "and"@ || k == "or"@ || k == "nor"@) && exists|
                j: int,
            |
                0 <= j < inner.len() && #[trigger] inner[j] is Leaf && ascii_lower(
                    inner[j]->Leaf_0.key@,
                ) == "value"@;
            let all = hints(ch, ch.len() as int, parent, advice, file);
            &&& !arithmetic && own_hints(
                l,
                inner,
                parent,
                else_follows(ch, i + 1),
                advice,
                file,
            ).contains(e) ==> all.contains(e)
            &&& !arithmetic && hints(
                inner,
                inner.len() as int,
                joined_by(l.key@),
                advice,
                file,
            ).contains(e) ==> all.contains(e)
            &&& arithmetic && hints(
                inner,
                inner.len() as int,
                BoolState::Neutral,
                advice,
                file,
            ).contains(e) ==> all.contains(e)
        }),
{
    lemma_keywords();
    lemma_hints(ch, ch.len() as int, parent, advice, file, e);
    let l = ch[i]->Leaf_0;
    let inner = l.value->Clause_0@;
    let follows = else_follows(ch, i + 1);
    let one = child_hints(ch[i], parent, follows, advice, file);
    lemma_sum_contains(
        own_hints(l, inner, parent, follows, advice, file),
        hints(inner, inner.len() as int, joined_by(l.key@), advice, file),
        e,
    );
    if any_key(inner, "value"@) {
        let j = choose|j: int| 0 <= j < inner.len() && is_key(#[trigger] inner[j], "value"@);
        assert(inner[j] is Leaf);
    }
    if exists|j: int|
        0 <= j < inner.len() && #[trigger] inner[j] is Leaf && ascii_lower(inner[j]->Leaf_0.key@)
            == "value"@ {
        let j = choose|j: int|
            0 <= j < inner.len() && #[trigger] inner[j] is Leaf && ascii_lower(
                inner[j]->Leaf_0.key@,
            ) == "value"@;
        assert(is_key(inner[j], "value"@));
    }
    if one.contains(e) {
        assert(child_hints(ch[i], parent, else_follows(ch, i + 1), advice, file).contains(e));
    }
}

// ---------------------------------------------------------------------------
// Hearts of Iron

proof fn lemma_sole_always(ch: Seq<Child>, k: int, i: int, found: Option<bool>)
    requires
        0 <= i <= ch.len(),
        0 <= k < ch.len(),
        forall|j: int| 0 <= j < ch.len() && j != k ==> (#[trigger] ch[j]) is Comment,
        i > k ==> found is Some,
        i <= k ==> found is None,
    ensures
        i > k ==> sole_always(ch, i, found) == found,
        i <= k ==> sole_always(ch, i, found) == (match ch[k] {
            Child::Leaf(l) => match l.value {
                Value::Bool(b) => if ascii_lower(l.key@) == ascii_lower("always"@) {
                    Some(b)
                } else {
                    None
                },
                _ => None,
            },
            Child::LeafValue(_) => None,
            Child::Comment(_) => None,
        }),
    decreases ch.len() - i,
{
    if i < ch.len() {
        if i == k {
            match ch[k] {
                Child::Leaf(l) => match l.value {
                    Value::Bool(b) => {
                        if ascii_lower(l.key@) == ascii_lower("always"@) {
                            lemma_sole_always(ch, k, i + 1, Some(b));
                        }
                    },
                    _ => {},
                },
                Child::Comment(_) => {
                    lemma_all_comments(ch, i);
                },
                _ => {},
            }
        } else {
            assert(ch[i] is Comment);
            lemma_sole_always(ch, k, i + 1, found);
        }
    }
}

proof fn lemma_all_comments(ch: Seq<Child>, i: int)
    requires
        0 <= i <= ch.len(),
        forall|j: int| i <= j < ch.len() ==> (#[trigger] ch[j]) is Comment,
    ensures
        sole_always(ch, i, None) is None,
    decreases ch.len() - i,
{
    if i < ch.len() {
        assert(ch[i] is Comment);
        lemma_all_comments(ch, i + 1);
    }
}

/// A block `allowed_civil_war` that holds, but for comments, one thing is reported, as
/// `CW280`, exactly if that is `always = no`; any other block is not.
pub proof fn law_civil_war_default(l: Leaf, inner: Seq<Child>, k: int)
    requires
        0 <= k < inner.len(),
        forall|j: int| 0 <= j < inner.len() && j != k ==> (#[trigger] inner[j]) is Comment,
    ensures
        is_redundant(l, inner) <==> {
            &&& ascii_lower(l.key@) == "allowed_civil_war"@
            &&& inner[k] is Leaf
            &&& inner[k]->Leaf_0.value == Value::Bool(false)
            &&& ascii_lower(inner[k]->Leaf_0.key@) == "always"@
        },
{
    reveal_strlit("allowed_civil_war");
    reveal_strlit("always");
    assert(ascii_lower("allowed_civil_war"@) =~= "allowed_civil_war"@);
    assert(ascii_lower("always"@) =~= "always"@);
    lemma_sole_always(inner, k, 0, None);
}

/// A block that repeats its default is reported where it stands, and so are those in it.
pub proof fn law_defaults_at_any_depth(c: Child, file: Seq<char>, e: ErrorV)
    requires
        c is Leaf,
        c->Leaf_0.value is Clause,
    ensures
        ({
            let l = c->Leaf_0;
            let inner = l.value->Clause_0@;
            let all = default_hints_in(c, file);
            &&& is_redundant(l, inner) ==> all.len() > 0 && is_one(
                seq![all[0]],
                "CW280"@,
                file,
                l.pos.start,
            )
            &&& default_hints(inner, inner.len() as int, file).contains(e) ==> all.contains(e)
            &&& !is_redundant(l, inner) ==> all == default_hints(inner, inner.len() as int, file)
        }),
{
    let l = c->Leaf_0;
    let inner = l.value->Clause_0@;
    let b = default_hints(inner, inner.len() as int, file);
    let all = default_hints_in(c, file);
    if is_redundant(l, inner) {
        assert(all.len() == 1 + b.len());
        assert(all.subrange(1, all.len() as int) =~= b);
        if b.contains(e) {
            let i = choose|i: int| 0 <= i < b.len() && b[i] == e;
            assert(all[i + 1] == e);
        }
    } else {
        assert(all =~= b);
    }
}

// ---------------------------------------------------------------------------
// Stellaris

/// One of the children is a field of that name, in whatever case.
pub open spec fn some_named(ch: Seq<Child>, name: Seq<char>) -> bool {
    exists|i: int|
        0 <= i < ch.len() && #[trigger] ch[i] is Leaf && ascii_lower(ch[i]->Leaf_0.key@)
            == ascii_lower(name)
}

proof fn lemma_some_named(ch: Seq<Child>, name: Seq<char>)
    ensures
        any_key(ch, name) <==> some_named(ch, name),
{
    if any_key(ch, name) {
        let i = choose|i: int| 0 <= i < ch.len() && is_key(#[trigger] ch[i], name);
        assert(ch[i] is Leaf);
    }
    if some_named(ch, name) {
        let i = choose|i: int|
            0 <= i < ch.len() && #[trigger] ch[i] is Leaf && ascii_lower(ch[i]->Leaf_0.key@)
                == ascii_lower(name);
        assert(is_key(ch[i], name));
    }
}

/// A technology without a category is reported as `CW110`, a research leader without an
/// area as `CW108`, a planet killer without a type or without damage as `CW250`.
#[verifier::rlimit(50)]
pub proof fn law_required_fields(rs: RuleSetV, file: Seq<char>, c: Child)
    requires
        c is Leaf,
        c->Leaf_0.value is Clause,
    ensures
        ({
            let l = c->Leaf_0;
            let ch = l.value->Clause_0@;
            let e = top_problems(rs, file, c);
            let k = ascii_lower(l.key@);
            let at = SourcePos { line: l.pos.start.line, col: 0 };
            let damage = some_named(ch, "planet_damage"@) || some_named(ch, "armor_penetration"@)
                || some_named(ch, "armor_damage"@);
            &&& k == "technology"@ && !some_named(ch, "category"@) ==> is_one(e, "CW110"@, file, at)
            &&& k == "technology"@ && some_named(ch, "category"@) ==> e.len() == 0
            &&& k == "research_leader"@ && !some_named(ch, "area"@) ==> is_one(
                e,
                "CW108"@,
                file,
                at,
            )
            &&& k == "research_leader"@ && some_named(ch, "area"@) ==> e.len() == 0
            &&& k == "planet_killer"@ && (!some_named(ch, "type"@) || !damage) ==> is_one(
                e,
                "CW250"@,
                file,
                at,
            )
            &&& k == "planet_killer"@ && some_named(ch, "type"@) && damage ==> e.len() == 0
        }),
{
    let l = c->Leaf_0;
    let ch = l.value->Clause_0@;
    let k = ascii_lower(l.key@);
    reveal_strlit("technology");
    reveal_strlit("research_leader");
    reveal_strlit("planet_killer");
    reveal_strlit("_event");
    reveal_strlit("event");
    reveal_strlit("tech_");
    reveal_strlit("type, damage");
    reveal_strlit("type");
    reveal_strlit("damage");
    lemma_some_named(ch, "category"@);
    lemma_some_named(ch, "area"@);
    lemma_some_named(ch, "type"@);
    lemma_some_named(ch, "planet_damage"@);
    lemma_some_named(ch, "armor_penetration"@);
    lemma_some_named(ch, "armor_damage"@);
    if ends(k, "_event"@) {
        assert(k.subrange(k.len() - 6, k.len() as int)[5] == k[k.len() - 1]);
        assert(k.last() == 't');
    }
    assert("technology"@.last() == 'y' && "research_leader"@.last() == 'r' && "planet_killer"@.last()
        == 'r' && "event"@.last() == 't');
    if starts(k, "tech_"@) {
        assert(k.subrange(0, 5)[0] == k[0]);
    }
    assert("research_leader"@[0] == 'r' && "planet_killer"@[0] == 'p' && "technology"@[0] == 't');
}

/// An event is reported, as `CW107`, exactly if nothing in it says when it is tested.
pub proof fn law_timing_of_events(rs: RuleSetV, file: Seq<char>, l: Leaf, ch: Seq<Child>)
    ensures
        ({
            let e = event_problems(rs, file, l, ch);
            let off = exists|i: int|
                0 <= i < ch.len() && is_key(#[trigger] ch[i], "trigger"@) && is_always_no(ch[i]);
            let timed = some_named(ch, "mean_time_to_happen"@) || some_named(
                ch,
                "is_triggered_only"@,
            ) || some_named(ch, "fire_only_once"@) || some_named(ch, "base"@) || off;
            &&& !timed ==> e.len() > 0 && is_one(
                seq![e[0]],
                "CW107"@,
                file,
                SourcePos { line: l.pos.start.line, col: 0 },
            )
            &&& timed ==> e == in_triggers(rs, file, ch, ch.len() as int)
        }),
{
    lemma_some_named(ch, "mean_time_to_happen"@);
    lemma_some_named(ch, "is_triggered_only"@);
    lemma_some_named(ch, "fire_only_once"@);
    lemma_some_named(ch, "base"@);
    let e = event_problems(rs, file, l, ch);
    let rest = in_triggers(rs, file, ch, ch.len() as int);
    if has_timing(ch) {
        assert(e =~= rest);
    }
}

/// A trigger that is better placed in front of its block is reported where it stands: as
/// `CW120` in every block `trigger`.
pub proof fn law_pretriggers(rs: RuleSetV, file: Seq<char>, ch: Seq<Child>, n: int)
    requires
        0 <= n <= ch.len(),
    ensures
        ({
            let e = pretriggers_among(rs, file, ch, n);
            let early = |c: Child|
                c is Leaf && rs.pretriggers.contains(ascii_lower(c->Leaf_0.key@));
            &&& e.len() == ch.take(n).filter(early).len()
            &&& forall|i: int| 0 <= i < e.len() ==> (#[trigger] e[i]).code == Some("CW120"@)
        }),
    decreases n,
{
    reveal(Seq::filter);
    let t = ch.take(n);
    if n > 0 {
        law_pretriggers(rs, file, ch, n - 1);
        assert(t.drop_last() =~= ch.take(n - 1));
        assert(t.last() == ch[n - 1]);
        let before = pretriggers_among(rs, file, ch, n - 1);
        let now = pretriggers_among(rs, file, ch, n);
        assert forall|i: int| 0 <= i < now.len() implies (#[trigger] now[i]).code == Some(
            "CW120"@,
        ) by {
            if i < before.len() {
                assert(now[i] == before[i]);
            }
        }
    } else {
        assert(t =~= Seq::<Child>::empty());
    }
}

/// A section or component of a ship design is reported exactly if the template that it
/// names is none of its kind: a section as `CW227`, a component as `CW229`.
pub proof fn law_parts_of_designs(idx: IndexV, file: Seq<char>, c: Child)
    requires
        c is Leaf,
        c->Leaf_0.value is Clause,
    ensures
        ({
            let l = c->Leaf_0;
            let inner = l.value->Clause_0@;
            let e = part_problems(idx, file, c);
            let k = ascii_lower(l.key@);
            let name = last_scalar(inner, "template"@, inner.len() as int);
            &&& name is None || (k != "section"@ && k != "component"@) ==> e.len() == 0
            &&& k == "section"@ && name is Some ==> if is_instance(
                idx,
                "section_template"@,
                name->0,
            ) {
                e.len() == 0
            } else {
                is_one(e, "CW227"@, file, l.pos.start)
            }
            &&& k == "component"@ && name is Some ==> if is_instance(
                idx,
                "component_template"@,
                name->0,
            ) {
                e.len() == 0
            } else {
                is_one(e, "CW229"@, file, l.pos.start)
            }
        }),
{
    reveal_strlit("section");
    reveal_strlit("component");
    assert(ascii_lower("section"@) =~= "section"@);
    assert(ascii_lower("component"@) =~= "component"@);
    let inner = c->Leaf_0.value->Clause_0@;
    match last_scalar(inner, "template"@, inner.len() as int) {
        Some(t) => {
            lemma_is_instance(idx, "section_template"@, t);
            lemma_is_instance(idx, "component_template"@, t);
        },
        None => {},
    }
}

/// The word of a chain of conditions that a child is.
pub open spec fn is_chain_word(c: Child) -> bool {
    c is Leaf && ({
        let k = ascii_lower(c->Leaf_0.key@);
        k == "if"@ || k == "else_if"@ || k == "else"@
    })
}

/// Nothing before the child that is a word of a chain leaves a chain open: there is none,
/// or the last one is an `else`.
pub open spec fn no_chain_before(ch: Seq<Child>, i: int, open: bool) -> bool
    decreases i,
{
    if i <= 0 {
        !open
    } else if is_chain_word(ch[i - 1]) {
        ascii_lower(ch[i - 1]->Leaf_0.key@) == "else"@
    } else {
        no_chain_before(ch, i - 1, open)
    }
}

#[verifier::rlimit(50)]
proof fn lemma_chain(ch: Seq<Child>, i: int, open: bool)
    requires
        0 <= i <= ch.len(),
        no_chain_before(ch, i, false) == !open,
    ensures
        is_out_of_order(ch, i, open) <==> exists|j: int|
            i <= j < ch.len() && #[trigger] is_chain_word(ch[j]) && ascii_lower(
                ch[j]->Leaf_0.key@,
            ) != "if"@ && no_chain_before(ch, j, false),
    decreases ch.len() - i,
{
    lemma_keywords();
    if i < ch.len() {
        let w = chain_word(ch[i]);
        assert(is_chain_word(ch[i]) <==> w is Some);
        match w {
            None => {
                assert(no_chain_before(ch, i + 1, false) == no_chain_before(ch, i, false));
                lemma_chain(ch, i + 1, open);
            },
            Some(x) => {
                if open {
                    lemma_chain(ch, i + 1, x != ChainWord::Else);
                } else if x == ChainWord::If {
                    lemma_chain(ch, i + 1, true);
                } else {
                    assert(is_chain_word(ch[i]));
                }
            },
        }
    }
}

/// In a block that is no condition itself, an `else` or `else_if` without a condition
/// before it is reported as `CW238`, and nothing else.
#[verifier::rlimit(50)]
pub proof fn law_order_of_conditions(l: Leaf, inner: Seq<Child>, file: Seq<char>)
    requires
        ascii_lower(l.key@) != "if"@ && ascii_lower(l.key@) != "else_if"@,
        ascii_lower(l.key@) != "set_empire_name"@ && ascii_lower(l.key@) != "set_planet_name"@,
    ensures
        ({
            let e = own_chain_problems(l, inner, file);
            let k = ascii_lower(l.key@);
            let wrong = exists|j: int|
                0 <= j < inner.len() && #[trigger] is_chain_word(inner[j]) && ascii_lower(
                    inner[j]->Leaf_0.key@,
                ) != "if"@ && no_chain_before(inner, j, false);
            &&& k == "limit"@ || k == "modifier"@ || !wrong ==> e.len() == 0
            &&& k != "limit"@ && k != "modifier"@ && wrong ==> is_one(
                e,
                "CW238"@,
                file,
                l.pos.start,
            )
        }),
{
    lemma_keywords();
    reveal_strlit("set_empire_name");
    reveal_strlit("set_planet_name");
    assert(ascii_lower("set_empire_name"@) =~= "set_empire_name"@);
    assert(ascii_lower("set_planet_name"@) =~= "set_planet_name"@);
    lemma_chain(inner, 0, false);
}

/// An `if` with an `else` in it is reported: as `CW236` where it holds no `if`, as `CW237`
/// where it does.
pub proof fn law_else_in_an_if(l: Leaf, inner: Seq<Child>, file: Seq<char>)
    requires
        ascii_lower(l.key@) == "if"@,
        some_named(inner, "else"@),
    ensures
        ({
            let e = own_chain_problems(l, inner, file);
            &&& !some_named(inner, "if"@) ==> is_one(e, "CW236"@, file, l.pos.start)
            &&& some_named(inner, "if"@) ==> reports(e, "CW237"@)
        }),
{
    lemma_keywords();
    reveal_strlit("set_empire_name");
    reveal_strlit("set_planet_name");
    assert(ascii_lower("set_empire_name"@) =~= "set_empire_name"@);
    assert(ascii_lower("set_planet_name"@) =~= "set_planet_name"@);
    lemma_some_named(inner, "else"@);
    lemma_some_named(inner, "if"@);
    let e = own_chain_problems(l, inner, file);
    if some_named(inner, "if"@) {
        assert(e[0].code == Some("CW237"@));
    }
}

/// The checks of a game are its own: those of Stellaris are run on its files alone, and so
/// are those of Hearts of Iron; types that may appear once, and the hints on operators, are
/// checked for every game.
pub proof fn law_checks_of_games(
    rs: RuleSetV,
    file: Seq<char>,
    ch: Seq<Child>,
    idx: Option<IndexV>,
    game: Game,
    e: ErrorV,
)
    ensures
        ({
            let all = game_problems(rs, file, ch, idx, game);
            let n = ch.len() as int;
            all.contains(e) <==> {
                ||| common_problems(rs, file, ch, n).contains(e)
                ||| hints(ch, n, BoolState::And, not_advice_for(game), file).contains(e)
                ||| game == Game::Stellaris && (tops_problems(rs, file, ch, n).contains(e) || (
                idx is Some && designs_problems(idx->0, file, ch, n).contains(e))
                    || all_pretriggers(rs, file, ch, n).contains(e) || all_chain_problems(
                    ch,
                    n,
                    file,
                ).contains(e))
                ||| game == Game::Hoi4 && default_hints(ch, n, file).contains(e)
            }
        }),
{
    let n = ch.len() as int;
    let a = common_problems(rs, file, ch, n);
    let b = hints(ch, n, BoolState::And, not_advice_for(game), file);
    let c = match game {
        Game::Stellaris => stellaris_problems(rs, file, ch, idx),
        Game::Hoi4 => default_hints(ch, n, file),
        _ => Seq::empty(),
    };
    lemma_sum_contains(a, b, e);
    lemma_sum_contains(a + b, c, e);
    let t = tops_problems(rs, file, ch, n);
    let d = match idx {
        Some(i) => designs_problems(i, file, ch, n),
        None => Seq::empty(),
    };
    let p = all_pretriggers(rs, file, ch, n);
    let q = all_chain_problems(ch, n, file);
    lemma_sum_contains(t, d, e);
    lemma_sum_contains(t + d, p, e);
    lemma_sum_contains(t + d + p, q, e);
}

// ---------------------------------------------------------------------------
// More on games

/// A child is `always = no` where it is a field of that name, in whatever case, whose value
/// is a truth value or a text that says no; a block says so where one of its fields does.
pub proof fn law_always_no(ch: Seq<Child>, k: int)
    requires
        0 <= k < ch.len(),
        ch[k] is Leaf,
        ascii_lower(ch[k]->Leaf_0.key@) == "always"@,
        ch[k]->Leaf_0.value == Value::Bool(false),
    ensures
        any_always_no(ch),
{
    reveal_strlit("always");
    assert(ascii_lower("always"@) =~= "always"@);
    assert(is_key(ch[k], "always"@) && says_no(ch[k]));
}

/// A block is never `always = no` for a field that says yes.
pub proof fn law_not_always_no(ch: Seq<Child>)
    requires
        forall|k: int|
            0 <= k < ch.len() && #[trigger] ch[k] is Leaf && ascii_lower(ch[k]->Leaf_0.key@)
                == "always"@ ==> ch[k]->Leaf_0.value == Value::Bool(true),
    ensures
        !any_always_no(ch),
{
    reveal_strlit("always");
    assert(ascii_lower("always"@) =~= "always"@);
    if any_always_no(ch) {
        let k = choose|k: int|
            0 <= k < ch.len() && is_key(#[trigger] ch[k], "always"@) && says_no(ch[k]);
        assert(ch[k] is Leaf);
    }
}

/// An `else` follows where the next child that is no comment is an `else` or an `else_if`.
pub proof fn law_else_follows(ch: Seq<Child>, i: int, k: int)
    requires
        0 <= i <= k < ch.len(),
        forall|j: int| i <= j < k ==> (#[trigger] ch[j]) is Comment,
        !(ch[k] is Comment),
    ensures
        else_follows(ch, i) <==> ch[k] is Leaf && (ascii_lower(ch[k]->Leaf_0.key@) == "else"@
            || ascii_lower(ch[k]->Leaf_0.key@) == "else_if"@),
    decreases k - i,
{
    lemma_keywords();
    if i < k {
        assert(ch[i] is Comment);
        law_else_follows(ch, i + 1, k);
    }
}

/// The template of a part is the one that it names last.
pub proof fn law_last_value(ch: Seq<Child>, key: Seq<char>, n: int, k: int)
    requires
        0 <= k < n <= ch.len(),
        ch[k] is Leaf,
        ascii_lower(ch[k]->Leaf_0.key@) == ascii_lower(key),
        !(ch[k]->Leaf_0.value is Clause),
        forall|j: int|
            k < j < n ==> !((#[trigger] ch[j]) is Leaf) || ascii_lower(ch[j]->Leaf_0.key@)
                != ascii_lower(key),
    ensures
        last_scalar(ch, key, n) == Some(unquoted(value_text(ch[k]->Leaf_0.value))),
    decreases n,
{
    if k < n - 1 {
        assert(!(ch[n - 1] is Leaf) || ascii_lower(ch[n - 1]->Leaf_0.key@) != ascii_lower(key));
        law_last_value(ch, key, n - 1, k);
    }
}

/// The parts of every ship design are checked, and nothing else is as one.
pub proof fn law_designs(idx: IndexV, file: Seq<char>, ch: Seq<Child>, n: int)
    requires
        0 < n <= ch.len(),
    ensures
        ({
            let before = designs_problems(idx, file, ch, n - 1);
            let now = designs_problems(idx, file, ch, n);
            let c = ch[n - 1];
            let design = c is Leaf && c->Leaf_0.value is Clause && (ascii_lower(c->Leaf_0.key@)
                == "ship_design"@ || ascii_lower(c->Leaf_0.key@) == "global_ship_design"@);
            let inner = c->Leaf_0.value->Clause_0@;
            &&& design ==> now == before + parts_problems(idx, file, inner, inner.len() as int)
            &&& !design ==> now == before
        }),
{
    reveal_strlit("ship_design");
    reveal_strlit("global_ship_design");
    assert(ascii_lower("ship_design"@) =~= "ship_design"@);
    assert(ascii_lower("global_ship_design"@) =~= "global_ship_design"@);
}

/// Every block whose key is `event` or ends in `_event` is checked as an event.
pub proof fn law_events(rs: RuleSetV, file: Seq<char>, c: Child, before: Seq<char>)
    requires
        c is Leaf,
        c->Leaf_0.value is Clause,
        ascii_lower(c->Leaf_0.key@) == "event"@ || ascii_lower(c->Leaf_0.key@) == before
            + "_event"@,
    ensures
        top_problems(rs, file, c) == event_problems(
            rs,
            file,
            c->Leaf_0,
            c->Leaf_0.value->Clause_0@,
        ),
{
    let k = before + "_event"@;
    assert(k.subrange(k.len() - "_event"@.len(), k.len() as int) =~= "_event"@);
}

/// Pre-triggers are looked for in every block `trigger`, at any depth.
pub proof fn law_pretriggers_at_any_depth(rs: RuleSetV, file: Seq<char>, c: Child, e: ErrorV)
    requires
        c is Leaf,
        c->Leaf_0.value is Clause,
    ensures
        ({
            let inner = c->Leaf_0.value->Clause_0@;
            let n = inner.len() as int;
            pretriggers_below(rs, file, c).contains(e) <==> (ascii_lower(c->Leaf_0.key@)
                == "trigger"@ && pretriggers_among(rs, file, inner, n).contains(e))
                || all_pretriggers(rs, file, inner, n).contains(e)
        }),
{
    reveal_strlit("trigger");
    assert(ascii_lower("trigger"@) =~= "trigger"@);
    let inner = c->Leaf_0.value->Clause_0@;
    let n = inner.len() as int;
    let a = if eq_ci(c->Leaf_0.key@, "trigger"@) {
        pretriggers_among(rs, file, inner, n)
    } else {
        Seq::empty()
    };
    lemma_sum_contains(a, all_pretriggers(rs, file, inner, n), e);
}

/// How many of the children are fields of exactly that name.
pub open spec fn times_named(ch: Seq<Child>, key: Seq<char>) -> nat {
    ch.filter(|c: Child| c is Leaf && c->Leaf_0.key@ == key).len()
}

/// A type that may appear once is reported, as `CW261`, where it appears for the second
/// time and nowhere else.
pub proof fn law_second_appearance(rs: RuleSetV, file: Seq<char>, ch: Seq<Child>, n: int)
    requires
        0 < n <= ch.len(),
        ch[n - 1] is Leaf,
    ensures
        ({
            let l = ch[n - 1]->Leaf_0;
            let before = common_problems(rs, file, ch, n - 1);
            let now = common_problems(rs, file, ch, n);
            let unique = type_named(rs, l.key@) matches Some(t) && t.unique;
            let times = times_named(ch.take(n), l.key@);
            &&& unique && times == 2 ==> now.len() == before.len() + 1 && is_one(
                seq![now.last()],
                "CW261"@,
                file,
                l.pos.start,
            )
            &&& !unique || times != 2 ==> now == before
        }),
{
    lemma_exact_count(ch, ch[n - 1]->Leaf_0.key@, n);
}

proof fn lemma_exact_count(ch: Seq<Child>, key: Seq<char>, n: int)
    requires
        0 <= n <= ch.len(),
    ensures
        exact_count(ch, key, n) == times_named(ch.take(n), key),
    decreases n,
{
    reveal(Seq::filter);
    let t = ch.take(n);
    if n > 0 {
        lemma_exact_count(ch, key, n - 1);
        assert(t.drop_last() =~= ch.take(n - 1));
        assert(t.last() == ch[n - 1]);
    } else {
        assert(t =~= Seq::<Child>::empty());
    }
}

/// A file is under a directory where that is one of those in its path, in whatever case; the
/// name of the file does not count.
pub proof fn law_directories_of_files(
    before: Seq<char>,
    dir: Seq<char>,
    file: Seq<char>,
    segment: Seq<char>,
)
    requires
        is_free_of(before, CharSet::One('/')) && is_free_of(before, CharSet::One('\\')),
        is_free_of(dir, CharSet::One('/')) && is_free_of(dir, CharSet::One('\\')),
        is_free_of(file, CharSet::One('/')) && is_free_of(file, CharSet::One('\\')),
    ensures
        in_directory(before + seq!['/'] + dir + seq!['/'] + file, segment) <==> ascii_lower(before)
            == ascii_lower(segment) || ascii_lower(dir) == ascii_lower(segment),
        !in_directory(file, segment),
{
    let slash = CharSet::One('/');
    let p = before + seq!['/'] + dir + seq!['/'] + file;
    let head = before + seq!['/'] + dir;
    let n = head.len() as int + 1;
    let back = CharSet::One('\\');
    assert forall|k: int| 0 <= k < p.len() implies #[trigger] p[k] != '\\' by {
        let b = before.len() as int;
        let d = b + 1 + dir.len();
        if k < b {
            assert(p[k] == before[k]);
            assert(!back.has(before[k]));
        } else if b < k && k < d {
            assert(p[k] == dir[k - b - 1]);
            assert(!back.has(dir[k - b - 1]));
        } else if k > d {
            assert(p[k] == file[k - d - 1]);
            assert(!back.has(file[k - d - 1]));
        }
    }
    assert(replace_char_spec(p, '\\', '/') =~= p);
    assert forall|k: int| n <= k < p.len() implies !slash.has(#[trigger] p[k]) by {
        assert(p[k] == file[k - n]);
        assert(!slash.has(file[k - n]));
    }
    assert(p[n - 1] == '/');
    lemma_rfind_is(p, slash, p.len() as int, n);
    assert(p.subrange(0, n - 1) =~= head);
    law_split_first(before, '/', dir);
    law_split_one(dir, slash);
    let parts = split_spec(head, slash);
    assert(parts =~= seq![before, dir]);
    lemma_listed(parts, segment);
    if ascii_lower(before) == ascii_lower(segment) {
        assert(ascii_lower(parts[0]) == ascii_lower(segment));
    }
    if ascii_lower(dir) == ascii_lower(segment) {
        assert(ascii_lower(parts[1]) == ascii_lower(segment));
    }
    assert forall|k: int| 0 <= k < file.len() implies #[trigger] file[k] != '\\' by {
        assert(!back.has(file[k]));
    }
    assert(replace_char_spec(file, '\\', '/') =~= file);
    lemma_rfind_is(file, slash, file.len() as int, 0);
}

/// A name that is set in an old way is reported as `CW253`, whatever is in its block.
pub proof fn law_old_names(l: Leaf, inner: Seq<Child>, file: Seq<char>)
    ensures
        ({
            let k = ascii_lower(l.key@);
            let old_way = k == "set_empire_name"@ || k == "set_planet_name"@;
            let e = own_chain_problems(l, inner, file);
            &&& old_way ==> e.len() > 0 && is_one(seq![e[0]], "CW253"@, file, l.pos.start)
            &&& !old_way && e.len() > 0 ==> e[0].code != Some("CW253"@)
        }),
{
    reveal_strlit("set_empire_name");
    reveal_strlit("set_planet_name");
    assert(ascii_lower("set_empire_name"@) =~= "set_empire_name"@);
    assert(ascii_lower("set_planet_name"@) =~= "set_planet_name"@);
    reveal_strlit("CW253");
    reveal_strlit("CW236");
    reveal_strlit("CW237");
    reveal_strlit("CW238");
    assert("CW253"@[3] == '5' && "CW236"@[3] == '3' && "CW237"@[3] == '3' && "CW238"@[3] == '3');
}

} // verus!
