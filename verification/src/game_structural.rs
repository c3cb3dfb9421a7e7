//! Hints on the structure of script that hold in every game: on the logical
//! operators `NOT`, `AND`, `OR` and `NOR`, and on empty `if`s and `limit`s.
//!
//! The words for these only appear in effects and triggers, so every block of a
//! file is looked at.

use vstd::prelude::*;

use crate::ast::{Child, Comment, Leaf, LeafValue, ParsedFile, SourceRange, Value};
use crate::common::one_of_ci;
use crate::diagnostic::{
    ErrorV, SuggestedFix, ValidationError, add_all, add_one, delete_fix, ending, fixed_by,
    key_range, key_token_range, stated,
};
use crate::error_codes::{
    CW223_INCORRECT_NOT_USAGE_HOI4_MSG, CodeV, ErrorCode, cw121, cw121_empty_if, cw223,
    cw223_incorrect_not_usage, cw251, cw251_unnecessary_boolean, cw281, cw281_empty_limit,
    message_of, strs,
};
use crate::game_common::{any_key, has_child};
use crate::rules_types::views;
use crate::text::{eq_ci, same_ci};
use crate::type_index::Game;

verus! {

/// How the children of a block are joined.
#[derive(Clone, Copy, PartialEq, Eq, Structural)]
pub enum BoolState {
    And,
    Or,
    /// Neither: in a `NOT` both an `AND` and an `OR` mean something.
    Neutral,
}

/// The key is one of the logical operators.
pub open spec fn is_operator(key: Seq<char>) -> bool {
    eq_ci(key, "not"@) || eq_ci(key, "and"@) || eq_ci(key, "or"@) || eq_ci(key, "nor"@)
}

/// Whether the key is one of the logical operators.
pub fn is_bool_operator(key: &str) -> (r: bool)
    ensures
        r == is_operator(key@),
{
    same_ci(key, "not") || same_ci(key, "and") || same_ci(key, "or") || same_ci(key, "nor")
}

/// The number of those of the first `n` children that are no comments.
pub open spec fn content_count(ch: Seq<Child>, n: int) -> int
    decreases n,
{
    if n <= 0 || n > ch.len() {
        0
    } else {
        content_count(ch, n - 1) + (if ch[n - 1] is Comment {
            0int
        } else {
            1int
        })
    }
}

/// The number of children that are no comments.
pub fn non_comment_count(children: &Vec<Child>) -> (r: usize)
    ensures
        r == content_count(children@, children@.len() as int),
{
    let mut n: usize = 0;
    let mut i: usize = 0;
    while i < children.len()
        invariant
            n <= i <= children@.len(),
            n == content_count(children@, i as int),
        decreases children@.len() - i,
    {
        match &children[i] {
            Child::Comment(_) => {},
            _ => {
                n += 1;
            },
        }
        i += 1;
    }
    n
}

/// The child has no effect: it is a comment or a `limit`.
pub open spec fn is_no_effect(c: Child) -> bool {
    match c {
        Child::Leaf(l) => l.value is Clause && eq_ci(l.key@, "limit"@),
        Child::LeafValue(_) => false,
        Child::Comment(_) => true,
    }
}

/// None of the children has an effect.
pub open spec fn without_effect(ch: Seq<Child>) -> bool {
    forall|i: int| 0 <= i < ch.len() ==> is_no_effect(#[trigger] ch[i])
}

/// Whether none of the children has an effect.
#[verifier::loop_isolation(false)]
pub fn is_empty_if(children: &Vec<Child>) -> (r: bool)
    ensures
        r == without_effect(children@),
{
    let mut i: usize = 0;
    while i < children.len()
        invariant
            i <= children@.len(),
            forall|j: int| 0 <= j < i ==> is_no_effect(#[trigger] children@[j]),
        decreases children@.len() - i,
    {
        let no_effect = match &children[i] {
            Child::Leaf(l) => match &l.value {
                Value::Clause(_) => same_ci(l.key.as_str(), "limit"),
                _ => false,
            },
            Child::LeafValue(_) => false,
            Child::Comment(_) => true,
        };
        if !no_effect {
            return false;
        }
        i += 1;
    }
    true
}

/// The first child from the `i`th on that is no comment is an `else_if` or an
/// `else`.
pub open spec fn else_follows(ch: Seq<Child>, i: int) -> bool
    decreases ch.len() - i,
{
    if i < 0 || i >= ch.len() {
        false
    } else {
        match ch[i] {
            Child::Comment(_) => else_follows(ch, i + 1),
            Child::Leaf(l) => one_of_ci(l.key@, "else_if"@, "else"@),
            Child::LeafValue(_) => false,
        }
    }
}

/// Whether an `else_if` or an `else` follows: it would be left alone if what stands
/// before it went.
pub fn chain_follows(children: &Vec<Child>, from: usize) -> (r: bool)
    requires
        from <= children@.len(),
    ensures
        r == else_follows(children@, from as int),
{
    let mut i: usize = from;
    while i < children.len()
        invariant
            from <= i <= children@.len(),
            else_follows(children@, from as int) == else_follows(children@, i as int),
        decreases children@.len() - i,
    {
        match &children[i] {
            Child::Comment(_) => {},
            Child::Leaf(l) => {
                return same_ci(l.key.as_str(), "else_if") || same_ci(l.key.as_str(), "else");
            },
            Child::LeafValue(_) => {
                return false;
            },
        }
        i += 1;
    }
    false
}

/// A hint on a range of text.
pub open spec fn hint(code: CodeV, message: Seq<char>, r: SourceRange, file: Seq<char>) -> ErrorV {
    ending(
        stated(code, code.severity, file, r.start.line, r.start.col, message),
        r.end,
    )
}

fn make_hint(code: &ErrorCode, message: String, r: SourceRange, file: &str) -> (e: ValidationError)
    ensures
        e@ == hint(code@, message@, r, file@),
{
    ValidationError::from_code_with(
        code,
        code.severity,
        file,
        r.start.line,
        r.start.col,
        message,
    ).with_end(r.end)
}

/// What is wrong with the operators and conditions of a block itself. The context
/// around it, whether an `else` follows it, and the advice on `NOT` are given.
pub open spec fn own_hints(
    l: Leaf,
    inner: Seq<Child>,
    parent: BoolState,
    follows: bool,
    not_advice: Seq<char>,
    file: Seq<char>,
) -> Seq<ErrorV> {
    let key = l.key@;
    let not = if eq_ci(key, "not"@) && content_count(inner, inner.len() as int) > 1 {
        seq![hint(cw223(), not_advice, key_range(l.pos.start, 3), file)]
    } else {
        Seq::empty()
    };
    let empty_if = if one_of_ci(key, "if"@, "else_if"@) && without_effect(inner) {
        let e = hint(cw121(), cw121().template, l.pos, file);
        if follows {
            seq![e]
        } else {
            seq![fixed_by(e, delete_fix("Remove empty if"@, l.pos))]
        }
    } else {
        Seq::empty()
    };
    let empty_limit = if eq_ci(key, "limit"@) && content_count(inner, inner.len() as int) == 0 {
        seq![
            fixed_by(
                hint(cw281(), cw281().template, l.pos, file),
                delete_fix("Remove empty limit"@, l.pos),
            ),
        ]
    } else {
        Seq::empty()
    };
    let redundant = if eq_ci(key, "and"@) && parent == BoolState::And {
        seq![hint(cw251(), message_of(cw251(), seq!["AND"@]), key_range(l.pos.start, 3), file)]
    } else if eq_ci(key, "or"@) && parent == BoolState::Or {
        seq![hint(cw251(), message_of(cw251(), seq!["OR"@]), key_range(l.pos.start, 2), file)]
    } else {
        Seq::empty()
    };
    not + empty_if + empty_limit + redundant
}

/// How the children of a block of that key are joined.
pub open spec fn joined_by(key: Seq<char>) -> BoolState {
    if eq_ci(key, "and"@) {
        BoolState::And
    } else if one_of_ci(key, "or"@, "nor"@) {
        BoolState::Or
    } else if one_of_ci(key, "not"@, "count_triggers"@) {
        BoolState::Neutral
    } else {
        BoolState::And
    }
}

/// The hints on a child and all below it. An operator with a `value` in it is
/// arithmetic, on which there are none; on what is below it there are.
pub open spec fn child_hints(
    c: Child,
    parent: BoolState,
    follows: bool,
    not_advice: Seq<char>,
    file: Seq<char>,
) -> Seq<ErrorV>
    decreases c, 0int, 0int,
{
    match c {
        Child::Leaf(l) => match l.value {
            Value::Clause(inner) => if is_operator(l.key@) && any_key(inner@, "value"@) {
                hints(inner@, inner@.len() as int, BoolState::Neutral, not_advice, file)
            } else {
                own_hints(l, inner@, parent, follows, not_advice, file) + hints(
                    inner@,
                    inner@.len() as int,
                    joined_by(l.key@),
                    not_advice,
                    file,
                )
            },
            _ => Seq::empty(),
        },
        _ => Seq::empty(),
    }
}

/// The hints on the first `n` children and all below them.
pub open spec fn hints(
    ch: Seq<Child>,
    n: int,
    parent: BoolState,
    not_advice: Seq<char>,
    file: Seq<char>,
) -> Seq<ErrorV>
    decreases ch, 0int, n,
{
    if n <= 0 || n > ch.len() {
        Seq::empty()
    } else {
        hints(ch, n - 1, parent, not_advice, file) + child_hints(
            ch[n - 1],
            parent,
            else_follows(ch, n),
            not_advice,
            file,
        )
    }
}

fn report_own(
    key: &str,
    range: SourceRange,
    inner: &Vec<Child>,
    parent: BoolState,
    follows: bool,
    not_advice: &str,
    file: &str,
    Ghost(l): Ghost<Leaf>,
) -> (r: Vec<ValidationError>)
    requires
        key@ == l.key@,
        range == l.pos,
    ensures
        views(r@) == own_hints(l, inner@, parent, follows, not_advice@, file@),
{
    let mut out: Vec<ValidationError> = Vec::new();
    let content: usize = non_comment_count(inner);
    assert(views(out@) =~= Seq::empty());
    if same_ci(key, "not") && content > 1 {
        add_one(
            &mut out,
            make_hint(
                &cw223_incorrect_not_usage(),
                not_advice.to_owned(),
                key_token_range(range.start, 3),
                file,
            ),
        );
    }
    if (same_ci(key, "if") || same_ci(key, "else_if")) && is_empty_if(inner) {
        let code = cw121_empty_if();
        let e = make_hint(&code, code.message_template.to_owned(), range, file);
        if follows {
            add_one(&mut out, e);
        } else {
            add_one(
                &mut out,
                e.with_fix(SuggestedFix::delete("Remove empty if", range)),
            );
        }
    }
    if same_ci(key, "limit") && content == 0 {
        let code = cw281_empty_limit();
        let e = make_hint(&code, code.message_template.to_owned(), range, file);
        add_one(&mut out, e.with_fix(SuggestedFix::delete("Remove empty limit", range)));
    }
    if same_ci(key, "and") && parent == BoolState::And {
        let code = cw251_unnecessary_boolean();
        let params: [&str; 1] = ["AND"];
        assert(strs(params@) =~= seq!["AND"@]);
        let message = code.format(&params);
        add_one(
            &mut out,
            make_hint(&code, message, key_token_range(range.start, 3), file),
        );
    } else if same_ci(key, "or") && parent == BoolState::Or {
        let code = cw251_unnecessary_boolean();
        let params: [&str; 1] = ["OR"];
        assert(strs(params@) =~= seq!["OR"@]);
        let message = code.format(&params);
        add_one(
            &mut out,
            make_hint(&code, message, key_token_range(range.start, 2), file),
        );
    }
    assert(views(out@) =~= own_hints(l, inner@, parent, follows, not_advice@, file@));
    out
}

fn find_joined_by(key: &str) -> (r: BoolState)
    ensures
        r == joined_by(key@),
{
    if same_ci(key, "and") {
        BoolState::And
    } else if same_ci(key, "or") || same_ci(key, "nor") {
        BoolState::Or
    } else if same_ci(key, "not") || same_ci(key, "count_triggers") {
        BoolState::Neutral
    } else {
        BoolState::And
    }
}

fn walk_child(
    child: &Child,
    parent: BoolState,
    follows: bool,
    not_advice: &str,
    file: &str,
    errors: &mut Vec<ValidationError>,
)
    ensures
        views(final(errors)@) == views(old(errors)@) + child_hints(
            *child,
            parent,
            follows,
            not_advice@,
            file@,
        ),
    decreases child, 0int,
{
    let ghost start = views(errors@);
    match child {
        Child::Leaf(l) => match &l.value {
            Value::Clause(inner) => {
                let key = l.key.as_str();
                if is_bool_operator(key) && has_child(inner, "value") {
                    walk(inner, BoolState::Neutral, not_advice, file, errors);
                } else {
                    let own = report_own(
                        key,
                        l.pos,
                        inner,
                        parent,
                        follows,
                        not_advice,
                        file,
                        Ghost(*l),
                    );
                    add_all(errors, own);
                    walk(inner, find_joined_by(key), not_advice, file, errors);
                }
            },
            _ => {},
        },
        _ => {},
    }
    assert(views(errors@) =~= start + child_hints(*child, parent, follows, not_advice@, file@));
}

fn walk(
    children: &Vec<Child>,
    parent: BoolState,
    not_advice: &str,
    file: &str,
    errors: &mut Vec<ValidationError>,
)
    ensures
        views(final(errors)@) == views(old(errors)@) + hints(
            children@,
            children@.len() as int,
            parent,
            not_advice@,
            file@,
        ),
    decreases children, 0int,
{
    let ghost start = views(errors@);
    let ghost ch = children@;
    let mut i: usize = 0;
    assert(views(errors@) =~= start + hints(ch, 0, parent, not_advice@, file@));
    while i < children.len()
        invariant
            i <= children@.len(),
            ch == children@,
            views(errors@) == start + hints(ch, i as int, parent, not_advice@, file@),
        decreases children@.len() - i,
    {
        let follows = chain_follows(children, i + 1);
        walk_child(&children[i], parent, follows, not_advice, file, errors);
        assert(views(errors@) =~= start + hints(ch, i + 1, parent, not_advice@, file@));
        i += 1;
    }
}

/// The advice on a `NOT` with several children.
pub open spec fn not_advice_for(game: Game) -> Seq<char> {
    if game == Game::Hoi4 {
        CW223_INCORRECT_NOT_USAGE_HOI4_MSG@
    } else {
        cw223().template
    }
}

/// Adds the hints on a whole file. Its root is joined by `AND`.
pub fn validate_structural(
    ast: &ParsedFile,
    file_path: &str,
    game: Game,
    errors: &mut Vec<ValidationError>,
)
    ensures
        views(final(errors)@) == views(old(errors)@) + hints(
            ast.root_children@,
            ast.root_children@.len() as int,
            BoolState::And,
            not_advice_for(game),
            file_path@,
        ),
{
    let advice: &str = match game {
        Game::Hoi4 => CW223_INCORRECT_NOT_USAGE_HOI4_MSG,
        _ => cw223_incorrect_not_usage().message_template,
    };
    walk(&ast.root_children, BoolState::And, advice, file_path, errors);
}

} // verus!
