//! The parsed form of a script or configuration file.
//!
//! A file is a sequence of children; a `key = { ... }` block is a leaf whose
//! value is a clause. Texts are kept as they stand in the file: a quoted string
//! keeps its quotes.

use vstd::prelude::*;

verus! {

/// The operator between a key and its value.
#[derive(Clone, Copy, Debug, PartialEq, Eq, Structural)]
pub enum Operator {
    Equals,
    NotEqual,
    LessThan,
    GreaterThan,
    LessThanOrEqual,
    GreaterThanOrEqual,
    EqualEqual,
    QuestionEqual,
}

/// A position: `line` counts from 1, `col` counts characters from 0.
#[derive(Clone, Copy, Debug, PartialEq, Eq, Structural)]
pub struct SourcePos {
    pub line: u32,
    pub col: u16,
}

/// A range of text, from its first position to the one behind its last.
#[derive(Clone, Copy, Debug, PartialEq, Eq, Structural)]
pub struct SourceRange {
    pub start: SourcePos,
    pub end: SourcePos,
}

/// What stands to the right of an operator, or alone in a block.
#[derive(Debug, PartialEq)]
pub enum Value {
    /// A bare word.
    String(String),
    /// A quoted string, with its quotes.
    QString(String),
    /// A decimal number, in the shortest digits that write it down.
    Float(String),
    Int(i64),
    Bool(bool),
    /// `{ ... }`.
    Clause(Vec<Child>),
}

/// `key op value`.
#[derive(Debug, PartialEq)]
pub struct Leaf {
    pub key: String,
    pub value: Value,
    pub op: Operator,
    pub pos: SourceRange,
    /// Where the value alone stands.
    pub value_pos: SourceRange,
}

/// A value without a key.
#[derive(Debug, PartialEq)]
pub struct LeafValue {
    pub value: Value,
    pub pos: SourceRange,
}

/// A comment line, with its leading `#`s.
#[derive(Debug, PartialEq)]
pub struct Comment {
    pub text: String,
    pub pos: SourceRange,
}

/// One entry of a block or of a file.
#[derive(Debug, PartialEq)]
pub enum Child {
    Leaf(Leaf),
    LeafValue(LeafValue),
    Comment(Comment),
}

/// A parsed file.
#[derive(Debug, PartialEq)]
pub struct ParsedFile {
    pub root_children: Vec<Child>,
}

impl Child {
    /// The body of a `key = { ... }` block.
    pub open spec fn clause(self) -> Option<Seq<Child>> {
        match self {
            Child::Leaf(l) => l.value.clause(),
            _ => None,
        }
    }
}

impl Value {
    /// The children of a clause.
    pub open spec fn clause(self) -> Option<Seq<Child>> {
        match self {
            Value::Clause(c) => Some(c@),
            _ => None,
        }
    }
}

} // verus!
