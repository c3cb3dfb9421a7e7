//! Diagnostics and the edits that they suggest.

use vstd::prelude::*;

use crate::ast::{SourcePos, SourceRange};
use crate::error_codes::{CodeV, ErrorCode, ErrorSeverity, hash_of, hash_text, message_of, strs};
use crate::rules_types::{Severity, opt_view, views};
use crate::text::{opt_text, replace};

verus! {

/// A piece of text to put in place of a range.
#[derive(Debug, PartialEq)]
pub struct TextEdit {
    pub range: SourceRange,
    pub new_text: String,
}

/// The model of [`TextEdit`].
#[verifier::ext_equal]
pub struct TextEditV {
    pub range: SourceRange,
    pub new_text: Seq<char>,
}

impl View for TextEdit {
    type V = TextEditV;

    open spec fn view(&self) -> TextEditV {
        TextEditV { range: self.range, new_text: self.new_text@ }
    }
}

impl Clone for TextEdit {
    fn clone(&self) -> (r: Self)
        ensures
            r@ == self@,
    {
        TextEdit { range: self.range, new_text: self.new_text.clone() }
    }
}

/// A change that removes the cause of a diagnostic.
#[derive(Debug, PartialEq)]
pub struct SuggestedFix {
    pub title: String,
    pub edits: Vec<TextEdit>,
    /// A localisation key to create, where there is no text to edit.
    pub create_loc_key: Option<String>,
}

/// The model of [`SuggestedFix`].
#[verifier::ext_equal]
pub struct FixV {
    pub title: Seq<char>,
    pub edits: Seq<TextEditV>,
    pub create_loc_key: Option<Seq<char>>,
}

impl View for SuggestedFix {
    type V = FixV;

    open spec fn view(&self) -> FixV {
        FixV {
            title: self.title@,
            edits: views(self.edits@),
            create_loc_key: opt_text(self.create_loc_key),
        }
    }
}

/// The fix that puts `text` in place of `range`.
pub open spec fn replace_fix(title: Seq<char>, range: SourceRange, text: Seq<char>) -> FixV {
    FixV {
        title,
        edits: seq![TextEditV { range, new_text: text }],
        create_loc_key: None,
    }
}

/// The fix that removes `range`.
pub open spec fn delete_fix(title: Seq<char>, range: SourceRange) -> FixV {
    replace_fix(title, range, Seq::empty())
}

/// The fix that creates a localisation key.
pub open spec fn create_key_fix(title: Seq<char>, key: Seq<char>) -> FixV {
    FixV { title, edits: Seq::empty(), create_loc_key: Some(key) }
}

impl SuggestedFix {
    /// Puts `text` in place of `range`.
    pub fn replace(title: &str, range: SourceRange, text: &str) -> (r: Self)
        ensures
            r@ == replace_fix(title@, range, text@),
    {
        let mut edits: Vec<TextEdit> = Vec::new();
        edits.push(TextEdit { range, new_text: text.to_owned() });
        let r = SuggestedFix { title: title.to_owned(), edits, create_loc_key: None };
        assert(r@ =~= replace_fix(title@, range, text@));
        r
    }

    /// Removes `range`.
    pub fn delete(title: &str, range: SourceRange) -> (r: Self)
        ensures
            r@ == delete_fix(title@, range),
    {
        proof {
            reveal_strlit("");
        }
        assert(""@ =~= Seq::<char>::empty());
        Self::replace(title, range, "")
    }

    /// Creates a localisation key.
    pub fn create_loc_key(title: &str, key: &str) -> (r: Self)
        ensures
            r@ == create_key_fix(title@, key@),
    {
        let r = SuggestedFix {
            title: title.to_owned(),
            edits: Vec::new(),
            create_loc_key: Some(key.to_owned()),
        };
        assert(r@ =~= create_key_fix(title@, key@));
        r
    }
}

/// The range of a key of `len` characters that starts at `start`.
pub open spec fn key_range(start: SourcePos, len: int) -> SourceRange {
    SourceRange {
        start,
        end: SourcePos {
            line: start.line,
            col: if start.col + len <= u16::MAX {
                (start.col + len) as u16
            } else {
                u16::MAX
            },
        },
    }
}

/// The range of a key alone. A column that does not fit is held at the last one.
pub fn key_token_range(start: SourcePos, len: usize) -> (r: SourceRange)
    ensures
        r == key_range(start, len as int),
{
    let room: u16 = u16::MAX - start.col;
    let col: u16 = if len <= room as usize {
        start.col + len as u16
    } else {
        u16::MAX
    };
    SourceRange { start, end: SourcePos { line: start.line, col } }
}

/// A diagnostic.
#[derive(Debug, PartialEq)]
pub struct ValidationError {
    pub message: String,
    pub severity: ErrorSeverity,
    pub line: u32,
    pub col: u16,
    pub file: String,
    /// The id of the code, such as `CW262`.
    pub code: Option<&'static str>,
    /// Where the text that the diagnostic is about ends.
    pub end: Option<(u32, u16)>,
    pub fix: Option<SuggestedFix>,
}

/// The model of [`ValidationError`].
#[verifier::ext_equal]
pub struct ErrorV {
    pub message: Seq<char>,
    pub severity: ErrorSeverity,
    pub line: u32,
    pub col: u16,
    pub file: Seq<char>,
    pub code: Option<Seq<char>>,
    pub end: Option<(u32, u16)>,
    pub fix: Option<FixV>,
}

pub open spec fn code_text(c: Option<&str>) -> Option<Seq<char>> {
    match c {
        Some(s) => Some(s@),
        None => None,
    }
}

impl View for ValidationError {
    type V = ErrorV;

    open spec fn view(&self) -> ErrorV {
        ErrorV {
            message: self.message@,
            severity: self.severity,
            line: self.line,
            col: self.col,
            file: self.file@,
            code: code_text(self.code),
            end: self.end,
            fix: opt_view(self.fix),
        }
    }
}

/// A diagnostic with a message and a severity of its own.
pub open spec fn stated(
    code: CodeV,
    severity: ErrorSeverity,
    file: Seq<char>,
    line: u32,
    col: u16,
    message: Seq<char>,
) -> ErrorV {
    ErrorV { message, severity, line, col, file, code: Some(code.id), end: None, fix: None }
}

/// A diagnostic with the severity and the message of its code.
pub open spec fn coded(
    code: CodeV,
    file: Seq<char>,
    line: u32,
    col: u16,
    params: Seq<Seq<char>>,
) -> ErrorV {
    stated(code, code.severity, file, line, col, message_of(code, params))
}

/// The diagnostic with the end of what it is about.
pub open spec fn ending(e: ErrorV, end: SourcePos) -> ErrorV {
    ErrorV { end: Some((end.line, end.col)), ..e }
}

/// The diagnostic with a fix.
pub open spec fn fixed_by(e: ErrorV, fix: FixV) -> ErrorV {
    ErrorV { fix: Some(fix), ..e }
}

impl ValidationError {
    /// A diagnostic with the severity and the message of its code.
    pub fn from_code(code: &ErrorCode, file: &str, line: u32, col: u16, params: &[&str]) -> (r: Self)
        ensures
            r@ == coded(code@, file@, line, col, strs(params@)),
    {
        ValidationError {
            message: code.format(params),
            severity: code.severity,
            line,
            col,
            file: file.to_owned(),
            code: Some(code.id),
            end: None,
            fix: None,
        }
    }

    /// A diagnostic with a message and a severity of its own.
    pub fn from_code_with(
        code: &ErrorCode,
        severity: ErrorSeverity,
        file: &str,
        line: u32,
        col: u16,
        message: String,
    ) -> (r: Self)
        ensures
            r@ == stated(code@, severity, file@, line, col, message@),
    {
        ValidationError {
            message,
            severity,
            line,
            col,
            file: file.to_owned(),
            code: Some(code.id),
            end: None,
            fix: None,
        }
    }

    /// The diagnostic with the end of what it is about.
    pub fn with_end(self, end: SourcePos) -> (r: Self)
        ensures
            r@ == ending(self@, end),
    {
        let mut e = self;
        e.end = Some((end.line, end.col));
        e
    }

    /// The diagnostic with a fix.
    pub fn with_fix(self, fix: SuggestedFix) -> (r: Self)
        ensures
            r@ == fixed_by(self@, fix@),
    {
        let mut e = self;
        e.fix = Some(fix);
        e
    }
}

/// The hash of a diagnostic.
pub fn error_hash(error: &ValidationError) -> (r: String)
    ensures
        r@ == hash_text(error.severity, error.file@, error.line, error.message@),
{
    hash_of(error.severity, error.file.as_str(), error.line, error.message.as_str())
}

/// Adds the diagnostics in `more` behind those in `errors`.
pub fn add_all(errors: &mut Vec<ValidationError>, more: Vec<ValidationError>)
    ensures
        views(final(errors)@) == views(old(errors)@) + views(more@),
{
    let ghost a = views(errors@);
    let ghost b = views(more@);
    let mut more = more;
    errors.append(&mut more);
    assert(views(errors@) =~= a + b);
}

/// Adds a diagnostic.
pub fn add_one(errors: &mut Vec<ValidationError>, e: ValidationError)
    ensures
        views(final(errors)@) == views(old(errors)@) + seq![e@],
{
    let ghost a = errors@;
    errors.push(e);
    assert(views(errors@) =~= views(a) + seq![e@]);
}

/// The severity of a diagnostic that a rule's own severity asks for.
pub open spec fn diag_severity(sev: Severity) -> ErrorSeverity {
    match sev {
        Severity::Error => ErrorSeverity::Error,
        Severity::Warning => ErrorSeverity::Warning,
        Severity::Information => ErrorSeverity::Information,
        Severity::Hint => ErrorSeverity::Hint,
    }
}

/// The severity of a diagnostic that a rule's own severity asks for.
pub fn severity_to_error(sev: &Severity) -> (r: ErrorSeverity)
    ensures
        r == diag_severity(*sev),
{
    match sev {
        Severity::Error => ErrorSeverity::Error,
        Severity::Warning => ErrorSeverity::Warning,
        Severity::Information => ErrorSeverity::Information,
        Severity::Hint => ErrorSeverity::Hint,
    }
}

/// A diagnostic whose message has no parameter.
pub fn report(code: &ErrorCode, file: &str, line: u32, col: u16) -> (r: ValidationError)
    ensures
        r@ == coded(code@, file@, line, col, Seq::empty()),
{
    let params: [&str; 0] = [];
    assert(strs(params@) =~= Seq::empty());
    ValidationError::from_code(code, file, line, col, &params)
}

/// A diagnostic whose message has one parameter.
pub fn report1(code: &ErrorCode, file: &str, line: u32, col: u16, a: &str) -> (r: ValidationError)
    ensures
        r@ == coded(code@, file@, line, col, seq![a@]),
{
    let params: [&str; 1] = [a];
    assert(strs(params@) =~= seq![a@]);
    ValidationError::from_code(code, file, line, col, &params)
}

/// A diagnostic whose message has two parameters.
pub fn report2(
    code: &ErrorCode,
    file: &str,
    line: u32,
    col: u16,
    a: &str,
    b: &str,
) -> (r: ValidationError)
    ensures
        r@ == coded(code@, file@, line, col, seq![a@, b@]),
{
    let params: [&str; 2] = [a, b];
    assert(strs(params@) =~= seq![a@, b@]);
    ValidationError::from_code(code, file, line, col, &params)
}

/// A diagnostic whose message has three parameters.
pub fn report3(
    code: &ErrorCode,
    file: &str,
    line: u32,
    col: u16,
    a: &str,
    b: &str,
    c: &str,
) -> (r: ValidationError)
    ensures
        r@ == coded(code@, file@, line, col, seq![a@, b@, c@]),
{
    let params: [&str; 3] = [a, b, c];
    assert(strs(params@) =~= seq![a@, b@, c@]);
    ValidationError::from_code(code, file, line, col, &params)
}

} // verus!
