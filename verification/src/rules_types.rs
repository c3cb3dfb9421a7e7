//! The rules that configuration files declare: types, aliases, enums, and the
//! fields that each block may hold.

use vstd::prelude::*;

use crate::ast::{Leaf, Value};
use crate::text::{
    CharSet, clone_list, clone_opt, find_in, find_set, find_text, find_text_spec, lemma_find_in,
    opt_text, string_of, texts, to_chars,
};

verus! {

// ---------------------------------------------------------------------------
// Fields

/// The value types that a field can ask for.
///
/// The bounds of a `Float` are kept as the decimal numbers they were written as.
#[derive(Debug, PartialEq)]
#[allow(inconsistent_fields)]
pub enum ValueType {
    Enum(String),
    Float { min: String, max: String },
    Bool,
    Int { min: i32, max: i32 },
    Percent,
    Date,
    DateTime,
    Ck2Dna,
    Ck2DnaProperty,
    IrFamilyName,
    StlNameFormat(String),
    /// An operand of a math expression: a number, a variable, or a nested block.
    MathExpr,
}

/// The model of a [`ValueType`].
#[verifier::ext_equal]
#[allow(inconsistent_fields)]
pub enum ValueTypeV {
    Enum(Seq<char>),
    Float { min: Seq<char>, max: Seq<char> },
    Bool,
    Int { min: i32, max: i32 },
    Percent,
    Date,
    DateTime,
    Ck2Dna,
    Ck2DnaProperty,
    IrFamilyName,
    StlNameFormat(Seq<char>),
    MathExpr,
}

impl View for ValueType {
    type V = ValueTypeV;

    open spec fn view(&self) -> ValueTypeV {
        match self {
            ValueType::Enum(s) => ValueTypeV::Enum(s@),
            ValueType::Float { min, max } => ValueTypeV::Float { min: min@, max: max@ },
            ValueType::Bool => ValueTypeV::Bool,
            ValueType::Int { min, max } => ValueTypeV::Int { min: *min, max: *max },
            ValueType::Percent => ValueTypeV::Percent,
            ValueType::Date => ValueTypeV::Date,
            ValueType::DateTime => ValueTypeV::DateTime,
            ValueType::Ck2Dna => ValueTypeV::Ck2Dna,
            ValueType::Ck2DnaProperty => ValueTypeV::Ck2DnaProperty,
            ValueType::IrFamilyName => ValueTypeV::IrFamilyName,
            ValueType::StlNameFormat(s) => ValueTypeV::StlNameFormat(s@),
            ValueType::MathExpr => ValueTypeV::MathExpr,
        }
    }
}

impl Clone for ValueType {
    fn clone(&self) -> (r: Self)
        ensures
            r@ == self@,
    {
        match self {
            ValueType::Enum(s) => ValueType::Enum(s.clone()),
            ValueType::Float { min, max } => ValueType::Float {
                min: min.clone(),
                max: max.clone(),
            },
            ValueType::Bool => ValueType::Bool,
            ValueType::Int { min, max } => ValueType::Int { min: *min, max: *max },
            ValueType::Percent => ValueType::Percent,
            ValueType::Date => ValueType::Date,
            ValueType::DateTime => ValueType::DateTime,
            ValueType::Ck2Dna => ValueType::Ck2Dna,
            ValueType::Ck2DnaProperty => ValueType::Ck2DnaProperty,
            ValueType::IrFamilyName => ValueType::IrFamilyName,
            ValueType::StlNameFormat(s) => ValueType::StlNameFormat(s.clone()),
            ValueType::MathExpr => ValueType::MathExpr,
        }
    }
}

/// A reference to instances of a type: `<name>`, or `prefix<name>suffix`.
#[derive(Debug, PartialEq)]
pub enum TypeType {
    Simple(String),
    Complex { prefix: String, name: String, suffix: String },
}

/// The model of a [`TypeType`].
#[verifier::ext_equal]
pub enum TypeTypeV {
    Simple(Seq<char>),
    Complex { prefix: Seq<char>, name: Seq<char>, suffix: Seq<char> },
}

impl View for TypeType {
    type V = TypeTypeV;

    open spec fn view(&self) -> TypeTypeV {
        match self {
            TypeType::Simple(s) => TypeTypeV::Simple(s@),
            TypeType::Complex { prefix, name, suffix } => TypeTypeV::Complex {
                prefix: prefix@,
                name: name@,
                suffix: suffix@,
            },
        }
    }
}

impl Clone for TypeType {
    fn clone(&self) -> (r: Self)
        ensures
            r@ == self@,
    {
        match self {
            TypeType::Simple(s) => TypeType::Simple(s.clone()),
            TypeType::Complex { prefix, name, suffix } => TypeType::Complex {
                prefix: prefix.clone(),
                name: name.clone(),
                suffix: suffix.clone(),
            },
        }
    }
}

/// A field type that a later pass replaces by rules.
#[derive(Clone, Copy, Debug, PartialEq, Eq, Structural)]
pub enum Marker {
    ColourField,
    IrCountryTag,
}

/// What a key or a value of a rule may be.
#[derive(Debug, PartialEq)]
pub enum NewField {
    ValueField(ValueType),
    SpecificField(String),
    ScalarField,
    TypeField(TypeType),
    ScopeField(Vec<String>),
    LocalisationField { synced: bool, is_inline: bool },
    FilepathField { prefix: Option<String>, extension: Option<String> },
    IconField(String),
    AliasValueKeysField(String),
    AliasField(String),
    SingleAliasField(String),
    VariableSetField(String),
    VariableGetField(String),
    VariableField { is_int: bool, is_32bit: bool, min: String, max: String },
    ValueScopeMarkerField { is_int: bool, min: String, max: String },
    ValueScopeField { is_int: bool, min: String, max: String },
    MarkerField(Marker),
    IgnoreMarkerField,
    IgnoreField(Box<NewField>),
}

/// The model of a [`NewField`].
#[verifier::ext_equal]
pub enum FieldV {
    ValueField(ValueTypeV),
    SpecificField(Seq<char>),
    ScalarField,
    TypeField(TypeTypeV),
    ScopeField(Seq<Seq<char>>),
    LocalisationField { synced: bool, is_inline: bool },
    FilepathField { prefix: Option<Seq<char>>, extension: Option<Seq<char>> },
    IconField(Seq<char>),
    AliasValueKeysField(Seq<char>),
    AliasField(Seq<char>),
    SingleAliasField(Seq<char>),
    VariableSetField(Seq<char>),
    VariableGetField(Seq<char>),
    VariableField { is_int: bool, is_32bit: bool, min: Seq<char>, max: Seq<char> },
    ValueScopeMarkerField { is_int: bool, min: Seq<char>, max: Seq<char> },
    ValueScopeField { is_int: bool, min: Seq<char>, max: Seq<char> },
    MarkerField(Marker),
    IgnoreMarkerField,
    IgnoreField(Box<FieldV>),
}

/// The model of a field.
pub open spec fn field_view(f: NewField) -> FieldV
    decreases f,
{
    match f {
        NewField::ValueField(v) => FieldV::ValueField(v@),
        NewField::SpecificField(s) => FieldV::SpecificField(s@),
        NewField::ScalarField => FieldV::ScalarField,
        NewField::TypeField(t) => FieldV::TypeField(t@),
        NewField::ScopeField(v) => FieldV::ScopeField(texts(v@)),
        NewField::LocalisationField { synced, is_inline } => FieldV::LocalisationField {
            synced,
            is_inline,
        },
        NewField::FilepathField { prefix, extension } => FieldV::FilepathField {
            prefix: opt_text(prefix),
            extension: opt_text(extension),
        },
        NewField::IconField(s) => FieldV::IconField(s@),
        NewField::AliasValueKeysField(s) => FieldV::AliasValueKeysField(s@),
        NewField::AliasField(s) => FieldV::AliasField(s@),
        NewField::SingleAliasField(s) => FieldV::SingleAliasField(s@),
        NewField::VariableSetField(s) => FieldV::VariableSetField(s@),
        NewField::VariableGetField(s) => FieldV::VariableGetField(s@),
        NewField::VariableField { is_int, is_32bit, min, max } => FieldV::VariableField {
            is_int,
            is_32bit,
            min: min@,
            max: max@,
        },
        NewField::ValueScopeMarkerField { is_int, min, max } => FieldV::ValueScopeMarkerField {
            is_int,
            min: min@,
            max: max@,
        },
        NewField::ValueScopeField { is_int, min, max } => FieldV::ValueScopeField {
            is_int,
            min: min@,
            max: max@,
        },
        NewField::MarkerField(m) => FieldV::MarkerField(m),
        NewField::IgnoreMarkerField => FieldV::IgnoreMarkerField,
        NewField::IgnoreField(b) => FieldV::IgnoreField(Box::new(field_view(*b))),
    }
}

impl View for NewField {
    type V = FieldV;

    open spec fn view(&self) -> FieldV {
        field_view(*self)
    }
}

/// A copy of a field.
pub fn clone_field(f: &NewField) -> (r: NewField)
    ensures
        r@ == f@,
    decreases f,
{
    match f {
        NewField::ValueField(v) => NewField::ValueField(v.clone()),
        NewField::SpecificField(s) => NewField::SpecificField(s.clone()),
        NewField::ScalarField => NewField::ScalarField,
        NewField::TypeField(t) => NewField::TypeField(t.clone()),
        NewField::ScopeField(v) => NewField::ScopeField(clone_list(v)),
        NewField::LocalisationField { synced, is_inline } => NewField::LocalisationField {
            synced: *synced,
            is_inline: *is_inline,
        },
        NewField::FilepathField { prefix, extension } => NewField::FilepathField {
            prefix: clone_opt(prefix),
            extension: clone_opt(extension),
        },
        NewField::IconField(s) => NewField::IconField(s.clone()),
        NewField::AliasValueKeysField(s) => NewField::AliasValueKeysField(s.clone()),
        NewField::AliasField(s) => NewField::AliasField(s.clone()),
        NewField::SingleAliasField(s) => NewField::SingleAliasField(s.clone()),
        NewField::VariableSetField(s) => NewField::VariableSetField(s.clone()),
        NewField::VariableGetField(s) => NewField::VariableGetField(s.clone()),
        NewField::VariableField { is_int, is_32bit, min, max } => NewField::VariableField {
            is_int: *is_int,
            is_32bit: *is_32bit,
            min: min.clone(),
            max: max.clone(),
        },
        NewField::ValueScopeMarkerField { is_int, min, max } => NewField::ValueScopeMarkerField {
            is_int: *is_int,
            min: min.clone(),
            max: max.clone(),
        },
        NewField::ValueScopeField { is_int, min, max } => NewField::ValueScopeField {
            is_int: *is_int,
            min: min.clone(),
            max: max.clone(),
        },
        NewField::MarkerField(m) => NewField::MarkerField(*m),
        NewField::IgnoreMarkerField => NewField::IgnoreMarkerField,
        NewField::IgnoreField(b) => NewField::IgnoreField(Box::new(clone_field(b))),
    }
}

impl Clone for NewField {
    fn clone(&self) -> (r: Self)
        ensures
            r@ == self@,
    {
        clone_field(self)
    }
}

// ---------------------------------------------------------------------------
// Options

/// How serious a breach of a rule is.
#[derive(Clone, Copy, Debug, PartialEq, Eq, Structural)]
pub enum Severity {
    Error,
    Warning,
    Information,
    Hint,
}

/// The label and direction of a reference that a rule declares.
#[derive(Debug, PartialEq)]
pub enum ReferenceDetail {
    Outgoing(String),
    Incoming(String),
}

/// The model of a [`ReferenceDetail`].
#[verifier::ext_equal]
pub enum ReferenceDetailV {
    Outgoing(Seq<char>),
    Incoming(Seq<char>),
}

impl View for ReferenceDetail {
    type V = ReferenceDetailV;

    open spec fn view(&self) -> ReferenceDetailV {
        match self {
            ReferenceDetail::Outgoing(s) => ReferenceDetailV::Outgoing(s@),
            ReferenceDetail::Incoming(s) => ReferenceDetailV::Incoming(s@),
        }
    }
}

impl Clone for ReferenceDetail {
    fn clone(&self) -> (r: Self)
        ensures
            r@ == self@,
    {
        match self {
            ReferenceDetail::Outgoing(s) => ReferenceDetail::Outgoing(s.clone()),
            ReferenceDetail::Incoming(s) => ReferenceDetail::Incoming(s.clone()),
        }
    }
}

/// The scopes that a block starts with, where a rule replaces them.
#[derive(Debug, PartialEq)]
pub struct ReplaceScopes {
    pub root: Option<String>,
    pub this: Option<String>,
    pub froms: Vec<String>,
    pub prevs: Vec<String>,
}

/// The model of [`ReplaceScopes`].
#[verifier::ext_equal]
pub struct ReplaceScopesV {
    pub root: Option<Seq<char>>,
    pub this: Option<Seq<char>>,
    pub froms: Seq<Seq<char>>,
    pub prevs: Seq<Seq<char>>,
}

impl View for ReplaceScopes {
    type V = ReplaceScopesV;

    open spec fn view(&self) -> ReplaceScopesV {
        ReplaceScopesV {
            root: opt_text(self.root),
            this: opt_text(self.this),
            froms: texts(self.froms@),
            prevs: texts(self.prevs@),
        }
    }
}

impl Clone for ReplaceScopes {
    fn clone(&self) -> (r: Self)
        ensures
            r@ == self@,
    {
        ReplaceScopes {
            root: clone_opt(&self.root),
            this: clone_opt(&self.this),
            froms: clone_list(&self.froms),
            prevs: clone_list(&self.prevs),
        }
    }
}

/// The model of an optional value.
pub open spec fn opt_view<T: View>(o: Option<T>) -> Option<T::V> {
    match o {
        Some(x) => Some(x@),
        None => None,
    }
}

/// What the comments in front of a rule say of it.
#[derive(Debug, PartialEq)]
pub struct Options {
    pub min: i32,
    pub max: i32,
    /// A breach of the minimum is reported.
    pub strict_min: bool,
    pub leafvalue: bool,
    pub description: Option<String>,
    pub push_scope: Option<String>,
    pub replace_scopes: Option<ReplaceScopes>,
    pub severity: Option<Severity>,
    pub required_scopes: Vec<String>,
    pub comparison: bool,
    pub reference_details: Option<ReferenceDetail>,
    pub error_if_only_match: Option<String>,
    /// The value that the game takes where the field is left out.
    pub default_bool: Option<bool>,
}

/// The model of [`Options`].
#[verifier::ext_equal]
pub struct OptionsV {
    pub min: i32,
    pub max: i32,
    pub strict_min: bool,
    pub leafvalue: bool,
    pub description: Option<Seq<char>>,
    pub push_scope: Option<Seq<char>>,
    pub replace_scopes: Option<ReplaceScopesV>,
    pub severity: Option<Severity>,
    pub required_scopes: Seq<Seq<char>>,
    pub comparison: bool,
    pub reference_details: Option<ReferenceDetailV>,
    pub error_if_only_match: Option<Seq<char>>,
    pub default_bool: Option<bool>,
}

impl View for Options {
    type V = OptionsV;

    open spec fn view(&self) -> OptionsV {
        OptionsV {
            min: self.min,
            max: self.max,
            strict_min: self.strict_min,
            leafvalue: self.leafvalue,
            description: opt_text(self.description),
            push_scope: opt_text(self.push_scope),
            replace_scopes: opt_view(self.replace_scopes),
            severity: self.severity,
            required_scopes: texts(self.required_scopes@),
            comparison: self.comparison,
            reference_details: opt_view(self.reference_details),
            error_if_only_match: opt_text(self.error_if_only_match),
            default_bool: self.default_bool,
        }
    }
}

impl Clone for Options {
    fn clone(&self) -> (r: Self)
        ensures
            r@ == self@,
    {
        Options {
            min: self.min,
            max: self.max,
            strict_min: self.strict_min,
            leafvalue: self.leafvalue,
            description: clone_opt(&self.description),
            push_scope: clone_opt(&self.push_scope),
            replace_scopes: match &self.replace_scopes {
                Some(x) => Some(x.clone()),
                None => None,
            },
            severity: self.severity,
            required_scopes: clone_list(&self.required_scopes),
            comparison: self.comparison,
            reference_details: match &self.reference_details {
                Some(x) => Some(x.clone()),
                None => None,
            },
            error_if_only_match: clone_opt(&self.error_if_only_match),
            default_bool: self.default_bool,
        }
    }
}

/// Options with nothing declared: any number of occurrences up to a thousand.
pub open spec fn default_options() -> OptionsV {
    OptionsV {
        min: 0,
        max: 1000,
        strict_min: true,
        leafvalue: false,
        description: None,
        push_scope: None,
        replace_scopes: None,
        severity: None,
        required_scopes: Seq::empty(),
        comparison: false,
        reference_details: None,
        error_if_only_match: None,
        default_bool: None,
    }
}

impl Default for Options {
    fn default() -> (r: Self)
        ensures
            r@ == default_options(),
    {
        let r = Options {
            min: 0,
            max: 1000,
            strict_min: true,
            leafvalue: false,
            description: None,
            push_scope: None,
            replace_scopes: None,
            severity: None,
            required_scopes: Vec::new(),
            comparison: false,
            reference_details: None,
            error_if_only_match: None,
            default_bool: None,
        };
        assert(r@ =~= default_options());
        r
    }
}

// ---------------------------------------------------------------------------
// Rules

/// A rule with its options.
pub type NewRule = (RuleType, Options);

/// One rule of a block.
#[derive(Debug, PartialEq)]
pub enum RuleType {
    NodeRule { left: NewField, rules: Vec<(RuleType, Options)> },
    LeafRule { left: NewField, right: NewField },
    LeafValueRule { right: NewField },
    ValueClauseRule { rules: Vec<(RuleType, Options)> },
    SubtypeRule { name: String, positive: bool, rules: Vec<(RuleType, Options)> },
}

/// The model of a [`RuleType`].
#[verifier::ext_equal]
pub enum RuleTypeV {
    NodeRule { left: FieldV, rules: Seq<(RuleTypeV, OptionsV)> },
    LeafRule { left: FieldV, right: FieldV },
    LeafValueRule { right: FieldV },
    ValueClauseRule { rules: Seq<(RuleTypeV, OptionsV)> },
    SubtypeRule { name: Seq<char>, positive: bool, rules: Seq<(RuleTypeV, OptionsV)> },
}

/// The model of a rule with its options.
pub type RuleV = (RuleTypeV, OptionsV);

/// The model of a rule.
pub open spec fn rule_view(r: RuleType) -> RuleTypeV
    decreases r,
{
    match r {
        RuleType::NodeRule { left, rules } => RuleTypeV::NodeRule {
            left: left@,
            rules: rules_view(rules@),
        },
        RuleType::LeafRule { left, right } => RuleTypeV::LeafRule { left: left@, right: right@ },
        RuleType::LeafValueRule { right } => RuleTypeV::LeafValueRule { right: right@ },
        RuleType::ValueClauseRule { rules } => RuleTypeV::ValueClauseRule {
            rules: rules_view(rules@),
        },
        RuleType::SubtypeRule { name, positive, rules } => RuleTypeV::SubtypeRule {
            name: name@,
            positive,
            rules: rules_view(rules@),
        },
    }
}

/// The model of a list of rules.
pub open spec fn rules_view(s: Seq<(RuleType, Options)>) -> Seq<(RuleTypeV, OptionsV)>
    decreases s,
{
    Seq::new(
        s.len(),
        |i: int|
            if 0 <= i < s.len() {
                (rule_view(s[i].0), s[i].1@)
            } else {
                arbitrary()
            },
    )
}

impl View for RuleType {
    type V = RuleTypeV;

    open spec fn view(&self) -> RuleTypeV {
        rule_view(*self)
    }
}

/// A copy of a rule.
pub fn clone_rule(r: &RuleType) -> (res: RuleType)
    ensures
        res@ == r@,
    decreases r,
{
    match r {
        RuleType::NodeRule { left, rules } => RuleType::NodeRule {
            left: left.clone(),
            rules: clone_rules(rules),
        },
        RuleType::LeafRule { left, right } => RuleType::LeafRule {
            left: left.clone(),
            right: right.clone(),
        },
        RuleType::LeafValueRule { right } => RuleType::LeafValueRule { right: right.clone() },
        RuleType::ValueClauseRule { rules } => RuleType::ValueClauseRule {
            rules: clone_rules(rules),
        },
        RuleType::SubtypeRule { name, positive, rules } => RuleType::SubtypeRule {
            name: name.clone(),
            positive: *positive,
            rules: clone_rules(rules),
        },
    }
}

/// A copy of a list of rules.
pub fn clone_rules(v: &Vec<(RuleType, Options)>) -> (res: Vec<(RuleType, Options)>)
    ensures
        rules_view(res@) == rules_view(v@),
    decreases v,
{
    let mut out: Vec<(RuleType, Options)> = Vec::new();
    let mut i: usize = 0;
    while i < v.len()
        invariant
            i <= v@.len(),
            rules_view(out@) == rules_view(v@).subrange(0, i as int),
        decreases v@.len() - i,
    {
        let ghost before = out@;
        let rt = clone_rule(&v[i].0);
        let op = v[i].1.clone();
        out.push((rt, op));
        proof {
            lemma_rules_push(before, (rt, op));
            assert(rules_view(v@).subrange(0, i + 1) =~= rules_view(v@).subrange(0, i as int).push(
                rules_view(v@)[i as int],
            ));
        }
        i += 1;
    }
    assert(rules_view(v@).subrange(0, v@.len() as int) =~= rules_view(v@));
    out
}

/// The model of a list with one more rule.
pub proof fn lemma_rules_push(s: Seq<(RuleType, Options)>, r: (RuleType, Options))
    ensures
        rules_view(s.push(r)) == rules_view(s).push((r.0@, r.1@)),
{
    assert(rules_view(s.push(r)) =~= rules_view(s).push((r.0@, r.1@)));
}

/// The model of the empty list of rules.
pub proof fn lemma_rules_empty()
    ensures
        rules_view(Seq::empty()) == Seq::<RuleV>::empty(),
{
    assert(rules_view(Seq::empty()) =~= Seq::<RuleV>::empty());
}

impl Clone for RuleType {
    fn clone(&self) -> (r: Self)
        ensures
            r@ == self@,
    {
        clone_rule(self)
    }
}

// ---------------------------------------------------------------------------
// Type definitions

/// The models of a list of values.
pub open spec fn views<T: View>(s: Seq<T>) -> Seq<T::V> {
    Seq::new(s.len(), |i: int| s[i]@)
}

/// The models of a list with one more value.
pub proof fn lemma_views_push<T: View>(s: Seq<T>, x: T)
    ensures
        views(s.push(x)) == views(s).push(x@),
{
    assert(views(s.push(x)) =~= views(s).push(x@));
}

/// Which files a definition applies to.
#[derive(Debug, PartialEq)]
pub struct PathOptions {
    pub paths: Vec<String>,
    pub path_strict: bool,
    pub path_file: Option<String>,
    pub path_extension: Option<String>,
    /// Lower case of `paths`, built by `RuleSet::reindex`.
    pub paths_lower: Vec<String>,
    /// Lower case of `path_file`, built by `RuleSet::reindex`.
    pub path_file_lower: Option<String>,
    /// Lower case of `path_extension` without a leading `.`, built by
    /// `RuleSet::reindex`.
    pub path_ext_lower: Option<String>,
}

/// The model of [`PathOptions`].
#[verifier::ext_equal]
pub struct PathOptionsV {
    pub paths: Seq<Seq<char>>,
    pub path_strict: bool,
    pub path_file: Option<Seq<char>>,
    pub path_extension: Option<Seq<char>>,
    pub paths_lower: Seq<Seq<char>>,
    pub path_file_lower: Option<Seq<char>>,
    pub path_ext_lower: Option<Seq<char>>,
}

impl View for PathOptions {
    type V = PathOptionsV;

    open spec fn view(&self) -> PathOptionsV {
        PathOptionsV {
            paths: texts(self.paths@),
            path_strict: self.path_strict,
            path_file: opt_text(self.path_file),
            path_extension: opt_text(self.path_extension),
            paths_lower: texts(self.paths_lower@),
            path_file_lower: opt_text(self.path_file_lower),
            path_ext_lower: opt_text(self.path_ext_lower),
        }
    }
}

/// Path options with nothing declared.
pub open spec fn no_paths() -> PathOptionsV {
    PathOptionsV {
        paths: Seq::empty(),
        path_strict: false,
        path_file: None,
        path_extension: None,
        paths_lower: Seq::empty(),
        path_file_lower: None,
        path_ext_lower: None,
    }
}

impl Default for PathOptions {
    fn default() -> (r: Self)
        ensures
            r@ == no_paths(),
    {
        let r = PathOptions {
            paths: Vec::new(),
            path_strict: false,
            path_file: None,
            path_extension: None,
            paths_lower: Vec::new(),
            path_file_lower: None,
            path_ext_lower: None,
        };
        assert(r@ =~= no_paths());
        r
    }
}

/// Whether a list of keys is to contain the root key or not.
#[derive(Clone, Copy, Debug, PartialEq, Eq, Structural)]
pub enum MatchKind {
    Equals,
    NotEquals,
}

impl MatchKind {
    /// `Equals` for `true`, `NotEquals` for `false`.
    pub fn from_equals(is_equals: bool) -> (r: Self)
        ensures
            r == (if is_equals {
                MatchKind::Equals
            } else {
                MatchKind::NotEquals
            }),
    {
        if is_equals {
            MatchKind::Equals
        } else {
            MatchKind::NotEquals
        }
    }

    /// Whether this is the `Equals` kind.
    pub fn is_equals(self) -> (r: bool)
        ensures
            r == (self == MatchKind::Equals),
    {
        matches!(self, MatchKind::Equals)
    }
}

/// A level of wrapping blocks around the instances of a type.
#[derive(Debug, PartialEq)]
pub enum SkipRootKey {
    SpecificKey(String),
    AnyKey,
    MultipleKeys(Vec<String>, MatchKind),
}

/// The model of a [`SkipRootKey`].
#[verifier::ext_equal]
pub enum SkipRootKeyV {
    SpecificKey(Seq<char>),
    AnyKey,
    MultipleKeys(Seq<Seq<char>>, MatchKind),
}

impl View for SkipRootKey {
    type V = SkipRootKeyV;

    open spec fn view(&self) -> SkipRootKeyV {
        match self {
            SkipRootKey::SpecificKey(s) => SkipRootKeyV::SpecificKey(s@),
            SkipRootKey::AnyKey => SkipRootKeyV::AnyKey,
            SkipRootKey::MultipleKeys(v, k) => SkipRootKeyV::MultipleKeys(texts(v@), *k),
        }
    }
}

/// A localisation key that each instance of a type has.
#[derive(Debug, PartialEq)]
pub struct TypeLocalisation {
    pub name: String,
    pub prefix: String,
    pub suffix: String,
    pub required: bool,
    pub optional: bool,
    /// The key is the value of this field rather than made from the name.
    pub explicit_field: Option<String>,
    pub replace_scopes: Option<ReplaceScopes>,
    pub primary: bool,
}

/// The model of a [`TypeLocalisation`].
#[verifier::ext_equal]
pub struct TypeLocalisationV {
    pub name: Seq<char>,
    pub prefix: Seq<char>,
    pub suffix: Seq<char>,
    pub required: bool,
    pub optional: bool,
    pub explicit_field: Option<Seq<char>>,
    pub replace_scopes: Option<ReplaceScopesV>,
    pub primary: bool,
}

impl View for TypeLocalisation {
    type V = TypeLocalisationV;

    open spec fn view(&self) -> TypeLocalisationV {
        TypeLocalisationV {
            name: self.name@,
            prefix: self.prefix@,
            suffix: self.suffix@,
            required: self.required,
            optional: self.optional,
            explicit_field: opt_text(self.explicit_field),
            replace_scopes: opt_view(self.replace_scopes),
            primary: self.primary,
        }
    }
}

/// A modifier that each instance of a type has.
#[derive(Debug, PartialEq)]
pub struct TypeModifier {
    pub prefix: String,
    pub suffix: String,
    pub category: String,
    pub documentation: Option<String>,
    pub explicit: bool,
}

/// The model of a [`TypeModifier`].
#[verifier::ext_equal]
pub struct TypeModifierV {
    pub prefix: Seq<char>,
    pub suffix: Seq<char>,
    pub category: Seq<char>,
    pub documentation: Option<Seq<char>>,
    pub explicit: bool,
}

impl View for TypeModifier {
    type V = TypeModifierV;

    open spec fn view(&self) -> TypeModifierV {
        TypeModifierV {
            prefix: self.prefix@,
            suffix: self.suffix@,
            category: self.category@,
            documentation: opt_text(self.documentation),
            explicit: self.explicit,
        }
    }
}

/// A subtype of a type.
#[derive(Debug, PartialEq)]
pub struct SubTypeDefinition {
    pub name: String,
    pub display_name: Option<String>,
    pub abbreviation: Option<String>,
    pub rules: Vec<(RuleType, Options)>,
    pub type_key_field: Option<String>,
    pub starts_with: Option<String>,
    pub push_scope: Option<String>,
    pub localisation: Vec<TypeLocalisation>,
    pub only_if_not: Vec<String>,
    pub modifiers: Vec<TypeModifier>,
    /// The keys of the instances that are of this subtype; empty for no such test.
    pub type_key_filter: Vec<String>,
}

/// The model of a [`SubTypeDefinition`].
#[verifier::ext_equal]
pub struct SubTypeV {
    pub name: Seq<char>,
    pub display_name: Option<Seq<char>>,
    pub abbreviation: Option<Seq<char>>,
    pub rules: Seq<RuleV>,
    pub type_key_field: Option<Seq<char>>,
    pub starts_with: Option<Seq<char>>,
    pub push_scope: Option<Seq<char>>,
    pub localisation: Seq<TypeLocalisationV>,
    pub only_if_not: Seq<Seq<char>>,
    pub modifiers: Seq<TypeModifierV>,
    pub type_key_filter: Seq<Seq<char>>,
}

impl View for SubTypeDefinition {
    type V = SubTypeV;

    open spec fn view(&self) -> SubTypeV {
        SubTypeV {
            name: self.name@,
            display_name: opt_text(self.display_name),
            abbreviation: opt_text(self.abbreviation),
            rules: rules_view(self.rules@),
            type_key_field: opt_text(self.type_key_field),
            starts_with: opt_text(self.starts_with),
            push_scope: opt_text(self.push_scope),
            localisation: views(self.localisation@),
            only_if_not: texts(self.only_if_not@),
            modifiers: views(self.modifiers@),
            type_key_filter: texts(self.type_key_filter@),
        }
    }
}

/// The keys that a type's instances have (`false`) or do not have (`true`).
pub open spec fn filter_view(o: Option<(Vec<String>, bool)>) -> Option<(Seq<Seq<char>>, bool)> {
    match o {
        Some(p) => Some((texts(p.0@), p.1)),
        None => None,
    }
}

/// A type: what its instances are called, where they stand, and what they hold.
#[derive(Debug, PartialEq)]
pub struct TypeDefinition {
    pub name: String,
    pub name_field: Option<String>,
    pub path_options: PathOptions,
    pub subtypes: Vec<SubTypeDefinition>,
    pub type_key_filter: Option<(Vec<String>, bool)>,
    pub skip_root_key: Vec<SkipRootKey>,
    pub starts_with: Option<String>,
    pub type_per_file: bool,
    pub key_prefix: Option<String>,
    pub warning_only: bool,
    pub unique: bool,
    pub should_be_referenced: bool,
    pub localisation: Vec<TypeLocalisation>,
    pub graph_related_types: Vec<String>,
    pub modifiers: Vec<TypeModifier>,
}

/// The model of a [`TypeDefinition`].
#[verifier::ext_equal]
pub struct TypeDefV {
    pub name: Seq<char>,
    pub name_field: Option<Seq<char>>,
    pub path_options: PathOptionsV,
    pub subtypes: Seq<SubTypeV>,
    pub type_key_filter: Option<(Seq<Seq<char>>, bool)>,
    pub skip_root_key: Seq<SkipRootKeyV>,
    pub starts_with: Option<Seq<char>>,
    pub type_per_file: bool,
    pub key_prefix: Option<Seq<char>>,
    pub warning_only: bool,
    pub unique: bool,
    pub should_be_referenced: bool,
    pub localisation: Seq<TypeLocalisationV>,
    pub graph_related_types: Seq<Seq<char>>,
    pub modifiers: Seq<TypeModifierV>,
}

impl View for TypeDefinition {
    type V = TypeDefV;

    open spec fn view(&self) -> TypeDefV {
        TypeDefV {
            name: self.name@,
            name_field: opt_text(self.name_field),
            path_options: self.path_options@,
            subtypes: views(self.subtypes@),
            type_key_filter: filter_view(self.type_key_filter),
            skip_root_key: views(self.skip_root_key@),
            starts_with: opt_text(self.starts_with),
            type_per_file: self.type_per_file,
            key_prefix: opt_text(self.key_prefix),
            warning_only: self.warning_only,
            unique: self.unique,
            should_be_referenced: self.should_be_referenced,
            localisation: views(self.localisation@),
            graph_related_types: texts(self.graph_related_types@),
            modifiers: views(self.modifiers@),
        }
    }
}

// ---------------------------------------------------------------------------
// Enums

/// A named list of values.
#[derive(Debug, PartialEq)]
pub struct EnumDefinition {
    pub key: String,
    pub description: String,
    pub values: Vec<String>,
}

/// The model of an [`EnumDefinition`].
#[verifier::ext_equal]
pub struct EnumV {
    pub key: Seq<char>,
    pub description: Seq<char>,
    pub values: Seq<Seq<char>>,
}

impl View for EnumDefinition {
    type V = EnumV;

    open spec fn view(&self) -> EnumV {
        EnumV { key: self.key@, description: self.description@, values: texts(self.values@) }
    }
}

/// Where in a file the members of a complex enum are named.
#[derive(Debug, PartialEq)]
pub enum ComplexEnumNameTree {
    /// There is no `name` block.
    Empty,
    Entries(Vec<ComplexEnumNameTreeEntry>),
}

/// One entry of a [`ComplexEnumNameTree`].
#[derive(Debug, PartialEq)]
pub enum ComplexEnumNameTreeEntry {
    /// A key; `is_name` says that its value is the name of a member.
    Leaf { key: String, is_name: bool },
    /// A block below `key`.
    Node { key: String, children: ComplexEnumNameTree },
    /// Every bare value at this level is a member.
    BareName,
}

/// The model of a [`ComplexEnumNameTree`].
#[verifier::ext_equal]
pub enum NameTreeV {
    Empty,
    Entries(Seq<NameEntryV>),
}

/// The model of a [`ComplexEnumNameTreeEntry`].
#[verifier::ext_equal]
pub enum NameEntryV {
    Leaf { key: Seq<char>, is_name: bool },
    Node { key: Seq<char>, children: NameTreeV },
    BareName,
}

/// The model of a name tree.
pub open spec fn name_tree_view(t: ComplexEnumNameTree) -> NameTreeV
    decreases t,
{
    match t {
        ComplexEnumNameTree::Empty => NameTreeV::Empty,
        ComplexEnumNameTree::Entries(v) => NameTreeV::Entries(name_entries_view(v@)),
    }
}

/// The models of the entries of a name tree.
pub open spec fn name_entries_view(s: Seq<ComplexEnumNameTreeEntry>) -> Seq<NameEntryV>
    decreases s,
{
    Seq::new(
        s.len(),
        |i: int|
            if 0 <= i < s.len() {
                match s[i] {
                    ComplexEnumNameTreeEntry::Leaf { key, is_name } => NameEntryV::Leaf {
                        key: key@,
                        is_name,
                    },
                    ComplexEnumNameTreeEntry::Node { key, children } => NameEntryV::Node {
                        key: key@,
                        children: name_tree_view(children),
                    },
                    ComplexEnumNameTreeEntry::BareName => NameEntryV::BareName,
                }
            } else {
                arbitrary()
            },
    )
}

impl View for ComplexEnumNameTree {
    type V = NameTreeV;

    open spec fn view(&self) -> NameTreeV {
        name_tree_view(*self)
    }
}

/// An enum whose members are named in script files.
#[derive(Debug, PartialEq)]
pub struct ComplexEnumDef {
    pub name: String,
    pub description: String,
    pub path_options: PathOptions,
    pub name_tree: ComplexEnumNameTree,
    pub start_from_root: bool,
}

/// The model of a [`ComplexEnumDef`].
#[verifier::ext_equal]
pub struct ComplexEnumV {
    pub name: Seq<char>,
    pub description: Seq<char>,
    pub path_options: PathOptionsV,
    pub name_tree: NameTreeV,
    pub start_from_root: bool,
}

impl View for ComplexEnumDef {
    type V = ComplexEnumV;

    open spec fn view(&self) -> ComplexEnumV {
        ComplexEnumV {
            name: self.name@,
            description: self.description@,
            path_options: self.path_options@,
            name_tree: self.name_tree@,
            start_from_root: self.start_from_root,
        }
    }
}

// ---------------------------------------------------------------------------
// Scopes and links

/// A scope that the configuration declares.
#[derive(Debug, PartialEq)]
pub struct ScopeInput {
    pub name: String,
    pub aliases: Vec<String>,
    pub is_subscope_of: Vec<String>,
}

/// The model of a [`ScopeInput`].
#[verifier::ext_equal]
pub struct ScopeInputV {
    pub name: Seq<char>,
    pub aliases: Seq<Seq<char>>,
    pub is_subscope_of: Seq<Seq<char>>,
}

impl View for ScopeInput {
    type V = ScopeInputV;

    open spec fn view(&self) -> ScopeInputV {
        ScopeInputV {
            name: self.name@,
            aliases: texts(self.aliases@),
            is_subscope_of: texts(self.is_subscope_of@),
        }
    }
}

/// A link from one scope to another that the configuration declares.
#[derive(Debug, PartialEq)]
pub struct LinkInput {
    pub name: String,
    pub output_scope: Option<String>,
    pub input_scopes: Vec<String>,
    pub prefix: Option<String>,
    pub from_data: bool,
    pub data_source: Vec<String>,
}

/// The model of a [`LinkInput`].
#[verifier::ext_equal]
pub struct LinkInputV {
    pub name: Seq<char>,
    pub output_scope: Option<Seq<char>>,
    pub input_scopes: Seq<Seq<char>>,
    pub prefix: Option<Seq<char>>,
    pub from_data: bool,
    pub data_source: Seq<Seq<char>>,
}

impl View for LinkInput {
    type V = LinkInputV;

    open spec fn view(&self) -> LinkInputV {
        LinkInputV {
            name: self.name@,
            output_scope: opt_text(self.output_scope),
            input_scopes: texts(self.input_scopes@),
            prefix: opt_text(self.prefix),
            from_data: self.from_data,
            data_source: texts(self.data_source@),
        }
    }
}

// ---------------------------------------------------------------------------
// Root rules and alias patterns

/// A rule at the top level of a configuration file.
#[derive(Debug, PartialEq)]
pub enum RootRule {
    AliasRule(String, (RuleType, Options)),
    SingleAliasRule(String, (RuleType, Options)),
    TypeRule(String, (RuleType, Options)),
}

/// The model of a [`RootRule`].
#[verifier::ext_equal]
pub enum RootRuleV {
    AliasRule(Seq<char>, RuleV),
    SingleAliasRule(Seq<char>, RuleV),
    TypeRule(Seq<char>, RuleV),
}

impl View for RootRule {
    type V = RootRuleV;

    open spec fn view(&self) -> RootRuleV {
        match self {
            RootRule::AliasRule(n, r) => RootRuleV::AliasRule(n@, r@),
            RootRule::SingleAliasRule(n, r) => RootRuleV::SingleAliasRule(n@, r@),
            RootRule::TypeRule(n, r) => RootRuleV::TypeRule(n@, r@),
        }
    }
}

/// What kind of placeholder an alias name holds.
#[derive(Clone, Copy, Debug, PartialEq, Eq, Structural)]
pub enum PatternKind {
    /// `<type>`: an instance of the type.
    Type,
    /// `enum[name]` or `complex_enum[name]`: a member of the enum.
    Enum,
    /// `value[name]` or `value_set[name]`: a member of the value set.
    Value,
}

/// An alias name that holds a placeholder, split at it.
#[derive(Debug, PartialEq)]
pub struct ParsedAliasPattern {
    /// The place of the alias in `RuleSet::aliases`.
    pub alias_idx: usize,
    pub prefix: String,
    pub suffix: String,
    pub kind: PatternKind,
    /// The name inside the placeholder.
    pub placeholder_name: String,
}

/// The model of a [`ParsedAliasPattern`].
#[verifier::ext_equal]
pub struct PatternV {
    pub alias_idx: usize,
    pub prefix: Seq<char>,
    pub suffix: Seq<char>,
    pub kind: PatternKind,
    pub placeholder_name: Seq<char>,
}

impl View for ParsedAliasPattern {
    type V = PatternV;

    open spec fn view(&self) -> PatternV {
        PatternV {
            alias_idx: self.alias_idx,
            prefix: self.prefix@,
            suffix: self.suffix@,
            kind: self.kind,
            placeholder_name: self.placeholder_name@,
        }
    }
}

/// Where a marker such as `enum[` opens in an alias name, where its name starts
/// and ends, and what it stands for.
pub type FoundMarker = (int, int, PatternKind, int);

/// The marker `m` in `rest`: `None` where it stands there without a `]` behind
/// it, `Some(None)` where it does not stand there.
pub open spec fn find_marker(rest: Seq<char>, m: Seq<char>, kind: PatternKind) -> Option<
    Option<FoundMarker>,
> {
    match find_text_spec(rest, m) {
        None => Some(None),
        Some(open) => {
            let inner = open + m.len();
            let close = find_in(rest, CharSet::One(']'), inner);
            if close < rest.len() {
                Some(Some((open, inner, kind, close)))
            } else {
                None
            }
        },
    }
}

/// The marker that opens first; the earlier argument where both open at once.
pub open spec fn earlier_marker(
    a: Option<FoundMarker>,
    b: Option<FoundMarker>,
) -> Option<FoundMarker> {
    match (a, b) {
        (None, _) => b,
        (Some(x), Some(y)) => if y.0 < x.0 {
            b
        } else {
            a
        },
        (Some(_), None) => a,
    }
}

/// The placeholder in the part of an alias name behind its category: `<type>`
/// if there is a `<`, else the first of the bracketed forms. There is none where
/// a form is opened and not closed.
pub open spec fn parse_pattern(rest: Seq<char>, alias_idx: usize) -> Option<PatternV> {
    let open = find_in(rest, CharSet::One('<'), 0);
    if open < rest.len() {
        let close = find_in(rest, CharSet::One('>'), open);
        if close < rest.len() {
            Some(
                PatternV {
                    alias_idx,
                    prefix: rest.subrange(0, open),
                    suffix: rest.subrange(close + 1, rest.len() as int),
                    kind: PatternKind::Type,
                    placeholder_name: rest.subrange(open + 1, close),
                },
            )
        } else {
            None
        }
    } else {
        match (
            find_marker(rest, "value_set["@, PatternKind::Value),
            find_marker(rest, "complex_enum["@, PatternKind::Enum),
            find_marker(rest, "value["@, PatternKind::Value),
            find_marker(rest, "enum["@, PatternKind::Enum),
        ) {
            (Some(a), Some(b), Some(c), Some(d)) => {
                match earlier_marker(earlier_marker(earlier_marker(a, b), c), d) {
                    Some((open, inner, kind, close)) => Some(
                        PatternV {
                            alias_idx,
                            prefix: rest.subrange(0, open),
                            suffix: rest.subrange(close + 1, rest.len() as int),
                            kind,
                            placeholder_name: rest.subrange(inner, close),
                        },
                    ),
                    None => None,
                }
            },
            _ => None,
        }
    }
}

/// [`find_marker`] on characters.
fn marker_in(rest: &str, cs: &Vec<char>, m: &str, kind: PatternKind) -> (r: Option<
    Option<(usize, usize, PatternKind, usize)>,
>)
    requires
        cs@ == rest@,
    ensures
        match r {
            None => find_marker(rest@, m@, kind) is None,
            Some(None) => find_marker(rest@, m@, kind) == Some(None::<FoundMarker>),
            Some(Some(f)) => find_marker(rest@, m@, kind) == Some(
                Some((f.0 as int, f.1 as int, f.2, f.3 as int)),
            ) && f.0 <= f.1 <= f.3 < rest@.len(),
        },
{
    match find_text(rest, m) {
        None => Some(None),
        Some(open) => {
            let total: usize = rest.unicode_len();
            let inner: usize = open + m.unicode_len();
            let close: usize = find_set(cs, CharSet::One(']'), inner);
            if close < cs.len() {
                Some(Some((open, inner, kind, close)))
            } else {
                None
            }
        },
    }
}

/// [`earlier_marker`] on machine integers.
fn pick_earlier(
    a: Option<(usize, usize, PatternKind, usize)>,
    b: Option<(usize, usize, PatternKind, usize)>,
) -> (r: Option<(usize, usize, PatternKind, usize)>)
    ensures
        r == (match (a, b) {
            (None, _) => b,
            (Some(x), Some(y)) => if y.0 < x.0 {
                b
            } else {
                a
            },
            (Some(_), None) => a,
        }),
{
    match (a, b) {
        (None, _) => b,
        (Some(x), Some(y)) => if y.0 < x.0 {
            b
        } else {
            a
        },
        (Some(_), None) => a,
    }
}

impl ParsedAliasPattern {
    /// Splits the part of an alias name behind its category at its placeholder.
    /// `None` where it holds none, or one that is not closed.
    pub fn parse(rest: &str, alias_idx: usize) -> (r: Option<Self>)
        ensures
            opt_view(r) == parse_pattern(rest@, alias_idx),
    {
        let cs = to_chars(rest);
        let n: usize = cs.len();
        let open: usize = find_set(&cs, CharSet::One('<'), 0);
        if open < n {
            let close: usize = find_set(&cs, CharSet::One('>'), open);
            if close < n {
                proof {
                    lemma_find_in(cs@, CharSet::One('<'), 0);
                    lemma_find_in(cs@, CharSet::One('>'), open as int);
                    assert(cs@[open as int] == '<');
                }
                return Some(
                    ParsedAliasPattern {
                        alias_idx,
                        prefix: string_of(&cs, 0, open),
                        suffix: string_of(&cs, close + 1, n),
                        kind: PatternKind::Type,
                        placeholder_name: string_of(&cs, open + 1, close),
                    },
                );
            } else {
                return None;
            }
        }
        let a = match marker_in(rest, &cs, "value_set[", PatternKind::Value) {
            Some(f) => f,
            None => {
                return None;
            },
        };
        let b = match marker_in(rest, &cs, "complex_enum[", PatternKind::Enum) {
            Some(f) => f,
            None => {
                return None;
            },
        };
        let c = match marker_in(rest, &cs, "value[", PatternKind::Value) {
            Some(f) => f,
            None => {
                return None;
            },
        };
        let d = match marker_in(rest, &cs, "enum[", PatternKind::Enum) {
            Some(f) => f,
            None => {
                return None;
            },
        };
        match pick_earlier(pick_earlier(pick_earlier(a, b), c), d) {
            Some(f) => Some(
                ParsedAliasPattern {
                    alias_idx,
                    prefix: string_of(&cs, 0, f.0),
                    suffix: string_of(&cs, f.3 + 1, n),
                    kind: f.2,
                    placeholder_name: string_of(&cs, f.1, f.3),
                },
            ),
            None => None,
        }
    }
}

} // verus!
