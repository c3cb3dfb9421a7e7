//! The rules of a whole configuration, and the indexes over them.

use vstd::prelude::*;
use vstd::string::*;

use crate::name_map::NameMap;
use crate::rules_types::{
    ComplexEnumDef, ComplexEnumV, EnumDefinition, EnumV, FieldV, LinkInput, LinkInputV, NewField,
    Options, ParsedAliasPattern, PathOptions, PathOptionsV, PatternV, RootRule, RootRuleV,
    RuleType, RuleTypeV, RuleV, ScopeInput, ScopeInputV, TypeDefV, TypeDefinition,
    lemma_views_push, parse_pattern, rules_view, views,
};
use crate::text::{
    CharSet, NameSet, ascii_lower, ends, ends_with, lowercase, opt_text, replace_char,
    replace_char_spec, same, split_once, split_once_spec, starts_char, starts_with_char, texts,
    to_ascii_lower, to_lowercase, trim_matches, trim_of,
};

verus! {

/// What is known of the aliases of one category beside their exact names.
#[derive(Debug, PartialEq)]
pub struct AliasCategoryIndex {
    /// The aliases whose name holds a placeholder.
    pub parsed_patterns: Vec<ParsedAliasPattern>,
    /// The place of the category's `scope_field` alias.
    pub scope_field_idx: Option<usize>,
}

/// The model of an [`AliasCategoryIndex`].
#[verifier::ext_equal]
pub struct CategoryV {
    pub parsed_patterns: Seq<PatternV>,
    pub scope_field_idx: Option<usize>,
}

impl DeepView for AliasCategoryIndex {
    type V = CategoryV;

    open spec fn deep_view(&self) -> CategoryV {
        CategoryV {
            parsed_patterns: views(self.parsed_patterns@),
            scope_field_idx: self.scope_field_idx,
        }
    }
}

impl Default for AliasCategoryIndex {
    fn default() -> (r: Self)
        ensures
            r.deep_view() == no_category(),
    {
        let r = AliasCategoryIndex { parsed_patterns: Vec::new(), scope_field_idx: None };
        assert(r.deep_view() =~= no_category());
        r
    }
}

/// A category without patterns and without a `scope_field`.
pub open spec fn no_category() -> CategoryV {
    CategoryV { parsed_patterns: Seq::empty(), scope_field_idx: None }
}

impl<T: DeepView> DeepView for NameMap<T> {
    type V = Map<Seq<char>, T::V>;

    open spec fn deep_view(&self) -> Map<Seq<char>, T::V> {
        self@
    }
}

/// The rules of a configuration.
///
/// The fields from `alias_exact` on are indexes over the others, which
/// [`RuleSet::reindex`] builds.
pub struct RuleSet {
    pub types: Vec<TypeDefinition>,
    pub aliases: Vec<(String, (RuleType, Options))>,
    pub single_aliases: Vec<(String, (RuleType, Options))>,
    pub enums: Vec<EnumDefinition>,
    pub complex_enums: Vec<ComplexEnumDef>,
    pub root_rules: Vec<RootRule>,
    /// The members of each value set.
    pub values: NameMap<Vec<String>>,
    /// The names of the modifiers.
    pub modifiers: Vec<String>,
    /// The names of the links between scopes.
    pub scope_links: NameSet,
    pub scope_inputs: Vec<ScopeInput>,
    pub link_inputs: Vec<LinkInput>,
    /// The folders that hold script files.
    pub folders: Vec<String>,
    /// Category to key to the places of the aliases of that name.
    pub alias_exact: NameMap<NameMap<Vec<usize>>>,
    pub alias_categories: NameMap<AliasCategoryIndex>,
    /// The place of the last type of a name.
    pub type_by_name: NameMap<usize>,
    /// The place of the last enum of a name.
    pub enum_by_name: NameMap<usize>,
    /// The place of the first rule for a type.
    pub type_rules_idx: NameMap<usize>,
    /// Effect or trigger to the value set that its body adds to.
    pub value_set_effects: NameMap<String>,
    /// Effect or trigger to the fields of its body that name a member, with the
    /// value set that each adds to.
    pub value_set_effect_fields: NameMap<Vec<(String, String)>>,
    /// The triggers that can stand in front of an event's `trigger` block.
    pub pretriggers: NameSet,
}

/// The model of a [`RuleSet`].
#[verifier::ext_equal]
pub struct RuleSetV {
    pub types: Seq<TypeDefV>,
    pub aliases: Seq<(Seq<char>, RuleV)>,
    pub single_aliases: Seq<(Seq<char>, RuleV)>,
    pub enums: Seq<EnumV>,
    pub complex_enums: Seq<ComplexEnumV>,
    pub root_rules: Seq<RootRuleV>,
    pub values: Map<Seq<char>, Seq<Seq<char>>>,
    pub modifiers: Seq<Seq<char>>,
    pub scope_links: Set<Seq<char>>,
    pub scope_inputs: Seq<ScopeInputV>,
    pub link_inputs: Seq<LinkInputV>,
    pub folders: Seq<Seq<char>>,
    pub alias_exact: Map<Seq<char>, Map<Seq<char>, Seq<usize>>>,
    pub alias_categories: Map<Seq<char>, CategoryV>,
    pub type_by_name: Map<Seq<char>, usize>,
    pub enum_by_name: Map<Seq<char>, usize>,
    pub type_rules_idx: Map<Seq<char>, usize>,
    pub value_set_effects: Map<Seq<char>, Seq<char>>,
    pub value_set_effect_fields: Map<Seq<char>, Seq<(Seq<char>, Seq<char>)>>,
    pub pretriggers: Set<Seq<char>>,
}

impl View for RuleSet {
    type V = RuleSetV;

    open spec fn view(&self) -> RuleSetV {
        RuleSetV {
            types: views(self.types@),
            aliases: views(self.aliases@),
            single_aliases: views(self.single_aliases@),
            enums: views(self.enums@),
            complex_enums: views(self.complex_enums@),
            root_rules: views(self.root_rules@),
            values: self.values@,
            modifiers: texts(self.modifiers@),
            scope_links: self.scope_links@,
            scope_inputs: views(self.scope_inputs@),
            link_inputs: views(self.link_inputs@),
            folders: texts(self.folders@),
            alias_exact: self.alias_exact@,
            alias_categories: self.alias_categories@,
            type_by_name: self.type_by_name@,
            enum_by_name: self.enum_by_name@,
            type_rules_idx: self.type_rules_idx@,
            value_set_effects: self.value_set_effects@,
            value_set_effect_fields: self.value_set_effect_fields@,
            pretriggers: self.pretriggers@,
        }
    }
}

/// A rule set without rules.
pub open spec fn empty_ruleset() -> RuleSetV {
    RuleSetV {
        types: Seq::empty(),
        aliases: Seq::empty(),
        single_aliases: Seq::empty(),
        enums: Seq::empty(),
        complex_enums: Seq::empty(),
        root_rules: Seq::empty(),
        values: Map::empty(),
        modifiers: Seq::empty(),
        scope_links: Set::empty(),
        scope_inputs: Seq::empty(),
        link_inputs: Seq::empty(),
        folders: Seq::empty(),
        alias_exact: Map::empty(),
        alias_categories: Map::empty(),
        type_by_name: Map::empty(),
        enum_by_name: Map::empty(),
        type_rules_idx: Map::empty(),
        value_set_effects: Map::empty(),
        value_set_effect_fields: Map::empty(),
        pretriggers: Set::empty(),
    }
}

// ---------------------------------------------------------------------------
// Value sets that a rule adds to

/// The value set that a field adds to.
pub open spec fn field_set_namespace(f: FieldV) -> Option<Seq<char>> {
    match f {
        FieldV::VariableSetField(ns) => Some(ns),
        _ => None,
    }
}

/// The first value set, in the order of the text, that a rule adds to.
pub open spec fn first_namespace(r: RuleTypeV) -> Option<Seq<char>>
    decreases r, 0int,
{
    match r {
        RuleTypeV::LeafRule { left, right } => match field_set_namespace(left) {
            Some(ns) => Some(ns),
            None => field_set_namespace(right),
        },
        RuleTypeV::LeafValueRule { right } => field_set_namespace(right),
        RuleTypeV::NodeRule { left, rules } => match field_set_namespace(left) {
            Some(ns) => Some(ns),
            None => first_namespace_in(rules, 0),
        },
        RuleTypeV::ValueClauseRule { rules } => first_namespace_in(rules, 0),
        RuleTypeV::SubtypeRule { rules, .. } => first_namespace_in(rules, 0),
    }
}

/// The first value set that a rule of `rules[i..]` adds to.
pub open spec fn first_namespace_in(rules: Seq<RuleV>, i: int) -> Option<Seq<char>>
    decreases rules, rules.len() - i,
{
    if i < 0 || i >= rules.len() {
        None
    } else {
        match first_namespace(rules[i].0) {
            Some(ns) => Some(ns),
            None => first_namespace_in(rules, i + 1),
        }
    }
}

fn set_namespace(f: &NewField) -> (r: Option<String>)
    ensures
        opt_text(r) == field_set_namespace(f@),
{
    match f {
        NewField::VariableSetField(ns) => Some(ns.clone()),
        _ => None,
    }
}

/// The first value set that a rule adds to.
pub fn first_value_set_ns(rule: &RuleType) -> (r: Option<String>)
    ensures
        opt_text(r) == first_namespace(rule@),
    decreases rule, 0int,
{
    match rule {
        RuleType::LeafRule { left, right } => match set_namespace(left) {
            Some(ns) => Some(ns),
            None => set_namespace(right),
        },
        RuleType::LeafValueRule { right } => set_namespace(right),
        RuleType::NodeRule { left, rules } => match set_namespace(left) {
            Some(ns) => Some(ns),
            None => first_ns_in(rules),
        },
        RuleType::ValueClauseRule { rules } => first_ns_in(rules),
        RuleType::SubtypeRule { rules, .. } => first_ns_in(rules),
    }
}

fn first_ns_in(rules: &Vec<(RuleType, Options)>) -> (r: Option<String>)
    ensures
        opt_text(r) == first_namespace_in(rules_view(rules@), 0),
    decreases rules, 1int,
{
    let mut i: usize = 0;
    while i < rules.len()
        invariant
            i <= rules@.len(),
            first_namespace_in(rules_view(rules@), 0) == first_namespace_in(
                rules_view(rules@),
                i as int,
            ),
        decreases rules@.len() - i,
    {
        match first_value_set_ns(&rules[i].0) {
            Some(ns) => {
                return Some(ns);
            },
            None => {},
        }
        i += 1;
    }
    None
}

/// The bare values of a block below `key` that name a member of a value set.
pub open spec fn value_bindings(key: Seq<char>, rules: Seq<RuleV>, n: int) -> Seq<
    (Seq<char>, Seq<char>),
>
    decreases n,
{
    if n <= 0 {
        Seq::empty()
    } else {
        let head = value_bindings(key, rules, n - 1);
        match rules[n - 1].0 {
            RuleTypeV::LeafValueRule { right: FieldV::VariableSetField(ns) } => head.push(
                (ascii_lower(key), ns),
            ),
            _ => head,
        }
    }
}

/// The fields in a rule, at any depth, that name a member of a value set, each
/// with that value set.
pub open spec fn bindings(r: RuleTypeV) -> Seq<(Seq<char>, Seq<char>)>
    decreases r, 0int,
{
    match r {
        RuleTypeV::LeafRule {
            left: FieldV::SpecificField(key),
            right: FieldV::VariableSetField(ns),
        } => seq![(ascii_lower(key), ns)],
        RuleTypeV::NodeRule { left, rules } => {
            let own = match left {
                FieldV::SpecificField(key) => value_bindings(key, rules, rules.len() as int),
                _ => Seq::empty(),
            };
            own + bindings_in(rules, rules.len() as int)
        },
        RuleTypeV::ValueClauseRule { rules } => bindings_in(rules, rules.len() as int),
        RuleTypeV::SubtypeRule { rules, .. } => bindings_in(rules, rules.len() as int),
        _ => Seq::empty(),
    }
}

/// [`bindings`] of the first `n` rules.
pub open spec fn bindings_in(rules: Seq<RuleV>, n: int) -> Seq<(Seq<char>, Seq<char>)>
    decreases rules, n,
{
    if n <= 0 || n > rules.len() {
        Seq::empty()
    } else {
        bindings_in(rules, n - 1) + bindings(rules[n - 1].0)
    }
}

/// The fields in a rule that name a member of a value set.
pub fn collect_binding_fields(rule: &RuleType, out: &mut Vec<(String, String)>)
    ensures
        views(final(out)@) == views(old(out)@) + bindings(rule@),
    decreases rule, 0int,
{
    let ghost start = views(out@);
    match rule {
        RuleType::LeafRule { left, right } => {
            if let (NewField::SpecificField(key), NewField::VariableSetField(ns)) = (left, right) {
                let ghost before = out@;
                let x = (to_ascii_lower(key.as_str()), ns.clone());
                out.push(x);
                proof {
                    lemma_views_push(before, x);
                }
            }
        },
        RuleType::NodeRule { left, rules } => {
            if let NewField::SpecificField(key) = left {
                let mut i: usize = 0;
                while i < rules.len()
                    invariant
                        i <= rules@.len(),
                        views(out@) =~= start + value_bindings(
                            key@,
                            rules_view(rules@),
                            i as int,
                        ),
                    decreases rules@.len() - i,
                {
                    if let RuleType::LeafValueRule { right: NewField::VariableSetField(ns) } =
                        &rules[i].0 {
                        let ghost before = out@;
                        let x = (to_ascii_lower(key.as_str()), ns.clone());
                        out.push(x);
                        proof {
                            lemma_views_push(before, x);
                        }
                    }
                    i += 1;
                }
            }
            let ghost own = match left@ {
                FieldV::SpecificField(key) => value_bindings(
                    key,
                    rules_view(rules@),
                    rules@.len() as int,
                ),
                _ => Seq::empty(),
            };
            assert(views(out@) =~= start + own);
            collect_bindings_in(rules, out);
            assert(views(out@) =~= start + bindings(rule@));
        },
        RuleType::ValueClauseRule { rules } => {
            collect_bindings_in(rules, out);
        },
        RuleType::SubtypeRule { rules, .. } => {
            collect_bindings_in(rules, out);
        },
        _ => {},
    }
    assert(views(out@) =~= start + bindings(rule@));
}

fn collect_bindings_in(rules: &Vec<(RuleType, Options)>, out: &mut Vec<(String, String)>)
    ensures
        views(final(out)@) == views(old(out)@) + bindings_in(
            rules_view(rules@),
            rules@.len() as int,
        ),
    decreases rules, 1int,
{
    let ghost start = views(out@);
    let mut i: usize = 0;
    while i < rules.len()
        invariant
            i <= rules@.len(),
            views(out@) =~= start + bindings_in(rules_view(rules@), i as int),
        decreases rules@.len() - i,
    {
        collect_binding_fields(&rules[i].0, out);
        i += 1;
    }
}

// ---------------------------------------------------------------------------
// The alias index

/// The indexes over the aliases.
#[verifier::ext_equal]
pub struct AliasIndexV {
    pub exact: Map<Seq<char>, Map<Seq<char>, Seq<usize>>>,
    pub categories: Map<Seq<char>, CategoryV>,
    pub effects: Map<Seq<char>, Seq<char>>,
    pub effect_fields: Map<Seq<char>, Seq<(Seq<char>, Seq<char>)>>,
    pub pretriggers: Set<Seq<char>>,
}

/// The entry of a map, or a default where there is none.
pub open spec fn entry<V>(m: Map<Seq<char>, V>, k: Seq<char>, default: V) -> V {
    if m.contains_key(k) {
        m[k]
    } else {
        default
    }
}

/// `i` added under a category and a key.
pub open spec fn with_exact(
    m: Map<Seq<char>, Map<Seq<char>, Seq<usize>>>,
    cat: Seq<char>,
    key: Seq<char>,
    i: usize,
) -> Map<Seq<char>, Map<Seq<char>, Seq<usize>>> {
    let inner = entry(m, cat, Map::empty());
    m.insert(cat, inner.insert(key, entry(inner, key, Seq::empty()).push(i)))
}

/// Alias `i` added under its category and key, and under their lower case where
/// that differs.
pub open spec fn with_alias_name(
    m: Map<Seq<char>, Map<Seq<char>, Seq<usize>>>,
    cat: Seq<char>,
    key: Seq<char>,
    i: usize,
) -> Map<Seq<char>, Map<Seq<char>, Seq<usize>>> {
    let m2 = with_exact(m, cat, key, i);
    if ascii_lower(cat) != cat || ascii_lower(key) != key {
        with_exact(m2, ascii_lower(cat), ascii_lower(key), i)
    } else {
        m2
    }
}

/// A category with alias `i` of the name `key` taken in: as its `scope_field`,
/// or as a pattern.
pub open spec fn with_category_alias(c: CategoryV, key: Seq<char>, i: usize) -> CategoryV {
    if key == "scope_field"@ {
        CategoryV { scope_field_idx: Some(i), ..c }
    } else {
        match parse_pattern(key, i) {
            Some(p) => CategoryV { parsed_patterns: c.parsed_patterns.push(p), ..c },
            None => c,
        }
    }
}

/// The indexes with alias `i` taken in. An alias whose name has no category
/// stands in none of them.
pub open spec fn with_alias(
    ix: AliasIndexV,
    name: Seq<char>,
    rule: RuleTypeV,
    i: usize,
) -> AliasIndexV {
    match split_once_spec(name, ':') {
        None => ix,
        Some((cat, key)) => {
            let lower_key = ascii_lower(key);
            let adds_values = cat == "effect"@ || cat == "trigger"@;
            AliasIndexV {
                exact: with_alias_name(ix.exact, cat, key, i),
                categories: ix.categories.insert(
                    cat,
                    with_category_alias(entry(ix.categories, cat, no_category()), key, i),
                ),
                effects: match first_namespace(rule) {
                    Some(ns) => if adds_values && !ix.effects.contains_key(lower_key) {
                        ix.effects.insert(lower_key, ns)
                    } else {
                        ix.effects
                    },
                    None => ix.effects,
                },
                effect_fields: if adds_values && bindings(rule).len() > 0 {
                    ix.effect_fields.insert(
                        lower_key,
                        entry(ix.effect_fields, lower_key, Seq::empty()) + bindings(rule),
                    )
                } else {
                    ix.effect_fields
                },
                pretriggers: if ends(cat, "_pre_trigger"@) {
                    ix.pretriggers.insert(lower_key)
                } else {
                    ix.pretriggers
                },
            }
        },
    }
}

pub open spec fn no_aliases() -> AliasIndexV {
    AliasIndexV {
        exact: Map::empty(),
        categories: Map::empty(),
        effects: Map::empty(),
        effect_fields: Map::empty(),
        pretriggers: Set::empty(),
    }
}

/// The indexes over the first `n` aliases.
pub open spec fn alias_index(aliases: Seq<(Seq<char>, RuleV)>, n: int) -> AliasIndexV
    decreases n,
{
    if n <= 0 {
        no_aliases()
    } else {
        with_alias(
            alias_index(aliases, n - 1),
            aliases[n - 1].0,
            aliases[n - 1].1.0,
            (n - 1) as usize,
        )
    }
}

struct AliasIndex {
    exact: NameMap<NameMap<Vec<usize>>>,
    categories: NameMap<AliasCategoryIndex>,
    effects: NameMap<String>,
    effect_fields: NameMap<Vec<(String, String)>>,
    pretriggers: NameSet,
}

impl View for AliasIndex {
    type V = AliasIndexV;

    closed spec fn view(&self) -> AliasIndexV {
        AliasIndexV {
            exact: self.exact@,
            categories: self.categories@,
            effects: self.effects@,
            effect_fields: self.effect_fields@,
            pretriggers: self.pretriggers@,
        }
    }
}

fn push_exact(m: &mut NameMap<NameMap<Vec<usize>>>, cat: &str, key: &str, i: usize)
    ensures
        final(m)@ == with_exact(old(m)@, cat@, key@, i),
{
    let mut inner = match m.take(cat) {
        Some(inner) => inner,
        None => NameMap::new(),
    };
    let ghost inner0 = inner@;
    let mut list = match inner.take(key) {
        Some(list) => list,
        None => Vec::new(),
    };
    let ghost list0 = list.deep_view();
    assert(list0 =~= entry(inner0, key@, Seq::empty()));
    list.push(i);
    assert(list.deep_view() =~= list0.push(i));
    inner.insert(key.to_owned(), list);
    assert(inner@ =~= inner0.insert(key@, list0.push(i)));
    m.insert(cat.to_owned(), inner);
    assert(m@ =~= with_exact(old(m)@, cat@, key@, i));
}

impl AliasIndex {
    fn add_alias(&mut self, name: &str, rule: &RuleType, i: usize)
        ensures
            final(self)@ == with_alias(old(self)@, name@, rule@, i),
    {
        match split_once(name, ':') {
            None => {},
            Some((cat, key)) => {
                let lower_key = to_ascii_lower(key);
                if same(cat, "effect") || same(cat, "trigger") {
                    match first_value_set_ns(rule) {
                        Some(ns) => {
                            if !self.effects.contains(lower_key.as_str()) {
                                self.effects.insert(lower_key.clone(), ns);
                            }
                        },
                        None => {},
                    }
                    let mut fields: Vec<(String, String)> = Vec::new();
                    collect_binding_fields(rule, &mut fields);
                    assert(views(fields@) =~= bindings(rule@));
                    if fields.len() > 0 {
                        let mut list = match self.effect_fields.take(lower_key.as_str()) {
                            Some(list) => list,
                            None => Vec::new(),
                        };
                        let ghost list0 = list.deep_view();
                        assert(list0 =~= entry(
                            old(self).effect_fields@,
                            lower_key@,
                            Seq::empty(),
                        ));
                        let ghost f0 = fields@;
                        list.append(&mut fields);
                        assert(list.deep_view() =~= list0 + views(f0));
                        self.effect_fields.insert(lower_key.clone(), list);
                        assert(self.effect_fields@ =~= old(self).effect_fields@.insert(
                            lower_key@,
                            list0 + bindings(rule@),
                        ));
                    }
                }
                push_exact(&mut self.exact, cat, key, i);
                let lower_cat = to_ascii_lower(cat);
                if !same(lower_cat.as_str(), cat) || !same(lower_key.as_str(), key) {
                    push_exact(&mut self.exact, lower_cat.as_str(), lower_key.as_str(), i);
                }
                let mut c = match self.categories.take(cat) {
                    Some(c) => c,
                    None => AliasCategoryIndex::default(),
                };
                let ghost c0 = c.deep_view();
                if same(key, "scope_field") {
                    c.scope_field_idx = Some(i);
                } else {
                    match ParsedAliasPattern::parse(key, i) {
                        Some(p) => {
                            let ghost before = c.parsed_patterns@;
                            c.parsed_patterns.push(p);
                            proof {
                                lemma_views_push(before, p);
                            }
                        },
                        None => {},
                    }
                }
                assert(c.deep_view() =~= with_category_alias(c0, key@, i));
                self.categories.insert(cat.to_owned(), c);
                assert(self.categories@ =~= old(self).categories@.insert(
                    cat@,
                    with_category_alias(c0, key@, i),
                ));
                if ends_with(cat, "_pre_trigger") {
                    self.pretriggers.insert(lower_key);
                }
            },
        }
        assert(self@ =~= with_alias(old(self)@, name@, rule@, i));
    }
}

// ---------------------------------------------------------------------------
// Paths and names

/// A path pattern as it is compared: with `/` throughout, without `/` at its
/// ends, in lower case.
pub open spec fn normal_path(p: Seq<char>) -> Seq<char> {
    lowercase(trim_of(replace_char_spec(p, '\\', '/'), CharSet::One('/')))
}

/// A path pattern as it is compared.
pub fn normalize_path_lower(p: &str) -> (r: String)
    ensures
        r@ == normal_path(p@),
{
    let s = replace_char(p, '\\', '/');
    to_lowercase(trim_matches(s.as_str(), CharSet::One('/')))
}

/// A file extension as it is compared: in lower case, without a leading `.`.
pub open spec fn normal_extension(e: Seq<char>) -> Seq<char> {
    let l = lowercase(e);
    if starts_char(l, '.') {
        l.subrange(1, l.len() as int)
    } else {
        l
    }
}

fn normalize_extension(e: &str) -> (r: String)
    ensures
        r@ == normal_extension(e@),
{
    let l = to_lowercase(e);
    if starts_with_char(l.as_str(), '.') {
        let n: usize = l.as_str().unicode_len();
        l.as_str().substring_char(1, n).to_owned()
    } else {
        l
    }
}

/// Path options with the lower-case fields computed from the others.
pub open spec fn indexed_paths(p: PathOptionsV) -> PathOptionsV {
    PathOptionsV {
        paths_lower: Seq::new(p.paths.len(), |i: int| normal_path(p.paths[i])),
        path_file_lower: match p.path_file {
            Some(f) => Some(lowercase(f)),
            None => None,
        },
        path_ext_lower: match p.path_extension {
            Some(e) => Some(normal_extension(e)),
            None => None,
        },
        ..p
    }
}

fn index_paths(p: &mut PathOptions)
    ensures
        final(p)@ == indexed_paths(old(p)@),
{
    let mut lower: Vec<String> = Vec::new();
    let mut i: usize = 0;
    let ghost target = indexed_paths(p@).paths_lower;
    while i < p.paths.len()
        invariant
            i <= p.paths@.len(),
            p@ == old(p)@,
            target == indexed_paths(p@).paths_lower,
            texts(lower@) == target.subrange(0, i as int),
        decreases p.paths@.len() - i,
    {
        let ghost before = texts(lower@);
        lower.push(normalize_path_lower(p.paths[i].as_str()));
        assert(texts(lower@) =~= before.push(target[i as int]));
        assert(target.subrange(0, i + 1) =~= target.subrange(0, i as int).push(target[i as int]));
        i += 1;
    }
    assert(target.subrange(0, i as int) =~= target);
    p.paths_lower = lower;
    p.path_file_lower = match &p.path_file {
        Some(f) => Some(to_lowercase(f.as_str())),
        None => None,
    };
    p.path_ext_lower = match &p.path_extension {
        Some(e) => Some(normalize_extension(e.as_str())),
        None => None,
    };
    assert(p@ =~= indexed_paths(old(p)@));
}

/// The place of the last of the first `n` types of each name.
pub open spec fn types_index(types: Seq<TypeDefV>, n: int) -> Map<Seq<char>, usize>
    decreases n,
{
    if n <= 0 {
        Map::empty()
    } else {
        types_index(types, n - 1).insert(types[n - 1].name, (n - 1) as usize)
    }
}

/// The place of the last of the first `n` enums of each name.
pub open spec fn enums_index(enums: Seq<EnumV>, n: int) -> Map<Seq<char>, usize>
    decreases n,
{
    if n <= 0 {
        Map::empty()
    } else {
        enums_index(enums, n - 1).insert(enums[n - 1].key, (n - 1) as usize)
    }
}

/// The place of the first of the first `n` root rules for each type.
pub open spec fn type_rules_index(rules: Seq<RootRuleV>, n: int) -> Map<Seq<char>, usize>
    decreases n,
{
    if n <= 0 {
        Map::empty()
    } else {
        let m = type_rules_index(rules, n - 1);
        match rules[n - 1] {
            RootRuleV::TypeRule(name, _) => if m.contains_key(name) {
                m
            } else {
                m.insert(name, (n - 1) as usize)
            },
            _ => m,
        }
    }
}

/// Types with their path options indexed.
pub open spec fn indexed_types(types: Seq<TypeDefV>) -> Seq<TypeDefV> {
    Seq::new(
        types.len(),
        |i: int| TypeDefV { path_options: indexed_paths(types[i].path_options), ..types[i] },
    )
}

/// Complex enums with their path options indexed.
pub open spec fn indexed_enums(enums: Seq<ComplexEnumV>) -> Seq<ComplexEnumV> {
    Seq::new(
        enums.len(),
        |i: int| ComplexEnumV { path_options: indexed_paths(enums[i].path_options), ..enums[i] },
    )
}

/// The names of links with those of a link added, in lower case: its own, and the
/// prefix of what it leads to.
pub open spec fn with_link_names(s: Set<Seq<char>>, link: LinkInputV) -> Set<Seq<char>> {
    match link.prefix {
        Some(p) => s.insert(ascii_lower(link.name)).insert(ascii_lower(p)),
        None => s.insert(ascii_lower(link.name)),
    }
}

/// Adds the names of a link, in lower case.
pub fn add_link_names(names: &mut NameSet, link: &LinkInput)
    ensures
        final(names)@ == with_link_names(old(names)@, link@),
{
    names.insert(to_ascii_lower(link.name.as_str()));
    if let Some(p) = &link.prefix {
        names.insert(to_ascii_lower(p.as_str()));
    }
}

/// The names of links with those of the first `n` links added.
pub open spec fn with_names_of(s: Set<Seq<char>>, links: Seq<LinkInputV>, n: int) -> Set<Seq<char>>
    decreases n,
{
    if n <= 0 || n > links.len() {
        s
    } else {
        with_link_names(with_names_of(s, links, n - 1), links[n - 1])
    }
}

/// A rule set with every index computed from what it holds.
pub open spec fn reindexed(rs: RuleSetV) -> RuleSetV {
    let ix = alias_index(rs.aliases, rs.aliases.len() as int);
    RuleSetV {
        types: indexed_types(rs.types),
        complex_enums: indexed_enums(rs.complex_enums),
        alias_exact: ix.exact,
        alias_categories: ix.categories,
        value_set_effects: ix.effects,
        value_set_effect_fields: ix.effect_fields,
        pretriggers: ix.pretriggers,
        type_by_name: types_index(rs.types, rs.types.len() as int),
        enum_by_name: enums_index(rs.enums, rs.enums.len() as int),
        type_rules_idx: type_rules_index(rs.root_rules, rs.root_rules.len() as int),
        scope_links: with_names_of(rs.scope_links, rs.link_inputs, rs.link_inputs.len() as int),
        ..rs
    }
}

fn index_types(types: &Vec<TypeDefinition>) -> (r: NameMap<usize>)
    ensures
        r@ == types_index(views(types@), types@.len() as int),
{
    let mut m: NameMap<usize> = NameMap::new();
    let mut i: usize = 0;
    while i < types.len()
        invariant
            i <= types@.len(),
            m@ == types_index(views(types@), i as int),
        decreases types@.len() - i,
    {
        m.insert(types[i].name.clone(), i);
        i += 1;
    }
    m
}

fn index_enums(enums: &Vec<EnumDefinition>) -> (r: NameMap<usize>)
    ensures
        r@ == enums_index(views(enums@), enums@.len() as int),
{
    let mut m: NameMap<usize> = NameMap::new();
    let mut i: usize = 0;
    while i < enums.len()
        invariant
            i <= enums@.len(),
            m@ == enums_index(views(enums@), i as int),
        decreases enums@.len() - i,
    {
        m.insert(enums[i].key.clone(), i);
        i += 1;
    }
    m
}

fn index_type_rules(rules: &Vec<RootRule>) -> (r: NameMap<usize>)
    ensures
        r@ == type_rules_index(views(rules@), rules@.len() as int),
{
    let mut m: NameMap<usize> = NameMap::new();
    let mut i: usize = 0;
    while i < rules.len()
        invariant
            i <= rules@.len(),
            m@ == type_rules_index(views(rules@), i as int),
        decreases rules@.len() - i,
    {
        assert(views(rules@)[i as int] == rules@[i as int]@);
        if let RootRule::TypeRule(name, _) = &rules[i] {
            if !m.contains(name.as_str()) {
                m.insert(name.clone(), i);
            }
        }
        i += 1;
    }
    m
}

impl RuleSet {
    /// A rule set without rules.
    pub fn new() -> (r: Self)
        ensures
            r@ == empty_ruleset(),
    {
        let r = RuleSet {
            types: Vec::new(),
            aliases: Vec::new(),
            single_aliases: Vec::new(),
            enums: Vec::new(),
            complex_enums: Vec::new(),
            root_rules: Vec::new(),
            values: NameMap::new(),
            modifiers: Vec::new(),
            scope_links: NameSet::new(),
            scope_inputs: Vec::new(),
            link_inputs: Vec::new(),
            folders: Vec::new(),
            alias_exact: NameMap::new(),
            alias_categories: NameMap::new(),
            type_by_name: NameMap::new(),
            enum_by_name: NameMap::new(),
            type_rules_idx: NameMap::new(),
            value_set_effects: NameMap::new(),
            value_set_effect_fields: NameMap::new(),
            pretriggers: NameSet::new(),
        };
        assert(r@ =~= empty_ruleset());
        r
    }

    /// Computes the indexes from what the rule set holds, and adds the names and
    /// prefixes of its links to those that are known. To be called when all rules are
    /// loaded and post-processed.
    pub fn reindex(&mut self)
        ensures
            final(self)@ == reindexed(old(self)@),
    {
        let ghost rs = self@;
        let mut ix = AliasIndex {
            exact: NameMap::new(),
            categories: NameMap::new(),
            effects: NameMap::new(),
            effect_fields: NameMap::new(),
            pretriggers: NameSet::new(),
        };
        assert(ix@ =~= no_aliases());
        let mut i: usize = 0;
        while i < self.aliases.len()
            invariant
                i <= self.aliases@.len(),
                self@ == rs,
                ix@ == alias_index(rs.aliases, i as int),
            decreases self.aliases@.len() - i,
        {
            assert(rs.aliases[i as int] == self.aliases@[i as int]@);
            ix.add_alias(self.aliases[i].0.as_str(), &self.aliases[i].1.0, i);
            i += 1;
        }
        self.alias_exact = ix.exact;
        self.alias_categories = ix.categories;
        self.value_set_effects = ix.effects;
        self.value_set_effect_fields = ix.effect_fields;
        self.pretriggers = ix.pretriggers;
        self.type_by_name = index_types(&self.types);
        self.enum_by_name = index_enums(&self.enums);
        self.type_rules_idx = index_type_rules(&self.root_rules);
        let ghost found = self@;
        i = 0;
        while i < self.link_inputs.len()
            invariant
                i <= self.link_inputs@.len(),
                found.link_inputs == views(self.link_inputs@),
                found.scope_links == rs.scope_links,
                self@ == (RuleSetV {
                    scope_links: with_names_of(rs.scope_links, found.link_inputs, i as int),
                    ..found
                }),
            decreases self.link_inputs@.len() - i,
        {
            assert(found.link_inputs[i as int] == self.link_inputs@[i as int]@);
            add_link_names(&mut self.scope_links, &self.link_inputs[i]);
            i += 1;
        }
        let ghost mid = self@;
        let ghost t0 = views(self.types@);
        i = 0;
        while i < self.types.len()
            invariant
                i <= self.types@.len() == t0.len(),
                self@ == (RuleSetV { types: views(self.types@), ..mid }),
                forall|j: int|
                    0 <= j < i ==> views(self.types@)[j] == #[trigger] indexed_types(t0)[j],
                forall|j: int|
                    i <= j < t0.len() ==> #[trigger] views(self.types@)[j] == t0[j],
            decreases self.types@.len() - i,
        {
            let ghost before = self.types@;
            assert(views(before)[i as int] == t0[i as int]);
            index_paths(&mut self.types[i].path_options);
            assert(views(self.types@)[i as int] =~= indexed_types(t0)[i as int]);
            assert forall|j: int| 0 <= j < t0.len() && j != i implies #[trigger] views(
                self.types@,
            )[j] == views(before)[j] by {}
            i += 1;
        }
        assert(views(self.types@) =~= indexed_types(t0));
        let ghost mid2 = self@;
        let ghost c0 = views(self.complex_enums@);
        i = 0;
        while i < self.complex_enums.len()
            invariant
                i <= self.complex_enums@.len() == c0.len(),
                self@ == (RuleSetV { complex_enums: views(self.complex_enums@), ..mid2 }),
                forall|j: int|
                    0 <= j < i ==> views(self.complex_enums@)[j] == #[trigger] indexed_enums(c0)[j],
                forall|j: int|
                    i <= j < c0.len() ==> #[trigger] views(self.complex_enums@)[j] == c0[j],
            decreases self.complex_enums@.len() - i,
        {
            let ghost before = self.complex_enums@;
            assert(views(before)[i as int] == c0[i as int]);
            index_paths(&mut self.complex_enums[i].path_options);
            assert(views(self.complex_enums@)[i as int] =~= indexed_enums(c0)[i as int]);
            assert forall|j: int| 0 <= j < c0.len() && j != i implies #[trigger] views(
                self.complex_enums@,
            )[j] == views(before)[j] by {}
            i += 1;
        }
        assert(views(self.complex_enums@) =~= indexed_enums(c0));
        assert(self@ =~= reindexed(rs));
    }
}

impl Default for RuleSet {
    fn default() -> (r: Self)
        ensures
            r@ == empty_ruleset(),
    {
        RuleSet::new()
    }
}

} // verus!
