//! Instances that lack the localisation that their type requires.
//!
//! A type can declare localisation keys that each of its instances must have, made
//! from the name of the instance.

use vstd::prelude::*;

use crate::diagnostic::{
    ErrorV, SuggestedFix, ValidationError, add_one, coded, create_key_fix, fixed_by, report2,
};
use crate::error_codes::{cw100, cw100_missing_localisation};
use crate::resolve::{path_matches, type_path_matches};
use crate::rules_types::{TypeDefV, TypeDefinition, TypeLocalisation, TypeLocalisationV, views};
use crate::ruleset::RuleSet;
use crate::text::{NameSet, ascii_lower, same, to_ascii_lower};
use crate::type_index::{InstanceV, TypeInstance, instances_view};

verus! {

/// The key must exist for each instance, and is made from its name.
pub open spec fn is_required(l: TypeLocalisationV) -> bool {
    l.required && !l.optional && l.explicit_field is None
}

/// The key that the instance of that name must have.
pub open spec fn required_key(l: TypeLocalisationV, name: Seq<char>) -> Seq<char> {
    l.prefix + name + l.suffix
}

/// An instance that lacks a key.
pub open spec fn lacking_key(file: Seq<char>, inst: InstanceV, key: Seq<char>) -> ErrorV {
    fixed_by(
        coded(
            cw100(),
            file,
            inst.location.line,
            inst.location.col,
            seq![key, inst.name],
        ),
        create_key_fix("Create localisation key "@ + key, key),
    )
}

/// The instance lacks the key, if it must have it.
pub open spec fn key_problems(
    file: Seq<char>,
    inst: InstanceV,
    l: TypeLocalisationV,
    keys: Set<Seq<char>>,
) -> Seq<ErrorV> {
    let key = required_key(l, inst.name);
    if is_required(l) && !keys.contains(ascii_lower(key)) {
        seq![lacking_key(file, inst, key)]
    } else {
        Seq::empty()
    }
}

/// What the instance lacks of the first `n` keys.
pub open spec fn instance_lacks(
    file: Seq<char>,
    inst: InstanceV,
    l: Seq<TypeLocalisationV>,
    keys: Set<Seq<char>>,
    n: int,
) -> Seq<ErrorV>
    decreases n,
{
    if n <= 0 || n > l.len() {
        Seq::empty()
    } else {
        instance_lacks(file, inst, l, keys, n - 1) + key_problems(file, inst, l[n - 1], keys)
    }
}

/// What those of the first `n` instances that are of the type lack.
pub open spec fn type_lacks(
    file: Seq<char>,
    t: TypeDefV,
    inst: Seq<(Seq<char>, InstanceV)>,
    keys: Set<Seq<char>>,
    n: int,
) -> Seq<ErrorV>
    decreases n,
{
    if n <= 0 || n > inst.len() {
        Seq::empty()
    } else {
        let before = type_lacks(file, t, inst, keys, n - 1);
        if inst[n - 1].0 == t.name {
            before + instance_lacks(
                file,
                inst[n - 1].1,
                t.localisation,
                keys,
                t.localisation.len() as int,
            )
        } else {
            before
        }
    }
}

/// What the instances of those of the first `n` types whose instances stand where the
/// file does lack.
pub open spec fn types_lack(
    file: Seq<char>,
    path: Seq<char>,
    types: Seq<TypeDefV>,
    inst: Seq<(Seq<char>, InstanceV)>,
    keys: Set<Seq<char>>,
    n: int,
) -> Seq<ErrorV>
    decreases n,
{
    if n <= 0 || n > types.len() {
        Seq::empty()
    } else {
        let before = types_lack(file, path, types, inst, keys, n - 1);
        if path_matches(path, types[n - 1]) {
            before + type_lacks(file, types[n - 1], inst, keys, inst.len() as int)
        } else {
            before
        }
    }
}

fn check_key(
    file: &str,
    inst: &TypeInstance,
    l: &TypeLocalisation,
    keys: &NameSet,
    errors: &mut Vec<ValidationError>,
)
    ensures
        views(final(errors)@) == views(old(errors)@) + key_problems(file@, inst@, l@, keys@),
{
    let ghost start = views(errors@);
    if l.required && !l.optional && l.explicit_field.is_none() {
        let mut key = l.prefix.clone();
        key.append(inst.name.as_str());
        key.append(l.suffix.as_str());
        let lower = to_ascii_lower(key.as_str());
        if !keys.contains(lower.as_str()) {
            let mut title = "Create localisation key ".to_owned();
            title.append(key.as_str());
            let fix = SuggestedFix::create_loc_key(title.as_str(), key.as_str());
            let e = report2(
                &cw100_missing_localisation(),
                file,
                inst.location.line,
                inst.location.col,
                key.as_str(),
                inst.name.as_str(),
            ).with_fix(fix);
            add_one(errors, e);
        }
    }
    assert(views(errors@) =~= start + key_problems(file@, inst@, l@, keys@));
}

fn check_instance(
    file: &str,
    inst: &TypeInstance,
    l: &Vec<TypeLocalisation>,
    keys: &NameSet,
    errors: &mut Vec<ValidationError>,
)
    ensures
        views(final(errors)@) == views(old(errors)@) + instance_lacks(
            file@,
            inst@,
            views(l@),
            keys@,
            l@.len() as int,
        ),
{
    let ghost start = views(errors@);
    let ghost all = views(l@);
    let mut i: usize = 0;
    assert(views(errors@) =~= start + instance_lacks(file@, inst@, all, keys@, 0));
    while i < l.len()
        invariant
            i <= l@.len(),
            all == views(l@),
            views(errors@) == start + instance_lacks(file@, inst@, all, keys@, i as int),
        decreases l@.len() - i,
    {
        assert(all[i as int] == l@[i as int]@);
        check_key(file, inst, &l[i], keys, errors);
        assert(views(errors@) =~= start + instance_lacks(file@, inst@, all, keys@, i + 1));
        i += 1;
    }
}

fn check_type_instances(
    file: &str,
    t: &TypeDefinition,
    instances: &Vec<(String, TypeInstance)>,
    keys: &NameSet,
    errors: &mut Vec<ValidationError>,
)
    ensures
        views(final(errors)@) == views(old(errors)@) + type_lacks(
            file@,
            t@,
            instances_view(instances@),
            keys@,
            instances@.len() as int,
        ),
{
    let ghost start = views(errors@);
    let ghost all = instances_view(instances@);
    let mut i: usize = 0;
    assert(views(errors@) =~= start + type_lacks(file@, t@, all, keys@, 0));
    while i < instances.len()
        invariant
            i <= instances@.len(),
            all == instances_view(instances@),
            views(errors@) == start + type_lacks(file@, t@, all, keys@, i as int),
        decreases instances@.len() - i,
    {
        assert(all[i as int] == (instances@[i as int].0@, instances@[i as int].1@));
        if same(instances[i].0.as_str(), t.name.as_str()) {
            check_instance(file, &instances[i].1, &t.localisation, keys, errors);
        }
        assert(views(errors@) =~= start + type_lacks(file@, t@, all, keys@, i + 1));
        i += 1;
    }
}

/// Reports the instances of a file that lack localisation that their type requires.
/// `loc_keys` holds the keys that exist, in lower case. A key that a field of the
/// instance gives is not looked for.
pub fn check_missing_localisation(
    instances: &Vec<(String, TypeInstance)>,
    logical_path: &str,
    file_path: &str,
    ruleset: &RuleSet,
    loc_keys: &NameSet,
) -> (r: Vec<ValidationError>)
    ensures
        views(r@) == types_lack(
            file_path@,
            logical_path@,
            ruleset@.types,
            instances_view(instances@),
            loc_keys@,
            ruleset@.types.len() as int,
        ),
{
    let mut errors: Vec<ValidationError> = Vec::new();
    let ghost inst = instances_view(instances@);
    let ghost types = ruleset@.types;
    let mut i: usize = 0;
    assert(views(errors@) =~= types_lack(
        file_path@,
        logical_path@,
        types,
        inst,
        loc_keys@,
        0,
    ));
    while i < ruleset.types.len()
        invariant
            i <= ruleset.types@.len(),
            inst == instances_view(instances@),
            types == ruleset@.types,
            views(errors@) == types_lack(
                file_path@,
                logical_path@,
                types,
                inst,
                loc_keys@,
                i as int,
            ),
        decreases ruleset.types@.len() - i,
    {
        assert(types[i as int] == ruleset.types@[i as int]@);
        if type_path_matches(logical_path, &ruleset.types[i]) {
            check_type_instances(file_path, &ruleset.types[i], instances, loc_keys, &mut errors);
        }
        i += 1;
    }
    errors
}

} // verus!
