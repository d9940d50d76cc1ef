use crate::types::bytes32_eq;
use vstd::prelude::*;
use vstd::string::*;

verus! {

/// The identity of a module: the address it is published at and its name.
#[derive(Clone, Debug, PartialEq, Eq)]
pub struct ModuleId {
    pub address: [u8; 32],
    pub name: String,
}

/// The identity of a module as a mathematical value.
pub struct ModuleIdView {
    pub address: Seq<u8>,
    pub name: Seq<char>,
}

impl View for ModuleId {
    type V = ModuleIdView;

    open spec fn view(&self) -> ModuleIdView {
        ModuleIdView { address: self.address@, name: self.name@ }
    }
}

/// What the validation of a publish request reads of a module of the bundle:
/// its identity, the modules it depends on directly, and what the check of its
/// metadata found, if it found anything.
#[derive(Clone, Debug, PartialEq, Eq)]
pub struct PublishedModule {
    pub id: ModuleId,
    pub immediate_dependencies: Vec<ModuleId>,
    pub metadata_error: Option<String>,
}

/// The modules at one address that a bundle may depend on; the empty name
/// stands for all modules at the address.
#[derive(Clone, Debug, PartialEq, Eq)]
pub struct AllowedDependencies {
    pub address: [u8; 32],
    pub modules: Vec<String>,
}

/// Why a publish request was refused.
#[derive(Clone, Debug, PartialEq, Eq)]
pub enum PublishError {
    /// The bundle holds a module that the request did not register.
    UnregisteredModule(String),
    /// A module depends on a module that the request does not allow.
    UnregisteredDependency(ModuleId),
    /// The metadata of a module is not valid.
    Metadata(String),
    /// The resource groups of the bundle are not valid.
    ResourceGroups,
    /// The request registered a module that the bundle does not hold.
    NotAllPublished,
}

/// A refusal as a mathematical value.
pub enum PublishErrorView {
    UnregisteredModule(Seq<char>),
    UnregisteredDependency(ModuleIdView),
    Metadata(Seq<char>),
    ResourceGroups,
    NotAllPublished,
}

impl View for PublishError {
    type V = PublishErrorView;

    open spec fn view(&self) -> PublishErrorView {
        match *self {
            PublishError::UnregisteredModule(n) => PublishErrorView::UnregisteredModule(n@),
            PublishError::UnregisteredDependency(d) => PublishErrorView::UnregisteredDependency(d@),
            PublishError::Metadata(m) => PublishErrorView::Metadata(m@),
            PublishError::ResourceGroups => PublishErrorView::ResourceGroups,
            PublishError::NotAllPublished => PublishErrorView::NotAllPublished,
        }
    }
}

/// The position of the first of `names` that is `name`.
pub open spec fn name_position(names: Seq<String>, name: Seq<char>) -> Option<int>
    decreases names.len(),
{
    if names.len() == 0 {
        None
    } else if names[0]@ == name {
        Some(0)
    } else {
        match name_position(names.drop_first(), name) {
            Some(i) => Some(i + 1),
            None => None,
        }
    }
}

/// The names allowed at `address`: those of the first entry for it.
pub open spec fn allowed_at(allowed: Seq<AllowedDependencies>, address: Seq<u8>) -> Option<
    Seq<String>,
>
    decreases allowed.len(),
{
    if allowed.len() == 0 {
        None
    } else if allowed[0].address@ == address {
        Some(allowed[0].modules@)
    } else {
        allowed_at(allowed.drop_first(), address)
    }
}

/// Whether a dependency is allowed: its address is listed, with its name or
/// with the empty name.
pub open spec fn dependency_allowed(allowed: Seq<AllowedDependencies>, dep: ModuleId) -> bool {
    match allowed_at(allowed, dep.address@) {
        Some(names) => name_position(names, Seq::empty()).is_some() || name_position(
            names,
            dep.name@,
        ).is_some(),
        None => false,
    }
}

/// The position of the first dependency that is not allowed.
pub open spec fn first_unregistered(allowed: Seq<AllowedDependencies>, deps: Seq<ModuleId>) -> Option<
    int,
>
    decreases deps.len(),
{
    if deps.len() == 0 {
        None
    } else if !dependency_allowed(allowed, deps[0]) {
        Some(0)
    } else {
        match first_unregistered(allowed, deps.drop_first()) {
            Some(i) => Some(i + 1),
            None => None,
        }
    }
}

/// The validation of the modules of a bundle from position `from` on, with
/// the names in `expected` still to be found. Every module has to be
/// registered, to depend on allowed modules only where dependencies are
/// restricted, and to have valid metadata, checked in this order module by
/// module. Then the resource groups have to be valid, and no registered name
/// may be left.
pub open spec fn spec_validate(
    modules: Seq<PublishedModule>,
    expected: Seq<String>,
    allowed: Option<Vec<AllowedDependencies>>,
    resource_groups_valid: bool,
    from: nat,
) -> Result<(), PublishErrorView>
    decreases modules.len() - from,
{
    if from >= modules.len() {
        if !resource_groups_valid {
            Err(PublishErrorView::ResourceGroups)
        } else if expected.len() > 0 {
            Err(PublishErrorView::NotAllPublished)
        } else {
            Ok(())
        }
    } else {
        let m = modules[from as int];
        match name_position(expected, m.id.name@) {
            None => Err(PublishErrorView::UnregisteredModule(m.id.name@)),
            Some(i) => {
                let bad = match allowed {
                    Some(a) => first_unregistered(a@, m.immediate_dependencies@),
                    None => None,
                };
                if bad.is_some() {
                    Err(
                        PublishErrorView::UnregisteredDependency(
                            m.immediate_dependencies@[bad.unwrap()]@,
                        ),
                    )
                } else if m.metadata_error.is_some() {
                    Err(PublishErrorView::Metadata(m.metadata_error.unwrap()@))
                } else {
                    spec_validate(
                        modules,
                        expected.remove(i),
                        allowed,
                        resource_groups_valid,
                        from + 1,
                    )
                }
            },
        }
    }
}

fn find_name(names: &Vec<String>, name: &String) -> (r: Option<usize>)
    ensures
        match r {
            Some(i) => name_position(names@, name@) == Some(i as int) && i < names@.len(),
            None => name_position(names@, name@).is_none(),
        },
{
    let mut i: usize = 0;
    assert(names@.subrange(0, names@.len() as int) =~= names@);
    while i < names.len()
        invariant
            0 <= i <= names.len(),
            name_position(names@, name@) == match name_position(
                names@.subrange(i as int, names@.len() as int),
                name@,
            ) {
                Some(k) => Some(k + i),
                None => None,
            },
        decreases names.len() - i,
    {
        let ghost rest = names@.subrange(i as int, names@.len() as int);
        assert(rest[0] == names@[i as int]);
        assert(rest.drop_first() =~= names@.subrange(i as int + 1, names@.len() as int));
        if names[i] == *name {
            return Some(i);
        }
        i += 1;
    }
    None
}

fn has_empty_name(names: &Vec<String>) -> (found: bool)
    ensures
        found == name_position(names@, Seq::empty()).is_some(),
{
    let mut i: usize = 0;
    assert(names@.subrange(0, names@.len() as int) =~= names@);
    while i < names.len()
        invariant
            0 <= i <= names.len(),
            name_position(names@, Seq::empty()).is_some() == name_position(
                names@.subrange(i as int, names@.len() as int),
                Seq::empty(),
            ).is_some(),
        decreases names.len() - i,
    {
        let ghost rest = names@.subrange(i as int, names@.len() as int);
        assert(rest[0] == names@[i as int]);
        assert(rest.drop_first() =~= names@.subrange(i as int + 1, names@.len() as int));
        if names[i].as_str().is_empty() {
            assert(names@[i as int]@ =~= Seq::<char>::empty());
            return true;
        }
        i += 1;
    }
    false
}

/// Whether a dependency is allowed.
pub fn is_dependency_allowed(allowed: &Vec<AllowedDependencies>, dep: &ModuleId) -> (ok: bool)
    ensures
        ok == dependency_allowed(allowed@, *dep),
{
    let mut i: usize = 0;
    assert(allowed@.subrange(0, allowed@.len() as int) =~= allowed@);
    while i < allowed.len()
        invariant
            0 <= i <= allowed.len(),
            allowed_at(allowed@, dep.address@) == allowed_at(
                allowed@.subrange(i as int, allowed@.len() as int),
                dep.address@,
            ),
        decreases allowed.len() - i,
    {
        let ghost rest = allowed@.subrange(i as int, allowed@.len() as int);
        assert(rest[0] == allowed@[i as int]);
        assert(rest.drop_first() =~= allowed@.subrange(i as int + 1, allowed@.len() as int));
        if bytes32_eq(&allowed[i].address, &dep.address) {
            return has_empty_name(&allowed[i].modules) || find_name(
                &allowed[i].modules,
                &dep.name,
            ).is_some();
        }
        i += 1;
    }
    false
}

fn find_unregistered(allowed: &Vec<AllowedDependencies>, deps: &Vec<ModuleId>) -> (r: Option<usize>)
    ensures
        match r {
            Some(i) => first_unregistered(allowed@, deps@) == Some(i as int) && i < deps@.len(),
            None => first_unregistered(allowed@, deps@).is_none(),
        },
{
    let mut i: usize = 0;
    assert(deps@.subrange(0, deps@.len() as int) =~= deps@);
    while i < deps.len()
        invariant
            0 <= i <= deps.len(),
            first_unregistered(allowed@, deps@) == match first_unregistered(
                allowed@,
                deps@.subrange(i as int, deps@.len() as int),
            ) {
                Some(k) => Some(k + i),
                None => None,
            },
        decreases deps.len() - i,
    {
        let ghost rest = deps@.subrange(i as int, deps@.len() as int);
        assert(rest[0] == deps@[i as int]);
        assert(rest.drop_first() =~= deps@.subrange(i as int + 1, deps@.len() as int));
        if !is_dependency_allowed(allowed, &deps[i]) {
            return Some(i);
        }
        i += 1;
    }
    None
}

/// Validates a publish request: every module of the bundle is among the
/// registered names, depends only on what is allowed, and has valid metadata;
/// the resource groups are valid; and every registered name is in the bundle.
pub fn validate_publish_request(
    modules: &Vec<PublishedModule>,
    expected_modules: Vec<String>,
    allowed_deps: &Option<Vec<AllowedDependencies>>,
    resource_groups_valid: bool,
) -> (r: Result<(), PublishError>)
    ensures
        match r {
            Ok(()) => spec_validate(
                modules@,
                expected_modules@,
                *allowed_deps,
                resource_groups_valid,
                0,
            ) is Ok,
            Err(e) => spec_validate(
                modules@,
                expected_modules@,
                *allowed_deps,
                resource_groups_valid,
                0,
            ) == Err::<(), PublishErrorView>(e@),
        },
{
    let mut expected = expected_modules;
    let mut k: usize = 0;
    while k < modules.len()
        invariant
            0 <= k <= modules.len(),
            spec_validate(modules@, expected_modules@, *allowed_deps, resource_groups_valid, 0)
                == spec_validate(modules@, expected@, *allowed_deps, resource_groups_valid, k as nat),
        decreases modules.len() - k,
    {
        let m = &modules[k];
        match find_name(&expected, &m.id.name) {
            Some(i) => {
                let _ = expected.remove(i);
            },
            None => {
                return Err(PublishError::UnregisteredModule(m.id.name.clone()));
            },
        }
        match allowed_deps {
            Some(allowed) => {
                match find_unregistered(allowed, &m.immediate_dependencies) {
                    Some(d) => {
                        let dep = &m.immediate_dependencies[d];
                        return Err(
                            PublishError::UnregisteredDependency(
                                ModuleId { address: dep.address, name: dep.name.clone() },
                            ),
                        );
                    },
                    None => {},
                }
            },
            None => {},
        }
        match &m.metadata_error {
            Some(e) => {
                return Err(PublishError::Metadata(e.clone()));
            },
            None => {},
        }
        k += 1;
    }
    if !resource_groups_valid {
        return Err(PublishError::ResourceGroups);
    }
    if expected.len() > 0 {
        return Err(PublishError::NotAllPublished);
    }
    Ok(())
}

} // verus!
