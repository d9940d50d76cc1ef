use block_executor::publish::{
    is_dependency_allowed, validate_publish_request, AllowedDependencies, ModuleId, PublishError,
    PublishedModule,
};

fn addr(n: u8) -> [u8; 32] {
    [n; 32]
}

fn module_id(a: u8, name: &str) -> ModuleId {
    ModuleId { address: addr(a), name: name.to_string() }
}

fn module(name: &str, deps: Vec<ModuleId>) -> PublishedModule {
    PublishedModule { id: module_id(1, name), immediate_dependencies: deps, metadata_error: None }
}

fn names(list: &[&str]) -> Vec<String> {
    list.iter().map(|s| s.to_string()).collect()
}

#[test]
fn registered_modules_are_published() {
    let bundle = vec![module("a", vec![]), module("b", vec![])];
    assert_eq!(validate_publish_request(&bundle, names(&["b", "a"]), &None, true), Ok(()));
    assert_eq!(validate_publish_request(&vec![], vec![], &None, true), Ok(()));
    assert_eq!(
        validate_publish_request(&bundle, names(&["a"]), &None, true),
        Err(PublishError::UnregisteredModule("b".to_string()))
    );
    assert_eq!(
        validate_publish_request(&bundle, names(&["a", "b", "c"]), &None, true),
        Err(PublishError::NotAllPublished)
    );
    // A name is registered once.
    let twice = vec![module("a", vec![]), module("a", vec![])];
    assert_eq!(
        validate_publish_request(&twice, names(&["a"]), &None, true),
        Err(PublishError::UnregisteredModule("a".to_string()))
    );
    assert_eq!(validate_publish_request(&twice, names(&["a", "a"]), &None, true), Ok(()));
}

#[test]
fn dependencies_are_restricted() {
    let allowed = Some(vec![
        AllowedDependencies { address: addr(2), modules: names(&["x", "y"]) },
        AllowedDependencies { address: addr(3), modules: names(&[""]) },
        AllowedDependencies { address: addr(2), modules: names(&["z"]) },
    ]);
    let list = allowed.clone().unwrap();
    assert!(is_dependency_allowed(&list, &module_id(2, "x")));
    assert!(is_dependency_allowed(&list, &module_id(3, "anything")));
    // Of two entries for one address the first counts.
    assert!(!is_dependency_allowed(&list, &module_id(2, "z")));
    assert!(!is_dependency_allowed(&list, &module_id(4, "x")));
    assert!(!is_dependency_allowed(&vec![], &module_id(2, "x")));

    let good = vec![module("a", vec![module_id(2, "y"), module_id(3, "q")])];
    assert_eq!(validate_publish_request(&good, names(&["a"]), &allowed, true), Ok(()));
    let bad = vec![module("a", vec![module_id(2, "y"), module_id(2, "w"), module_id(9, "w")])];
    assert_eq!(
        validate_publish_request(&bad, names(&["a"]), &allowed, true),
        Err(PublishError::UnregisteredDependency(module_id(2, "w")))
    );
    // Without a restriction every dependency passes.
    assert_eq!(validate_publish_request(&bad, names(&["a"]), &None, true), Ok(()));
}

#[test]
fn errors_come_in_the_order_of_the_checks() {
    let allowed = Some(vec![]);
    let mut first = module("a", vec![module_id(2, "y")]);
    first.metadata_error = Some("broken".to_string());
    let second = module("missing", vec![]);
    let bundle = vec![first.clone(), second.clone()];
    // The dependency of the first module comes before its metadata.
    assert_eq!(
        validate_publish_request(&bundle, names(&["a"]), &allowed, false),
        Err(PublishError::UnregisteredDependency(module_id(2, "y")))
    );
    // The metadata of the first module comes before the name of the second.
    assert_eq!(
        validate_publish_request(&bundle, names(&["a"]), &None, false),
        Err(PublishError::Metadata("broken".to_string()))
    );
    first.metadata_error = None;
    let bundle = vec![first, second];
    assert_eq!(
        validate_publish_request(&bundle, names(&["a"]), &None, false),
        Err(PublishError::UnregisteredModule("missing".to_string()))
    );
    // The resource groups come before the names that are left.
    assert_eq!(
        validate_publish_request(&bundle, names(&["a", "missing", "left"]), &None, false),
        Err(PublishError::ResourceGroups)
    );
    assert_eq!(
        validate_publish_request(&bundle, names(&["a", "missing", "left"]), &None, true),
        Err(PublishError::NotAllPublished)
    );
}
