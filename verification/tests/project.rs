use infraweave::project::{
    get_project_id_for_repository_path, is_infraweave_package, project_not_found_message, ProjectLookup,
};

fn project_map() -> Vec<(String, Option<String>)> {
    // The entries in key order, as a JSON object of the project map gives them.
    let map: serde_json::Value = serde_json::from_str(
        r#"{
            "SomeGroup/path123/*": {
                "project_id": "111111111"
            },
            "SomeGroup/path987/*": {
                "project_id": "222222222"
            },
            "SomeGroup/strictpath987/project987": {
                "project_id": "333333333"
            },
            "SomeGroup/path567/proj*": {
                "project_id": "444444444"
            }
        }"#,
    )
    .unwrap();
    map.as_object()
        .unwrap()
        .iter()
        .map(|(k, v)| (k.clone(), v.get("project_id").and_then(|p| p.as_str()).map(|s| s.to_string())))
        .collect()
}

fn lookup(path: &str) -> Result<String, String> {
    match get_project_id_for_repository_path(&project_map(), path) {
        ProjectLookup::Found(id) => Ok(id),
        ProjectLookup::NotFound => Err(project_not_found_message(path)),
        other => panic!("unexpected lookup: {:?}", other),
    }
}

#[test]
fn test_get_project_id_for_repository_path() {
    assert_eq!(lookup("SomeGroup/path123/project123").unwrap(), "111111111".to_string());
    assert_eq!(
        lookup("SomeGroup/path12345").unwrap_err(),
        "No project ID has been configured for repository path: SomeGroup/path12345"
    );
    assert_eq!(lookup("SomeGroup/path987/project987").unwrap(), "222222222".to_string());
    assert_eq!(
        lookup("SomeGroup/strictpath987").unwrap_err(),
        "No project ID has been configured for repository path: SomeGroup/strictpath987"
    );
    assert_eq!(lookup("SomeGroup/strictpath987/project987").unwrap(), "333333333".to_string());
    assert_eq!(lookup("SomeGroup/path567/proj").unwrap(), "444444444".to_string());
    assert_eq!(lookup("SomeGroup/path567/project123").unwrap(), "444444444".to_string());
}

#[test]
fn project_map_entries_without_id_or_with_bad_patterns() {
    let map = vec![("Group/(".to_string(), Some("1".to_string()))];
    match get_project_id_for_repository_path(&map, "Group/x") {
        ProjectLookup::InvalidPattern(key) => assert_eq!(key, "Group/("),
        other => panic!("unexpected lookup: {:?}", other),
    }
    let map = vec![("Group/*".to_string(), None)];
    match get_project_id_for_repository_path(&map, "Group/x") {
        ProjectLookup::MissingProjectId(key) => assert_eq!(key, "Group/*"),
        other => panic!("unexpected lookup: {:?}", other),
    }
}

#[test]
fn package_filter_pattern() {
    assert!(is_infraweave_package(Some("^(module|stack)-.*"), "module-s3bucket"));
    assert!(is_infraweave_package(Some("  ^(module|stack)-.*  "), "stack-web"));
    assert!(!is_infraweave_package(Some("^(module|stack)-.*"), "provider-aws"));
    assert!(!is_infraweave_package(None, "module-s3bucket"));
    assert!(!is_infraweave_package(Some("("), "module-s3bucket"));
}
