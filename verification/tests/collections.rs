use lyrics::collections::{CollectionName, CollectionsDesc, ParseCollectionNameError};

fn name(text: &str) -> CollectionName {
    CollectionName::new(text.to_string()).unwrap()
}

/// The manifest of a real library, with a nested separated collection
/// alongside a plain one.
fn manifest() -> CollectionsDesc {
    CollectionsDesc {
        unified: name("Example Unified Collection"),
        separated: vec![
            name("Example Collection"),
            name("Example Group/Another Example Collection"),
        ],
    }
}

#[test]
fn manifest_declares_every_collection() {
    let desc = manifest();
    assert_eq!(desc.unified.as_str(), "Example Unified Collection");
    let separated: Vec<&str> = desc.separated.iter().map(|name| name.as_str()).collect();
    assert_eq!(
        separated,
        ["Example Collection", "Example Group/Another Example Collection"],
    );
}

#[test]
fn names_lists_the_separated_collections_then_the_unified_one() {
    let desc = manifest();
    let names: Vec<&str> = desc.names().iter().map(|name| name.as_str()).collect();
    assert_eq!(
        names,
        [
            "Example Collection",
            "Example Group/Another Example Collection",
            "Example Unified Collection",
        ],
    );
}

#[test]
fn manifest_defaults_separated_to_an_empty_list() {
    let desc = CollectionsDesc {
        unified: name("Example Unified Collection"),
        separated: Vec::new(),
    };
    assert!(desc.separated.is_empty());
    let names: Vec<&str> = desc.names().iter().map(|name| name.as_str()).collect();
    assert_eq!(names, ["Example Unified Collection"]);
}

#[test]
fn check_separated_accepts_a_declared_collection() {
    let desc = manifest();
    for name in ["Example Collection", "Example Group/Another Example Collection"] {
        println!("CASE: {name:?}");
        desc.check_separated(name).unwrap();
    }
}

#[test]
fn check_separated_rejects_an_undeclared_collection() {
    let desc = manifest();
    for name in ["Undeclared Example Collection", "Example Unified Collection"] {
        println!("CASE: {name:?}");
        let error = desc.check_separated(name).unwrap_err();
        assert_eq!(
            error.to_string(),
            format!(
                "unknown collection: {name:?} (expected one of \
                [\"Example Collection\", \"Example Group/Another Example Collection\"])",
            ),
        );
    }
}

#[test]
fn collection_name_accepts_plain_components() {
    let cases = [
        "Example Collection",
        "Example Group/Another Example Collection",
        "示例合集",
    ];
    for input in cases {
        println!("CASE: {input:?}");
        let name = CollectionName::new(input.to_string()).unwrap();
        assert_eq!(name.as_str(), input);
    }
}

#[test]
fn collection_name_rejects_backslash() {
    assert!(matches!(
        CollectionName::new(r"Example\Collection".to_string()),
        Err(ParseCollectionNameError::ContainsBackslash),
    ));
}

#[test]
fn collection_name_rejects_empty() {
    assert!(matches!(
        CollectionName::new(String::new()),
        Err(ParseCollectionNameError::Empty),
    ));
}

#[test]
fn collection_name_rejects_stray_slash() {
    let cases = [
        "/Example Collection",
        "Example Collection/",
        "Example//Collection",
    ];
    for input in cases {
        println!("CASE: {input:?}");
        assert!(matches!(
            CollectionName::new(input.to_string()),
            Err(ParseCollectionNameError::StraySlash),
        ));
    }
}

#[test]
fn collection_name_rejects_relative_component() {
    let cases = ["..", ".", "../Example Collection", "Example/./Collection"];
    for input in cases {
        println!("CASE: {input:?}");
        assert!(matches!(
            CollectionName::new(input.to_string()),
            Err(ParseCollectionNameError::RelativeComponent),
        ));
    }
}

#[test]
fn a_backslash_is_reported_before_emptiness_of_components() {
    assert!(matches!(
        CollectionName::new(r"/\".to_string()),
        Err(ParseCollectionNameError::ContainsBackslash),
    ));
    assert!(matches!(
        CollectionName::new("a/../".to_string()),
        Err(ParseCollectionNameError::RelativeComponent),
    ));
    assert!(matches!(
        CollectionName::new("a//..".to_string()),
        Err(ParseCollectionNameError::StraySlash),
    ));
}

#[test]
fn collection_name_error_messages() {
    assert_eq!(
        ParseCollectionNameError::StraySlash.to_string(),
        r#"collection name must not contain a leading, trailing, or repeated "/""#,
    );
    assert_eq!(
        ParseCollectionNameError::RelativeComponent.to_string(),
        r#"collection name must not contain a "." or ".." path component"#,
    );
}
