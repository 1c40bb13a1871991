use sbomgen::cyclonedx::build_bom;
use sbomgen::lockfile::{Component, Ecosystem};

fn comp(name: &str, version: &str, ecosystem: Ecosystem) -> Component {
    Component {
        name: name.to_string(),
        version: version.to_string(),
        ecosystem,
    }
}

#[test]
fn builds_the_correct_top_level_shape() {
    let bom = build_bom(
        &[],
        "2026-01-01T00:00:00Z".to_string(),
        "urn:uuid:test".to_string(),
    );
    assert_eq!(bom.bom_format, "CycloneDX");
    assert_eq!(bom.spec_version, "1.5");
    assert_eq!(bom.version, 1);
    assert!(bom.components.is_empty());
}

#[test]
fn each_component_has_type_library_and_a_matching_purl_and_bom_ref() {
    let bom = build_bom(
        &[comp("serde", "1.0.229", Ecosystem::Cargo)],
        "2026-01-01T00:00:00Z".to_string(),
        "urn:uuid:test".to_string(),
    );
    let entry = &bom.components[0];
    assert_eq!(entry.component_type, "library");
    assert_eq!(entry.purl, "pkg:cargo/serde@1.0.229");
    assert_eq!(entry.bom_ref, entry.purl);
    assert_eq!(entry.name, "serde");
    assert_eq!(entry.version, "1.0.229");
}

#[test]
fn duplicate_name_version_pairs_are_deduplicated() {
    let bom = build_bom(
        &[
            comp("serde", "1.0.229", Ecosystem::Cargo),
            comp("serde", "1.0.229", Ecosystem::Cargo),
        ],
        "2026-01-01T00:00:00Z".to_string(),
        "urn:uuid:test".to_string(),
    );
    assert_eq!(bom.components.len(), 1);
}

#[test]
fn timestamp_and_serial_number_are_kept_as_given() {
    let bom = build_bom(&[], "T".to_string(), "urn:uuid:x".to_string());
    assert_eq!(bom.metadata.timestamp, "T");
    assert_eq!(bom.serial_number, "urn:uuid:x");
}

#[test]
fn first_occurrence_wins_and_order_is_kept() {
    let bom = build_bom(
        &[
            comp("b", "1", Ecosystem::Npm),
            comp("a", "1", Ecosystem::Cargo),
            comp("b", "1", Ecosystem::Cargo),
            comp("b", "2", Ecosystem::Cargo),
            comp("a", "1", Ecosystem::PyPi),
        ],
        String::new(),
        String::new(),
    );
    let purls: Vec<&str> = bom.components.iter().map(|e| e.purl.as_str()).collect();
    assert_eq!(
        purls,
        vec!["pkg:npm/b@1", "pkg:cargo/a@1", "pkg:cargo/b@2"]
    );
    for e in &bom.components {
        assert_eq!(e.bom_ref, e.purl);
        assert_eq!(e.component_type, "library");
    }
}

#[test]
fn distinct_components_are_all_kept() {
    let input = [
        comp("x", "1", Ecosystem::Cargo),
        comp("x", "2", Ecosystem::Cargo),
        comp("y", "1", Ecosystem::Cargo),
    ];
    let bom = build_bom(&input, String::new(), String::new());
    let names: Vec<(&str, &str)> = bom
        .components
        .iter()
        .map(|e| (e.name.as_str(), e.version.as_str()))
        .collect();
    assert_eq!(names, vec![("x", "1"), ("x", "2"), ("y", "1")]);
}
