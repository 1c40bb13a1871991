use sbomgen::documents::{JsonValue, TomlValue};
use sbomgen::lockfile::{
    cargo_components, detect_and_parse, npm_components, parse_cargo_lock, parse_npm_lock,
    parse_requirements_txt, Component, Ecosystem,
};

fn comp(name: &str, version: &str, ecosystem: Ecosystem) -> Component {
    Component {
        name: name.to_string(),
        version: version.to_string(),
        ecosystem,
    }
}

#[test]
fn parses_a_realistic_cargo_lock() {
    let content = r#"
version = 4

[[package]]
name = "serde"
version = "1.0.229"
source = "registry+https://github.com/rust-lang/crates.io-index"

[[package]]
name = "myapp"
version = "0.1.0"
"#;
    let components = parse_cargo_lock(content).unwrap();
    assert!(components.contains(&Component {
        name: "serde".to_string(),
        version: "1.0.229".to_string(),
        ecosystem: Ecosystem::Cargo,
    }));
    assert_eq!(components.len(), 2);
}

#[test]
fn parses_a_realistic_npm_lockfile_v3() {
    let content = r#"{
        "name": "myapp",
        "lockfileVersion": 3,
        "packages": {
            "": {"name": "myapp", "version": "1.0.0"},
            "node_modules/lodash": {"version": "4.17.21"},
            "node_modules/@babel/core": {"version": "7.20.0"}
        }
    }"#;
    let components = parse_npm_lock(content).unwrap();
    assert!(components.contains(&Component {
        name: "lodash".to_string(),
        version: "4.17.21".to_string(),
        ecosystem: Ecosystem::Npm,
    }));
    assert!(components.contains(&Component {
        name: "@babel/core".to_string(),
        version: "7.20.0".to_string(),
        ecosystem: Ecosystem::Npm,
    }));
    assert_eq!(
        components.len(),
        2,
        "the root project entry must not be listed as a dependency"
    );
}

#[test]
fn parses_requirements_txt_exact_pins_only() {
    let content = "\
# a comment
requests==2.28.0
flask>=2.0  # not an exact pin, skipped
numpy==1.24.0  # trailing comment stripped
";
    let components = parse_requirements_txt(content);
    assert_eq!(components.len(), 2);
    assert!(components.contains(&Component {
        name: "requests".to_string(),
        version: "2.28.0".to_string(),
        ecosystem: Ecosystem::PyPi,
    }));
}

#[test]
fn malformed_cargo_lock_is_a_clean_error() {
    assert!(parse_cargo_lock("not toml at all {{{").is_err());
}

#[test]
fn malformed_npm_lock_is_a_clean_error() {
    assert!(parse_npm_lock("not json").is_err());
}

#[test]
fn detect_and_parse_picks_the_right_parser_from_filename() {
    let cargo = detect_and_parse(
        "Cargo.lock",
        "[[package]]\nname = \"a\"\nversion = \"1.0.0\"\n",
    )
    .unwrap();
    assert_eq!(cargo[0].ecosystem, Ecosystem::Cargo);

    let npm = detect_and_parse(
        "package-lock.json",
        r#"{"packages": {"": {}, "node_modules/a": {"version": "1.0.0"}}}"#,
    )
    .unwrap();
    assert_eq!(npm[0].ecosystem, Ecosystem::Npm);

    let py = detect_and_parse("requirements.txt", "a==1.0.0\n").unwrap();
    assert_eq!(py[0].ecosystem, Ecosystem::PyPi);
}

#[test]
fn detect_and_parse_rejects_an_unrecognized_filename() {
    assert!(detect_and_parse("yarn.lock", "").is_err());
}

#[test]
fn unrecognized_filename_error_names_the_file() {
    assert_eq!(
        detect_and_parse("yarn.lock", "").unwrap_err(),
        "don't know how to parse \"yarn.lock\" — expected a Cargo.lock, package-lock.json, or requirements.txt"
    );
    assert_eq!(
        detect_and_parse("a\"b", "").unwrap_err(),
        "don't know how to parse \"a\\\"b\" — expected a Cargo.lock, package-lock.json, or requirements.txt"
    );
}

#[test]
fn detection_goes_by_the_end_of_a_path() {
    let r = detect_and_parse("/repo/sub/requirements.txt", "x == 1\n").unwrap();
    assert_eq!(r, vec![comp("x", "1", Ecosystem::PyPi)]);
    assert!(detect_and_parse("Cargo.lock.bak", "").is_err());
}

#[test]
fn cargo_lock_parse_error_carries_the_toml_message() {
    let e = parse_cargo_lock("not toml at all {{{").unwrap_err();
    assert!(e.starts_with("not valid TOML: "));
    assert!(e.len() > "not valid TOML: ".len());
}

#[test]
fn cargo_lock_without_packages_is_an_error() {
    assert_eq!(
        parse_cargo_lock("version = 4\n").unwrap_err(),
        "no [[package]] entries found — is this a Cargo.lock?"
    );
    assert_eq!(
        parse_cargo_lock("package = 3\n").unwrap_err(),
        "no [[package]] entries found — is this a Cargo.lock?"
    );
}

#[test]
fn cargo_lock_entries_keep_order_and_skip_incomplete_ones() {
    let content = "[[package]]\nname = \"b\"\nversion = \"2\"\n\n[[package]]\nname = \"nov\"\n\n[[package]]\nname = \"a\"\nversion = 1\n\n[[package]]\nname = \"c\"\nversion = \"3\"\n";
    let cs = parse_cargo_lock(content).unwrap();
    assert_eq!(
        cs,
        vec![comp("b", "2", Ecosystem::Cargo), comp("c", "3", Ecosystem::Cargo)]
    );
}

#[test]
fn cargo_components_of_a_built_document() {
    let pkg = |n: &str, v: &str| {
        TomlValue::Table(vec![
            ("name".to_string(), TomlValue::Str(n.to_string())),
            ("version".to_string(), TomlValue::Str(v.to_string())),
        ])
    };
    let doc = TomlValue::Table(vec![(
        "package".to_string(),
        TomlValue::Array(vec![pkg("x", "1"), TomlValue::Other, pkg("y", "2")]),
    )]);
    assert_eq!(
        cargo_components(&doc).unwrap(),
        vec![comp("x", "1", Ecosystem::Cargo), comp("y", "2", Ecosystem::Cargo)]
    );
    let not_array = TomlValue::Table(vec![("package".to_string(), TomlValue::Other)]);
    assert!(cargo_components(&not_array).is_err());
    assert!(cargo_components(&TomlValue::Other).is_err());
}

#[test]
fn npm_lock_parse_error_carries_the_json_message() {
    let e = parse_npm_lock("not json").unwrap_err();
    assert!(e.starts_with("not valid JSON: "));
    assert!(e.len() > "not valid JSON: ".len());
}

#[test]
fn npm_lock_without_packages_object_is_an_error() {
    let msg = "no \"packages\" object — is this a lockfileVersion 2/3 package-lock.json?";
    assert_eq!(parse_npm_lock("{}").unwrap_err(), msg);
    assert_eq!(parse_npm_lock(r#"{"packages": []}"#).unwrap_err(), msg);
    assert_eq!(parse_npm_lock("[1, 2]").unwrap_err(), msg);
}

#[test]
fn npm_nested_paths_use_the_last_node_modules_segment() {
    let content = r#"{"packages": {
        "node_modules/a/node_modules/b": {"version": "2.0.0"},
        "packages/local": {"version": "0.0.1"},
        "node_modules/noversion": {},
        "node_modules/numver": {"version": 3}
    }}"#;
    let mut cs = parse_npm_lock(content).unwrap();
    cs.sort_by(|x, y| x.name.cmp(&y.name));
    assert_eq!(
        cs,
        vec![comp("b", "2.0.0", Ecosystem::Npm), comp("packages/local", "0.0.1", Ecosystem::Npm)]
    );
}

#[test]
fn npm_components_of_a_built_document_skip_the_root() {
    let entry = |v: &str| {
        JsonValue::Object(vec![("version".to_string(), JsonValue::Str(v.to_string()))])
    };
    let doc = JsonValue::Object(vec![(
        "packages".to_string(),
        JsonValue::Object(vec![
            ("".to_string(), entry("1.0.0")),
            ("node_modules/z".to_string(), entry("9")),
            ("node_modules/@s/y".to_string(), entry("8")),
        ]),
    )]);
    assert_eq!(
        npm_components(&doc).unwrap(),
        vec![comp("z", "9", Ecosystem::Npm), comp("@s/y", "8", Ecosystem::Npm)]
    );
}

#[test]
fn requirements_edge_cases() {
    let content = "  pkg-a == 1.0 \r\n\n#x==1\n   # y==2\nb===3\nc==4#==5\nd>=1,==2\n  e==\nf==g==h";
    let cs = parse_requirements_txt(content);
    assert_eq!(
        cs,
        vec![
            comp("pkg-a", "1.0", Ecosystem::PyPi),
            comp("b", "=3", Ecosystem::PyPi),
            comp("c", "4", Ecosystem::PyPi),
            comp("d>=1,", "2", Ecosystem::PyPi),
            comp("e", "", Ecosystem::PyPi),
            comp("f", "g==h", Ecosystem::PyPi),
        ]
    );
    assert!(parse_requirements_txt("").is_empty());
    assert!(parse_requirements_txt("\n\n  \n").is_empty());
}

#[test]
fn requirement_pins_carry_no_white_space_or_comment() {
    for c in parse_requirements_txt("\u{a0}x\t==\u{3000}1 # c\n") {
        assert_eq!(c.name, "x");
        assert_eq!(c.version, "1");
        assert_eq!(c.ecosystem, Ecosystem::PyPi);
    }
}

#[test]
fn requirements_of_joined_texts_are_joined() {
    let a = "x==1\n# c\ny==2 ";
    let b = "z>=3\nw == 4";
    let joined = parse_requirements_txt(&(a.to_string() + "\n" + b));
    let parts = [parse_requirements_txt(a), parse_requirements_txt(b)].concat();
    assert_eq!(joined, parts);
    assert_eq!(joined.len(), 3);
}
