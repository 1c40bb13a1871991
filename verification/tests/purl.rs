use sbomgen::lockfile::{Component, Ecosystem};
use sbomgen::purl::{normalize_pypi_name, percent_encode, purl_for};

fn comp(name: &str, version: &str, ecosystem: Ecosystem) -> Component {
    Component {
        name: name.to_string(),
        version: version.to_string(),
        ecosystem,
    }
}

#[test]
fn cargo_purl_shape() {
    assert_eq!(
        purl_for(&comp("serde", "1.0.229", Ecosystem::Cargo)),
        "pkg:cargo/serde@1.0.229"
    );
}

#[test]
fn npm_purl_unscoped() {
    assert_eq!(
        purl_for(&comp("lodash", "4.17.21", Ecosystem::Npm)),
        "pkg:npm/lodash@4.17.21"
    );
}

#[test]
fn npm_purl_scoped_package_encodes_the_at_sign() {
    assert_eq!(
        purl_for(&comp("@babel/core", "7.20.0", Ecosystem::Npm)),
        "pkg:npm/%40babel/core@7.20.0"
    );
}

#[test]
fn pypi_purl_lowercases_and_normalizes_separators() {
    assert_eq!(
        purl_for(&comp("Django_Rest-Framework", "3.14.0", Ecosystem::PyPi)),
        "pkg:pypi/django-rest-framework@3.14.0"
    );
}

#[test]
fn pypi_purl_plain_name() {
    assert_eq!(
        purl_for(&comp("requests", "2.31.0", Ecosystem::PyPi)),
        "pkg:pypi/requests@2.31.0"
    );
}

#[test]
fn percent_encode_escapes_at_plus_and_space() {
    assert_eq!(percent_encode("a@b c%d+e"), "a%40b%20c%d%2Be");
    assert_eq!(percent_encode("1.0.0+build"), "1.0.0%2Bbuild");
    assert_eq!(percent_encode("a-b_c.d~e"), "a-b_c.d~e");
    assert_eq!(percent_encode(""), "");
}

#[test]
fn percent_encode_keeps_non_ascii_characters() {
    assert_eq!(percent_encode("é"), "é");
    assert_eq!(percent_encode("ü @x"), "ü%20%40x");
}

#[test]
fn percent_decoding_gives_back_the_input() {
    fn decode(s: &str) -> String {
        s.replace("%40", "@").replace("%2B", "+").replace("%20", " ")
    }
    for s in ["é+1 @x", "1.0.0+build", "@scope", "plain"] {
        assert_eq!(decode(&percent_encode(s)), s);
    }
}

#[test]
fn version_with_plus_and_space_is_encoded() {
    assert_eq!(
        purl_for(&comp("foo", "1.0 +build", Ecosystem::Cargo)),
        "pkg:cargo/foo@1.0%20%2Bbuild"
    );
}

#[test]
fn npm_scope_and_name_split_at_first_slash() {
    assert_eq!(
        purl_for(&comp("@a b/c/d", "1", Ecosystem::Npm)),
        "pkg:npm/%40a%20b/c/d@1"
    );
}

#[test]
fn normalize_collapses_runs_and_drops_edges() {
    assert_eq!(normalize_pypi_name("__Foo..Bar--baz_"), "foo-bar-baz");
    assert_eq!(normalize_pypi_name("---"), "");
    assert_eq!(normalize_pypi_name(""), "");
    assert_eq!(normalize_pypi_name("ÉA"), "Éa");
}

#[test]
fn normalize_is_idempotent_on_examples() {
    for name in ["Django_Rest-Framework", "._a..B_", "zope.interface", "X"] {
        let once = normalize_pypi_name(name);
        assert_eq!(normalize_pypi_name(&once), once);
    }
}

#[test]
fn django_spellings_share_one_purl() {
    let expected = "pkg:pypi/django@4.2";
    for name in ["Django", "django", "django_", "_DJANGO.", "-django"] {
        assert_eq!(purl_for(&comp(name, "4.2", Ecosystem::PyPi)), expected);
    }
}

#[test]
fn separator_kind_and_case_do_not_matter() {
    assert_eq!(
        normalize_pypi_name("Zope.Interface"),
        normalize_pypi_name("zope_interface")
    );
}

#[test]
fn upper_casing_and_separator_respelling_keep_the_normalized_name() {
    for name in ["Django_Rest-Framework", "a-b_c.d", "-x_", "Zope.Interface", "é-É"] {
        let n = normalize_pypi_name(name);
        assert_eq!(normalize_pypi_name(&name.to_ascii_uppercase()), n);
        assert_eq!(
            normalize_pypi_name(&name.replace('_', ".").replace('-', "__")),
            n
        );
    }
}

#[test]
fn names_with_the_same_words_share_a_purl() {
    let expected = "pkg:pypi/rest-framework@1";
    for name in ["REST_framework", "__rest...Framework-", "rest-_-framework"] {
        assert_eq!(purl_for(&comp(name, "1", Ecosystem::PyPi)), expected);
    }
}
