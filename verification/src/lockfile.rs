//! Lockfile parsing: `Cargo.lock`, `package-lock.json` and `requirements.txt`.
use vstd::prelude::*;

use crate::documents::{
    json_document, json_error_message, json_get, json_lookup, json_str, parse_json_text,
    parse_toml_text, toml_document, toml_error_message, toml_get, toml_lookup, toml_str, JsonValue,
    TomlValue,
};
use crate::text::{
    chars_of, debug_quoted, debug_text, lemma_subrange_lacks, lemma_trim, ends_with_chars, find_first, find_last, find_pattern,
    first_index, has_suffix, lemma_find_first_bounds, lemma_find_last, occurs_at, lemma_first_index_append, lemma_first_index_bounds, position_from, position_of, rfind_pattern,
    string_of, sub_vec, trim, trimmed,
};

verus! {

/// The package ecosystem a component comes from.
#[derive(Debug, Clone, Copy, PartialEq, Eq, Structural)]
pub enum Ecosystem {
    Cargo,
    Npm,
    PyPi,
}

/// One resolved package of a lockfile.
#[derive(Debug, Clone, PartialEq, Eq)]
pub struct Component {
    pub name: String,
    pub version: String,
    pub ecosystem: Ecosystem,
}

/// A component seen as plain values: its name and version as characters.
pub struct ComponentView {
    pub name: Seq<char>,
    pub version: Seq<char>,
    pub ecosystem: Ecosystem,
}

impl View for Component {
    type V = ComponentView;

    open spec fn view(&self) -> ComponentView {
        ComponentView { name: self.name@, version: self.version@, ecosystem: self.ecosystem }
    }
}

/// The views of a sequence of components.
pub open spec fn views(cs: Seq<Component>) -> Seq<ComponentView> {
    cs.map_values(|c: Component| c@)
}

/// An optional component as a sequence of zero or one components.
pub open spec fn option_seq(o: Option<ComponentView>) -> Seq<ComponentView> {
    match o {
        Some(c) => seq![c],
        None => seq![],
    }
}

/// `res` is `expected`: the same components, or the same error text.
pub open spec fn outcome_matches(
    res: Result<Vec<Component>, String>,
    expected: Result<Seq<ComponentView>, Seq<char>>,
) -> bool {
    match (res, expected) {
        (Ok(v), Ok(e)) => views(v@) == e,
        (Err(m), Err(e)) => m@ == e,
        _ => false,
    }
}

// ---------------------------------------------------------------- Cargo.lock

/// The component that one `[[package]]` entry describes: one with a string
/// `name` and a string `version`.
pub open spec fn cargo_package(p: TomlValue) -> Option<ComponentView> {
    match (toml_str(toml_get(p, "name"@)), toml_str(toml_get(p, "version"@))) {
        (Some(n), Some(v)) => Some(ComponentView { name: n, version: v, ecosystem: Ecosystem::Cargo }),
        _ => None,
    }
}

/// The components of a list of `[[package]]` entries, in order; entries
/// without a string name and version are left out.
pub open spec fn cargo_packages(ps: Seq<TomlValue>) -> Seq<ComponentView>
    decreases ps.len(),
{
    if ps.len() == 0 {
        seq![]
    } else {
        cargo_packages(ps.drop_last()) + option_seq(cargo_package(ps.last()))
    }
}

/// What a parsed `Cargo.lock` document gives: the components of its
/// `package` array, or an error where it has none.
pub open spec fn cargo_document_outcome(doc: TomlValue) -> Result<Seq<ComponentView>, Seq<char>> {
    match toml_get(doc, "package"@) {
        Some(TomlValue::Array(ps)) => Ok(cargo_packages(ps@)),
        _ => Err("no [[package]] entries found — is this a Cargo.lock?"@),
    }
}

/// What `parse_cargo_lock` gives for a text.
pub open spec fn cargo_lock_outcome(text: Seq<char>) -> Result<Seq<ComponentView>, Seq<char>> {
    match toml_document(text) {
        Some(doc) => cargo_document_outcome(doc),
        None => Err("not valid TOML: "@ + toml_error_message(text)),
    }
}

/// The components of a parsed `Cargo.lock` document: each `[[package]]`
/// entry with a string `name` and `version`, in order.
pub fn cargo_components(doc: &TomlValue) -> (res: Result<Vec<Component>, String>)
    ensures
        outcome_matches(res, cargo_document_outcome(*doc)),
{
    let package_key = String::from_str("package");
    match toml_lookup(doc, &package_key) {
        Some(TomlValue::Array(ps)) => {
            let name_key = String::from_str("name");
            let version_key = String::from_str("version");
            let mut out: Vec<Component> = Vec::new();
            let n = ps.len();
            for i in 0..n
                invariant
                    n == ps@.len(),
                    name_key@ == "name"@,
                    version_key@ == "version"@,
                    views(out@) == cargo_packages(ps@.take(i as int)),
            {
                assert(ps@.take(i + 1).drop_last() =~= ps@.take(i as int));
                let ghost before = out@;
                match (toml_lookup(&ps[i], &name_key), toml_lookup(&ps[i], &version_key)) {
                    (Some(TomlValue::Str(name)), Some(TomlValue::Str(version))) => {
                        out.push(
                            Component {
                                name: name.clone(),
                                version: version.clone(),
                                ecosystem: Ecosystem::Cargo,
                            },
                        );
                    },
                    _ => {},
                }
                assert(views(out@) =~= views(before) + option_seq(cargo_package(ps@[i as int])));
            }
            assert(ps@.take(n as int) =~= ps@);
            Ok(out)
        },
        _ => Err(String::from_str("no [[package]] entries found — is this a Cargo.lock?")),
    }
}

/// `Cargo.lock`'s `[[package]] name = "..." version = "..."` entries.
/// The lockfile's own root package (this crate or workspace member itself)
/// is included like any other entry: an SBOM for "what does this build
/// depend on" conventionally lists the subject too, and `Cargo.lock` alone
/// does not tell the package it is for from a workspace member.
pub fn parse_cargo_lock(content: &str) -> (res: Result<Vec<Component>, String>)
    ensures
        outcome_matches(res, cargo_lock_outcome(content@)),
{
    match parse_toml_text(content) {
        Ok(doc) => cargo_components(&doc),
        Err(e) => {
            let mut m = String::from_str("not valid TOML: ");
            m.append(e.as_str());
            Err(m)
        },
    }
}

// --------------------------------------------------------- package-lock.json

/// `node_modules/`, the directory marker in a `package-lock.json` path.
pub open spec fn node_modules_marker() -> Seq<char> {
    seq!['n', 'o', 'd', 'e', '_', 'm', 'o', 'd', 'u', 'l', 'e', 's', '/']
}

/// The package name of a `packages` path: what follows its last
/// `node_modules/`, or the whole path where it has none.
pub open spec fn npm_package_name(path: Seq<char>) -> Seq<char> {
    match find_last(path, node_modules_marker()) {
        Some(i) => path.skip(i + node_modules_marker().len()),
        None => path,
    }
}

/// The component that one entry of the `packages` object describes: none
/// for the root `""` entry (the project itself) or an entry without a
/// string `version`.
pub open spec fn npm_package(path: Seq<char>, entry: JsonValue) -> Option<ComponentView> {
    if path.len() == 0 {
        None
    } else {
        match json_str(json_get(entry, "version"@)) {
            Some(v) => Some(
                ComponentView { name: npm_package_name(path), version: v, ecosystem: Ecosystem::Npm },
            ),
            None => None,
        }
    }
}

/// The components of the entries of a `packages` object, in order.
pub open spec fn npm_packages(entries: Seq<(String, JsonValue)>) -> Seq<ComponentView>
    decreases entries.len(),
{
    if entries.len() == 0 {
        seq![]
    } else {
        npm_packages(entries.drop_last()) + option_seq(
            npm_package(entries.last().0@, entries.last().1),
        )
    }
}

/// What a parsed `package-lock.json` document gives: the components of its
/// `packages` object, or an error where it has none.
pub open spec fn npm_document_outcome(doc: JsonValue) -> Result<Seq<ComponentView>, Seq<char>> {
    match json_get(doc, "packages"@) {
        Some(JsonValue::Object(entries)) => Ok(npm_packages(entries@)),
        _ => Err("no \"packages\" object — is this a lockfileVersion 2/3 package-lock.json?"@),
    }
}

/// What `parse_npm_lock` gives for a text.
pub open spec fn npm_lock_outcome(text: Seq<char>) -> Result<Seq<ComponentView>, Seq<char>> {
    match json_document(text) {
        Some(doc) => npm_document_outcome(doc),
        None => Err("not valid JSON: "@ + json_error_message(text)),
    }
}

/// The components of a parsed `package-lock.json` document: each entry of
/// its `packages` object but the root `""` one, named by what follows the
/// last `node_modules/` of its path, where it has a string `version`.
pub fn npm_components(doc: &JsonValue) -> (res: Result<Vec<Component>, String>)
    ensures
        outcome_matches(res, npm_document_outcome(*doc)),
{
    let packages_key = String::from_str("packages");
    match json_lookup(doc, &packages_key) {
        Some(JsonValue::Object(entries)) => {
            let version_key = String::from_str("version");
            let marker: Vec<char> = vec!['n', 'o', 'd', 'e', '_', 'm', 'o', 'd', 'u', 'l', 'e', 's', '/'];
            assert(marker@ =~= node_modules_marker());
            let mut out: Vec<Component> = Vec::new();
            let n = entries.len();
            for i in 0..n
                invariant
                    n == entries@.len(),
                    version_key@ == "version"@,
                    marker@ == node_modules_marker(),
                    views(out@) == npm_packages(entries@.take(i as int)),
            {
                assert(entries@.take(i + 1).drop_last() =~= entries@.take(i as int));
                let ghost before = out@;
                let path = &entries[i].0;
                if !path.as_str().is_empty() {
                    match json_lookup(&entries[i].1, &version_key) {
                        Some(JsonValue::Str(version)) => {
                            let chars = chars_of(path.as_str());
                            let name = match rfind_pattern(&chars, &marker) {
                                Some(k) => {
                                    let clen = chars.len();
                                    assert(k + 13 <= clen);
                                    let rest = sub_vec(&chars, k + 13, clen);
                                    assert(rest@ =~= chars@.skip(k + 13));
                                    string_of(&rest)
                                },
                                None => path.clone(),
                            };
                            out.push(
                                Component {
                                    name,
                                    version: version.clone(),
                                    ecosystem: Ecosystem::Npm,
                                },
                            );
                        },
                        _ => {},
                    }
                }
                assert(views(out@) =~= views(before) + option_seq(
                    npm_package(entries@[i as int].0@, entries@[i as int].1),
                ));
            }
            assert(entries@.take(n as int) =~= entries@);
            Ok(out)
        },
        _ => Err(
            String::from_str(
                "no \"packages\" object — is this a lockfileVersion 2/3 package-lock.json?",
            ),
        ),
    }
}

/// `package-lock.json`'s modern (`lockfileVersion` 2/3) `"packages"` map.
/// The root `""` entry is the project itself, not a dependency, and is
/// skipped (older `lockfileVersion` 1's nested `"dependencies"` tree is
/// not read).
pub fn parse_npm_lock(content: &str) -> (res: Result<Vec<Component>, String>)
    ensures
        outcome_matches(res, npm_lock_outcome(content@)),
{
    match parse_json_text(content) {
        Ok(doc) => npm_components(&doc),
        Err(e) => {
            let mut m = String::from_str("not valid JSON: ");
            m.append(e.as_str());
            Err(m)
        },
    }
}

// ---------------------------------------------------------- requirements.txt

/// A line up to its first `#`.
pub open spec fn before_comment(t: Seq<char>) -> Seq<char> {
    match first_index(t, '#') {
        Some(i) => t.take(i),
        None => t,
    }
}

/// The exact pin on one line of a `requirements.txt`: a line that is not
/// blank and not a comment, whose text before any `#` holds `==`; the name
/// is what precedes the first `==` and the version what follows it, each
/// trimmed.
pub open spec fn line_requirement(line: Seq<char>) -> Option<ComponentView> {
    let t = trim(line);
    if t.len() == 0 || t[0] == '#' {
        None
    } else {
        let l = trim(before_comment(t));
        match find_first(l, seq!['=', '=']) {
            Some(i) => Some(
                ComponentView {
                    name: trim(l.take(i)),
                    version: trim(l.skip(i + 2)),
                    ecosystem: Ecosystem::PyPi,
                },
            ),
            None => None,
        }
    }
}

/// The exact pins of a `requirements.txt`, line by line (lines end at `\n`).
pub open spec fn requirements_in(content: Seq<char>) -> Seq<ComponentView>
    decreases content.len(),
{
    match first_index(content, '\n') {
        Some(i) => {
            proof {
                lemma_first_index_bounds(content, '\n');
            }
            option_seq(line_requirement(content.take(i))) + requirements_in(content.skip(i + 1))
        },
        None => option_seq(line_requirement(content)),
    }
}

/// The exact pin on one line, if it holds one.
fn requirement_from_line(line: &Vec<char>) -> (r: Option<Component>)
    ensures
        match r {
            Some(c) => line_requirement(line@) == Some(c@),
            None => line_requirement(line@) is None,
        },
{
    let t = trimmed(line);
    if t.len() == 0 || t[0] == '#' {
        return None;
    }
    let l = match position_of(&t, '#') {
        Some(i) => {
            assert(t@.subrange(0, i as int) =~= t@.take(i as int));
            trimmed(&sub_vec(&t, 0, i))
        },
        None => trimmed(&t),
    };
    let pin: Vec<char> = vec!['=', '='];
    assert(pin@ =~= seq!['=', '=']);
    match find_pattern(&l, &pin) {
        Some(i) => {
            let name = trimmed(&sub_vec(&l, 0, i));
            let llen = l.len();
            let version = trimmed(&sub_vec(&l, i + 2, llen));
            assert(l@.subrange(0, i as int) =~= l@.take(i as int));
            assert(l@.subrange(i + 2, l@.len() as int) =~= l@.skip(i + 2));
            Some(
                Component {
                    name: string_of(&name),
                    version: string_of(&version),
                    ecosystem: Ecosystem::PyPi,
                },
            )
        },
        None => None,
    }
}

/// `requirements.txt`'s `name==version` exact pins. Range specifiers
/// (`>=`, `~=`, unpinned) have no single resolved version to report in an
/// SBOM and are skipped, not errored on; so are blank lines and comments,
/// and a trailing `# comment` is stripped.
pub fn parse_requirements_txt(content: &str) -> (res: Vec<Component>)
    ensures
        views(res@) == requirements_in(content@),
{
    let chars = chars_of(content);
    let n = chars.len();
    let mut out: Vec<Component> = Vec::new();
    let mut start: usize = 0;
    assert(chars@.skip(0) =~= chars@);
    loop
        invariant
            start <= n,
            n == chars@.len(),
            chars@ == content@,
            requirements_in(content@) == views(out@) + requirements_in(chars@.skip(start as int)),
        decreases n - start,
    {
        let ghost rest = chars@.skip(start as int);
        let ghost before = out@;
        match position_from(&chars, '\n', start) {
            Some(j) => {
                let line = sub_vec(&chars, start, j);
                assert(line@ =~= rest.take(j - start));
                assert(rest.skip(j - start + 1) =~= chars@.skip(j + 1));
                if let Some(c) = requirement_from_line(&line) {
                    out.push(c);
                }
                assert(views(out@) =~= views(before) + option_seq(line_requirement(line@)));
                assert(views(out@) + requirements_in(chars@.skip(j + 1)) =~= views(before)
                    + requirements_in(rest));
                start = j + 1;
            },
            None => {
                let line = sub_vec(&chars, start, n);
                assert(line@ =~= rest);
                if let Some(c) = requirement_from_line(&line) {
                    out.push(c);
                }
                assert(views(out@) =~= views(before) + option_seq(line_requirement(line@)));
                return out;
            },
        }
    }
}

// ------------------------------------------------------------------ dispatch

/// The error for a lockfile name that none of the parsers is for.
pub open spec fn unrecognized_file_message(filename: Seq<char>) -> Seq<char> {
    "don't know how to parse "@ + debug_text(filename)
        + " — expected a Cargo.lock, package-lock.json, or requirements.txt"@
}

/// What `detect_and_parse` gives: the parser is picked by the end of the
/// file name.
pub open spec fn detected_outcome(filename: Seq<char>, content: Seq<char>) -> Result<
    Seq<ComponentView>,
    Seq<char>,
> {
    if has_suffix(filename, "Cargo.lock"@) {
        cargo_lock_outcome(content)
    } else if has_suffix(filename, "package-lock.json"@) {
        npm_lock_outcome(content)
    } else if has_suffix(filename, "requirements.txt"@) {
        Ok(requirements_in(content))
    } else {
        Err(unrecognized_file_message(filename))
    }
}

/// Picks a parser from the lockfile's filename. Only the three lockfile
/// shapes this crate parses are recognized; anything else is a clean, named
/// error rather than a silent no-op.
pub fn detect_and_parse(filename: &str, content: &str) -> (res: Result<Vec<Component>, String>)
    ensures
        outcome_matches(res, detected_outcome(filename@, content@)),
{
    let name = chars_of(filename);
    if ends_with_chars(&name, &chars_of("Cargo.lock")) {
        parse_cargo_lock(content)
    } else if ends_with_chars(&name, &chars_of("package-lock.json")) {
        parse_npm_lock(content)
    } else if ends_with_chars(&name, &chars_of("requirements.txt")) {
        Ok(parse_requirements_txt(content))
    } else {
        let mut m = String::from_str("don't know how to parse ");
        m.append(debug_quoted(filename).as_str());
        m.append(" — expected a Cargo.lock, package-lock.json, or requirements.txt");
        Err(m)
    }
}

// ---------------------------------------------------------------------- laws

/// Every component of `cs` comes from ecosystem `e`.
pub open spec fn all_from(cs: Seq<ComponentView>, e: Ecosystem) -> bool {
    forall|i: int| 0 <= i < cs.len() ==> (#[trigger] cs[i]).ecosystem == e
}

proof fn lemma_cargo_packages_from_cargo(ps: Seq<TomlValue>)
    ensures
        all_from(cargo_packages(ps), Ecosystem::Cargo),
    decreases ps.len(),
{
    if ps.len() > 0 {
        lemma_cargo_packages_from_cargo(ps.drop_last());
    }
}

proof fn lemma_npm_packages_from_npm(es: Seq<(String, JsonValue)>)
    ensures
        all_from(npm_packages(es), Ecosystem::Npm),
    decreases es.len(),
{
    if es.len() > 0 {
        lemma_npm_packages_from_npm(es.drop_last());
    }
}

proof fn lemma_requirements_from_pypi(content: Seq<char>)
    ensures
        all_from(requirements_in(content), Ecosystem::PyPi),
    decreases content.len(),
{
    lemma_first_index_bounds(content, '\n');
    if let Some(i) = first_index(content, '\n') {
        lemma_requirements_from_pypi(content.skip(i + 1));
    }
}

/// The ecosystem that `detect_and_parse` picks for a file name.
pub open spec fn ecosystem_for_filename(filename: Seq<char>) -> Ecosystem {
    if has_suffix(filename, "Cargo.lock"@) {
        Ecosystem::Cargo
    } else if has_suffix(filename, "package-lock.json"@) {
        Ecosystem::Npm
    } else {
        Ecosystem::PyPi
    }
}

/// Law: the parser is picked by the file name, and every component it
/// returns is tagged with that parser's ecosystem.
pub proof fn law_detected_components_carry_the_ecosystem(filename: Seq<char>, content: Seq<char>)
    ensures
        detected_outcome(filename, content) matches Ok(cs) ==> all_from(
            cs,
            ecosystem_for_filename(filename),
        ),
{
    if let Some(doc) = toml_document(content) {
        if let Some(TomlValue::Array(ps)) = toml_get(doc, "package"@) {
            lemma_cargo_packages_from_cargo(ps@);
        }
    }
    if let Some(doc) = json_document(content) {
        if let Some(JsonValue::Object(es)) = json_get(doc, "packages"@) {
            lemma_npm_packages_from_npm(es@);
        }
    }
    lemma_requirements_from_pypi(content);
}

/// Law: the root `""` entry of a `packages` object (the project itself) is
/// never listed: adding it changes nothing.
pub proof fn law_root_entry_not_listed(entries: Seq<(String, JsonValue)>, path: String, entry: JsonValue)
    requires
        path@.len() == 0,
    ensures
        npm_packages(entries.push((path, entry))) == npm_packages(entries),
{
    assert(entries.push((path, entry)).drop_last() =~= entries);
}

/// Law: each line of a `requirements.txt` is read on its own and line
/// order is kept: the pins of two texts joined by a newline are the pins of
/// the first followed by those of the second.
pub proof fn law_requirements_of_joined_texts(a: Seq<char>, b: Seq<char>)
    ensures
        requirements_in(a + seq!['\n'] + b) == requirements_in(a) + requirements_in(b),
    decreases a.len(),
{
    let q = seq!['\n'] + b;
    let s = a + seq!['\n'] + b;
    assert(s =~= a + q);
    lemma_first_index_bounds(a, '\n');
    lemma_first_index_append(a, q, '\n');
    match first_index(a, '\n') {
        Some(i) => {
            assert(s.take(i) =~= a.take(i));
            assert(s.skip(i + 1) =~= a.skip(i + 1) + seq!['\n'] + b);
            law_requirements_of_joined_texts(a.skip(i + 1), b);
            let h = option_seq(line_requirement(a.take(i)));
            assert(h + (requirements_in(a.skip(i + 1)) + requirements_in(b)) =~= (h
                + requirements_in(a.skip(i + 1))) + requirements_in(b));
        },
        None => {
            assert(q[0] == '\n');
            assert(first_index(q, '\n') == Some(0int));
            assert(s.take(a.len() as int) =~= a);
            assert(s.skip(a.len() + 1int) =~= b);
        },
    }
}

/// Law: every `[[package]]` table with a string `name` and a string
/// `version` gives a component with that name and version, whatever other
/// keys it holds.
pub proof fn law_cargo_package_with_name_and_version_is_listed(
    doc: TomlValue,
    k: int,
    n: Seq<char>,
    v: Seq<char>,
)
    requires
        toml_get(doc, "package"@) matches Some(TomlValue::Array(ps)) && 0 <= k < ps@.len()
            && toml_str(toml_get(ps@[k], "name"@)) == Some(n) && toml_str(
            toml_get(ps@[k], "version"@),
        ) == Some(v),
    ensures
        cargo_document_outcome(doc) matches Ok(cs) && cs.contains(
            ComponentView { name: n, version: v, ecosystem: Ecosystem::Cargo },
        ),
{
    if let Some(TomlValue::Array(ps)) = toml_get(doc, "package"@) {
        lemma_cargo_packages_contain(ps@, k, n, v);
    }
}

proof fn lemma_cargo_packages_contain(ps: Seq<TomlValue>, k: int, n: Seq<char>, v: Seq<char>)
    requires
        0 <= k < ps.len(),
        toml_str(toml_get(ps[k], "name"@)) == Some(n),
        toml_str(toml_get(ps[k], "version"@)) == Some(v),
    ensures
        cargo_packages(ps).contains(ComponentView { name: n, version: v, ecosystem: Ecosystem::Cargo }),
    decreases ps.len(),
{
    let c = ComponentView { name: n, version: v, ecosystem: Ecosystem::Cargo };
    let init = cargo_packages(ps.drop_last());
    if k == ps.len() - 1 {
        assert(cargo_packages(ps)[init.len() as int] == c);
    } else {
        lemma_cargo_packages_contain(ps.drop_last(), k, n, v);
        let j = choose|j: int| 0 <= j < init.len() && init[j] == c;
        assert(cargo_packages(ps)[j] == c);
    }
}

/// Law: the components read from a list of `[[package]]` tables depend only
/// on each table's `name` and `version` entries: two lists whose tables
/// agree on those give the same components, whatever other keys
/// (`source`, `checksum`, `dependencies`) they hold.
pub proof fn law_cargo_packages_depend_only_on_name_and_version(
    ps: Seq<TomlValue>,
    qs: Seq<TomlValue>,
)
    requires
        ps.len() == qs.len(),
        forall|i: int|
            0 <= i < ps.len() ==> toml_str(toml_get(#[trigger] ps[i], "name"@)) == toml_str(
                toml_get(qs[i], "name"@),
            ) && toml_str(toml_get(ps[i], "version"@)) == toml_str(toml_get(qs[i], "version"@)),
    ensures
        cargo_packages(ps) == cargo_packages(qs),
    decreases ps.len(),
{
    if ps.len() > 0 {
        let (a, b) = (ps.drop_last(), qs.drop_last());
        assert forall|i: int| 0 <= i < a.len() implies toml_str(toml_get(#[trigger] a[i], "name"@))
            == toml_str(toml_get(b[i], "name"@)) && toml_str(toml_get(a[i], "version"@)) == toml_str(
            toml_get(b[i], "version"@),
        ) by {
            assert(a[i] == ps[i] && b[i] == qs[i]);
        }
        law_cargo_packages_depend_only_on_name_and_version(a, b);
        assert(ps.last() == ps[ps.len() - 1]);
        assert(qs.last() == qs[qs.len() - 1]);
    }
}

proof fn lemma_npm_packages_contain(es: Seq<(String, JsonValue)>, k: int, v: Seq<char>)
    requires
        0 <= k < es.len(),
        es[k].0@.len() > 0,
        json_str(json_get(es[k].1, "version"@)) == Some(v),
    ensures
        npm_packages(es).contains(
            ComponentView { name: npm_package_name(es[k].0@), version: v, ecosystem: Ecosystem::Npm },
        ),
    decreases es.len(),
{
    let c = ComponentView { name: npm_package_name(es[k].0@), version: v, ecosystem: Ecosystem::Npm };
    let init = npm_packages(es.drop_last());
    if k == es.len() - 1 {
        assert(npm_packages(es)[init.len() as int] == c);
    } else {
        lemma_npm_packages_contain(es.drop_last(), k, v);
        let j = choose|j: int| 0 <= j < init.len() && init[j] == c;
        assert(npm_packages(es)[j] == c);
    }
}

/// Law: every entry of the `packages` object other than the root `""` one
/// that has a string `version` gives a component, named by what follows the
/// last `node_modules/` of its path, with that version, whatever other keys
/// (`resolved`, `integrity`, `dev`) the entry holds.
pub proof fn law_npm_entry_with_version_is_listed(doc: JsonValue, k: int, v: Seq<char>)
    requires
        json_get(doc, "packages"@) matches Some(JsonValue::Object(es)) && 0 <= k < es@.len()
            && es@[k].0@.len() > 0 && json_str(json_get(es@[k].1, "version"@)) == Some(v),
    ensures
        npm_document_outcome(doc) matches Ok(cs) && exists|path: Seq<char>|
            path.len() > 0 && cs.contains(
                ComponentView { name: npm_package_name(path), version: v, ecosystem: Ecosystem::Npm },
            ),
{
    if let Some(JsonValue::Object(es)) = json_get(doc, "packages"@) {
        lemma_npm_packages_contain(es@, k, v);
        assert(es@[k].0@.len() > 0);
    }
}

/// Law: the components read from the entries of a `packages` object depend
/// only on each entry's path and `version` value: two entry lists that
/// agree on those give the same components, whatever other keys the
/// entries hold.
pub proof fn law_npm_packages_depend_only_on_path_and_version(
    es: Seq<(String, JsonValue)>,
    fs: Seq<(String, JsonValue)>,
)
    requires
        es.len() == fs.len(),
        forall|i: int|
            0 <= i < es.len() ==> (#[trigger] es[i]).0@ == fs[i].0@ && json_str(
                json_get(es[i].1, "version"@),
            ) == json_str(json_get(fs[i].1, "version"@)),
    ensures
        npm_packages(es) == npm_packages(fs),
    decreases es.len(),
{
    if es.len() > 0 {
        let (a, b) = (es.drop_last(), fs.drop_last());
        assert forall|i: int| 0 <= i < a.len() implies (#[trigger] a[i]).0@ == b[i].0@ && json_str(
            json_get(a[i].1, "version"@),
        ) == json_str(json_get(b[i].1, "version"@)) by {
            assert(a[i] == es[i] && b[i] == fs[i]);
        }
        law_npm_packages_depend_only_on_path_and_version(a, b);
        assert(es.last() == es[es.len() - 1]);
        assert(fs.last() == fs[fs.len() - 1]);
    }
}

/// `n` starts `node_modules/` and stands nowhere else in it.
proof fn lemma_marker_starts_once(k: int)
    requires
        0 < k < 13,
    ensures
        node_modules_marker()[k] != 'n',
{
}

/// Law: the package name of a `packages` path is what follows its last
/// `node_modules/`: for any prefix, a path `<prefix>node_modules/<name>`
/// whose `<name>` holds no further `node_modules/` is named `<name>`.
#[verifier::rlimit(50)]
pub proof fn law_npm_name_follows_last_node_modules(pre: Seq<char>, name: Seq<char>)
    requires
        forall|j: int| !occurs_at(name, node_modules_marker(), j),
    ensures
        npm_package_name(pre + node_modules_marker() + name) == name,
{
    let m = node_modules_marker();
    let s = pre + m + name;
    let p = pre.len() as int;
    assert(s.subrange(p, p + 13) =~= m);
    assert forall|k: int| p < k <= s.len() - m.len() implies !occurs_at(s, m, k) by {
        if occurs_at(s, m, k) {
            if k >= p + 13 {
                assert(name.subrange(k - p - 13, k - p) =~= s.subrange(k, k + 13));
                assert(occurs_at(name, m, k - p - 13));
            } else {
                lemma_marker_starts_once(k - p);
                assert(s.subrange(k, k + 13)[0] == s[k]);
                assert(s[k] == m[k - p]);
            }
        }
    }
    lemma_find_last(s, m, p);
    assert(s.skip(p + 13) =~= name);
}

/// The suffixes `Cargo.lock`, `package-lock.json` and `requirements.txt`
/// never end one file name together: each ends in a different character.
proof fn lemma_suffixes_exclusive(f: Seq<char>)
    ensures
        has_suffix(f, "Cargo.lock"@) ==> !has_suffix(f, "package-lock.json"@) && !has_suffix(
            f,
            "requirements.txt"@,
        ),
        has_suffix(f, "package-lock.json"@) ==> !has_suffix(f, "requirements.txt"@),
{
    reveal_strlit("Cargo.lock");
    reveal_strlit("package-lock.json");
    reveal_strlit("requirements.txt");
    if has_suffix(f, "Cargo.lock"@) {
        assert(f.last() == f.subrange(f.len() - 10, f.len() as int)[9]);
        assert(f.last() == 'k');
        if has_suffix(f, "package-lock.json"@) {
            assert(f.last() == f.subrange(f.len() - 17, f.len() as int)[16]);
        }
        if has_suffix(f, "requirements.txt"@) {
            assert(f.last() == f.subrange(f.len() - 16, f.len() as int)[15]);
        }
    }
    if has_suffix(f, "package-lock.json"@) && has_suffix(f, "requirements.txt"@) {
        assert(f.last() == f.subrange(f.len() - 17, f.len() as int)[16]);
        assert(f.last() == f.subrange(f.len() - 16, f.len() as int)[15]);
    }
}

/// Law: the lockfile format is read off the end of the file name alone:
/// for any file name (a bare name or a path) ending in `Cargo.lock`,
/// `package-lock.json` or `requirements.txt`, `detect_and_parse` gives
/// exactly what `parse_cargo_lock`, `parse_npm_lock` or
/// `parse_requirements_txt` gives for the content.
pub proof fn law_detection_depends_only_on_the_suffix(filename: Seq<char>, content: Seq<char>)
    ensures
        has_suffix(filename, "Cargo.lock"@) ==> detected_outcome(filename, content)
            == cargo_lock_outcome(content),
        has_suffix(filename, "package-lock.json"@) ==> detected_outcome(filename, content)
            == npm_lock_outcome(content),
        has_suffix(filename, "requirements.txt"@) ==> detected_outcome(filename, content) == Ok::<
            Seq<ComponentView>,
            Seq<char>,
        >(requirements_in(content)),
        !has_suffix(filename, "Cargo.lock"@) && !has_suffix(filename, "package-lock.json"@)
            && !has_suffix(filename, "requirements.txt"@) ==> detected_outcome(filename, content)
            == Err::<Seq<ComponentView>, Seq<char>>(
            "don't know how to parse "@ + debug_text(filename)
                + " — expected a Cargo.lock, package-lock.json, or requirements.txt"@,
        ),
{
    lemma_suffixes_exclusive(filename);
}

/// Law: a line that is not blank, not a comment, and whose text before its
/// first `#` holds `==` gives exactly one pin, whatever characters its name
/// holds: the name is the trimmed text before the first `==`, the version
/// the trimmed text after it. Followed by a newline and more text, it comes
/// first, before the pins of that text.
pub proof fn law_exact_pin_line_is_listed(line: Seq<char>, rest: Seq<char>, i: int)
    requires
        !line.contains('\n'),
        trim(line).len() > 0,
        trim(line)[0] != '#',
        find_first(trim(before_comment(trim(line))), seq!['=', '=']) == Some(i),
    ensures
        ({
            let l = trim(before_comment(trim(line)));
            requirements_in(line + seq!['\n'] + rest) == seq![
                ComponentView {
                    name: trim(l.take(i)),
                    version: trim(l.skip(i + 2)),
                    ecosystem: Ecosystem::PyPi,
                },
            ] + requirements_in(rest)
        }),
{
    law_requirements_of_joined_texts(line, rest);
    lemma_first_index_bounds(line, '\n');
    assert(first_index(line, '\n') is None) by {
        if let Some(k) = first_index(line, '\n') {
            assert(line[k] == '\n');
        }
    }
}

/// `c` is a well-formed exact pin: from PyPI, its name and version without
/// white space at either end and without `#`.
pub open spec fn is_clean_pin(c: ComponentView) -> bool {
    &&& c.ecosystem == Ecosystem::PyPi
    &&& trim(c.name) == c.name
    &&& trim(c.version) == c.version
    &&& !c.name.contains('#')
    &&& !c.version.contains('#')
}

proof fn lemma_line_requirement_clean(line: Seq<char>)
    ensures
        line_requirement(line) matches Some(c) ==> is_clean_pin(c),
{
    let t = trim(line);
    if t.len() > 0 && t[0] != '#' {
        let bc = before_comment(t);
        lemma_first_index_bounds(t, '#');
        assert(!bc.contains('#')) by {
            if bc.contains('#') {
                let k = choose|k: int| 0 <= k < bc.len() && bc[k] == '#';
                assert(t[k] == '#');
            }
        }
        let l = trim(bc);
        lemma_trim(bc);
        let (a, b) = choose|a: int, b: int| 0 <= a <= b <= bc.len() && l == bc.subrange(a, b);
        lemma_subrange_lacks(bc, '#', a, b);
        if let Some(i) = find_first(l, seq!['=', '=']) {
            lemma_find_first_bounds(l, seq!['=', '='], i);
            assert(l.take(i) =~= l.subrange(0, i));
            assert(l.skip(i + 2) =~= l.subrange(i + 2, l.len() as int));
            lemma_subrange_lacks(l, '#', 0, i);
            lemma_subrange_lacks(l, '#', i + 2, l.len() as int);
            let n = l.take(i);
            let v = l.skip(i + 2);
            lemma_trim(n);
            lemma_trim(v);
            let (na, nb) = choose|a: int, b: int| 0 <= a <= b <= n.len() && trim(n) == n.subrange(a, b);
            let (va, vb) = choose|a: int, b: int| 0 <= a <= b <= v.len() && trim(v) == v.subrange(a, b);
            lemma_subrange_lacks(n, '#', na, nb);
            lemma_subrange_lacks(v, '#', va, vb);
        }
    }
}

/// Law: every pin read from a `requirements.txt` is a PyPI component whose
/// name and version carry no surrounding white space and no `#` (comments
/// are stripped).
pub proof fn law_requirements_are_clean_pins(content: Seq<char>)
    ensures
        forall|i: int|
            0 <= i < requirements_in(content).len() ==> is_clean_pin(
                #[trigger] requirements_in(content)[i],
            ),
    decreases content.len(),
{
    lemma_first_index_bounds(content, '\n');
    match first_index(content, '\n') {
        Some(i) => {
            law_requirements_are_clean_pins(content.skip(i + 1));
            lemma_line_requirement_clean(content.take(i));
            let head = option_seq(line_requirement(content.take(i)));
            let r = requirements_in(content);
            assert forall|k: int| 0 <= k < r.len() implies is_clean_pin(#[trigger] r[k]) by {
                if k < head.len() {
                    assert(r[k] == head[k]);
                } else {
                    assert(r[k] == requirements_in(content.skip(i + 1))[k - head.len()]);
                }
            }
        },
        None => {
            lemma_line_requirement_clean(content);
        },
    }
}

} // verus!
