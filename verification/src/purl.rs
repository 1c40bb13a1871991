//! Package URLs (`pkg:<type>/...@<version>`) for components.
use vstd::prelude::*;

use crate::lockfile::{Component, ComponentView, Ecosystem};
use crate::text::{ascii_lower, chars_of, first_index, lemma_first_index_bounds, lower_ascii, position_of, push_char, string_of, sub_vec};

verus! {

/// What one character of a name or version becomes in a purl: `@`, `+`
/// and space are percent-encoded, every other character is kept as itself.
pub open spec fn escape_char(c: char) -> Seq<char> {
    if c == '@' {
        seq!['%', '4', '0']
    } else if c == '+' {
        seq!['%', '2', 'B']
    } else if c == ' ' {
        seq!['%', '2', '0']
    } else {
        seq![c]
    }
}

/// What `percent_encode` makes of a string: `escape_char` applied to each
/// character in turn, the results concatenated.
pub open spec fn percent_encoded(s: Seq<char>) -> Seq<char>
    decreases s.len(),
{
    if s.len() == 0 {
        seq![]
    } else {
        percent_encoded(s.drop_last()) + escape_char(s.last())
    }
}

/// `-`, `_` and `.`: the characters that PyPI name normalization treats alike.
pub open spec fn is_name_separator(c: char) -> bool {
    c == '-' || c == '_' || c == '.'
}

/// The state of the normalization scan after reading `s`: the characters
/// written so far, and whether the last character read was a separator.
/// A run of separators writes one `-`, and none before the first other
/// character; any other character is written in ASCII lower case.
pub open spec fn pypi_scan(s: Seq<char>) -> (Seq<char>, bool)
    decreases s.len(),
{
    if s.len() == 0 {
        (seq![], false)
    } else {
        let (out, last_was_sep) = pypi_scan(s.drop_last());
        let c = s.last();
        if is_name_separator(c) {
            if !last_was_sep && out.len() > 0 {
                (out.push('-'), true)
            } else {
                (out, true)
            }
        } else {
            (out.push(ascii_lower(c)), false)
        }
    }
}

/// `s` without its trailing `-` characters.
pub open spec fn trim_end_dashes(s: Seq<char>) -> Seq<char>
    decreases s.len(),
{
    if s.len() > 0 && s.last() == '-' {
        trim_end_dashes(s.drop_last())
    } else {
        s
    }
}

/// The PEP 503 normalized form of a PyPI package name.
pub open spec fn normalized_pypi_name(s: Seq<char>) -> Seq<char> {
    trim_end_dashes(pypi_scan(s).0)
}

/// The purl of a component.
pub open spec fn purl_of(c: ComponentView) -> Seq<char> {
    match c.ecosystem {
        Ecosystem::Cargo => "pkg:cargo/"@ + percent_encoded(c.name) + "@"@ + percent_encoded(
            c.version,
        ),
        Ecosystem::Npm => match first_index(c.name, '/') {
            Some(i) => "pkg:npm/"@ + percent_encoded(c.name.take(i)) + "/"@ + percent_encoded(
                c.name.skip(i + 1),
            ) + "@"@ + percent_encoded(c.version),
            None => "pkg:npm/"@ + percent_encoded(c.name) + "@"@ + percent_encoded(c.version),
        },
        Ecosystem::PyPi => "pkg:pypi/"@ + normalized_pypi_name(c.name) + "@"@ + percent_encoded(
            c.version,
        ),
    }
}

/// Percent-encodes the handful of characters that can legitimately show up
/// in a package name or version but are not safe unescaped in a purl. This
/// is not a general URL encoder, just enough for real package names: npm
/// scopes' `@`, and the rare `+` or space in a version. Every other
/// character is kept as it is.
pub fn percent_encode(s: &str) -> (out: String)
    ensures
        out@ == percent_encoded(s@),
{
    let chars = chars_of(s);
    let n = chars.len();
    let mut out = String::new();
    for i in 0..n
        invariant
            n == chars@.len(),
            chars@ == s@,
            out@ == percent_encoded(chars@.take(i as int)),
    {
        let c = chars[i];
        assert(chars@.take(i + 1).drop_last() =~= chars@.take(i as int));
        if c == '@' {
            push_char(&mut out, '%');
            push_char(&mut out, '4');
            push_char(&mut out, '0');
        } else if c == '+' {
            push_char(&mut out, '%');
            push_char(&mut out, '2');
            push_char(&mut out, 'B');
        } else if c == ' ' {
            push_char(&mut out, '%');
            push_char(&mut out, '2');
            push_char(&mut out, '0');
        } else {
            push_char(&mut out, c);
        }
        assert(out@ =~= percent_encoded(chars@.take(i + 1)));
    }
    assert(chars@.take(n as int) =~= chars@);
    out
}

/// PyPI package-name normalization per PEP 503: lower case, and any run of
/// `-`, `_` or `.` becomes a single `-`; separators at the start and the end
/// of the name are dropped.
pub fn normalize_pypi_name(name: &str) -> (out: String)
    ensures
        out@ == normalized_pypi_name(name@),
{
    let chars = chars_of(name);
    let n = chars.len();
    let mut out: Vec<char> = Vec::new();
    let mut last_was_sep = false;
    for i in 0..n
        invariant
            n == chars@.len(),
            chars@ == name@,
            (out@, last_was_sep) == pypi_scan(chars@.take(i as int)),
    {
        let c = chars[i];
        assert(chars@.take(i + 1).drop_last() =~= chars@.take(i as int));
        if c == '-' || c == '_' || c == '.' {
            if !last_was_sep && out.len() > 0 {
                out.push('-');
            }
            last_was_sep = true;
        } else {
            out.push(lower_ascii(c));
            last_was_sep = false;
        }
    }
    assert(chars@.take(n as int) =~= chars@);
    let mut end = out.len();
    assert(out@.take(end as int) =~= out@);
    while end > 0 && out[end - 1] == '-'
        invariant
            end <= out@.len(),
            normalized_pypi_name(name@) == trim_end_dashes(out@.take(end as int)),
        decreases end,
    {
        assert(out@.take(end as int).drop_last() =~= out@.take(end - 1));
        end -= 1;
    }
    let kept = sub_vec(&out, 0, end);
    assert(out@.subrange(0, end as int) =~= out@.take(end as int));
    string_of(&kept)
}

/// Builds the `pkg:<type>/...@<version>` purl (Package URL) string for a
/// component, the identifier that CycloneDX, OSV and most SBOM and
/// vulnerability tooling use to cross-reference one package across formats.
/// A scoped npm package (`@scope/name`) becomes a namespace and a name, the
/// `@` of the scope percent-encoded; a PyPI name is normalized.
pub fn purl_for(component: &Component) -> (purl: String)
    ensures
        purl@ == purl_of(component@),
{
    let name = component.name.as_str();
    let version = percent_encode(component.version.as_str());
    match component.ecosystem {
        Ecosystem::Cargo => {
            let mut s = String::from_str("pkg:cargo/");
            s.append(percent_encode(name).as_str());
            s.append("@");
            s.append(version.as_str());
            s
        },
        Ecosystem::Npm => {
            let chars = chars_of(name);
            match position_of(&chars, '/') {
                Some(i) => {
                    let scope = string_of(&sub_vec(&chars, 0, i));
                    let rest = string_of(&sub_vec(&chars, i + 1, chars.len()));
                    assert(chars@.subrange(0, i as int) =~= chars@.take(i as int));
                    assert(chars@.subrange(i + 1, chars@.len() as int) =~= chars@.skip(i + 1));
                    let mut s = String::from_str("pkg:npm/");
                    s.append(percent_encode(scope.as_str()).as_str());
                    s.append("/");
                    s.append(percent_encode(rest.as_str()).as_str());
                    s.append("@");
                    s.append(version.as_str());
                    s
                },
                None => {
                    let mut s = String::from_str("pkg:npm/");
                    s.append(percent_encode(name).as_str());
                    s.append("@");
                    s.append(version.as_str());
                    s
                },
            }
        },
        Ecosystem::PyPi => {
            let mut s = String::from_str("pkg:pypi/");
            s.append(normalize_pypi_name(name).as_str());
            s.append("@");
            s.append(version.as_str());
            s
        },
    }
}

// ---------------------------------------------------------------------- laws

/// No character of `s` is `@`, `+` or a space.
pub open spec fn free_of_reserved(s: Seq<char>) -> bool {
    forall|i: int| 0 <= i < s.len() ==> s[i] != '@' && s[i] != '+' && s[i] != ' '
}

/// Law: a percent-encoded name or version never holds `@`, `+` or a space, so
/// the `@` that a purl puts before the version is never confused with one
/// inside the version.
pub proof fn law_percent_encoded_has_no_reserved_characters(s: Seq<char>)
    ensures
        free_of_reserved(percent_encoded(s)),
    decreases s.len(),
{
    if s.len() > 0 {
        law_percent_encoded_has_no_reserved_characters(s.drop_last());
        let e = escape_char(s.last());
        let r = percent_encoded(s);
        let p = percent_encoded(s.drop_last());
        assert forall|i: int| 0 <= i < r.len() implies r[i] != '@' && r[i] != '+' && r[i] != ' ' by {
            if i < p.len() {
                assert(r[i] == p[i]);
            } else {
                assert(r[i] == e[i - p.len()]);
            }
        }
    }
}

/// Percent-decoding of what `percent_encode` writes: `%40`, `%2B` and
/// `%20` become `@`, `+` and space, every other character is kept.
pub open spec fn percent_decoded(s: Seq<char>) -> Seq<char>
    decreases s.len(),
{
    if s.len() >= 3 && s[0] == '%' && s[1] == '4' && s[2] == '0' {
        seq!['@'] + percent_decoded(s.skip(3))
    } else if s.len() >= 3 && s[0] == '%' && s[1] == '2' && s[2] == 'B' {
        seq!['+'] + percent_decoded(s.skip(3))
    } else if s.len() >= 3 && s[0] == '%' && s[1] == '2' && s[2] == '0' {
        seq![' '] + percent_decoded(s.skip(3))
    } else if s.len() == 0 {
        seq![]
    } else {
        seq![s[0]] + percent_decoded(s.drop_first())
    }
}

proof fn lemma_percent_encoded_prepend(c: char, s: Seq<char>)
    ensures
        percent_encoded(seq![c] + s) == escape_char(c) + percent_encoded(s),
    decreases s.len(),
{
    let u = seq![c] + s;
    if s.len() == 0 {
        assert(u.drop_last() =~= Seq::<char>::empty());
        assert(u.last() == c);
        assert(percent_encoded(u) == percent_encoded(u.drop_last()) + escape_char(c));
        assert(Seq::<char>::empty() + escape_char(c) =~= escape_char(c));
        assert(escape_char(c) + Seq::<char>::empty() =~= escape_char(c));
    } else {
        lemma_percent_encoded_prepend(c, s.drop_last());
        assert(u.drop_last() =~= seq![c] + s.drop_last());
        assert(u.last() == s.last());
        assert(percent_encoded(u) == percent_encoded(u.drop_last()) + escape_char(s.last()));
        assert(escape_char(c) + percent_encoded(s.drop_last()) + escape_char(s.last())
            =~= escape_char(c) + percent_encoded(s));
    }
}

/// Law: for a name or version without `%`, percent-decoding the encoded
/// form gives back the original characters.
pub proof fn law_percent_decoding_undoes_encoding(s: Seq<char>)
    requires
        !s.contains('%'),
    ensures
        percent_decoded(percent_encoded(s)) == s,
    decreases s.len(),
{
    if s.len() > 0 {
        let c = s[0];
        let t = s.drop_first();
        assert(seq![c] + t =~= s);
        assert(!t.contains('%')) by {
            if t.contains('%') {
                let k = choose|k: int| 0 <= k < t.len() && t[k] == '%';
                assert(s[k + 1] == '%');
            }
        }
        assert(c != '%') by {
            assert(s[0] == c);
        }
        lemma_percent_encoded_prepend(c, t);
        law_percent_decoding_undoes_encoding(t);
        let e = escape_char(c) + percent_encoded(t);
        if c == '@' || c == '+' || c == ' ' {
            assert(e.skip(3) =~= percent_encoded(t));
        } else {
            assert(e.drop_first() =~= percent_encoded(t));
        }
    }
}

/// Law: percent-encoding leaves a string without `@`, `+` and space
/// unchanged: every other character, `%` and non-ASCII ones included, is
/// kept as it is.
pub proof fn law_plain_text_is_not_escaped(s: Seq<char>)
    requires
        free_of_reserved(s),
    ensures
        percent_encoded(s) == s,
    decreases s.len(),
{
    if s.len() > 0 {
        let t = s.drop_last();
        assert(free_of_reserved(t)) by {
            assert forall|i: int| 0 <= i < t.len() implies t[i] != '@' && t[i] != '+' && t[i]
                != ' ' by {
                assert(t[i] == s[i]);
            }
        }
        law_plain_text_is_not_escaped(t);
        assert(s.last() == s[s.len() - 1]);
        assert(t.push(s.last()) =~= s);
    }
}

/// Law: the purl of a Cargo component is `pkg:cargo/`, then a name part,
/// `@`, and a version part, where the name part holds no `@` and
/// percent-decodes to the component's name, and the version part
/// percent-decodes to its version: the name is kept, only escaped.
pub proof fn law_cargo_purl_decodes_to_name_and_version(c: ComponentView)
    requires
        c.ecosystem == Ecosystem::Cargo,
        !c.name.contains('%'),
        !c.version.contains('%'),
    ensures
        exists|x: Seq<char>, y: Seq<char>|
            #![trigger percent_decoded(x), percent_decoded(y)]
            purl_of(c) == "pkg:cargo/"@ + x + "@"@ + y && free_of_reserved(x) && percent_decoded(x)
                == c.name && percent_decoded(y) == c.version,
{
    let x = percent_encoded(c.name);
    let y = percent_encoded(c.version);
    law_percent_encoded_has_no_reserved_characters(c.name);
    law_percent_decoding_undoes_encoding(c.name);
    law_percent_decoding_undoes_encoding(c.version);
    assert(purl_of(c) == "pkg:cargo/"@ + x + "@"@ + y);
}

/// Law: a Cargo component whose name and version need no escaping has the
/// purl `pkg:cargo/<name>@<version>`, its name and version written
/// character for character.
pub proof fn law_plain_cargo_purl(c: ComponentView)
    requires
        c.ecosystem == Ecosystem::Cargo,
        free_of_reserved(c.name),
        free_of_reserved(c.version),
    ensures
        purl_of(c) == "pkg:cargo/"@ + c.name + "@"@ + c.version,
{
    law_plain_text_is_not_escaped(c.name);
    law_plain_text_is_not_escaped(c.version);
}

/// Law: an npm component whose name and version need no escaping has the
/// purl `pkg:npm/<name>@<version>`, its name written character for
/// character, scope and `/` included.
pub proof fn law_plain_npm_purl(c: ComponentView)
    requires
        c.ecosystem == Ecosystem::Npm,
        free_of_reserved(c.name),
        free_of_reserved(c.version),
    ensures
        purl_of(c) == "pkg:npm/"@ + c.name + "@"@ + c.version,
{
    law_plain_text_is_not_escaped(c.name);
    law_plain_text_is_not_escaped(c.version);
    lemma_first_index_bounds(c.name, '/');
    if let Some(i) = first_index(c.name, '/') {
        let a = c.name.take(i);
        let b = c.name.skip(i + 1);
        assert(free_of_reserved(a)) by {
            assert forall|k: int| 0 <= k < a.len() implies a[k] != '@' && a[k] != '+' && a[k]
                != ' ' by {
                assert(a[k] == c.name[k]);
            }
        }
        assert(free_of_reserved(b)) by {
            assert forall|k: int| 0 <= k < b.len() implies b[k] != '@' && b[k] != '+' && b[k]
                != ' ' by {
                assert(b[k] == c.name[k + i + 1]);
            }
        }
        law_plain_text_is_not_escaped(a);
        law_plain_text_is_not_escaped(b);
        assert("/"@ =~= seq!['/']) by {
            reveal_strlit("/");
        }
        assert(a + "/"@ + b =~= c.name);
        assert("pkg:npm/"@ + a + "/"@ + b + "@"@ + c.version =~= "pkg:npm/"@ + (a + "/"@ + b)
            + "@"@ + c.version);
    }
}

/// `s` has a `-` at index `i` and at `i + 1`.
pub open spec fn dashes_at(s: Seq<char>, i: int) -> bool {
    s[i] == '-' && s[i + 1] == '-'
}

/// `s` is in normalized form: no ASCII upper case, no `_` or `.`, no `-` at
/// either end and never two `-` in a row.
pub open spec fn is_normalized_name(s: Seq<char>) -> bool {
    &&& forall|i: int|
        0 <= i < s.len() ==> s[i] != '_' && s[i] != '.' && !('A' <= s[i] && s[i] <= 'Z')
    &&& s.len() > 0 ==> s[0] != '-' && s.last() != '-'
    &&& forall|i: int| 0 <= i < s.len() - 1 ==> !#[trigger] dashes_at(s, i)
}

proof fn lemma_lower_ascii(c: char)
    ensures
        !('A' <= ascii_lower(c) && ascii_lower(c) <= 'Z'),
        c != '-' ==> ascii_lower(c) != '-',
        c != '_' ==> ascii_lower(c) != '_',
        c != '.' ==> ascii_lower(c) != '.',
        !('A' <= c && c <= 'Z') ==> ascii_lower(c) == c,
{
    if 'A' <= c && c <= 'Z' {
        let u = (c as u32) + 32;
        assert(97 <= u <= 122);
        assert((u as char) as u32 == u);
    }
}

proof fn lemma_scan_shape(s: Seq<char>)
    ensures
        ({
            let (out, last_was_sep) = pypi_scan(s);
            &&& forall|i: int|
                0 <= i < out.len() ==> out[i] != '_' && out[i] != '.' && !('A' <= out[i] && out[i]
                    <= 'Z')
            &&& out.len() > 0 ==> out[0] != '-'
            &&& forall|i: int| 0 <= i < out.len() - 1 ==> !#[trigger] dashes_at(out, i)
            &&& last_was_sep ==> out.len() == 0 || out.last() == '-'
            &&& !last_was_sep ==> out.len() == 0 || out.last() != '-'
        }),
    decreases s.len(),
{
    if s.len() > 0 {
        lemma_scan_shape(s.drop_last());
        lemma_lower_ascii(s.last());
        let (out, l) = pypi_scan(s.drop_last());
        let (out2, l2) = pypi_scan(s);
        assert forall|i: int| 0 <= i < out.len() implies out2[i] == out[i] by {}
        assert forall|i: int| 0 <= i < out2.len() - 1 implies !#[trigger] dashes_at(out2, i) by {
            if i < out.len() - 1 {
                assert(!dashes_at(out, i));
            }
        }
    }
}

proof fn lemma_trim_end_dashes(s: Seq<char>)
    ensures
        trim_end_dashes(s).len() <= s.len(),
        trim_end_dashes(s) == s.take(trim_end_dashes(s).len() as int),
        trim_end_dashes(s).len() > 0 ==> trim_end_dashes(s).last() != '-',
    decreases s.len(),
{
    if s.len() > 0 && s.last() == '-' {
        lemma_trim_end_dashes(s.drop_last());
        let t = trim_end_dashes(s);
        assert(s.drop_last().take(t.len() as int) =~= s.take(t.len() as int));
    } else {
        assert(s.take(s.len() as int) =~= s);
    }
}

/// Law: a normalized PyPI name is in normalized form.
pub proof fn law_normalized_name_is_normalized(name: Seq<char>)
    ensures
        is_normalized_name(normalized_pypi_name(name)),
{
    lemma_scan_shape(name);
    let out = pypi_scan(name).0;
    lemma_trim_end_dashes(out);
    let t = normalized_pypi_name(name);
    assert forall|i: int| 0 <= i < t.len() implies t[i] == out[i] by {}
    assert forall|i: int| 0 <= i < t.len() - 1 implies !#[trigger] dashes_at(t, i) by {
        assert(!dashes_at(out, i));
    }
}

proof fn lemma_scan_of_normalized(s: Seq<char>)
    requires
        forall|i: int|
            0 <= i < s.len() ==> s[i] != '_' && s[i] != '.' && !('A' <= s[i] && s[i] <= 'Z'),
        s.len() > 0 ==> s[0] != '-',
        forall|i: int| 0 <= i < s.len() - 1 ==> !#[trigger] dashes_at(s, i),
    ensures
        pypi_scan(s) == (s, s.len() > 0 && s.last() == '-'),
    decreases s.len(),
{
    if s.len() > 0 {
        let t = s.drop_last();
        assert forall|i: int| 0 <= i < t.len() - 1 implies !#[trigger] dashes_at(t, i) by {
            assert(!dashes_at(s, i));
        }
        lemma_scan_of_normalized(t);
        lemma_lower_ascii(s.last());
        if s.last() == '-' {
            if t.len() > 0 {
                assert(!dashes_at(s, t.len() - 1));
            }
        }
        assert(t.push(s.last()) =~= s);
    }
}

/// Law: normalizing a normalized PyPI name changes nothing.
pub proof fn law_normalization_is_idempotent(name: Seq<char>)
    ensures
        normalized_pypi_name(normalized_pypi_name(name)) == normalized_pypi_name(name),
{
    let t = normalized_pypi_name(name);
    law_normalized_name_is_normalized(name);
    lemma_scan_of_normalized(t);
}

/// `a` and `b` differ at most in ASCII case and in which separator stands
/// where: position by position, both are separators, or neither is and
/// they agree once lower-cased.
pub open spec fn names_equivalent(a: Seq<char>, b: Seq<char>) -> bool {
    &&& a.len() == b.len()
    &&& forall|i: int|
        0 <= i < a.len() ==> (is_name_separator(a[i]) && is_name_separator(b[i])) || (
        !is_name_separator(a[i]) && !is_name_separator(b[i]) && ascii_lower(a[i]) == ascii_lower(
            b[i],
        ))
}

proof fn lemma_scan_equivalent(a: Seq<char>, b: Seq<char>)
    requires
        names_equivalent(a, b),
    ensures
        pypi_scan(a) == pypi_scan(b),
    decreases a.len(),
{
    if a.len() > 0 {
        assert(names_equivalent(a.drop_last(), b.drop_last()));
        lemma_scan_equivalent(a.drop_last(), b.drop_last());
        assert(a.last() == a[a.len() - 1]);
    }
}

/// Law: PyPI names that differ only in ASCII case and in the choice of
/// separator (`Django_Rest-Framework`, `django.rest_framework`) normalize
/// alike.
pub proof fn law_normalization_ignores_case_and_separator_kind(a: Seq<char>, b: Seq<char>)
    requires
        names_equivalent(a, b),
    ensures
        normalized_pypi_name(a) == normalized_pypi_name(b),
{
    lemma_scan_equivalent(a, b);
}

proof fn lemma_trim_end_dashes_push(s: Seq<char>)
    ensures
        trim_end_dashes(s.push('-')) == trim_end_dashes(s),
{
    assert(s.push('-').drop_last() =~= s);
}

/// Law: separators at the end of a PyPI name do not change its normalized
/// form (`django_` and `django` normalize alike).
pub proof fn law_trailing_separator_ignored(name: Seq<char>, sep: char)
    requires
        is_name_separator(sep),
    ensures
        normalized_pypi_name(name.push(sep)) == normalized_pypi_name(name),
{
    assert(name.push(sep).drop_last() =~= name);
    lemma_trim_end_dashes_push(pypi_scan(name).0);
}

proof fn lemma_scan_leading_separator(s: Seq<char>, sep: char)
    requires
        is_name_separator(sep),
    ensures
        pypi_scan(seq![sep] + s).0 == pypi_scan(s).0,
        pypi_scan(seq![sep] + s).1 == pypi_scan(s).1 || pypi_scan(s).0.len() == 0,
    decreases s.len(),
{
    let u = seq![sep] + s;
    if s.len() == 0 {
        assert(u.drop_last() =~= Seq::<char>::empty());
        assert(u.last() == sep);
        assert(pypi_scan(Seq::<char>::empty()) == (Seq::<char>::empty(), false));
        assert(pypi_scan(u) == (Seq::<char>::empty(), true));
    } else {
        let t = s.drop_last();
        lemma_scan_leading_separator(t, sep);
        assert(u.drop_last() =~= seq![sep] + t);
        assert(u.last() == s.last());
        let (o1, f1) = pypi_scan(seq![sep] + t);
        let (o2, f2) = pypi_scan(t);
        assert(o1 == o2);
        assert(pypi_scan(u) == (if is_name_separator(s.last()) {
            if !f1 && o1.len() > 0 { (o1.push('-'), true) } else { (o1, true) }
        } else {
            (o1.push(ascii_lower(s.last())), false)
        }));
    }
}

/// Law: separators at the start of a PyPI name do not change its
/// normalized form.
pub proof fn law_leading_separator_ignored(name: Seq<char>, sep: char)
    requires
        is_name_separator(sep),
    ensures
        normalized_pypi_name(seq![sep] + name) == normalized_pypi_name(name),
{
    lemma_scan_leading_separator(name, sep);
}

proof fn lemma_scan_extend(x: Seq<char>, y: Seq<char>, b: Seq<char>)
    requires
        pypi_scan(x) == pypi_scan(y),
    ensures
        pypi_scan(x + b) == pypi_scan(y + b),
    decreases b.len(),
{
    if b.len() == 0 {
        assert(x + b =~= x);
        assert(y + b =~= y);
    } else {
        lemma_scan_extend(x, y, b.drop_last());
        assert((x + b).drop_last() =~= x + b.drop_last());
        assert((y + b).drop_last() =~= y + b.drop_last());
        assert((x + b).last() == b.last());
        assert((y + b).last() == b.last());
    }
}

/// Law: a run of separators counts as one separator: doubling a separator
/// anywhere in a PyPI name does not change its normalized form.
pub proof fn law_separator_runs_collapse(a: Seq<char>, s1: char, s2: char, b: Seq<char>)
    requires
        is_name_separator(s1),
        is_name_separator(s2),
    ensures
        normalized_pypi_name(a + seq![s1, s2] + b) == normalized_pypi_name(a + seq![s1] + b),
{
    let x = a + seq![s1, s2];
    let y = a + seq![s1];
    assert(x.drop_last() =~= y);
    assert(y.drop_last() =~= a);
    lemma_scan_extend(x, y, b);
}

/// `s` is not empty and its last character is not a separator.
pub open spec fn ends_in_word(s: Seq<char>) -> bool {
    s.len() > 0 && !is_name_separator(s.last())
}

/// The words of a PyPI name: its maximal runs of characters other than
/// `-`, `_` and `.`, each in ASCII lower case, in order.
pub open spec fn name_words(s: Seq<char>) -> Seq<Seq<char>>
    decreases s.len(),
{
    if s.len() == 0 {
        seq![]
    } else {
        let w = name_words(s.drop_last());
        let c = s.last();
        if is_name_separator(c) {
            w
        } else if ends_in_word(s.drop_last()) {
            w.drop_last().push(w.last().push(ascii_lower(c)))
        } else {
            w.push(seq![ascii_lower(c)])
        }
    }
}

/// Words joined by single `-`.
pub open spec fn join_words(ws: Seq<Seq<char>>) -> Seq<char>
    decreases ws.len(),
{
    if ws.len() == 0 {
        seq![]
    } else if ws.len() == 1 {
        ws[0]
    } else {
        join_words(ws.drop_last()) + seq!['-'] + ws.last()
    }
}

/// Every word is non-empty and holds no separator.
pub open spec fn proper_words(ws: Seq<Seq<char>>) -> bool {
    forall|i: int|
        0 <= i < ws.len() ==> (#[trigger] ws[i]).len() > 0 && forall|j: int|
            0 <= j < ws[i].len() ==> !is_name_separator(ws[i][j])
}

proof fn lemma_join_push(ws: Seq<Seq<char>>, v: Seq<char>)
    ensures
        join_words(ws.push(v)) == if ws.len() == 0 {
            v
        } else {
            join_words(ws) + seq!['-'] + v
        },
{
    assert(ws.push(v).drop_last() =~= ws);
}

proof fn lemma_join_extend_last(ws: Seq<Seq<char>>, x: char)
    requires
        ws.len() > 0,
    ensures
        join_words(ws.drop_last().push(ws.last().push(x))) == join_words(ws).push(x),
{
    let init = ws.drop_last();
    lemma_join_push(init, ws.last().push(x));
    lemma_join_push(init, ws.last());
    assert(init.push(ws.last()) =~= ws);
    if init.len() > 0 {
        assert(join_words(init) + seq!['-'] + ws.last().push(x) =~= (join_words(init) + seq!['-']
            + ws.last()).push(x));
    }
}

proof fn lemma_join_last(ws: Seq<Seq<char>>)
    requires
        ws.len() > 0,
        proper_words(ws),
    ensures
        join_words(ws).len() > 0,
        join_words(ws).last() == ws.last().last(),
{
    assert(ws.last().len() > 0) by {
        assert(ws[ws.len() - 1].len() > 0);
    }
    if ws.len() > 1 {
        let a = join_words(ws.drop_last()) + seq!['-'];
        assert((a + ws.last()).last() == ws.last().last());
    }
}

proof fn lemma_scan_words(s: Seq<char>)
    ensures
        pypi_scan(s).1 == (s.len() > 0 && is_name_separator(s.last())),
        ends_in_word(s) ==> name_words(s).len() > 0,
        proper_words(name_words(s)),
        pypi_scan(s).0 == join_words(name_words(s)) + if pypi_scan(s).1 && name_words(s).len()
            > 0 {
            seq!['-']
        } else {
            seq![]
        },
    decreases s.len(),
{
    if s.len() == 0 {
        assert(join_words(name_words(s)) + seq![] =~= seq![]);
    } else {
        let t = s.drop_last();
        let c = s.last();
        lemma_scan_words(t);
        lemma_lower_ascii(c);
        let w = name_words(t);
        let (out, f) = pypi_scan(t);
        let w2 = name_words(s);
        if is_name_separator(c) {
            if !f && w.len() > 0 {
                lemma_join_last(w);
                assert(join_words(w) + seq![] =~= join_words(w));
            }
            if !f && w.len() == 0 {
                assert(join_words(w) + seq![] =~= join_words(w));
            }
            if f {
                assert(w2 == w);
            }
        } else {
            let lc = ascii_lower(c);
            assert(!is_name_separator(lc));
            if ends_in_word(t) {
                lemma_join_extend_last(w, lc);
                assert(out =~= join_words(w));
                let nw = w.last().push(lc);
                assert forall|j: int| 0 <= j < nw.len() implies !is_name_separator(nw[j]) by {
                    if j < w.last().len() {
                        assert(w[w.len() - 1] == w.last());
                    }
                }
                assert forall|i: int| 0 <= i < w2.len() implies (#[trigger] w2[i]).len() > 0
                    && forall|j: int| 0 <= j < w2[i].len() ==> !is_name_separator(w2[i][j]) by {
                    if i < w.len() - 1 {
                        assert(w2[i] == w[i]);
                    } else {
                        assert(w2[i] == nw);
                    }
                }
                assert(join_words(w2) + seq![] =~= join_words(w2));
            } else {
                lemma_join_push(w, seq![lc]);
                assert forall|i: int| 0 <= i < w2.len() implies (#[trigger] w2[i]).len() > 0
                    && forall|j: int| 0 <= j < w2[i].len() ==> !is_name_separator(w2[i][j]) by {
                    if i < w.len() {
                        assert(w2[i] == w[i]);
                    }
                }
                if w.len() > 0 {
                    assert(out.push(lc) =~= join_words(w) + seq!['-'] + seq![lc]);
                } else {
                    assert(out.push(lc) =~= seq![lc]);
                }
                assert(join_words(w2) + seq![] =~= join_words(w2));
            }
        }
    }
}

/// Law: the normalized form of a PyPI name is its words joined by `-`.
pub proof fn law_normalized_name_is_joined_words(name: Seq<char>)
    ensures
        normalized_pypi_name(name) == join_words(name_words(name)),
{
    lemma_scan_words(name);
    let w = name_words(name);
    let j = join_words(w);
    let (out, f) = pypi_scan(name);
    if w.len() > 0 {
        lemma_join_last(w);
        assert(w.last() == w[w.len() - 1]);
        assert(j.last() != '-');
    }
    if f && w.len() > 0 {
        assert(out =~= j.push('-'));
        lemma_trim_end_dashes_push(j);
    } else {
        assert(out =~= j);
    }
}

/// Law: PyPI names with the same words normalize alike, however they
/// differ in ASCII case, in which separators and how many of them stand
/// between two words, and in separators at either end (`Django`, `django`,
/// `django_`, `_Django__`).
pub proof fn law_same_words_same_normalized_name(a: Seq<char>, b: Seq<char>)
    requires
        name_words(a) == name_words(b),
    ensures
        normalized_pypi_name(a) == normalized_pypi_name(b),
{
    law_normalized_name_is_joined_words(a);
    law_normalized_name_is_joined_words(b);
}

/// Law: two PyPI components with the same version whose names have the same
/// words get the same purl.
pub proof fn law_pypi_purl_depends_on_words_only(a: ComponentView, b: ComponentView)
    requires
        a.ecosystem == Ecosystem::PyPi,
        b.ecosystem == Ecosystem::PyPi,
        name_words(a.name) == name_words(b.name),
        a.version == b.version,
    ensures
        purl_of(a) == purl_of(b),
{
    law_same_words_same_normalized_name(a.name, b.name);
}

/// `s` with each character `c` replaced by `t(c)`.
pub open spec fn respelled(s: Seq<char>, t: spec_fn(char) -> Seq<char>) -> Seq<char>
    decreases s.len(),
{
    if s.len() == 0 {
        seq![]
    } else {
        respelled(s.drop_last(), t) + t(s.last())
    }
}

/// `tc` can stand for `c` in a PyPI name: one or more separators for a
/// separator, and for any other character one character that is not a
/// separator and agrees with it once lower-cased.
pub open spec fn spells_alike(c: char, tc: Seq<char>) -> bool {
    if is_name_separator(c) {
        tc.len() > 0 && forall|j: int| 0 <= j < tc.len() ==> is_name_separator(#[trigger] tc[j])
    } else {
        tc.len() == 1 && !is_name_separator(tc[0]) && ascii_lower(tc[0]) == ascii_lower(c)
    }
}

/// `t` keeps a PyPI name's spelling: it replaces each character by
/// something that spells alike.
pub open spec fn keeps_spelling(t: spec_fn(char) -> Seq<char>) -> bool {
    forall|c: char| #[trigger] spells_alike(c, t(c))
}

proof fn lemma_scan_separator_run(x: Seq<char>, q: Seq<char>)
    requires
        q.len() > 0,
        forall|j: int| 0 <= j < q.len() ==> is_name_separator(q[j]),
    ensures
        pypi_scan(x + q) == pypi_scan(x.push('-')),
    decreases q.len(),
{
    assert((x + q).drop_last() =~= x + q.drop_last());
    assert((x + q).last() == q.last());
    assert(x.push('-').drop_last() =~= x);
    if q.len() == 1 {
        assert(x + q.drop_last() =~= x);
    } else {
        lemma_scan_separator_run(x, q.drop_last());
    }
}

proof fn lemma_scan_respelled(s: Seq<char>, t: spec_fn(char) -> Seq<char>)
    requires
        keeps_spelling(t),
    ensures
        pypi_scan(respelled(s, t)) == pypi_scan(s),
    decreases s.len(),
{
    if s.len() > 0 {
        let p = s.drop_last();
        let c = s.last();
        let r = respelled(p, t);
        lemma_scan_respelled(p, t);
        let tc = t(c);
        assert(spells_alike(c, tc));
        if is_name_separator(c) {
            lemma_scan_separator_run(r, tc);
            lemma_scan_extend(r, p, seq!['-']);
            assert(r + seq!['-'] =~= r.push('-'));
            assert(p + seq!['-'] =~= p.push('-'));
            assert(p.push('-').drop_last() =~= p);
            assert(p.push(c) =~= s);
        } else {
            assert(r + tc =~= r.push(tc[0]));
            assert(r.push(tc[0]).drop_last() =~= r);
            lemma_lower_ascii(c);
            lemma_lower_ascii(tc[0]);
        }
    }
}

/// Law: a respelling that keeps each word's letters up to ASCII case and
/// turns each separator into one or more separators does not change the
/// normalized form of a PyPI name.
pub proof fn law_respelling_keeps_normalized_name(name: Seq<char>, t: spec_fn(char) -> Seq<char>)
    requires
        keeps_spelling(t),
    ensures
        normalized_pypi_name(respelled(name, t)) == normalized_pypi_name(name),
{
    lemma_scan_respelled(name, t);
}

/// ASCII lower-case letters mapped to upper case, every other character
/// kept (`char::to_ascii_uppercase`).
pub open spec fn ascii_upper(c: char) -> char {
    if 'a' <= c && c <= 'z' {
        ((c as u32) - 32) as char
    } else {
        c
    }
}

/// Law: upper-casing a PyPI name (`to_ascii_uppercase`) does not change its
/// normalized form.
pub proof fn law_upper_casing_keeps_normalized_name(name: Seq<char>)
    ensures
        normalized_pypi_name(respelled(name, |c: char| seq![ascii_upper(c)]))
            == normalized_pypi_name(name),
{
    let t = |c: char| seq![ascii_upper(c)];
    assert forall|c: char| #[trigger] spells_alike(c, t(c)) by {
        if 'a' <= c && c <= 'z' {
            let u = (c as u32) - 32;
            assert(65 <= u <= 90);
            assert((u as char) as u32 == u);
            let v = (ascii_upper(c) as u32) + 32;
            assert((v as char) as u32 == v);
            assert((v as char) == c);
        }
    }
    law_respelling_keeps_normalized_name(name, t);
}

/// Law: writing every `_` as `.` and every `-` as `__`
/// (`name.replace('_', ".").replace('-', "__")`) does not change the
/// normalized form of a PyPI name.
pub proof fn law_separator_respelling_keeps_normalized_name(name: Seq<char>)
    ensures
        normalized_pypi_name(
            respelled(
                name,
                |c: char|
                    if c == '_' {
                        seq!['.']
                    } else if c == '-' {
                        seq!['_', '_']
                    } else {
                        seq![c]
                    },
            ),
        ) == normalized_pypi_name(name),
{
    let t = |c: char|
        if c == '_' {
            seq!['.']
        } else if c == '-' {
            seq!['_', '_']
        } else {
            seq![c]
        };
    assert forall|c: char| #[trigger] spells_alike(c, t(c)) by {}
    law_respelling_keeps_normalized_name(name, t);
}

/// Law: two PyPI components whose names differ only in ASCII case and in
/// the choice of separator, with the same version, get the same purl.
pub proof fn law_pypi_purl_ignores_case_and_separator_kind(a: ComponentView, b: ComponentView)
    requires
        a.ecosystem == Ecosystem::PyPi,
        b.ecosystem == Ecosystem::PyPi,
        names_equivalent(a.name, b.name),
        a.version == b.version,
    ensures
        purl_of(a) == purl_of(b),
{
    law_normalization_ignores_case_and_separator_kind(a.name, b.name);
}

} // verus!
