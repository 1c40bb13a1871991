//! The CycloneDX 1.5 document built from a component list.
use vstd::prelude::*;

use crate::lockfile::{views, Component, ComponentView};
use crate::purl::{purl_for, purl_of};

verus! {

/// A CycloneDX 1.5 JSON document: `bomFormat`, `specVersion`,
/// `serialNumber`, `version`, `metadata` and `components`.
#[derive(Debug)]
pub struct Bom {
    pub bom_format: &'static str,
    pub spec_version: &'static str,
    pub serial_number: String,
    pub version: u32,
    pub metadata: Metadata,
    pub components: Vec<ComponentEntry>,
}

/// The document's `metadata`.
#[derive(Debug)]
pub struct Metadata {
    pub timestamp: String,
}

/// One entry of the document's `components` array.
#[derive(Debug)]
pub struct ComponentEntry {
    pub component_type: &'static str,
    pub bom_ref: String,
    pub name: String,
    pub version: String,
    pub purl: String,
}

/// Two components have the same name and the same version.
pub open spec fn same_key(a: ComponentView, b: ComponentView) -> bool {
    a.name == b.name && a.version == b.version
}

/// Some component of `cs` has the name and version of `c`.
pub open spec fn key_seen(cs: Seq<ComponentView>, c: ComponentView) -> bool {
    exists|i: int| 0 <= i < cs.len() && same_key(cs[i], c)
}

/// The components of `cs` that no earlier component shares a name and
/// version with, in their order in `cs`.
pub open spec fn first_occurrences(cs: Seq<ComponentView>) -> Seq<ComponentView>
    decreases cs.len(),
{
    if cs.len() == 0 {
        seq![]
    } else if key_seen(cs.drop_last(), cs.last()) {
        first_occurrences(cs.drop_last())
    } else {
        first_occurrences(cs.drop_last()).push(cs.last())
    }
}

/// `e` is the document entry for component `c`: of type `library`, with
/// its name, version and purl, and the purl as its `bom-ref`.
pub open spec fn entry_for(e: ComponentEntry, c: ComponentView) -> bool {
    &&& e.component_type@ == "library"@
    &&& e.name@ == c.name
    &&& e.version@ == c.version
    &&& e.purl@ == purl_of(c)
    &&& e.bom_ref@ == e.purl@
}

/// The name and version of a component are among those of the first
/// occurrences exactly where they are among the components.
pub proof fn lemma_key_seen_first_occurrences(cs: Seq<ComponentView>, c: ComponentView)
    ensures
        key_seen(first_occurrences(cs), c) == key_seen(cs, c),
    decreases cs.len(),
{
    if cs.len() > 0 {
        let init = cs.drop_last();
        lemma_key_seen_first_occurrences(init, c);
        lemma_key_seen_first_occurrences(init, cs.last());
        let fo = first_occurrences(cs);
        let fi = first_occurrences(init);
        if key_seen(cs, c) {
            let i = choose|i: int| 0 <= i < cs.len() && same_key(cs[i], c);
            if i < cs.len() - 1 {
                assert(init[i] == cs[i]);
                assert(key_seen(fi, c));
                let k = choose|k: int| 0 <= k < fi.len() && same_key(fi[k], c);
                assert(fo[k] == fi[k]);
            } else if key_seen(init, cs.last()) {
                let k = choose|k: int| 0 <= k < fi.len() && same_key(fi[k], cs.last());
                assert(fo[k] == fi[k]);
                assert(same_key(fo[k], c));
            } else {
                assert(fo[fi.len() as int] == cs.last());
            }
        }
        if key_seen(fo, c) {
            let k = choose|k: int| 0 <= k < fo.len() && same_key(fo[k], c);
            if k < fi.len() {
                assert(fi[k] == fo[k]);
                assert(key_seen(fi, c));
                let i = choose|i: int| 0 <= i < init.len() && same_key(init[i], c);
                assert(cs[i] == init[i]);
            } else {
                assert(same_key(cs[cs.len() - 1], c));
            }
        }
    }
}

/// Whether an entry of `entries` has this name and version.
fn has_entry(entries: &Vec<ComponentEntry>, name: &String, version: &String) -> (b: bool)
    ensures
        b == exists|k: int|
            0 <= k < entries@.len() && entries@[k].name@ == name@ && entries@[k].version@
                == version@,
{
    let n = entries.len();
    for j in 0..n
        invariant
            n == entries@.len(),
            forall|k: int|
                0 <= k < j ==> !(entries@[k].name@ == name@ && entries@[k].version@ == version@),
    {
        if entries[j].name == *name && entries[j].version == *version {
            return true;
        }
    }
    false
}

/// Builds a CycloneDX 1.5 JSON document from a resolved component list:
/// one `library` entry per distinct name and version, in the order of their
/// first occurrence, each with its purl as `bom-ref`. `timestamp` and
/// `serial_number` are taken as given rather than computed here, so that
/// the document is a function of the arguments.
pub fn build_bom(components: &[Component], timestamp: String, serial_number: String) -> (bom: Bom)
    ensures
        bom.bom_format@ == "CycloneDX"@,
        bom.spec_version@ == "1.5"@,
        bom.serial_number == serial_number,
        bom.version == 1,
        bom.metadata.timestamp == timestamp,
        bom.components@.len() == first_occurrences(views(components@)).len(),
        forall|i: int|
            0 <= i < bom.components@.len() ==> entry_for(
                #[trigger] bom.components@[i],
                first_occurrences(views(components@))[i],
            ),
{
    let n = components.len();
    let mut entries: Vec<ComponentEntry> = Vec::new();
    for i in 0..n
        invariant
            n == components@.len(),
            entries@.len() == first_occurrences(views(components@.take(i as int))).len(),
            forall|k: int|
                0 <= k < entries@.len() ==> entry_for(
                    #[trigger] entries@[k],
                    first_occurrences(views(components@.take(i as int)))[k],
                ),
    {
        let c = &components[i];
        let ghost prefix = views(components@.take(i as int));
        let ghost fo = first_occurrences(prefix);
        assert(views(components@.take(i + 1)) =~= prefix.push(c@));
        assert(views(components@.take(i + 1)).drop_last() =~= prefix);
        let seen = has_entry(&entries, &c.name, &c.version);
        proof {
            lemma_key_seen_first_occurrences(prefix, c@);
            if seen {
                let k = choose|k: int|
                    0 <= k < entries@.len() && entries@[k].name@ == c.name@ && entries@[k].version@
                        == c.version@;
                assert(entry_for(entries@[k], fo[k]));
                assert(same_key(fo[k], c@));
            }
            if key_seen(fo, c@) {
                let k = choose|k: int| 0 <= k < fo.len() && same_key(fo[k], c@);
                assert(entry_for(entries@[k], fo[k]));
            }
        }
        if !seen {
            let purl = purl_for(c);
            let entry = ComponentEntry {
                component_type: "library",
                bom_ref: purl.clone(),
                name: c.name.clone(),
                version: c.version.clone(),
                purl,
            };
            entries.push(entry);
        }
    }
    assert(components@.take(n as int) =~= components@);
    Bom {
        bom_format: "CycloneDX",
        spec_version: "1.5",
        serial_number,
        version: 1,
        metadata: Metadata { timestamp },
        components: entries,
    }
}

// ---------------------------------------------------------------------- laws

/// Law: no two entries of the document share a name and a version.
pub proof fn law_entries_are_distinct(cs: Seq<ComponentView>)
    ensures
        forall|i: int, j: int|
            0 <= i < j < first_occurrences(cs).len() ==> !same_key(
                #[trigger] first_occurrences(cs)[i],
                #[trigger] first_occurrences(cs)[j],
            ),
    decreases cs.len(),
{
    if cs.len() > 0 {
        let init = cs.drop_last();
        law_entries_are_distinct(init);
        lemma_key_seen_first_occurrences(init, cs.last());
        let fi = first_occurrences(init);
        let fo = first_occurrences(cs);
        if !key_seen(init, cs.last()) {
            assert forall|i: int, j: int| 0 <= i < j < fo.len() implies !same_key(
                #[trigger] fo[i],
                #[trigger] fo[j],
            ) by {
                if j == fi.len() {
                    assert(fo[i] == fi[i]);
                    assert(!same_key(fi[i], cs.last()));
                } else {
                    assert(fo[i] == fi[i] && fo[j] == fi[j]);
                }
            }
        }
    }
}

/// Law: every component of the list is described by an entry of the
/// document: some entry has its name and version.
pub proof fn law_every_component_listed(cs: Seq<ComponentView>, i: int)
    requires
        0 <= i < cs.len(),
    ensures
        key_seen(first_occurrences(cs), cs[i]),
{
    lemma_key_seen_first_occurrences(cs, cs[i]);
    assert(same_key(cs[i], cs[i]));
}

/// Law: each entry of the document is the first component of the list with
/// its name and version.
pub proof fn law_entries_are_first_occurrences(cs: Seq<ComponentView>, k: int)
    requires
        0 <= k < first_occurrences(cs).len(),
    ensures
        exists|i: int|
            0 <= i < cs.len() && cs[i] == first_occurrences(cs)[k] && !key_seen(
                cs.take(i),
                cs[i],
            ),
    decreases cs.len(),
{
    let init = cs.drop_last();
    let fi = first_occurrences(init);
    if k < fi.len() {
        law_entries_are_first_occurrences(init, k);
        let i = choose|i: int|
            0 <= i < init.len() && init[i] == fi[k] && !key_seen(init.take(i), init[i]);
        assert(init.take(i) =~= cs.take(i));
        assert(cs[i] == init[i]);
    } else {
        let i = cs.len() - 1;
        assert(cs.take(i) =~= init);
        assert(cs[i] == first_occurrences(cs)[k]);
    }
}

/// Law: the entry for a component is a `library` entry carrying the
/// component's own name and version, its purl, and that same purl as its
/// `bom-ref`.
pub proof fn law_entry_carries_component_and_purl(e: ComponentEntry, c: ComponentView)
    requires
        entry_for(e, c),
    ensures
        e.component_type@ == "library"@,
        e.name@ == c.name,
        e.version@ == c.version,
        e.purl@ == purl_of(c),
        e.bom_ref@ == purl_of(c),
{
}

/// Law: a list whose components all differ in name or version loses none:
/// the document lists each of them, in order.
pub proof fn law_distinct_components_all_kept(cs: Seq<ComponentView>)
    requires
        forall|i: int, j: int| 0 <= i < j < cs.len() ==> !same_key(#[trigger] cs[i], #[trigger] cs[j]),
    ensures
        first_occurrences(cs) == cs,
    decreases cs.len(),
{
    if cs.len() > 0 {
        let init = cs.drop_last();
        assert forall|i: int, j: int| 0 <= i < j < init.len() implies !same_key(
            #[trigger] init[i],
            #[trigger] init[j],
        ) by {
            assert(init[i] == cs[i] && init[j] == cs[j]);
        }
        law_distinct_components_all_kept(init);
        if key_seen(init, cs.last()) {
            let i = choose|i: int| 0 <= i < init.len() && same_key(init[i], cs.last());
            assert(same_key(cs[i], cs[cs.len() - 1]));
        }
        assert(init.push(cs.last()) =~= cs);
    }
}

} // verus!
