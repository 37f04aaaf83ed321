//! Laws of manifests: what holds of reading, changing and writing taken
//! together.

use crate::entries::{
    distinct_keys,
    has_key,
    index_of,
    key_at,
    lemma_index_unique,
    lemma_put_sorted_holds,
    lemma_sorted_distinct,
    lemma_without_key_twice,
    lookup,
    put_sorted,
    sorted_keys,
    without_key,
};
use crate::json::Json;
use crate::manifest::{
    dependency_key,
    DependencyKind,
    emitted,
    kind_of_key,
    Manifest,
    read_entries,
    read_manifest,
    recognized,
    text_object,
    written_entries,
    written_upto,
};
use crate::manifest_proofs::{lemma_keys_differ, lemma_sections_wf};
use crate::round_trip::{from_place, lemma_written_upto, placed};
use vstd::prelude::*;

verus! {

/// Taking a dependency out twice is taking it out once.
pub proof fn law_remove_dep_idempotent(manifest: Manifest, name: Seq<char>)
    requires
        manifest.wf(),
    ensures
        manifest.without_dep(name).without_dep(name) == manifest.without_dep(name),
{
    assert(sorted_keys(manifest.section(DependencyKind::Normal)));
    assert(sorted_keys(manifest.section(DependencyKind::Dev)));
    assert(sorted_keys(manifest.section(DependencyKind::Peer)));
    assert(sorted_keys(manifest.section(DependencyKind::Optional)));
    lemma_sorted_distinct(manifest.dependencies);
    lemma_sorted_distinct(manifest.dev_dependencies);
    lemma_sorted_distinct(manifest.peer_dependencies);
    lemma_sorted_distinct(manifest.optional_dependencies);
    lemma_without_key_twice(manifest.dependencies, name);
    lemma_without_key_twice(manifest.dev_dependencies, name);
    lemma_without_key_twice(manifest.peer_dependencies, name);
    lemma_without_key_twice(manifest.optional_dependencies, name);
}

/// While the entries read so far lack the key of a kind of dependency,
/// the section of that kind is empty.
proof fn lemma_absent_section_empty(entries: Seq<(Seq<char>, Json)>, kind: DependencyKind)
    requires
        !has_key(entries, dependency_key(kind)),
        read_entries(entries) is Ok,
    ensures
        read_entries(entries)->Ok_0.rest.section(kind).len() == 0,
    decreases entries.len(),
{
    if entries.len() > 0 {
        let front = entries.drop_last();
        if has_key(front, dependency_key(kind)) {
            let i = index_of(front, dependency_key(kind));
            assert(key_at(front, dependency_key(kind), i));
            assert(key_at(entries, dependency_key(kind), i));
        }
        lemma_absent_section_empty(front, kind);
        lemma_keys_differ();
        assert(key_at(entries, entries.last().0, entries.len() - 1));
    }
}

/// A document without the key of a kind of dependency declares a manifest
/// whose section of that kind is empty.
pub proof fn law_absent_section_is_empty(entries: Seq<(Seq<char>, Json)>, kind: DependencyKind)
    requires
        read_manifest(entries) is Ok,
        !has_key(entries, dependency_key(kind)),
    ensures
        read_manifest(entries)->Ok_0.section(kind).len() == 0,
{
    lemma_absent_section_empty(entries, kind);
}

/// A manifest whose section of one kind is empty is written without the
/// key of that kind.
pub proof fn law_empty_section_not_written(manifest: Manifest, kind: DependencyKind)
    requires
        manifest.wf(),
        manifest.section(kind).len() == 0,
    ensures
        !has_key(written_entries(manifest), dependency_key(kind)),
{
    lemma_not_written_upto(manifest, kind, manifest.storage.len() as int);
}

proof fn lemma_not_written_upto(manifest: Manifest, kind: DependencyKind, upto: int)
    requires
        manifest.wf(),
        manifest.section(kind).len() == 0,
        0 <= upto <= manifest.storage.len(),
    ensures
        !has_key(written_upto(manifest, upto), dependency_key(kind)),
    decreases upto,
{
    let key = dependency_key(kind);
    let out = written_upto(manifest, upto);
    if has_key(out, key) {
        let i = index_of(out, key);
        assert(key_at(out, key, i));
        if upto > 0 {
            lemma_not_written_upto(manifest, kind, upto - 1);
            let before = written_upto(manifest, upto - 1);
            let place = manifest.storage[upto - 1];
            lemma_keys_differ();
            if i < before.len() {
                assert(key_at(before, key, i));
            } else {
                assert(place.0 == key);
                assert(place.1 is Known);
            }
        }
    }
}

/// No key introduction: a document that lacks the key of a kind of
/// dependency is read and written back without that key.
pub proof fn law_no_key_introduction(entries: Seq<(Seq<char>, Json)>, kind: DependencyKind)
    requires
        read_manifest(entries) is Ok,
        !has_key(entries, dependency_key(kind)),
    ensures
        !has_key(written_entries(read_manifest(entries)->Ok_0), dependency_key(kind)),
{
    crate::manifest_proofs::lemma_read_manifest_wf(entries);
    law_absent_section_is_empty(entries, kind);
    law_empty_section_not_written(read_manifest(entries)->Ok_0, kind);
}

/// The section of the kind that `with_dep` changes.
pub open spec fn added_to(dev: bool) -> DependencyKind {
    if dev {
        DependencyKind::Dev
    } else {
        DependencyKind::Normal
    }
}

/// Taking a key out of a list and one more entry under another key.
proof fn lemma_without_key_push<V>(entries: Seq<(Seq<char>, V)>, entry: (Seq<char>, V), key: Seq<char>)
    requires
        distinct_keys(entries.push(entry)),
    ensures
        entry.0 != key ==> without_key(entries.push(entry), key) == without_key(entries, key).push(
            entry,
        ),
        entry.0 == key ==> without_key(entries.push(entry), key) == entries && !has_key(
            entries,
            key,
        ),
{
    let longer = entries.push(entry);
    if has_key(entries, key) {
        let at = index_of(entries, key);
        assert(key_at(entries, key, at));
        assert(key_at(longer, key, at));
        assert(longer[at].0 != longer[entries.len() as int].0);
        lemma_index_unique(longer, key, at);
        assert(without_key(longer, key) =~= without_key(entries, key).push(entry));
    } else if entry.0 == key {
        assert(key_at(longer, key, entries.len() as int));
        lemma_index_unique(longer, key, entries.len() as int);
        assert(without_key(longer, key) =~= entries);
    } else {
        if has_key(longer, key) {
            let at = index_of(longer, key);
            assert(key_at(longer, key, at));
            assert(key_at(entries, key, at));
        }
    }
}

/// What the first `upto` places contribute before and after a dependency
/// was added differs in the section of its kind only.
proof fn lemma_add_upto(manifest: Manifest, name: Seq<char>, version: Seq<char>, dev: bool, upto: int)
    requires
        manifest.wf(),
        0 <= upto <= manifest.storage.len(),
    ensures
        without_key(
            written_upto(manifest.with_dep(name, version, dev), upto),
            dependency_key(added_to(dev)),
        ) == without_key(written_upto(manifest, upto), dependency_key(added_to(dev))),
        forall|at: int|
            0 <= at < upto && key_at(manifest.storage, dependency_key(added_to(dev)), at)
                ==> lookup(
                written_upto(manifest.with_dep(name, version, dev), upto),
                dependency_key(added_to(dev)),
            ) == Some(
                text_object(put_sorted(manifest.section(added_to(dev)), name, version)),
            ),
    decreases upto,
{
    lemma_keys_differ();
    let after = manifest.with_dep(name, version, dev);
    let key = dependency_key(added_to(dev));
    if upto > 0 {
        lemma_add_upto(manifest, name, version, dev, upto - 1);
        lemma_written_upto(manifest, upto);
        lemma_written_upto(after, upto);
        lemma_written_upto(manifest, upto - 1);
        lemma_written_upto(after, upto - 1);
        let place = manifest.storage[upto - 1];
        let old_before = written_upto(manifest, upto - 1);
        let new_before = written_upto(after, upto - 1);
        let old_now = written_upto(manifest, upto);
        let new_now = written_upto(after, upto);
        assert(place.1 is Known <==> recognized(place.0));
        if place.0 == key {
            let section = put_sorted(manifest.section(added_to(dev)), name, version);
            lemma_sections_wf(manifest);
            lemma_put_sorted_holds(manifest.section(added_to(dev)), name, version);
            assert(after.section(added_to(dev)) == section);
            assert(new_now == new_before.push((key, text_object(section))));
            lemma_without_key_push(new_before, (key, text_object(section)), key);
            assert(key_at(new_now, key, new_before.len() as int));
            lemma_index_unique(new_now, key, new_before.len() as int);
            if emitted(manifest, place.0, place.1) is Some {
                lemma_without_key_push(old_before, old_now.last(), key);
            } else {
                assert(!has_key(old_before, key)) by {
                    if has_key(old_before, key) {
                        let i = index_of(old_before, key);
                        assert(key_at(old_before, key, i));
                        assert(placed(manifest, old_before[i], upto - 1));
                        let j = choose|j: int| j < upto - 1 && from_place(manifest, old_before[i], j);
                        assert(manifest.storage[j].0 != manifest.storage[upto - 1].0);
                    }
                }
            }
            assert forall|at: int|
                0 <= at < upto && key_at(manifest.storage, key, at) implies lookup(new_now, key)
                == Some(text_object(section)) by {}
        } else {
            assert(emitted(after, place.0, place.1) == emitted(manifest, place.0, place.1)) by {
                if kind_of_key(place.0) is Some {
                    let kind = kind_of_key(place.0)->Some_0;
                    assert(place.0 == dependency_key(kind));
                    assert(kind != added_to(dev));
                    assert(after.section(kind) == manifest.section(kind));
                }
            }
            if emitted(manifest, place.0, place.1) is Some {
                lemma_without_key_push(old_before, old_now.last(), key);
                lemma_without_key_push(new_before, new_now.last(), key);
                assert forall|at: int|
                    0 <= at < upto && key_at(manifest.storage, key, at) implies lookup(new_now, key)
                    == Some(
                    text_object(put_sorted(manifest.section(added_to(dev)), name, version)),
                ) by {
                    assert(at < upto - 1);
                    assert(has_key(new_before, key)) by {
                        if !has_key(new_before, key) {
                            assert(lookup(new_before, key) is None);
                        }
                    }
                    let i = index_of(new_before, key);
                    assert(key_at(new_before, key, i));
                    lemma_index_unique(new_before, key, i);
                    assert(key_at(new_now, key, i));
                    lemma_index_unique(new_now, key, i);
                }
            }
        }
    }
}

/// Adding a dependency changes what is written in one place only: the
/// section of its kind then holds the dependency, and every other key is
/// written with its value where it was.
pub proof fn law_add_keeps_other_keys(
    manifest: Manifest,
    name: Seq<char>,
    version: Seq<char>,
    dev: bool,
)
    requires
        manifest.wf(),
    ensures
        without_key(
            written_entries(manifest.with_dep(name, version, dev)),
            dependency_key(added_to(dev)),
        ) == without_key(written_entries(manifest), dependency_key(added_to(dev))),
        lookup(
            written_entries(manifest.with_dep(name, version, dev)),
            dependency_key(added_to(dev)),
        ) == Some(text_object(put_sorted(manifest.section(added_to(dev)), name, version))),
{
    let key = dependency_key(added_to(dev));
    assert(has_key(manifest.storage, key));
    let at = index_of(manifest.storage, key);
    assert(key_at(manifest.storage, key, at));
    lemma_add_upto(manifest, name, version, dev, manifest.storage.len() as int);
}

} // verus!
