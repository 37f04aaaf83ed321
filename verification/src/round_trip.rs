//! Writing a manifest and reading it back.

use crate::dependencies::named_keys;
use crate::entries::{
    distinct_keys,
    has_key,
    index_of,
    key_at,
    lemma_put_sorted_last,
    put_last,
    put_sorted,
    sorted_keys,
};
use crate::json::Json;
use crate::laws::added_to;
use crate::manifest::{
    collect_last,
    collect_sorted,
    dependency_key,
    DependencyKind,
    Draft,
    emitted,
    kind_of_key,
    Malformed,
    Manifest,
    name_key,
    normal_form,
    normal_form_with,
    read_entries,
    read_entry,
    read_manifest,
    recognized,
    scripts_key,
    scripts_of,
    section_of,
    text_members,
    text_object,
    text_of,
    with_marker,
    with_markers,
    written_entries,
    written_upto,
};
use crate::manifest_proofs::{
    lemma_keys_differ,
    lemma_read_entries_error,
    lemma_read_entries_step,
    lemma_read_manifest_wf,
};
use crate::ordered_map::Slot;
use crate::package_name::valid_name;
use vstd::prelude::*;

verus! {

/// An object of strings has the strings as its `text_members`.
pub proof fn lemma_text_members_of_object(pairs: Seq<(Seq<char>, Seq<char>)>)
    ensures
        text_members(text_object(pairs)) == Some(pairs),
{
    let members = text_object(pairs)->Object_0;
    assert forall|i: int| 0 <= i < members.len() implies (#[trigger] members[i]).1 is Text by {}
    assert(text_members(text_object(pairs))->Some_0 =~= pairs);
}

/// Entries with distinct keys, put one by one into a map that keeps
/// insertion order, come out as they went in.
pub proof fn lemma_collect_last_same<V>(pairs: Seq<(Seq<char>, V)>)
    requires
        distinct_keys(pairs),
    ensures
        collect_last(pairs) == pairs,
    decreases pairs.len(),
{
    if pairs.len() == 0 {
        assert(pairs =~= Seq::empty());
    } else {
        let front = pairs.drop_last();
        assert forall|i: int, j: int| 0 <= i < j < front.len() implies (#[trigger] front[i]).0 != (
        #[trigger] front[j]).0 by {
            assert(pairs[i].0 != pairs[j].0);
        }
        lemma_collect_last_same(front);
        if has_key(front, pairs.last().0) {
            let i = index_of(front, pairs.last().0);
            assert(key_at(front, pairs.last().0, i));
            assert(pairs[i].0 != pairs[pairs.len() - 1].0);
        }
        assert(front.push(pairs.last()) =~= pairs);
    }
}

/// Entries with sorted keys, put one by one into a map that keeps its keys
/// sorted, come out as they went in.
pub proof fn lemma_collect_sorted_same<V>(pairs: Seq<(Seq<char>, V)>)
    requires
        sorted_keys(pairs),
    ensures
        collect_sorted(pairs) == pairs,
    decreases pairs.len(),
{
    if pairs.len() == 0 {
        assert(pairs =~= Seq::empty());
    } else {
        let front = pairs.drop_last();
        assert forall|i: int, j: int| 0 <= i < j < front.len() implies crate::text::text_lt(
            (#[trigger] front[i]).0,
            (#[trigger] front[j]).0,
        ) by {
            assert(crate::text::text_lt(pairs[i].0, pairs[j].0));
        }
        lemma_collect_sorted_same(front);
        assert forall|j: int| 0 <= j < front.len() implies crate::text::text_lt(
            (#[trigger] front[j]).0,
            pairs.last().0,
        ) by {
            assert(crate::text::text_lt(pairs[j].0, pairs[pairs.len() - 1].0));
        }
        lemma_put_sorted_last(front, pairs.last().0, pairs.last().1);
        assert(front.push(pairs.last()) =~= pairs);
    }
}

/// The entry `entry` is what the place `at` of the manifest contributes.
pub open spec fn from_place(manifest: Manifest, entry: (Seq<char>, Json), at: int) -> bool {
    &&& 0 <= at < manifest.storage.len()
    &&& manifest.storage[at].0 == entry.0
    &&& emitted(manifest, manifest.storage[at].0, manifest.storage[at].1) == Some(entry.1)
}

/// The entry `entry` is what one of the first `upto` places contributes.
pub open spec fn placed(manifest: Manifest, entry: (Seq<char>, Json), upto: int) -> bool {
    exists|at: int| at < upto && from_place(manifest, entry, at)
}

/// Every written entry is what one of the places contributes, no key is
/// written twice, and every place that contributes is written.
pub proof fn lemma_written_upto(manifest: Manifest, upto: int)
    requires
        distinct_keys(manifest.storage),
        0 <= upto <= manifest.storage.len(),
    ensures
        forall|i: int|
            0 <= i < written_upto(manifest, upto).len() ==> placed(
                manifest,
                #[trigger] written_upto(manifest, upto)[i],
                upto,
            ),
        distinct_keys(written_upto(manifest, upto)),
        forall|at: int|
            0 <= at < upto && emitted(
                manifest,
                manifest.storage[at].0,
                manifest.storage[at].1,
            ) is Some ==> has_key(
                written_upto(manifest, upto),
                (#[trigger] manifest.storage[at]).0,
            ),
    decreases upto,
{
    if upto > 0 {
        lemma_written_upto(manifest, upto - 1);
        let before = written_upto(manifest, upto - 1);
        let out = written_upto(manifest, upto);
        let place = manifest.storage[upto - 1];
        assert forall|i: int| 0 <= i < out.len() implies placed(manifest, #[trigger] out[i], upto) by {
            if i < before.len() {
                assert(placed(manifest, before[i], upto - 1));
                let at = choose|at: int| at < upto - 1 && from_place(manifest, before[i], at);
                assert(from_place(manifest, out[i], at));
            } else {
                assert(from_place(manifest, out[i], upto - 1));
            }
        }
        assert forall|i: int, j: int| 0 <= i < j < out.len() implies (#[trigger] out[i]).0 != (
        #[trigger] out[j]).0 by {
            if j < before.len() {
                assert(before[i].0 != before[j].0);
            } else {
                assert(placed(manifest, before[i], upto - 1));
                let at = choose|at: int| at < upto - 1 && from_place(manifest, before[i], at);
                assert(manifest.storage[at].0 != manifest.storage[upto - 1].0);
            }
        }
        assert forall|at: int|
            0 <= at < upto && emitted(
                manifest,
                manifest.storage[at].0,
                manifest.storage[at].1,
            ) is Some implies has_key(out, (#[trigger] manifest.storage[at]).0) by {
            if at < upto - 1 {
                let i = index_of(before, manifest.storage[at].0);
                assert(key_at(before, manifest.storage[at].0, i));
                assert(key_at(out, manifest.storage[at].0, i));
            } else {
                assert(key_at(out, manifest.storage[at].0, out.len() - 1));
            }
        }
    }
}

/// What reading keeps at the place of an entry.
pub open spec fn slot_for(key: Seq<char>, value: Json) -> Slot {
    if recognized(key) {
        Slot::Known
    } else {
        Slot::Raw(value)
    }
}

/// What reading keeps at the places of entries with distinct keys.
pub open spec fn places_of(entries: Seq<(Seq<char>, Json)>) -> Seq<(Seq<char>, Slot)> {
    Seq::new(entries.len(), |i: int| (entries[i].0, slot_for(entries[i].0, entries[i].1)))
}

/// The draft after some of the entries that `manifest` was written to:
/// the fields whose keys have come are those of `manifest`.
pub open spec fn expected_draft(manifest: Manifest, read: Seq<(Seq<char>, Json)>) -> Draft {
    Draft {
        name: if has_key(read, name_key()) {
            Some(manifest.name)
        } else {
            None
        },
        rest: Manifest {
            name: if has_key(read, name_key()) {
                manifest.name
            } else {
                Seq::empty()
            },
            scripts: if has_key(read, scripts_key()) {
                manifest.scripts
            } else {
                Seq::empty()
            },
            dependencies: if has_key(read, dependency_key(DependencyKind::Normal)) {
                manifest.dependencies
            } else {
                Seq::empty()
            },
            dev_dependencies: if has_key(read, dependency_key(DependencyKind::Dev)) {
                manifest.dev_dependencies
            } else {
                Seq::empty()
            },
            optional_dependencies: if has_key(read, dependency_key(DependencyKind::Optional)) {
                manifest.optional_dependencies
            } else {
                Seq::empty()
            },
            peer_dependencies: if has_key(read, dependency_key(DependencyKind::Peer)) {
                manifest.peer_dependencies
            } else {
                Seq::empty()
            },
            storage: places_of(read),
        },
    }
}

/// The keys of a list with one more entry.
proof fn lemma_has_key_push<V>(entries: Seq<(Seq<char>, V)>, entry: (Seq<char>, V))
    ensures
        forall|key: Seq<char>| #[trigger]
            has_key(entries.push(entry), key) <==> (key == entry.0 || has_key(entries, key)),
{
    let out = entries.push(entry);
    assert forall|key: Seq<char>| #[trigger]
        has_key(out, key) <==> (key == entry.0 || has_key(entries, key)) by {
        if has_key(out, key) {
            let i = index_of(out, key);
            assert(key_at(out, key, i));
            if i < entries.len() {
                assert(key_at(entries, key, i));
            }
        }
        if has_key(entries, key) {
            let i = index_of(entries, key);
            assert(key_at(entries, key, i));
            assert(key_at(out, key, i));
        }
        if key == entry.0 {
            assert(key_at(out, key, entries.len() as int));
        }
    }
}

/// Places have the keys of the entries they were made for.
proof fn lemma_places_keys(entries: Seq<(Seq<char>, Json)>, key: Seq<char>)
    ensures
        has_key(places_of(entries), key) <==> has_key(entries, key),
{
    if has_key(places_of(entries), key) {
        let i = index_of(places_of(entries), key);
        assert(key_at(places_of(entries), key, i));
        assert(key_at(entries, key, i));
    }
    if has_key(entries, key) {
        let i = index_of(entries, key);
        assert(key_at(entries, key, i));
        assert(key_at(places_of(entries), key, i));
    }
}

/// Reading the first `upto` of the entries that a manifest was written to
/// gives the fields of the manifest whose keys have come.
pub proof fn lemma_read_written(manifest: Manifest, entries: Seq<(Seq<char>, Json)>, upto: int)
    requires
        manifest.wf(),
        distinct_keys(entries),
        forall|i: int|
            0 <= i < entries.len() ==> placed(
                manifest,
                #[trigger] entries[i],
                manifest.storage.len() as int,
            ),
        0 <= upto <= entries.len(),
    ensures
        read_entries(entries.take(upto)) == Ok::<Draft, Malformed>(
            expected_draft(manifest, entries.take(upto)),
        ),
    decreases upto,
{
    lemma_keys_differ();
    if upto == 0 {
        let read = entries.take(0);
        assert(read =~= Seq::empty());
        assert forall|key: Seq<char>| !has_key(read, key) by {
            if has_key(read, key) {
                let i = index_of(read, key);
                assert(key_at(read, key, i));
            }
        }
        assert(places_of(read) =~= Seq::empty());
    } else {
        lemma_read_written(manifest, entries, upto - 1);
        let before = entries.take(upto - 1);
        let read = entries.take(upto);
        let entry = entries[upto - 1];
        let key = entry.0;
        let draft = expected_draft(manifest, before);
        crate::manifest_proofs::lemma_read_entries_step(entries, upto - 1);
        assert(read =~= before.push(entry));
        lemma_has_key_push(before, entry);
        if has_key(before, key) {
            let i = index_of(before, key);
            assert(key_at(before, key, i));
            assert(entries[i].0 != entries[upto - 1].0);
        }
        lemma_places_keys(before, key);
        let slot = slot_for(key, entry.1);
        assert(put_last(places_of(before), key, slot) == places_of(before).push((key, slot)));
        assert(places_of(read) =~= places_of(before).push((key, slot)));
        assert(placed(manifest, entry, manifest.storage.len() as int));
        let at = choose|at: int|
            at < manifest.storage.len() && from_place(manifest, entry, at);
        assert(manifest.storage[at].1 is Known <==> recognized(key));
        let next = read_entry(draft, key, entry.1);
        let goal = expected_draft(manifest, read);
        if key == name_key() {
            assert(entry.1 == Json::Text(manifest.name));
            assert(next == Ok::<Draft, Malformed>(goal));
        } else if key == scripts_key() {
            assert(entry.1 == text_object(manifest.scripts));
            lemma_text_members_of_object(manifest.scripts);
            lemma_collect_last_same(manifest.scripts);
            assert(next == Ok::<Draft, Malformed>(goal));
        } else {
            match kind_of_key(key) {
                Some(kind) => {
                    assert(key == dependency_key(kind));
                    let section = manifest.section(kind);
                    assert(entry.1 == text_object(section));
                    lemma_text_members_of_object(section);
                    assert(sorted_keys(section) && named_keys(section));
                    lemma_collect_sorted_same(section);
                    assert(section_of(entry.1) == Some(section));
                    assert(next->Ok_0.rest =~= goal.rest);
                    assert(next == Ok::<Draft, Malformed>(goal));
                },
                None => {
                    assert(next->Ok_0.rest =~= goal.rest);
                    assert(next == Ok::<Draft, Malformed>(goal));
                },
            }
        }
    }
}

/// `longer` is `storage` with nothing but markers behind it, each for a
/// kind of dependency whose key `storage` lacks.
pub open spec fn only_markers_added(
    storage: Seq<(Seq<char>, Slot)>,
    longer: Seq<(Seq<char>, Slot)>,
) -> bool {
    &&& storage.len() <= longer.len()
    &&& forall|i: int| 0 <= i < storage.len() ==> #[trigger] longer[i] == storage[i]
    &&& forall|i: int|
        storage.len() <= i < longer.len() ==> (#[trigger] longer[i]).1 is Known && kind_of_key(
            longer[i].0,
        ) is Some && !has_key(storage, longer[i].0)
}

proof fn lemma_marker_added(
    storage: Seq<(Seq<char>, Slot)>,
    longer: Seq<(Seq<char>, Slot)>,
    kind: DependencyKind,
)
    requires
        only_markers_added(storage, longer),
    ensures
        only_markers_added(storage, with_marker(longer, kind)),
{
    lemma_keys_differ();
    let key = dependency_key(kind);
    if !has_key(longer, key) {
        if has_key(storage, key) {
            let i = index_of(storage, key);
            assert(key_at(storage, key, i));
            assert(key_at(longer, key, i));
        }
    }
}

/// The markers that come at the end of reading are all that it adds.
pub proof fn lemma_with_markers_shape(storage: Seq<(Seq<char>, Slot)>)
    ensures
        only_markers_added(storage, with_markers(storage)),
{
    let s1 = with_marker(storage, DependencyKind::Normal);
    let s2 = with_marker(s1, DependencyKind::Dev);
    let s3 = with_marker(s2, DependencyKind::Peer);
    lemma_marker_added(storage, storage, DependencyKind::Normal);
    lemma_marker_added(storage, s1, DependencyKind::Dev);
    lemma_marker_added(storage, s2, DependencyKind::Peer);
    lemma_marker_added(storage, s3, DependencyKind::Optional);
}

/// The two manifests have the same name, scripts and sections.
pub open spec fn same_fields(a: Manifest, b: Manifest) -> bool {
    &&& a.name == b.name
    &&& a.scripts == b.scripts
    &&& a.dependencies == b.dependencies
    &&& a.dev_dependencies == b.dev_dependencies
    &&& a.optional_dependencies == b.optional_dependencies
    &&& a.peer_dependencies == b.peer_dependencies
}

/// A manifest read from what another was written to is written to the
/// same entries.
proof fn lemma_written_again(
    manifest: Manifest,
    again: Manifest,
    entries: Seq<(Seq<char>, Json)>,
    upto: int,
)
    requires
        manifest.wf(),
        same_fields(again, manifest),
        only_markers_added(places_of(entries), again.storage),
        forall|i: int|
            0 <= i < entries.len() ==> placed(
                manifest,
                #[trigger] entries[i],
                manifest.storage.len() as int,
            ),
        forall|kind: DependencyKind|
            !has_key(entries, #[trigger] dependency_key(kind)) ==> manifest.section(kind).len()
                == 0,
        0 <= upto <= again.storage.len(),
    ensures
        written_upto(again, upto) == entries.take(
            if upto <= entries.len() {
                upto
            } else {
                entries.len() as int
            },
        ),
    decreases upto,
{
    lemma_keys_differ();
    if upto == 0 {
        assert(entries.take(0) =~= Seq::empty());
    } else {
        lemma_written_again(manifest, again, entries, upto - 1);
        let place = again.storage[upto - 1];
        if upto <= entries.len() {
            let entry = entries[upto - 1];
            assert(place == places_of(entries)[upto - 1]);
            assert(placed(manifest, entry, manifest.storage.len() as int));
            let at = choose|at: int|
                at < manifest.storage.len() && from_place(manifest, entry, at);
            assert(manifest.storage[at].1 is Known <==> recognized(entry.0));
            if recognized(entry.0) {
                assert(emitted(again, entry.0, Slot::Known) == emitted(
                    manifest,
                    entry.0,
                    Slot::Known,
                )) by {
                    if kind_of_key(entry.0) is Some {
                        let kind = kind_of_key(entry.0)->Some_0;
                        assert(again.section(kind) == manifest.section(kind));
                    }
                }
            }
            assert(entries.take(upto) =~= entries.take(upto - 1).push(entry));
        } else {
            let kind = kind_of_key(place.0)->Some_0;
            assert(place.0 == dependency_key(kind));
            lemma_places_keys(entries, place.0);
            assert(again.section(kind) == manifest.section(kind));
        }
    }
}

/// Round trip: a well-formed manifest that is written and read back has
/// its name, scripts and sections as before, and is then written to the
/// very same entries, every kept key with its value where it was.
pub proof fn law_round_trip(manifest: Manifest)
    requires
        manifest.wf(),
    ensures
        read_manifest(written_entries(manifest)) is Ok,
        read_manifest(written_entries(manifest))->Ok_0.wf(),
        same_fields(read_manifest(written_entries(manifest))->Ok_0, manifest),
        written_entries(read_manifest(written_entries(manifest))->Ok_0) == written_entries(
            manifest,
        ),
{
    lemma_keys_differ();
    let entries = written_entries(manifest);
    let places = manifest.storage.len() as int;
    lemma_written_upto(manifest, places);
    lemma_read_written(manifest, entries, entries.len() as int);
    assert(entries.take(entries.len() as int) =~= entries);
    let draft = expected_draft(manifest, entries);
    assert(read_entries(entries) == Ok::<Draft, Malformed>(draft));
    // the name is always written
    let name_at = index_of(manifest.storage, name_key());
    assert(key_at(manifest.storage, name_key(), name_at));
    assert(manifest.storage[name_at].1 is Known);
    assert(has_key(entries, manifest.storage[name_at].0));
    // the scripts and each section are written while they have an entry
    if manifest.scripts.len() > 0 {
        let at = index_of(manifest.storage, scripts_key());
        assert(key_at(manifest.storage, scripts_key(), at));
        assert(manifest.storage[at].1 is Known);
        assert(has_key(entries, manifest.storage[at].0));
    } else {
        assert(manifest.scripts =~= Seq::empty());
    }
    assert forall|kind: DependencyKind|
        !has_key(entries, #[trigger] dependency_key(kind)) implies manifest.section(kind).len()
        == 0 by {
        if manifest.section(kind).len() > 0 {
            assert(has_key(manifest.storage, dependency_key(kind)));
            let at = index_of(manifest.storage, dependency_key(kind));
            assert(key_at(manifest.storage, dependency_key(kind), at));
            assert(manifest.storage[at].1 is Known);
            assert(has_key(entries, manifest.storage[at].0));
        }
    }
    let again = read_manifest(entries)->Ok_0;
    assert(same_fields(again, manifest)) by {
        let normal = manifest.section(DependencyKind::Normal);
        let dev = manifest.section(DependencyKind::Dev);
        let peer = manifest.section(DependencyKind::Peer);
        let optional = manifest.section(DependencyKind::Optional);
        if !has_key(entries, dependency_key(DependencyKind::Normal)) {
            assert(normal =~= Seq::empty());
        }
        if !has_key(entries, dependency_key(DependencyKind::Dev)) {
            assert(dev =~= Seq::empty());
        }
        if !has_key(entries, dependency_key(DependencyKind::Peer)) {
            assert(peer =~= Seq::empty());
        }
        if !has_key(entries, dependency_key(DependencyKind::Optional)) {
            assert(optional =~= Seq::empty());
        }
    }
    lemma_read_manifest_wf(entries);
    lemma_with_markers_shape(places_of(entries));
    lemma_written_again(manifest, again, entries, again.storage.len() as int);
}

/// Round trip, from a document: what a manifest that was read is written
/// to, is read and written again to the very same entries.
pub proof fn law_round_trip_of_document(entries: Seq<(Seq<char>, Json)>)
    requires
        read_manifest(entries) is Ok,
    ensures
        read_manifest(written_entries(read_manifest(entries)->Ok_0)) is Ok,
        same_fields(
            read_manifest(written_entries(read_manifest(entries)->Ok_0))->Ok_0,
            read_manifest(entries)->Ok_0,
        ),
        written_entries(read_manifest(written_entries(read_manifest(entries)->Ok_0))->Ok_0)
            == written_entries(read_manifest(entries)->Ok_0),
{
    lemma_read_manifest_wf(entries);
    law_round_trip(read_manifest(entries)->Ok_0);
}

/// The value under `key`, where keys are distinct.
pub open spec fn field(entries: Seq<(Seq<char>, Json)>, key: Seq<char>) -> Json {
    entries[index_of(entries, key)].1
}

/// The draft after some of the entries of a document with distinct keys:
/// each field whose key has come is what the value under the key declares.
pub open spec fn draft_of(read: Seq<(Seq<char>, Json)>) -> Draft {
    Draft {
        name: if has_key(read, name_key()) {
            text_of(field(read, name_key()))
        } else {
            None
        },
        rest: Manifest {
            name: if has_key(read, name_key()) {
                text_of(field(read, name_key()))->Some_0
            } else {
                Seq::empty()
            },
            scripts: if has_key(read, scripts_key()) {
                scripts_of(field(read, scripts_key()))->Some_0
            } else {
                Seq::empty()
            },
            dependencies: section_in(read, DependencyKind::Normal),
            dev_dependencies: section_in(read, DependencyKind::Dev),
            optional_dependencies: section_in(read, DependencyKind::Optional),
            peer_dependencies: section_in(read, DependencyKind::Peer),
            storage: places_of(read),
        },
    }
}

/// The section of one kind that entries with distinct keys declare.
pub open spec fn section_in(read: Seq<(Seq<char>, Json)>, kind: DependencyKind) -> Seq<
    (Seq<char>, Seq<char>),
> {
    if has_key(read, dependency_key(kind)) {
        section_of(field(read, dependency_key(kind)))->Some_0
    } else {
        Seq::empty()
    }
}

/// The entry can be read: the name is a package name, the scripts are an
/// object of strings, a section is an object of strings under package
/// names.
pub open spec fn readable(key: Seq<char>, value: Json) -> bool {
    if key == name_key() {
        text_of(value) is Some && valid_name(text_of(value)->Some_0)
    } else if key == scripts_key() {
        scripts_of(value) is Some
    } else if kind_of_key(key) is Some {
        section_of(value) is Some
    } else {
        true
    }
}

/// The value under a key of a list with one more entry.
proof fn lemma_field_push(entries: Seq<(Seq<char>, Json)>, entry: (Seq<char>, Json), key: Seq<char>)
    requires
        distinct_keys(entries.push(entry)),
        has_key(entries.push(entry), key),
    ensures
        field(entries.push(entry), key) == if key == entry.0 {
            entry.1
        } else {
            field(entries, key)
        },
{
    let longer = entries.push(entry);
    if key == entry.0 {
        assert(key_at(longer, key, entries.len() as int));
        crate::entries::lemma_index_unique(longer, key, entries.len() as int);
    } else {
        let at = index_of(longer, key);
        assert(key_at(longer, key, at));
        assert(key_at(entries, key, at));
        assert forall|i: int, j: int| 0 <= i < j < entries.len() implies (#[trigger] entries[i]).0
            != (#[trigger] entries[j]).0 by {
            assert(longer[i].0 != longer[j].0);
        }
        crate::entries::lemma_index_unique(entries, key, at);
    }
}

/// Reading the first `upto` entries of a document with distinct keys, all
/// of which can be read.
proof fn lemma_read_distinct(entries: Seq<(Seq<char>, Json)>, upto: int)
    requires
        distinct_keys(entries),
        read_entries(entries) is Ok,
        0 <= upto <= entries.len(),
    ensures
        read_entries(entries.take(upto)) == Ok::<Draft, Malformed>(draft_of(entries.take(upto))),
        forall|i: int| 0 <= i < upto ==> readable((#[trigger] entries[i]).0, entries[i].1),
    decreases upto,
{
    lemma_keys_differ();
    if upto == 0 {
        let read = entries.take(0);
        assert(read =~= Seq::empty());
        assert forall|key: Seq<char>| !has_key(read, key) by {
            if has_key(read, key) {
                let i = index_of(read, key);
                assert(key_at(read, key, i));
            }
        }
        assert(places_of(read) =~= Seq::empty());
    } else {
        lemma_read_distinct(entries, upto - 1);
        let before = entries.take(upto - 1);
        let read = entries.take(upto);
        let entry = entries[upto - 1];
        let key = entry.0;
        lemma_read_entries_step(entries, upto - 1);
        if read_entries(read) is Err {
            lemma_read_entries_error(entries, upto);
        }
        assert(read =~= before.push(entry));
        assert forall|i: int, j: int| 0 <= i < j < read.len() implies (#[trigger] read[i]).0 != (
        #[trigger] read[j]).0 by {
            assert(entries[i].0 != entries[j].0);
        }
        lemma_has_key_push(before, entry);
        if has_key(before, key) {
            let i = index_of(before, key);
            assert(key_at(before, key, i));
            assert(entries[i].0 != entries[upto - 1].0);
        }
        lemma_places_keys(before, key);
        let slot = slot_for(key, entry.1);
        assert(put_last(places_of(before), key, slot) == places_of(before).push((key, slot)));
        assert(places_of(read) =~= places_of(before).push((key, slot)));
        let next = read_entries(read)->Ok_0;
        let goal = draft_of(read);
        if has_key(read, name_key()) {
            lemma_field_push(before, entry, name_key());
        }
        if has_key(read, scripts_key()) {
            lemma_field_push(before, entry, scripts_key());
        }
        assert forall|kind: DependencyKind| #[trigger]
            section_in(read, kind) == if key == dependency_key(kind) {
                section_of(entry.1)->Some_0
            } else {
                section_in(before, kind)
            } by {
            if has_key(read, dependency_key(kind)) {
                lemma_field_push(before, entry, dependency_key(kind));
            }
        }
        assert(next.rest.dependencies == goal.rest.dependencies) by {
            assert(section_in(read, DependencyKind::Normal) == goal.rest.dependencies);
        }
        assert(next.rest.dev_dependencies == goal.rest.dev_dependencies) by {
            assert(section_in(read, DependencyKind::Dev) == goal.rest.dev_dependencies);
        }
        assert(next.rest.peer_dependencies == goal.rest.peer_dependencies) by {
            assert(section_in(read, DependencyKind::Peer) == goal.rest.peer_dependencies);
        }
        assert(next.rest.optional_dependencies == goal.rest.optional_dependencies) by {
            assert(section_in(read, DependencyKind::Optional) == goal.rest.optional_dependencies);
        }
        assert(next.rest =~= goal.rest);
        assert(next == goal);
    }
}

/// What the first `upto` places of a manifest contribute, where the
/// manifest was read from a document with distinct keys.
proof fn lemma_written_first(entries: Seq<(Seq<char>, Json)>, upto: int)
    requires
        distinct_keys(entries),
        read_manifest(entries) is Ok,
        0 <= upto <= read_manifest(entries)->Ok_0.storage.len(),
    ensures
        written_upto(read_manifest(entries)->Ok_0, upto) == normal_form(
            entries.take(
                if upto <= entries.len() {
                    upto
                } else {
                    entries.len() as int
                },
            ),
        ),
    decreases upto,
{
    lemma_keys_differ();
    let manifest = read_manifest(entries)->Ok_0;
    lemma_read_distinct(entries, entries.len() as int);
    assert(entries.take(entries.len() as int) =~= entries);
    lemma_with_markers_shape(places_of(entries));
    if upto == 0 {
        assert(entries.take(0) =~= Seq::empty());
    } else {
        lemma_written_first(entries, upto - 1);
        let place = manifest.storage[upto - 1];
        if upto <= entries.len() {
            let entry = entries[upto - 1];
            assert(place == places_of(entries)[upto - 1]);
            assert(readable(entry.0, entry.1));
            assert(key_at(entries, entry.0, upto - 1));
            crate::entries::lemma_index_unique(entries, entry.0, upto - 1);
            assert(field(entries, entry.0) == entry.1);
            let read = entries.take(upto);
            assert(read.drop_last() =~= entries.take(upto - 1));
            assert(read.last() == entry);
            if kind_of_key(entry.0) is Some {
                let kind = kind_of_key(entry.0)->Some_0;
                assert(entry.0 == dependency_key(kind));
                assert(manifest.section(kind) == section_in(entries, kind));
            }
        } else {
            let kind = kind_of_key(place.0)->Some_0;
            assert(place.0 == dependency_key(kind));
            lemma_places_keys(entries, place.0);
            assert(manifest.section(kind) == section_in(entries, kind));
        }
    }
}

/// Reading keeps the order: a document without repeated keys that is read
/// and written back has every key where it was, the name and every key
/// that the manifest does not interpret with the value it had, the scripts
/// and each dependency section as the manifest holds them, and no key for
/// what is empty.
pub proof fn law_read_then_written(entries: Seq<(Seq<char>, Json)>)
    requires
        distinct_keys(entries),
        read_manifest(entries) is Ok,
    ensures
        written_entries(read_manifest(entries)->Ok_0) == normal_form(entries),
{
    let manifest = read_manifest(entries)->Ok_0;
    lemma_read_distinct(entries, entries.len() as int);
    assert(entries.take(entries.len() as int) =~= entries);
    lemma_with_markers_shape(places_of(entries));
    lemma_written_first(entries, manifest.storage.len() as int);
}

/// Where no entry stands under `key`, writing the section under `key`
/// otherwise changes nothing.
proof fn lemma_normal_form_without(entries: Seq<(Seq<char>, Json)>, key: Seq<char>, object: Json)
    requires
        !has_key(entries, key),
    ensures
        normal_form_with(entries, key, object) == normal_form(entries),
    decreases entries.len(),
{
    if entries.len() > 0 {
        let front = entries.drop_last();
        if has_key(front, key) {
            let i = index_of(front, key);
            assert(key_at(front, key, i));
            assert(key_at(entries, key, i));
        }
        lemma_normal_form_without(front, key, object);
        assert(key_at(entries, entries.last().0, entries.len() - 1));
    }
}

/// What the marker of `key` adds behind the entries of the document: the
/// section, once its marker has come, where the document had no such key.
pub open spec fn added_behind(
    entries: Seq<(Seq<char>, Json)>,
    storage: Seq<(Seq<char>, Slot)>,
    key: Seq<char>,
    object: Json,
    upto: int,
) -> Seq<(Seq<char>, Json)> {
    if upto > entries.len() && has_key(storage.take(upto), key) && !has_key(entries, key) {
        seq![(key, object)]
    } else {
        Seq::empty()
    }
}

/// What the first `upto` places contribute after a section of a manifest
/// that was read from a document with distinct keys was replaced by one
/// that is not empty.
proof fn lemma_written_changed(
    entries: Seq<(Seq<char>, Json)>,
    kind: DependencyKind,
    section: Seq<(Seq<char>, Seq<char>)>,
    upto: int,
)
    requires
        distinct_keys(entries),
        read_manifest(entries) is Ok,
        section.len() > 0,
        0 <= upto <= read_manifest(entries)->Ok_0.storage.len(),
    ensures
        written_upto(read_manifest(entries)->Ok_0.with_section(kind, section), upto)
            == normal_form_with(
            entries.take(
                if upto <= entries.len() {
                    upto
                } else {
                    entries.len() as int
                },
            ),
            dependency_key(kind),
            text_object(section),
        ) + added_behind(
            entries,
            read_manifest(entries)->Ok_0.storage,
            dependency_key(kind),
            text_object(section),
            upto,
        ),
    decreases upto,
{
    lemma_keys_differ();
    let manifest = read_manifest(entries)->Ok_0;
    let after = manifest.with_section(kind, section);
    let key = dependency_key(kind);
    let object = text_object(section);
    let storage = manifest.storage;
    assert(after.storage == storage);
    lemma_read_manifest_wf(entries);
    lemma_read_distinct(entries, entries.len() as int);
    assert(entries.take(entries.len() as int) =~= entries);
    lemma_with_markers_shape(places_of(entries));
    let goal = normal_form_with(
        entries.take(
            if upto <= entries.len() {
                upto
            } else {
                entries.len() as int
            },
        ),
        key,
        object,
    ) + added_behind(entries, storage, key, object, upto);
    if upto == 0 {
        assert(entries.take(0) =~= Seq::empty());
        assert(goal =~= Seq::empty());
    } else {
        lemma_written_changed(entries, kind, section, upto - 1);
        let place = storage[upto - 1];
        let before = written_upto(after, upto - 1);
        assert(storage.take(upto) =~= storage.take(upto - 1).push(place));
        lemma_has_key_push(storage.take(upto - 1), place);
        if upto <= entries.len() {
            let entry = entries[upto - 1];
            assert(place == places_of(entries)[upto - 1]);
            assert(readable(entry.0, entry.1));
            assert(key_at(entries, entry.0, upto - 1));
            crate::entries::lemma_index_unique(entries, entry.0, upto - 1);
            assert(field(entries, entry.0) == entry.1);
            let read = entries.take(upto);
            assert(read.drop_last() =~= entries.take(upto - 1));
            assert(read.last() == entry);
            if kind_of_key(entry.0) is Some {
                let other = kind_of_key(entry.0)->Some_0;
                assert(entry.0 == dependency_key(other));
                assert(manifest.section(other) == section_in(entries, other));
                if other != kind {
                    assert(after.section(other) == manifest.section(other));
                } else {
                    assert(after.section(other) == section);
                }
            }
            assert(added_behind(entries, storage, key, object, upto) =~= Seq::empty());
            assert(added_behind(entries, storage, key, object, upto - 1) =~= Seq::empty());
            assert(written_upto(after, upto) =~= goal);
        } else {
            let other = kind_of_key(place.0)->Some_0;
            assert(place.0 == dependency_key(other));
            lemma_places_keys(entries, place.0);
            assert(!has_key(entries, place.0));
            assert(manifest.section(other) == section_in(entries, other));
            if has_key(storage.take(upto - 1), place.0) {
                let i = index_of(storage.take(upto - 1), place.0);
                assert(key_at(storage.take(upto - 1), place.0, i));
                assert(storage[i].0 != storage[upto - 1].0);
            }
            lemma_places_keys(entries, key);
            if upto - 1 == entries.len() {
                assert(storage.take(upto - 1) =~= places_of(entries));
            }
            assert(kind_of_key(key) == Some(kind));
            if other != kind {
                assert(after.section(other) == manifest.section(other));
                assert(place.0 != key);
                assert(written_upto(after, upto) == before);
                assert(added_behind(entries, storage, key, object, upto) =~= added_behind(
                    entries,
                    storage,
                    key,
                    object,
                    upto - 1,
                ));
                assert(written_upto(after, upto) =~= goal);
            } else {
                assert(after.section(other) == section);
                assert(written_upto(after, upto) == before.push((key, object)));
                assert(added_behind(entries, storage, key, object, upto - 1) =~= Seq::empty());
                assert(has_key(storage.take(upto), key));
                assert(added_behind(entries, storage, key, object, upto) =~= seq![(key, object)]);
                let front = normal_form_with(entries, key, object);
                assert(before =~= front);
                assert(goal =~= front.push((key, object)));
                assert(written_upto(after, upto) =~= goal);
            }
        }
    }
}

/// Adding after reading: a document without repeated keys that is read,
/// given a dependency and written back has every key where it was, each
/// with the value that reading and writing alone would give it, but for
/// the section of the dependency's kind. That section holds its entries
/// and the new one, and stands where the document had it, or behind
/// every key of the document where the document had none.
pub proof fn law_added_after_reading(
    entries: Seq<(Seq<char>, Json)>,
    name: Seq<char>,
    version: Seq<char>,
    dev: bool,
)
    requires
        distinct_keys(entries),
        read_manifest(entries) is Ok,
    ensures
        written_entries(read_manifest(entries)->Ok_0.with_dep(name, version, dev)) == if has_key(
            entries,
            dependency_key(added_to(dev)),
        ) {
            normal_form_with(
                entries,
                dependency_key(added_to(dev)),
                text_object(
                    put_sorted(
                        read_manifest(entries)->Ok_0.section(added_to(dev)),
                        name,
                        version,
                    ),
                ),
            )
        } else {
            normal_form(entries).push(
                (dependency_key(added_to(dev)), text_object(seq![(name, version)])),
            )
        },
{
    lemma_keys_differ();
    let manifest = read_manifest(entries)->Ok_0;
    let kind = added_to(dev);
    let key = dependency_key(kind);
    let before = manifest.section(kind);
    let section = put_sorted(before, name, version);
    let object = text_object(section);
    lemma_read_manifest_wf(entries);
    assert(sorted_keys(before));
    crate::entries::lemma_put_sorted_holds(before, name, version);
    assert(manifest.with_dep(name, version, dev) == manifest.with_section(kind, section));
    let storage = manifest.storage;
    lemma_written_changed(entries, kind, section, storage.len() as int);
    lemma_read_distinct(entries, entries.len() as int);
    lemma_with_markers_shape(places_of(entries));
    assert(entries.take(entries.len() as int) =~= entries);
    assert(storage.take(storage.len() as int) =~= storage);
    assert(has_key(storage, key));
    if has_key(entries, key) {
        assert(added_behind(entries, storage, key, object, storage.len() as int) =~= Seq::empty());
        assert(normal_form_with(entries, key, object) + Seq::<(Seq<char>, Json)>::empty()
            =~= normal_form_with(entries, key, object));
    } else {
        lemma_places_keys(entries, key);
        assert(storage.len() > entries.len()) by {
            if storage.len() <= entries.len() {
                let i = index_of(storage, key);
                assert(key_at(storage, key, i));
                assert(storage[i] == places_of(entries)[i]);
                assert(key_at(places_of(entries), key, i));
            }
        }
        lemma_normal_form_without(entries, key, object);
        crate::laws::law_absent_section_is_empty(entries, kind);
        assert(before =~= Seq::empty());
        assert(!has_key(before, name)) by {
            if has_key(before, name) {
                let i = index_of(before, name);
                assert(key_at(before, name, i));
            }
        }
        crate::entries::lemma_put_sorted_last(before, name, version);
        assert(section =~= seq![(name, version)]);
        assert(normal_form(entries) + seq![(key, object)] =~= normal_form(entries).push(
            (key, object),
        ));
    }
}

} // verus!
