//! What reading a document establishes.

use crate::dependencies::named_keys;
use crate::entries::{
    distinct_keys,
    has_key,
    index_of,
    key_at,
    lemma_put_last,
    lemma_put_sorted_holds,
    put_last,
    put_sorted,
    sorted_keys,
};
use crate::json::Json;
use crate::manifest::{
    collect_last,
    collect_sorted,
    dependency_key,
    DependencyKind,
    Draft,
    kind_of_key,
    Manifest,
    name_key,
    read_entries,
    read_entry,
    read_manifest,
    recognized,
    scripts_key,
    text_members,
    with_marker,
};
use crate::ordered_map::Slot;
use crate::package_name::valid_name;
use vstd::prelude::*;

verus! {

/// One more pair put into a map that keeps insertion order.
pub proof fn lemma_collect_last_step<V>(pairs: Seq<(Seq<char>, V)>, i: int)
    requires
        0 <= i < pairs.len(),
    ensures
        collect_last(pairs.take(i + 1)) == put_last(
            collect_last(pairs.take(i)),
            pairs[i].0,
            pairs[i].1,
        ),
{
    assert(pairs.take(i + 1).drop_last() =~= pairs.take(i));
}

/// One more pair put into a map that keeps its keys sorted.
pub proof fn lemma_collect_sorted_step<V>(pairs: Seq<(Seq<char>, V)>, i: int)
    requires
        0 <= i < pairs.len(),
    ensures
        collect_sorted(pairs.take(i + 1)) == put_sorted(
            collect_sorted(pairs.take(i)),
            pairs[i].0,
            pairs[i].1,
        ),
{
    assert(pairs.take(i + 1).drop_last() =~= pairs.take(i));
}

/// The first entries of a document, and then one more.
pub proof fn lemma_read_entries_step(entries: Seq<(Seq<char>, Json)>, i: int)
    requires
        0 <= i < entries.len(),
    ensures
        read_entries(entries.take(i + 1)) == match read_entries(entries.take(i)) {
            Ok(draft) => read_entry(draft, entries[i].0, entries[i].1),
            Err(error) => Err(error),
        },
{
    assert(entries.take(i + 1).drop_last() =~= entries.take(i));
}

/// An entry that cannot be read decides the outcome, whatever follows.
pub proof fn lemma_read_entries_error(entries: Seq<(Seq<char>, Json)>, i: int)
    requires
        0 <= i <= entries.len(),
        read_entries(entries.take(i)) is Err,
    ensures
        read_entries(entries) == read_entries(entries.take(i)),
    decreases entries.len() - i,
{
    if i == entries.len() {
        assert(entries.take(i) =~= entries);
    } else {
        lemma_read_entries_step(entries, i);
        lemma_read_entries_error(entries, i + 1);
    }
}

/// The sections of a well-formed manifest are sorted by package name.
pub proof fn lemma_sections_wf(manifest: Manifest)
    requires
        manifest.wf(),
    ensures
        sorted_keys(manifest.dependencies) && named_keys(manifest.dependencies),
        sorted_keys(manifest.dev_dependencies) && named_keys(manifest.dev_dependencies),
        sorted_keys(manifest.peer_dependencies) && named_keys(manifest.peer_dependencies),
        sorted_keys(manifest.optional_dependencies) && named_keys(manifest.optional_dependencies),
{
    assert(manifest.section(DependencyKind::Normal) == manifest.dependencies);
    assert(manifest.section(DependencyKind::Dev) == manifest.dev_dependencies);
    assert(manifest.section(DependencyKind::Peer) == manifest.peer_dependencies);
    assert(manifest.section(DependencyKind::Optional) == manifest.optional_dependencies);
}

/// A well-formed manifest stays so when its sections are replaced by
/// others that are sorted by package name.
pub proof fn lemma_wf_with_sections(before: Manifest, after: Manifest)
    requires
        before.wf(),
        after.name == before.name,
        after.scripts == before.scripts,
        after.storage == before.storage,
        sorted_keys(after.dependencies) && named_keys(after.dependencies),
        sorted_keys(after.dev_dependencies) && named_keys(after.dev_dependencies),
        sorted_keys(after.peer_dependencies) && named_keys(after.peer_dependencies),
        sorted_keys(after.optional_dependencies) && named_keys(after.optional_dependencies),
    ensures
        after.wf(),
{
    assert forall|kind: DependencyKind|
        sorted_keys(#[trigger] after.section(kind)) && named_keys(after.section(kind)) by {}
    assert forall|kind: DependencyKind| #[trigger]
        has_key(after.storage, dependency_key(kind)) by {
        assert(has_key(before.storage, dependency_key(kind)));
    }
}

/// The five recognized keys differ from each other, and each dependency
/// key stands for its own kind.
pub proof fn lemma_keys_differ()
    ensures
        name_key() != scripts_key(),
        kind_of_key(name_key()) is None,
        kind_of_key(scripts_key()) is None,
        forall|kind: DependencyKind| #[trigger] kind_of_key(dependency_key(kind)) == Some(kind),
        forall|kind: DependencyKind| #[trigger] dependency_key(kind) != name_key(),
        forall|kind: DependencyKind| #[trigger] dependency_key(kind) != scripts_key(),
        forall|kind: DependencyKind| recognized(#[trigger] dependency_key(kind)),
        forall|key: Seq<char>|
            (#[trigger] kind_of_key(key)) is Some ==> key == dependency_key(
                kind_of_key(key)->Some_0,
            ),
{
    reveal_strlit("name");
    reveal_strlit("scripts");
    reveal_strlit("dependencies");
    reveal_strlit("devDependencies");
    reveal_strlit("peerDependencies");
    reveal_strlit("optionalDependencies");
    assert("name"@.len() == 4);
    assert("scripts"@.len() == 7);
    assert("dependencies"@.len() == 12);
    assert("devDependencies"@.len() == 15);
    assert("peerDependencies"@.len() == 16);
    assert("optionalDependencies"@.len() == 20);
    assert forall|kind: DependencyKind| #[trigger]
        kind_of_key(dependency_key(kind)) == Some(kind) by {
        match kind {
            DependencyKind::Normal => {},
            DependencyKind::Dev => {},
            DependencyKind::Peer => {},
            DependencyKind::Optional => {},
        }
    }
}

/// Pairs put one by one into a map that keeps insertion order leave
/// distinct keys.
pub proof fn lemma_collect_last_distinct<V>(pairs: Seq<(Seq<char>, V)>)
    ensures
        distinct_keys(collect_last(pairs)),
    decreases pairs.len(),
{
    if pairs.len() > 0 {
        lemma_collect_last_distinct(pairs.drop_last());
        lemma_put_last(collect_last(pairs.drop_last()), pairs.last().0, pairs.last().1);
    }
}

/// Pairs under package names, put one by one into a map that keeps its
/// keys sorted, leave sorted package names.
pub proof fn lemma_collect_sorted_wf<V>(pairs: Seq<(Seq<char>, V)>)
    requires
        named_keys(pairs),
    ensures
        sorted_keys(collect_sorted(pairs)),
        named_keys(collect_sorted(pairs)),
        pairs.len() > 0 ==> collect_sorted(pairs).len() > 0,
    decreases pairs.len(),
{
    if pairs.len() > 0 {
        let front = pairs.drop_last();
        assert forall|i: int| 0 <= i < front.len() implies valid_name((#[trigger] front[i]).0) by {
            assert(front[i] == pairs[i]);
        }
        lemma_collect_sorted_wf(front);
        let before = collect_sorted(front);
        lemma_put_sorted_holds(before, pairs.last().0, pairs.last().1);
        let out = collect_sorted(pairs);
        assert forall|i: int| 0 <= i < out.len() implies valid_name((#[trigger] out[i]).0) by {
            if out[i] != (pairs.last().0, pairs.last().1) {
                assert(before.contains(out[i]));
                let j = choose|j: int| 0 <= j < before.len() && before[j] == out[i];
                assert(valid_name(before[j].0));
            } else {
                assert(valid_name(pairs[pairs.len() - 1].0));
            }
        }
    }
}

/// What holds of a manifest while its document is read.
pub open spec fn draft_ok(draft: Draft) -> bool {
    let rest = draft.rest;
    &&& draft.name is Some ==> valid_name(draft.name->Some_0) && rest.name == draft.name->Some_0
    &&& draft.name is Some <==> has_key(rest.storage, name_key())
    &&& distinct_keys(rest.scripts)
    &&& forall|kind: DependencyKind|
        sorted_keys(#[trigger] rest.section(kind)) && named_keys(rest.section(kind))
    &&& distinct_keys(rest.storage)
    &&& forall|i: int|
        0 <= i < rest.storage.len() ==> ((#[trigger] rest.storage[i]).1 is Known <==> recognized(
            rest.storage[i].0,
        ))
    &&& rest.scripts.len() > 0 ==> has_key(rest.storage, scripts_key())
    &&& forall|kind: DependencyKind|
        (#[trigger] rest.section(kind)).len() > 0 ==> has_key(rest.storage, dependency_key(kind))
}

/// A place put last keeps the rule that markers stand at the recognized
/// keys and at no other.
pub proof fn lemma_put_place(storage: Seq<(Seq<char>, Slot)>, key: Seq<char>, slot: Slot)
    requires
        distinct_keys(storage),
        forall|i: int|
            0 <= i < storage.len() ==> ((#[trigger] storage[i]).1 is Known <==> recognized(
                storage[i].0,
            )),
        slot is Known <==> recognized(key),
    ensures
        distinct_keys(put_last(storage, key, slot)),
        has_key(put_last(storage, key, slot), key),
        forall|other: Seq<char>|
            other != key ==> (#[trigger] has_key(put_last(storage, key, slot), other) <==> has_key(
                storage,
                other,
            )),
        forall|i: int|
            0 <= i < put_last(storage, key, slot).len() ==> ((#[trigger] put_last(
                storage,
                key,
                slot,
            )[i]).1 is Known <==> recognized(put_last(storage, key, slot)[i].0)),
{
    lemma_put_last(storage, key, slot);
    let out = put_last(storage, key, slot);
    assert forall|i: int| 0 <= i < out.len() implies ((#[trigger] out[i]).1 is Known
        <==> recognized(out[i].0)) by {
        if i < out.len() - 1 {
            assert(storage.contains(out[i]));
            let j = choose|j: int| 0 <= j < storage.len() && storage[j] == out[i];
            assert(storage[j].1 is Known <==> recognized(storage[j].0));
        }
    }
}

/// One more entry keeps what holds of a draft.
pub proof fn lemma_read_entry_ok(draft: Draft, key: Seq<char>, value: Json)
    requires
        draft_ok(draft),
        read_entry(draft, key, value) is Ok,
    ensures
        draft_ok(read_entry(draft, key, value)->Ok_0),
{
    lemma_keys_differ();
    let next = read_entry(draft, key, value)->Ok_0;
    let storage = draft.rest.storage;
    if key == name_key() {
        lemma_put_place(storage, key, Slot::Known);
        assert forall|kind: DependencyKind|
            sorted_keys(#[trigger] next.rest.section(kind)) && named_keys(
                next.rest.section(kind),
            ) by {
            assert(next.rest.section(kind) == draft.rest.section(kind));
        }
        assert forall|kind: DependencyKind|
            (#[trigger] next.rest.section(kind)).len() > 0 implies has_key(
            next.rest.storage,
            dependency_key(kind),
        ) by {
            assert(next.rest.section(kind) == draft.rest.section(kind));
            assert(has_key(storage, dependency_key(kind)));
        }
    } else if key == scripts_key() {
        lemma_put_place(storage, key, Slot::Known);
        lemma_collect_last_distinct(text_members(value)->Some_0);
        assert forall|kind: DependencyKind|
            sorted_keys(#[trigger] next.rest.section(kind)) && named_keys(
                next.rest.section(kind),
            ) by {
            assert(next.rest.section(kind) == draft.rest.section(kind));
        }
        assert forall|kind: DependencyKind|
            (#[trigger] next.rest.section(kind)).len() > 0 implies has_key(
            next.rest.storage,
            dependency_key(kind),
        ) by {
            assert(next.rest.section(kind) == draft.rest.section(kind));
            assert(has_key(storage, dependency_key(kind)));
        }
    } else {
        match kind_of_key(key) {
            Some(changed) => {
                lemma_put_place(storage, key, Slot::Known);
                lemma_collect_sorted_wf(text_members(value)->Some_0);
                assert(key == dependency_key(changed));
                assert forall|kind: DependencyKind|
                    sorted_keys(#[trigger] next.rest.section(kind)) && named_keys(
                        next.rest.section(kind),
                    ) by {
                    if kind != changed {
                        assert(next.rest.section(kind) == draft.rest.section(kind));
                    }
                }
                assert forall|kind: DependencyKind|
                    (#[trigger] next.rest.section(kind)).len() > 0 implies has_key(
                    next.rest.storage,
                    dependency_key(kind),
                ) by {
                    if kind != changed {
                        assert(next.rest.section(kind) == draft.rest.section(kind));
                        assert(has_key(storage, dependency_key(kind)));
                        assert(kind_of_key(dependency_key(kind)) == Some(kind));
                    }
                }
            },
            None => {
                lemma_put_place(storage, key, Slot::Raw(value));
                assert forall|kind: DependencyKind|
                    sorted_keys(#[trigger] next.rest.section(kind)) && named_keys(
                        next.rest.section(kind),
                    ) by {
                    assert(next.rest.section(kind) == draft.rest.section(kind));
                }
                assert forall|kind: DependencyKind|
                    (#[trigger] next.rest.section(kind)).len() > 0 implies has_key(
                    next.rest.storage,
                    dependency_key(kind),
                ) by {
                    assert(next.rest.section(kind) == draft.rest.section(kind));
                    assert(has_key(storage, dependency_key(kind)));
                    assert(kind_of_key(dependency_key(kind)) == Some(kind));
                }
            },
        }
    }
}

/// What holds of a draft after the entries of a document.
pub proof fn lemma_read_entries_ok(entries: Seq<(Seq<char>, Json)>)
    requires
        read_entries(entries) is Ok,
    ensures
        draft_ok(read_entries(entries)->Ok_0),
    decreases entries.len(),
{
    if entries.len() == 0 {
        let draft = read_entries(entries)->Ok_0;
        assert forall|kind: DependencyKind|
            sorted_keys(#[trigger] draft.rest.section(kind)) && named_keys(
                draft.rest.section(kind),
            ) by {}
        assert(!has_key(draft.rest.storage, name_key())) by {
            if has_key(draft.rest.storage, name_key()) {
                let i = index_of(draft.rest.storage, name_key());
                assert(key_at(draft.rest.storage, name_key(), i));
            }
        }
    } else {
        lemma_read_entries_ok(entries.drop_last());
        lemma_read_entry_ok(
            read_entries(entries.drop_last())->Ok_0,
            entries.last().0,
            entries.last().1,
        );
    }
}

/// A marker put at the end keeps what holds of the places.
pub proof fn lemma_with_marker(storage: Seq<(Seq<char>, Slot)>, kind: DependencyKind)
    requires
        distinct_keys(storage),
        forall|i: int|
            0 <= i < storage.len() ==> ((#[trigger] storage[i]).1 is Known <==> recognized(
                storage[i].0,
            )),
    ensures
        distinct_keys(with_marker(storage, kind)),
        has_key(with_marker(storage, kind), dependency_key(kind)),
        forall|other: Seq<char>|
            has_key(storage, other) ==> #[trigger] has_key(with_marker(storage, kind), other),
        forall|i: int|
            0 <= i < with_marker(storage, kind).len() ==> ((#[trigger] with_marker(
                storage,
                kind,
            )[i]).1 is Known <==> recognized(with_marker(storage, kind)[i].0)),
{
    lemma_keys_differ();
    if !has_key(storage, dependency_key(kind)) {
        lemma_put_place(storage, dependency_key(kind), Slot::Known);
        assert(with_marker(storage, kind) == put_last(storage, dependency_key(kind), Slot::Known));
    }
}

/// A document that can be read declares a well-formed manifest.
pub proof fn lemma_read_manifest_wf(entries: Seq<(Seq<char>, Json)>)
    requires
        read_manifest(entries) is Ok,
    ensures
        read_manifest(entries)->Ok_0.wf(),
{
    lemma_read_entries_ok(entries);
    let draft = read_entries(entries)->Ok_0;
    let manifest = read_manifest(entries)->Ok_0;
    let s0 = draft.rest.storage;
    let s1 = with_marker(s0, DependencyKind::Normal);
    let s2 = with_marker(s1, DependencyKind::Dev);
    let s3 = with_marker(s2, DependencyKind::Peer);
    let s4 = with_marker(s3, DependencyKind::Optional);
    lemma_with_marker(s0, DependencyKind::Normal);
    lemma_with_marker(s1, DependencyKind::Dev);
    lemma_with_marker(s2, DependencyKind::Peer);
    lemma_with_marker(s3, DependencyKind::Optional);
    assert(manifest.storage == s4);
    assert forall|kind: DependencyKind|
        sorted_keys(#[trigger] manifest.section(kind)) && named_keys(manifest.section(kind)) by {
        assert(manifest.section(kind) == draft.rest.section(kind));
    }
    assert forall|kind: DependencyKind| #[trigger]
        has_key(manifest.storage, dependency_key(kind)) by {
        match kind {
            DependencyKind::Normal => {},
            DependencyKind::Dev => {},
            DependencyKind::Peer => {},
            DependencyKind::Optional => {},
        }
    }
}

} // verus!
