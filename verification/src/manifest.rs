//! What a manifest document means: the model of `PackageJson`.
//!
//! A document is the list of its top-level entries. Reading walks the
//! entries in order: the five recognized keys fill the fields of the
//! manifest and leave a marker at their place, every other key is kept with
//! its value. Writing walks the places in order and emits, for a marker, the
//! field as it is then.

use crate::dependencies::named_keys;
use crate::entries::{
    distinct_keys,
    has_key,
    lookup,
    put_last,
    put_sorted,
    sorted_keys,
    without_key,
};
use crate::json::{Json, json_render};
use crate::ordered_map::Slot;
use crate::package_name::valid_name;
use vstd::prelude::*;

verus! {

/// The four kinds of dependency that a manifest declares.
#[derive(Debug, Clone, Copy, PartialEq, Eq, Structural)]
pub enum DependencyKind {
    Normal,
    Dev,
    Peer,
    Optional,
}

/// The top-level key under which the name stands.
pub open spec fn name_key() -> Seq<char> {
    "name"@
}

/// The top-level key under which the scripts stand.
pub open spec fn scripts_key() -> Seq<char> {
    "scripts"@
}

/// The top-level key under which a kind of dependency stands.
pub open spec fn dependency_key(kind: DependencyKind) -> Seq<char> {
    match kind {
        DependencyKind::Normal => "dependencies"@,
        DependencyKind::Dev => "devDependencies"@,
        DependencyKind::Peer => "peerDependencies"@,
        DependencyKind::Optional => "optionalDependencies"@,
    }
}

/// The kind of dependency that stands under `key`, if any.
pub open spec fn kind_of_key(key: Seq<char>) -> Option<DependencyKind> {
    if key == dependency_key(DependencyKind::Normal) {
        Some(DependencyKind::Normal)
    } else if key == dependency_key(DependencyKind::Dev) {
        Some(DependencyKind::Dev)
    } else if key == dependency_key(DependencyKind::Peer) {
        Some(DependencyKind::Peer)
    } else if key == dependency_key(DependencyKind::Optional) {
        Some(DependencyKind::Optional)
    } else {
        None
    }
}

/// `key` is one of the five keys whose value is a field of the manifest.
pub open spec fn recognized(key: Seq<char>) -> bool {
    key == name_key() || key == scripts_key() || kind_of_key(key) is Some
}

/// Why a document is no manifest.
pub enum Malformed {
    /// The document is no object.
    NotAnObject,
    /// No `name`.
    MissingName,
    /// A second `name`.
    DuplicateName,
    /// `name` is no string.
    NameNotText,
    /// `name` is this string, which is no package name.
    InvalidName(Seq<char>),
    /// `scripts` is no object of strings.
    InvalidScripts,
    /// A section of this kind is no object of strings under package names.
    InvalidDependencies(DependencyKind),
}

/// A manifest: the name, the scripts in the order of the document, the four
/// dependency sections sorted by name, and the place of every top-level key.
pub struct Manifest {
    pub name: Seq<char>,
    pub scripts: Seq<(Seq<char>, Seq<char>)>,
    pub dependencies: Seq<(Seq<char>, Seq<char>)>,
    pub dev_dependencies: Seq<(Seq<char>, Seq<char>)>,
    pub optional_dependencies: Seq<(Seq<char>, Seq<char>)>,
    pub peer_dependencies: Seq<(Seq<char>, Seq<char>)>,
    pub storage: Seq<(Seq<char>, Slot)>,
}

impl Manifest {
    /// The section of one kind.
    pub open spec fn section(self, kind: DependencyKind) -> Seq<(Seq<char>, Seq<char>)> {
        match kind {
            DependencyKind::Normal => self.dependencies,
            DependencyKind::Dev => self.dev_dependencies,
            DependencyKind::Peer => self.peer_dependencies,
            DependencyKind::Optional => self.optional_dependencies,
        }
    }

    /// The manifest with another section of one kind.
    pub open spec fn with_section(
        self,
        kind: DependencyKind,
        section: Seq<(Seq<char>, Seq<char>)>,
    ) -> Manifest {
        match kind {
            DependencyKind::Normal => Manifest { dependencies: section, ..self },
            DependencyKind::Dev => Manifest { dev_dependencies: section, ..self },
            DependencyKind::Peer => Manifest { peer_dependencies: section, ..self },
            DependencyKind::Optional => Manifest { optional_dependencies: section, ..self },
        }
    }

    /// One of the four sections holds `name`.
    pub open spec fn declares(self, name: Seq<char>) -> bool {
        ||| has_key(self.dependencies, name)
        ||| has_key(self.dev_dependencies, name)
        ||| has_key(self.optional_dependencies, name)
        ||| has_key(self.peer_dependencies, name)
    }

    /// The manifest without `name` in any of its four sections.
    pub open spec fn without_dep(self, name: Seq<char>) -> Manifest {
        Manifest {
            dependencies: without_key(self.dependencies, name),
            dev_dependencies: without_key(self.dev_dependencies, name),
            optional_dependencies: without_key(self.optional_dependencies, name),
            peer_dependencies: without_key(self.peer_dependencies, name),
            ..self
        }
    }

    /// The manifest with `name` at `version` among its dev dependencies if
    /// `dev`, else among its dependencies.
    pub open spec fn with_dep(self, name: Seq<char>, version: Seq<char>, dev: bool) -> Manifest {
        if dev {
            Manifest { dev_dependencies: put_sorted(self.dev_dependencies, name, version), ..self }
        } else {
            Manifest { dependencies: put_sorted(self.dependencies, name, version), ..self }
        }
    }

    /// The manifest with `version` for `name` in each of the sections
    /// `dependencies`, `devDependencies` and `optionalDependencies` that
    /// holds `name`.
    pub open spec fn with_version(self, name: Seq<char>, version: Seq<char>) -> Manifest {
        Manifest {
            dependencies: if has_key(self.dependencies, name) {
                put_sorted(self.dependencies, name, version)
            } else {
                self.dependencies
            },
            dev_dependencies: if has_key(self.dev_dependencies, name) {
                put_sorted(self.dev_dependencies, name, version)
            } else {
                self.dev_dependencies
            },
            optional_dependencies: if has_key(self.optional_dependencies, name) {
                put_sorted(self.optional_dependencies, name, version)
            } else {
                self.optional_dependencies
            },
            ..self
        }
    }

    /// The version asked for of `name`: that of `dependencies`, else that
    /// of `devDependencies`, else that of `optionalDependencies`.
    pub open spec fn version_of(self, name: Seq<char>) -> Option<Seq<char>> {
        if has_key(self.dependencies, name) {
            lookup(self.dependencies, name)
        } else if has_key(self.dev_dependencies, name) {
            lookup(self.dev_dependencies, name)
        } else {
            lookup(self.optional_dependencies, name)
        }
    }

    /// What holds of every manifest that was read from a document, and of
    /// every one made from such a manifest by this crate.
    pub open spec fn wf(self) -> bool {
        &&& valid_name(self.name)
        &&& distinct_keys(self.scripts)
        &&& forall|kind: DependencyKind|
            sorted_keys(#[trigger] self.section(kind)) && named_keys(self.section(kind))
        &&& distinct_keys(self.storage)
        &&& forall|i: int|
            0 <= i < self.storage.len() ==> ((#[trigger] self.storage[i]).1 is Known
                <==> recognized(self.storage[i].0))
        &&& has_key(self.storage, name_key())
        &&& forall|kind: DependencyKind| #[trigger] has_key(self.storage, dependency_key(kind))
        &&& self.scripts.len() > 0 ==> has_key(self.storage, scripts_key())
    }
}

/// The manifest without each of `names` in any of its four sections.
pub open spec fn without_deps(manifest: Manifest, names: Seq<Seq<char>>) -> Manifest
    decreases names.len(),
{
    if names.len() == 0 {
        manifest
    } else {
        without_deps(manifest, names.drop_last()).without_dep(names.last())
    }
}

/// The text under `value`, where it is a string.
pub open spec fn text_of(value: Json) -> Option<Seq<char>> {
    match value {
        Json::Text(text) => Some(text),
        _ => None,
    }
}

/// The members of `value` with their texts, where it is an object whose
/// members are all strings.
pub open spec fn text_members(value: Json) -> Option<Seq<(Seq<char>, Seq<char>)>> {
    match value {
        Json::Object(members) => if forall|i: int|
            0 <= i < members.len() ==> (#[trigger] members[i]).1 is Text {
            Some(Seq::new(members.len(), |i: int| (members[i].0, members[i].1->Text_0)))
        } else {
            None
        },
        _ => None,
    }
}

/// The object whose members are the given strings.
pub open spec fn text_object(pairs: Seq<(Seq<char>, Seq<char>)>) -> Json {
    Json::Object(Seq::new(pairs.len(), |i: int| (pairs[i].0, Json::Text(pairs[i].1))))
}

/// The entries of a map that keeps insertion order, after `pairs` were put
/// into it one by one.
pub open spec fn collect_last<V>(pairs: Seq<(Seq<char>, V)>) -> Seq<(Seq<char>, V)>
    decreases pairs.len(),
{
    if pairs.len() == 0 {
        Seq::empty()
    } else {
        put_last(collect_last(pairs.drop_last()), pairs.last().0, pairs.last().1)
    }
}

/// The entries of a map that keeps its keys sorted, after `pairs` were put
/// into it one by one.
pub open spec fn collect_sorted<V>(pairs: Seq<(Seq<char>, V)>) -> Seq<(Seq<char>, V)>
    decreases pairs.len(),
{
    if pairs.len() == 0 {
        Seq::empty()
    } else {
        put_sorted(collect_sorted(pairs.drop_last()), pairs.last().0, pairs.last().1)
    }
}

/// The scripts that `value` declares, where it is an object of strings.
pub open spec fn scripts_of(value: Json) -> Option<Seq<(Seq<char>, Seq<char>)>> {
    match text_members(value) {
        Some(pairs) => Some(collect_last(pairs)),
        None => None,
    }
}

/// The section that `value` declares, where it is an object of strings
/// under package names.
pub open spec fn section_of(value: Json) -> Option<Seq<(Seq<char>, Seq<char>)>> {
    match text_members(value) {
        Some(pairs) => if named_keys(pairs) {
            Some(collect_sorted(pairs))
        } else {
            None
        },
        None => None,
    }
}

/// A manifest while its document is read: the name may not have come yet.
pub struct Draft {
    pub name: Option<Seq<char>>,
    pub rest: Manifest,
}

/// The draft before the first entry.
pub open spec fn empty_draft() -> Draft {
    Draft {
        name: None,
        rest: Manifest {
            name: Seq::empty(),
            scripts: Seq::empty(),
            dependencies: Seq::empty(),
            dev_dependencies: Seq::empty(),
            optional_dependencies: Seq::empty(),
            peer_dependencies: Seq::empty(),
            storage: Seq::empty(),
        },
    }
}

/// The draft after one more entry of the document.
pub open spec fn read_entry(draft: Draft, key: Seq<char>, value: Json) -> Result<
    Draft,
    Malformed,
> {
    let marked = put_last(draft.rest.storage, key, Slot::Known);
    if key == name_key() {
        if draft.name is Some {
            Err(Malformed::DuplicateName)
        } else {
            match text_of(value) {
                None => Err(Malformed::NameNotText),
                Some(name) => if valid_name(name) {
                    Ok(
                        Draft {
                            name: Some(name),
                            rest: Manifest { name: name, storage: marked, ..draft.rest },
                        },
                    )
                } else {
                    Err(Malformed::InvalidName(name))
                },
            }
        }
    } else if key == scripts_key() {
        match scripts_of(value) {
            None => Err(Malformed::InvalidScripts),
            Some(scripts) => Ok(
                Draft { rest: Manifest { scripts: scripts, storage: marked, ..draft.rest }, ..draft },
            ),
        }
    } else {
        match kind_of_key(key) {
            Some(kind) => match section_of(value) {
                None => Err(Malformed::InvalidDependencies(kind)),
                Some(section) => Ok(
                    Draft {
                        rest: Manifest { storage: marked, ..draft.rest }.with_section(
                            kind,
                            section,
                        ),
                        ..draft
                    },
                ),
            },
            None => Ok(
                Draft {
                    rest: Manifest {
                        storage: put_last(draft.rest.storage, key, Slot::Raw(value)),
                        ..draft.rest
                    },
                    ..draft
                },
            ),
        }
    }
}

/// The draft after the entries of a document, read in order; the first
/// entry that cannot be read decides the error.
pub open spec fn read_entries(entries: Seq<(Seq<char>, Json)>) -> Result<Draft, Malformed>
    decreases entries.len(),
{
    if entries.len() == 0 {
        Ok(empty_draft())
    } else {
        match read_entries(entries.drop_last()) {
            Ok(draft) => read_entry(draft, entries.last().0, entries.last().1),
            Err(error) => Err(error),
        }
    }
}

/// The places with a marker for `kind` at the end, unless one is there.
pub open spec fn with_marker(storage: Seq<(Seq<char>, Slot)>, kind: DependencyKind) -> Seq<
    (Seq<char>, Slot),
> {
    if has_key(storage, dependency_key(kind)) {
        storage
    } else {
        storage.push((dependency_key(kind), Slot::Known))
    }
}

/// The places with a marker for each kind of dependency: those that are
/// missing come at the end, in the order normal, dev, peer, optional.
pub open spec fn with_markers(storage: Seq<(Seq<char>, Slot)>) -> Seq<(Seq<char>, Slot)> {
    with_marker(
        with_marker(
            with_marker(with_marker(storage, DependencyKind::Normal), DependencyKind::Dev),
            DependencyKind::Peer,
        ),
        DependencyKind::Optional,
    )
}

/// The manifest that the entries of a document declare.
pub open spec fn read_manifest(entries: Seq<(Seq<char>, Json)>) -> Result<Manifest, Malformed> {
    match read_entries(entries) {
        Err(error) => Err(error),
        Ok(draft) => if draft.name is Some {
            Ok(Manifest { storage: with_markers(draft.rest.storage), ..draft.rest })
        } else {
            Err(Malformed::MissingName)
        },
    }
}

/// The manifest that a document declares. The members of the document
/// count as they stand: a second `name` among them is refused.
pub open spec fn read_document(document: Json) -> Result<Manifest, Malformed> {
    match document {
        Json::Object(entries) => read_manifest(entries),
        _ => Err(Malformed::NotAnObject),
    }
}

/// What the place of `key` contributes to the document: a kept value as it
/// is, the name always, the scripts and each section only while they have
/// an entry.
pub open spec fn emitted(manifest: Manifest, key: Seq<char>, slot: Slot) -> Option<Json> {
    match slot {
        Slot::Raw(value) => Some(value),
        Slot::Known => if key == name_key() {
            Some(Json::Text(manifest.name))
        } else if key == scripts_key() {
            if manifest.scripts.len() > 0 {
                Some(text_object(manifest.scripts))
            } else {
                None
            }
        } else {
            match kind_of_key(key) {
                Some(kind) => if manifest.section(kind).len() > 0 {
                    Some(text_object(manifest.section(kind)))
                } else {
                    None
                },
                None => None,
            }
        },
    }
}

/// The entries that the first `upto` places contribute, in order.
pub open spec fn written_upto(manifest: Manifest, upto: int) -> Seq<(Seq<char>, Json)>
    decreases upto,
{
    if upto <= 0 {
        Seq::empty()
    } else {
        let before = written_upto(manifest, upto - 1);
        let place = manifest.storage[upto - 1];
        match emitted(manifest, place.0, place.1) {
            Some(value) => before.push((place.0, value)),
            None => before,
        }
    }
}

/// The entries of the document that a manifest is written to.
pub open spec fn written_entries(manifest: Manifest) -> Seq<(Seq<char>, Json)> {
    written_upto(manifest, manifest.storage.len() as int)
}

/// The document that a manifest is written to.
pub open spec fn written_document(manifest: Manifest) -> Json {
    Json::Object(written_entries(manifest))
}

/// What becomes of an entry of a document that is read and written back:
/// the name and every key that the manifest does not interpret stay as
/// they are; the scripts and each dependency section are written as the
/// manifest holds them, and not at all where they are empty.
pub open spec fn rewritten(key: Seq<char>, value: Json) -> Option<(Seq<char>, Json)> {
    if key == scripts_key() {
        match scripts_of(value) {
            Some(scripts) => if scripts.len() > 0 {
                Some((key, text_object(scripts)))
            } else {
                None
            },
            None => None,
        }
    } else if kind_of_key(key) is Some {
        match section_of(value) {
            Some(section) => if section.len() > 0 {
                Some((key, text_object(section)))
            } else {
                None
            },
            None => None,
        }
    } else {
        Some((key, value))
    }
}

/// What becomes of the entries of a document that is read and written
/// back: each entry as `rewritten` has it, in the order of the document.
pub open spec fn normal_form(entries: Seq<(Seq<char>, Json)>) -> Seq<(Seq<char>, Json)>
    decreases entries.len(),
{
    if entries.len() == 0 {
        Seq::empty()
    } else {
        let before = normal_form(entries.drop_last());
        match rewritten(entries.last().0, entries.last().1) {
            Some(entry) => before.push(entry),
            None => before,
        }
    }
}

/// What becomes of the entries of a document that is read and written
/// back after the section under `key` was changed: the entry under `key`
/// is written with `object`, every other entry as `rewritten` has it.
pub open spec fn normal_form_with(
    entries: Seq<(Seq<char>, Json)>,
    key: Seq<char>,
    object: Json,
) -> Seq<(Seq<char>, Json)>
    decreases entries.len(),
{
    if entries.len() == 0 {
        Seq::empty()
    } else {
        let before = normal_form_with(entries.drop_last(), key, object);
        if entries.last().0 == key {
            before.push((key, object))
        } else {
            match rewritten(entries.last().0, entries.last().1) {
                Some(entry) => before.push(entry),
                None => before,
            }
        }
    }
}

/// The text that a manifest is written to: the document as `serde_json`
/// prints it with indentation, and a line feed. `None` where `serde_json`
/// refuses the document.
pub open spec fn written_text(manifest: Manifest) -> Option<Seq<char>> {
    match json_render(written_document(manifest)) {
        Some(text) => Some(text + "\n"@),
        None => None,
    }
}

} // verus!
