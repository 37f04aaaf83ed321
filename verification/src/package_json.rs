//! Manifests: reading a `package.json`, changing its dependencies, and
//! writing it back with every other key where it was.

use crate::dependencies::{Dependencies, named_keys};
use crate::entries::{distinct_keys, has_key};
use crate::json::{Json, JsonValue, lemma_object_view, members_view, render_json, SyntaxError};
use crate::manifest::{
    collect_last,
    collect_sorted,
    dependency_key,
    DependencyKind,
    Draft,
    kind_of_key,
    Malformed,
    Manifest,
    name_key,
    read_document,
    read_entries,
    read_manifest,
    scripts_key,
    scripts_of,
    section_of,
    text_members,
    text_object,
    with_marker,
    with_markers,
    without_deps,
    written_document,
    written_text,
    written_upto,
};
use crate::manifest_proofs::{
    lemma_collect_last_step,
    lemma_collect_sorted_step,
    lemma_read_entries_error,
    lemma_read_entries_step,
    lemma_read_manifest_wf,
    lemma_sections_wf,
    lemma_wf_with_sections,
};
use crate::ordered_map::{
    pairs_view,
    PkgJsonValue,
    script_entries,
    scripts_contains_key,
    scripts_insert,
    scripts_is_empty,
    scripts_items,
    scripts_new,
    Slot,
    slot_entries,
    slots_contains_key,
    slots_insert,
    slots_items,
    slots_view,
    slots_with_capacity,
};
use crate::package_name::{PackageName, PackageNameParseError, refusal, valid_name};
use crate::round_trip::lemma_collect_last_same;
use crate::text::str_same;
use linked_hash_map::LinkedHashMap;
use vstd::prelude::*;

verus! {

impl DependencyKind {
    /// The top-level key under which this kind of dependency stands.
    pub fn key(&self) -> (r: &'static str)
        ensures
            r@ == dependency_key(*self),
    {
        match self {
            DependencyKind::Normal => "dependencies",
            DependencyKind::Dev => "devDependencies",
            DependencyKind::Peer => "peerDependencies",
            DependencyKind::Optional => "optionalDependencies",
        }
    }
}

/// What a top-level key of a manifest is.
pub enum KeyKind {
    Name,
    Scripts,
    Section(DependencyKind),
    Other,
}

/// What `key` is as a top-level key of a manifest.
pub open spec fn key_kind(key: Seq<char>) -> KeyKind {
    if key == name_key() {
        KeyKind::Name
    } else if key == scripts_key() {
        KeyKind::Scripts
    } else {
        match kind_of_key(key) {
            Some(kind) => KeyKind::Section(kind),
            None => KeyKind::Other,
        }
    }
}

/// What `key` is as a top-level key of a manifest.
pub fn classify_key(key: &str) -> (r: KeyKind)
    ensures
        r == key_kind(key@),
{
    if str_same(key, "name") {
        KeyKind::Name
    } else if str_same(key, "scripts") {
        KeyKind::Scripts
    } else if str_same(key, DependencyKind::Normal.key()) {
        KeyKind::Section(DependencyKind::Normal)
    } else if str_same(key, DependencyKind::Dev.key()) {
        KeyKind::Section(DependencyKind::Dev)
    } else if str_same(key, DependencyKind::Peer.key()) {
        KeyKind::Section(DependencyKind::Peer)
    } else if str_same(key, DependencyKind::Optional.key()) {
        KeyKind::Section(DependencyKind::Optional)
    } else {
        KeyKind::Other
    }
}

/// Why a document is no manifest.
#[derive(Debug)]
pub enum ManifestError {
    /// The document is no object.
    NotAnObject,
    /// No `name`.
    MissingName,
    /// A second `name`.
    DuplicateName,
    /// `name` is no string.
    NameNotText,
    /// `name` is a string that is no package name.
    InvalidName(PackageNameParseError),
    /// `scripts` is no object of strings.
    InvalidScripts,
    /// A section of this kind is no object of strings under package names.
    InvalidDependencies(DependencyKind),
}

impl View for ManifestError {
    type V = Malformed;

    open spec fn view(&self) -> Malformed {
        match self {
            ManifestError::NotAnObject => Malformed::NotAnObject,
            ManifestError::MissingName => Malformed::MissingName,
            ManifestError::DuplicateName => Malformed::DuplicateName,
            ManifestError::NameNotText => Malformed::NameNotText,
            ManifestError::InvalidName(error) => Malformed::InvalidName(error@),
            ManifestError::InvalidScripts => Malformed::InvalidScripts,
            ManifestError::InvalidDependencies(kind) => Malformed::InvalidDependencies(*kind),
        }
    }
}

/// What the message of an error says before what it adds of its own.
pub open spec fn complaint(error: Malformed) -> Seq<char> {
    match error {
        Malformed::NotAnObject => "the manifest is no JSON object"@,
        Malformed::MissingName => "missing field `name`"@,
        Malformed::DuplicateName => "duplicate field `name`"@,
        Malformed::NameNotText => "the field `name` is no string"@,
        Malformed::InvalidName(_) => "the field `name` is refused: "@,
        Malformed::InvalidScripts => "the field `scripts` is no object of strings"@,
        Malformed::InvalidDependencies(kind) => dependency_key(kind)
            + " is no object of version strings under package names"@,
    }
}

impl ManifestError {
    /// What to tell the user: the complaint, and behind it what is said of
    /// the string that was refused as a name.
    pub fn message(&self) -> (r: String)
        ensures
            r@ == complaint(self@) + match self {
                ManifestError::InvalidName(error) => refusal(error@),
                _ => Seq::empty(),
            },
    {
        match self {
            ManifestError::NotAnObject => {
                let message = "the manifest is no JSON object".to_owned();
                assert(message@ + Seq::<char>::empty() =~= message@);
                message
            },
            ManifestError::MissingName => {
                let message = "missing field `name`".to_owned();
                assert(message@ + Seq::<char>::empty() =~= message@);
                message
            },
            ManifestError::DuplicateName => {
                let message = "duplicate field `name`".to_owned();
                assert(message@ + Seq::<char>::empty() =~= message@);
                message
            },
            ManifestError::NameNotText => {
                let message = "the field `name` is no string".to_owned();
                assert(message@ + Seq::<char>::empty() =~= message@);
                message
            },
            ManifestError::InvalidName(error) => {
                let mut message = "the field `name` is refused: ".to_owned();
                message.append(error.message().as_str());
                message
            },
            ManifestError::InvalidScripts => {
                let message = "the field `scripts` is no object of strings".to_owned();
                assert(message@ + Seq::<char>::empty() =~= message@);
                message
            },
            ManifestError::InvalidDependencies(kind) => {
                let mut message = kind.key().to_owned();
                message.append(" is no object of version strings under package names");
                assert(message@ + Seq::<char>::empty() =~= message@);
                message
            },
        }
    }
}

/// The place of every top-level key of a document, in the order of the
/// document, with the value of each key that the manifest does not
/// interpret. Only reading a document makes one.
#[derive(Debug)]
pub struct Storage {
    places: LinkedHashMap<String, PkgJsonValue>,
}

impl View for Storage {
    type V = Seq<(Seq<char>, Slot)>;

    closed spec fn view(&self) -> Seq<(Seq<char>, Slot)> {
        slot_entries(self.places)
    }
}

impl Clone for Storage {
    fn clone(&self) -> (r: Storage)
        ensures
            distinct_keys(self@) ==> r@ == self@,
    {
        let items = slots_items(&self.places);
        let ghost all = slots_view(items@);
        let mut places = slots_with_capacity(items.len());
        let mut i: usize = 0;
        assert(all.take(0) =~= Seq::empty());
        while i < items.len()
            invariant
                i <= items.len(),
                all == slots_view(items@),
                slot_entries(places) == collect_last(all.take(i as int)),
            decreases items.len() - i,
        {
            proof {
                lemma_collect_last_step(all, i as int);
            }
            slots_insert(&mut places, items[i].0.clone(), items[i].1.clone());
            i += 1;
        }
        proof {
            assert(all.take(i as int) =~= all);
            if distinct_keys(all) {
                lemma_collect_last_same(all);
            }
        }
        Storage { places }
    }
}

impl Storage {
    /// The places, each copied.
    pub fn items(&self) -> (r: Vec<(String, PkgJsonValue)>)
        ensures
            slots_view(r@) == self@,
    {
        slots_items(&self.places)
    }
}

/// A manifest: the name, the scripts, the four dependency sections, and
/// the place of every top-level key of the document.
#[derive(Debug)]
pub struct PackageJson {
    pub name: PackageName,
    pub dependencies: Dependencies,
    pub dev_dependencies: Dependencies,
    pub optional_dependencies: Dependencies,
    pub peer_dependencies: Dependencies,
    pub scripts: LinkedHashMap<String, String>,
    pub storage: Storage,
}

impl View for PackageJson {
    type V = Manifest;

    open spec fn view(&self) -> Manifest {
        Manifest {
            name: self.name@,
            scripts: script_entries(self.scripts),
            dependencies: self.dependencies@,
            dev_dependencies: self.dev_dependencies@,
            optional_dependencies: self.optional_dependencies@,
            peer_dependencies: self.peer_dependencies@,
            storage: self.storage@,
        }
    }
}

/// A copy of a map of scripts.
pub fn clone_scripts(scripts: &LinkedHashMap<String, String>) -> (r: LinkedHashMap<String, String>)
    ensures
        distinct_keys(script_entries(*scripts)) ==> script_entries(r) == script_entries(*scripts),
{
    let items = scripts_items(scripts);
    let ghost all = pairs_view(items@);
    let mut copy = scripts_new();
    let mut i: usize = 0;
    assert(all.take(0) =~= Seq::empty());
    while i < items.len()
        invariant
            i <= items.len(),
            all == pairs_view(items@),
            script_entries(copy) == collect_last(all.take(i as int)),
        decreases items.len() - i,
    {
        proof {
            lemma_collect_last_step(all, i as int);
        }
        scripts_insert(&mut copy, items[i].0.clone(), items[i].1.clone());
        i += 1;
    }
    proof {
        assert(all.take(i as int) =~= all);
        if distinct_keys(all) {
            lemma_collect_last_same(all);
        }
    }
    copy
}

impl Clone for PackageJson {
    fn clone(&self) -> (r: PackageJson)
        ensures
            self.wf() ==> r@ == self@,
    {
        PackageJson {
            name: self.name.clone(),
            dependencies: self.dependencies.clone(),
            dev_dependencies: self.dev_dependencies.clone(),
            optional_dependencies: self.optional_dependencies.clone(),
            peer_dependencies: self.peer_dependencies.clone(),
            scripts: clone_scripts(&self.scripts),
            storage: self.storage.clone(),
        }
    }
}

/// The outcome of reading a manifest, as the model has it.
pub open spec fn outcome_view(outcome: Result<PackageJson, ManifestError>) -> Result<
    Manifest,
    Malformed,
> {
    match outcome {
        Ok(manifest) => Ok(manifest@),
        Err(error) => Err(error@),
    }
}

/// The members with the text of each; the empty text for one that is no
/// string.
pub open spec fn member_texts(members: Seq<(String, JsonValue)>) -> Seq<(Seq<char>, Seq<char>)> {
    Seq::new(
        members.len(),
        |i: int|
            (
                members[i].0@,
                match members[i].1 {
                    JsonValue::Text(text) => text@,
                    _ => Seq::empty(),
                },
            ),
    )
}

/// Members that are all strings are the object's `text_members`.
proof fn lemma_text_members(members: Vec<(String, JsonValue)>)
    requires
        forall|j: int| 0 <= j < members@.len() ==> (#[trigger] members@[j]).1 is Text,
    ensures
        text_members(JsonValue::Object(members)@) == Some(member_texts(members@)),
{
    lemma_object_view(members);
    let view = members_view(members@);
    assert forall|i: int| 0 <= i < view.len() implies (#[trigger] view[i]).1 is Text by {
        assert(members@[i].1 is Text);
    }
    assert(text_members(JsonValue::Object(members)@)->Some_0 =~= member_texts(members@)) by {
        assert forall|i: int| 0 <= i < view.len() implies (view[i].0, view[i].1->Text_0)
            == member_texts(members@)[i] by {
            assert(members@[i].1 is Text);
        }
    }
}

/// A member that is no string leaves the object without `text_members`.
proof fn lemma_no_text_members(members: Vec<(String, JsonValue)>, at: int)
    requires
        0 <= at < members@.len(),
        !(members@[at].1 is Text),
    ensures
        text_members(JsonValue::Object(members)@) is None,
{
    lemma_object_view(members);
    let view = members_view(members@);
    assert(!(view[at].1 is Text));
}

/// Reads the scripts that `value` declares.
pub fn read_scripts(value: &JsonValue) -> (r: Option<LinkedHashMap<String, String>>)
    ensures
        match r {
            Some(scripts) => scripts_of(value@) == Some(script_entries(scripts)),
            None => scripts_of(value@) is None,
        },
{
    match value {
        JsonValue::Object(members) => {
            let mut scripts = scripts_new();
            let mut i: usize = 0;
            while i < members.len()
                invariant
                    i <= members.len(),
                    *value == JsonValue::Object(*members),
                    forall|j: int| 0 <= j < i ==> (#[trigger] members@[j]).1 is Text,
                    script_entries(scripts) == collect_last(member_texts(members@).take(i as int)),
                decreases members.len() - i,
            {
                match &members[i].1 {
                    JsonValue::Text(text) => {
                        proof {
                            lemma_collect_last_step(member_texts(members@), i as int);
                        }
                        scripts_insert(&mut scripts, members[i].0.clone(), text.clone());
                    },
                    _ => {
                        proof {
                            lemma_no_text_members(*members, i as int);
                        }
                        return None;
                    },
                }
                i += 1;
            }
            proof {
                lemma_text_members(*members);
                assert(member_texts(members@).take(i as int) =~= member_texts(members@));
            }
            Some(scripts)
        },
        _ => None,
    }
}

/// One more pair under a package name.
proof fn lemma_named_step(pairs: Seq<(Seq<char>, Seq<char>)>, i: int)
    requires
        0 <= i < pairs.len(),
        named_keys(pairs.take(i)),
        valid_name(pairs[i].0),
    ensures
        named_keys(pairs.take(i + 1)),
{
    assert forall|j: int| 0 <= j < i + 1 implies valid_name((#[trigger] pairs.take(i + 1)[j]).0) by {
        if j < i {
            assert(pairs.take(i)[j] == pairs.take(i + 1)[j]);
        }
    }
}

/// Reads the dependency section that `value` declares.
pub fn read_section(value: &JsonValue) -> (r: Option<Dependencies>)
    ensures
        match r {
            Some(section) => section_of(value@) == Some(section@) && section.wf(),
            None => section_of(value@) is None,
        },
{
    match value {
        JsonValue::Object(members) => {
            let mut section = Dependencies::new();
            let mut i: usize = 0;
            while i < members.len()
                invariant
                    i <= members.len(),
                    *value == JsonValue::Object(*members),
                    forall|j: int| 0 <= j < i ==> (#[trigger] members@[j]).1 is Text,
                    named_keys(member_texts(members@).take(i as int)),
                    section@ == collect_sorted(member_texts(members@).take(i as int)),
                    section.wf(),
                decreases members.len() - i,
            {
                let ghost pairs = member_texts(members@);
                match &members[i].1 {
                    JsonValue::Text(text) => {
                        match PackageName::new(members[i].0.clone()) {
                            Ok(name) => {
                                proof {
                                    lemma_collect_sorted_step(pairs, i as int);
                                    lemma_named_step(pairs, i as int);
                                }
                                section.insert(name, text.clone());
                            },
                            Err(_) => {
                                proof {
                                    if text_members(value@) is Some {
                                        lemma_object_view(*members);
                                        let all = text_members(value@)->Some_0;
                                        assert(all.len() == members@.len());
                                        assert(all[i as int].0 == members_view(
                                            members@,
                                        )[i as int].0);
                                    }
                                }
                                return None;
                            },
                        }
                    },
                    _ => {
                        proof {
                            lemma_no_text_members(*members, i as int);
                        }
                        return None;
                    },
                }
                i += 1;
            }
            proof {
                lemma_text_members(*members);
                assert(member_texts(members@).take(i as int) =~= member_texts(members@));
            }
            Some(section)
        },
        _ => None,
    }
}

/// The JSON object whose members are the given strings.
pub fn pairs_to_json(pairs: &Vec<(String, String)>) -> (r: JsonValue)
    ensures
        r@ == text_object(pairs_view(pairs@)),
{
    let mut members: Vec<(String, JsonValue)> = Vec::new();
    let mut i: usize = 0;
    while i < pairs.len()
        invariant
            i <= pairs.len(),
            members@.len() == i,
            forall|j: int|
                0 <= j < i ==> (#[trigger] members@[j]).0@ == pairs@[j].0@ && members@[j].1@
                    == Json::Text(pairs@[j].1@),
        decreases pairs.len() - i,
    {
        members.push((pairs[i].0.clone(), JsonValue::Text(pairs[i].1.clone())));
        i += 1;
    }
    proof {
        lemma_object_view(members);
        assert(members_view(members@) =~= text_object(pairs_view(pairs@))->Object_0);
    }
    JsonValue::Object(members)
}

/// Puts a marker for `kind` at the end, unless one is there.
fn add_marker(storage: &mut LinkedHashMap<String, PkgJsonValue>, kind: DependencyKind)
    ensures
        slot_entries(*final(storage)) == with_marker(slot_entries(*old(storage)), kind),
{
    if !slots_contains_key(storage, kind.key()) {
        slots_insert(storage, kind.key().to_owned(), PkgJsonValue::StoredElsewhere);
    }
}

impl PackageJson {
    /// What holds of every manifest that was read from a document, and of
    /// every one made from such a manifest by this crate.
    pub open spec fn wf(&self) -> bool {
        self@.wf()
    }

    /// Reads the manifest that the top-level entries of a document declare.
    /// The entries are to be those of the text, in its order and with every
    /// repeated key as often as it stands there: a second `name` is refused,
    /// and any other key that comes again takes its last place and value.
    pub fn from_entries(entries: &Vec<(String, JsonValue)>) -> (r: Result<
        PackageJson,
        ManifestError,
    >)
        ensures
            outcome_view(r) == read_manifest(members_view(entries@)),
            r matches Ok(manifest) ==> manifest.wf(),
    {
        let ghost all = members_view(entries@);
        let mut storage = slots_with_capacity(entries.len());
        let mut name: Option<PackageName> = None;
        let mut scripts = scripts_new();
        let mut dependencies = Dependencies::new();
        let mut dev_dependencies = Dependencies::new();
        let mut peer_dependencies = Dependencies::new();
        let mut optional_dependencies = Dependencies::new();
        let mut i: usize = 0;
        assert(all.take(0) =~= Seq::empty());
        while i < entries.len()
            invariant
                i <= entries.len(),
                all == members_view(entries@),
                dependencies.wf(),
                dev_dependencies.wf(),
                peer_dependencies.wf(),
                optional_dependencies.wf(),
                read_entries(all.take(i as int)) == Ok::<Draft, Malformed>(
                    Draft {
                        name: match name {
                            Some(name) => Some(name@),
                            None => None,
                        },
                        rest: Manifest {
                            name: match name {
                                Some(name) => name@,
                                None => Seq::empty(),
                            },
                            scripts: script_entries(scripts),
                            dependencies: dependencies@,
                            dev_dependencies: dev_dependencies@,
                            optional_dependencies: optional_dependencies@,
                            peer_dependencies: peer_dependencies@,
                            storage: slot_entries(storage),
                        },
                    },
                ),
            decreases entries.len() - i,
        {
            let key = &entries[i].0;
            let value = &entries[i].1;
            proof {
                lemma_read_entries_step(all, i as int);
                assert(all[i as int] == (key@, value@));
            }
            match classify_key(key.as_str()) {
                KeyKind::Name => {
                    if name.is_some() {
                        proof {
                            lemma_read_entries_error(all, i + 1);
                        }
                        return Err(ManifestError::DuplicateName);
                    }
                    match value {
                        JsonValue::Text(text) => {
                            match PackageName::new(text.clone()) {
                                Ok(valid) => {
                                    name = Some(valid);
                                },
                                Err(error) => {
                                    proof {
                                        lemma_read_entries_error(all, i + 1);
                                    }
                                    return Err(ManifestError::InvalidName(error));
                                },
                            }
                        },
                        _ => {
                            proof {
                                lemma_read_entries_error(all, i + 1);
                            }
                            return Err(ManifestError::NameNotText);
                        },
                    }
                    slots_insert(&mut storage, key.clone(), PkgJsonValue::StoredElsewhere);
                },
                KeyKind::Scripts => {
                    match read_scripts(value) {
                        Some(read) => {
                            scripts = read;
                        },
                        None => {
                            proof {
                                lemma_read_entries_error(all, i + 1);
                            }
                            return Err(ManifestError::InvalidScripts);
                        },
                    }
                    slots_insert(&mut storage, key.clone(), PkgJsonValue::StoredElsewhere);
                },
                KeyKind::Section(kind) => {
                    match read_section(value) {
                        Some(read) => {
                            match kind {
                                DependencyKind::Normal => {
                                    dependencies = read;
                                },
                                DependencyKind::Dev => {
                                    dev_dependencies = read;
                                },
                                DependencyKind::Peer => {
                                    peer_dependencies = read;
                                },
                                DependencyKind::Optional => {
                                    optional_dependencies = read;
                                },
                            }
                        },
                        None => {
                            proof {
                                lemma_read_entries_error(all, i + 1);
                            }
                            return Err(ManifestError::InvalidDependencies(kind));
                        },
                    }
                    slots_insert(&mut storage, key.clone(), PkgJsonValue::StoredElsewhere);
                },
                KeyKind::Other => {
                    slots_insert(&mut storage, key.clone(), PkgJsonValue::Value(value.duplicate()));
                },
            }
            i += 1;
        }
        assert(all.take(i as int) =~= all);
        let name = match name {
            Some(name) => name,
            None => {
                return Err(ManifestError::MissingName);
            },
        };
        let ghost read = slot_entries(storage);
        add_marker(&mut storage, DependencyKind::Normal);
        add_marker(&mut storage, DependencyKind::Dev);
        add_marker(&mut storage, DependencyKind::Peer);
        add_marker(&mut storage, DependencyKind::Optional);
        assert(slot_entries(storage) == with_markers(read));
        proof {
            lemma_read_manifest_wf(all);
        }
        Ok(
            PackageJson {
                name,
                dependencies,
                dev_dependencies,
                optional_dependencies,
                peer_dependencies,
                scripts,
                storage: Storage { places: storage },
            },
        )
    }

    /// Reads the manifest that a document declares: that of its members
    /// where it is an object. The members count as they stand in the
    /// value, a second `name` among them is refused.
    pub fn from_json(document: &JsonValue) -> (r: Result<PackageJson, ManifestError>)
        ensures
            outcome_view(r) == read_document(document@),
            r matches Ok(manifest) ==> manifest.wf(),
    {
        match document {
            JsonValue::Object(entries) => {
                proof {
                    lemma_object_view(*entries);
                }
                PackageJson::from_entries(entries)
            },
            _ => Err(ManifestError::NotAnObject),
        }
    }

    /// The section of one kind.
    pub fn section(&self, kind: DependencyKind) -> (r: &Dependencies)
        ensures
            r@ == self@.section(kind),
            self.wf() ==> r.wf(),
    {
        proof {
            if self.wf() {
                lemma_sections_wf(self@);
            }
        }
        match kind {
            DependencyKind::Normal => &self.dependencies,
            DependencyKind::Dev => &self.dev_dependencies,
            DependencyKind::Peer => &self.peer_dependencies,
            DependencyKind::Optional => &self.optional_dependencies,
        }
    }

    /// The document that the manifest is written to: every kept key where
    /// it was, the name where it was, the scripts and each dependency
    /// section where it was or at the end, and only while it has an entry.
    pub fn to_json(&self) -> (r: JsonValue)
        ensures
            r@ == written_document(self@),
    {
        let places = self.storage.items();
        let mut entries: Vec<(String, JsonValue)> = Vec::new();
        let mut i: usize = 0;
        while i < places.len()
            invariant
                i <= places.len(),
                slots_view(places@) == self@.storage,
                members_view(entries@) == written_upto(self@, i as int),
            decreases places.len() - i,
        {
            let key = &places[i].0;
            let ghost before = members_view(entries@);
            proof {
                assert(self@.storage[i as int] == (key@, places@[i as int].1@));
            }
            match &places[i].1 {
                PkgJsonValue::Value(value) => {
                    entries.push((key.clone(), value.duplicate()));
                    assert(members_view(entries@) =~= before.push((key@, value@)));
                },
                PkgJsonValue::StoredElsewhere => {
                    match classify_key(key.as_str()) {
                        KeyKind::Name => {
                            entries.push(
                                (key.clone(), JsonValue::Text(self.name.as_str().to_owned())),
                            );
                            assert(members_view(entries@) =~= before.push(
                                (key@, Json::Text(self.name@)),
                            ));
                        },
                        KeyKind::Scripts => {
                            if !scripts_is_empty(&self.scripts) {
                                let pairs = scripts_items(&self.scripts);
                                let object = pairs_to_json(&pairs);
                                entries.push((key.clone(), object));
                                assert(members_view(entries@) =~= before.push((key@, object@)));
                            }
                        },
                        KeyKind::Section(kind) => {
                            let section = self.section(kind);
                            if !section.is_empty() {
                                let object = section.to_json();
                                entries.push((key.clone(), object));
                                assert(members_view(entries@) =~= before.push((key@, object@)));
                            }
                        },
                        KeyKind::Other => {},
                    }
                },
            }
            i += 1;
        }
        proof {
            lemma_object_view(entries);
        }
        JsonValue::Object(entries)
    }

    /// Writes the manifest: the text that goes into its file.
    pub fn write(&self) -> (r: Result<String, SyntaxError>)
        ensures
            match r {
                Ok(text) => written_text(self@) == Some(text@),
                Err(_) => written_text(self@) is None,
            },
    {
        match render_json(&self.to_json()) {
            Ok(text) => {
                let mut text = text;
                text.append("\n");
                Ok(text)
            },
            Err(error) => Err(error),
        }
    }

    /// The sections that count when one asks who depends on a package:
    /// dependencies, dev dependencies and optional dependencies.
    pub fn iter_normal_deps(&self) -> (r: [&Dependencies; 3])
        ensures
            r[0] == &self.dependencies,
            r[1] == &self.dev_dependencies,
            r[2] == &self.optional_dependencies,
    {
        [&self.dependencies, &self.dev_dependencies, &self.optional_dependencies]
    }

    /// Takes `pkg` out of all four sections, whichever held it, and says
    /// whether one did. A name that no section holds is no error.
    pub fn remove_dep(&mut self, pkg: &PackageName) -> (r: bool)
        requires
            old(self).wf(),
        ensures
            final(self).wf(),
            final(self)@ == old(self)@.without_dep(pkg@),
            r == old(self)@.declares(pkg@),
    {
        proof {
            lemma_sections_wf(self@);
        }
        let normal = self.dependencies.remove(pkg);
        let dev = self.dev_dependencies.remove(pkg);
        let optional = self.optional_dependencies.remove(pkg);
        let peer = self.peer_dependencies.remove(pkg);
        proof {
            lemma_wf_with_sections(old(self)@, self@);
        }
        normal.is_some() || dev.is_some() || optional.is_some() || peer.is_some()
    }

    /// Gives `dep` the version `version` in each of the sections
    /// `dependencies`, `devDependencies` and `optionalDependencies` that
    /// holds it, and hands back the version it had in the first of them.
    pub fn set_dep_version(&mut self, dep: &PackageName, version: &str) -> (r: Option<String>)
        requires
            old(self).wf(),
        ensures
            final(self).wf(),
            final(self)@ == old(self)@.with_version(dep@, version@),
            match r {
                Some(before) => old(self)@.version_of(dep@) == Some(before@),
                None => old(self)@.version_of(dep@) is None,
            },
    {
        proof {
            lemma_sections_wf(self@);
        }
        let mut before: Option<String> = None;
        if self.optional_dependencies.contains_key(dep) {
            before = self.optional_dependencies.insert(dep.clone(), version.to_owned());
        }
        if self.dev_dependencies.contains_key(dep) {
            before = self.dev_dependencies.insert(dep.clone(), version.to_owned());
        }
        if self.dependencies.contains_key(dep) {
            before = self.dependencies.insert(dep.clone(), version.to_owned());
        }
        proof {
            lemma_wf_with_sections(old(self)@, self@);
        }
        before
    }

    /// Whether the manifest declares a script of this name.
    pub fn has_script(&self, name: &str) -> (r: bool)
        ensures
            r == has_key(self@.scripts, name@),
    {
        scripts_contains_key(&self.scripts, name)
    }

    /// Takes each of `pkgs` out of all four sections.
    pub fn remove_deps(&mut self, pkgs: &Vec<PackageName>)
        requires
            old(self).wf(),
        ensures
            final(self).wf(),
            final(self)@ == without_deps(old(self)@, pkgs.deep_view()),
    {
        let mut i: usize = 0;
        assert(pkgs.deep_view().take(0) =~= Seq::empty());
        while i < pkgs.len()
            invariant
                i <= pkgs.len(),
                self.wf(),
                self@ == without_deps(old(self)@, pkgs.deep_view().take(i as int)),
            decreases pkgs.len() - i,
        {
            proof {
                let upto = pkgs.deep_view().take(i + 1);
                assert(upto.drop_last() =~= pkgs.deep_view().take(i as int));
                assert(upto.last() == pkgs@[i as int]@);
            }
            self.remove_dep(&pkgs[i]);
            i += 1;
        }
        assert(pkgs.deep_view().take(i as int) =~= pkgs.deep_view());
    }

    /// Gives `dep` the version `version` among the dev dependencies if
    /// `dev`, else among the dependencies.
    pub fn add_dep(&mut self, dep: PackageName, version: String, dev: bool)
        requires
            old(self).wf(),
        ensures
            final(self).wf(),
            final(self)@ == old(self)@.with_dep(dep@, version@, dev),
    {
        proof {
            lemma_sections_wf(self@);
        }
        if dev {
            self.dev_dependencies.insert(dep, version);
        } else {
            self.dependencies.insert(dep, version);
        }
        proof {
            lemma_wf_with_sections(old(self)@, self@);
        }
    }
}

} // verus!
