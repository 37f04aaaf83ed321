//! Workspaces: where a project says which directories hold its packages,
//! and which of the files that a walk of the project found are their
//! manifests.

use crate::entries::key_at;
use crate::json::{
    items_view,
    Json,
    json_parse,
    JsonValue,
    lemma_array_view,
    lemma_object_view,
    members_view,
    parse_json,
    parse_yaml,
    SyntaxError,
    yaml_parse,
};
use crate::project::PackageManager;
use crate::text::str_same;
use ignore::overrides::OverrideBuilder;
use vstd::prelude::*;

verus! {

/// The member at `at` is the last one under `key`.
pub open spec fn last_named(members: Seq<(Seq<char>, Json)>, key: Seq<char>, at: int) -> bool {
    &&& key_at(members, key, at)
    &&& forall|j: int| at < j < members.len() ==> (#[trigger] members[j]).0 != key
}

/// The value of the last member of an object under `key`.
pub open spec fn member_of(value: Json, key: Seq<char>) -> Option<Json> {
    match value {
        Json::Object(members) => if exists|at: int| last_named(members, key, at) {
            Some(members[choose|at: int| last_named(members, key, at)].1)
        } else {
            None
        },
        _ => None,
    }
}

/// The strings of `value`, where it is an array of strings.
pub open spec fn texts_of(value: Json) -> Option<Seq<Seq<char>>> {
    match value {
        Json::Array(items) => if forall|i: int|
            0 <= i < items.len() ==> (#[trigger] items[i]) is Text {
            Some(Seq::new(items.len(), |i: int| items[i]->Text_0))
        } else {
            None
        },
        _ => None,
    }
}

/// The value of the last member of an object under `key`.
pub fn get_member<'a>(value: &'a JsonValue, key: &str) -> (r: Option<&'a JsonValue>)
    ensures
        match r {
            Some(found) => member_of(value@, key@) == Some(found@),
            None => member_of(value@, key@) is None,
        },
{
    match value {
        JsonValue::Object(members) => {
            proof {
                lemma_object_view(*members);
            }
            let ghost view = members_view(members@);
            let mut found: Option<usize> = None;
            let mut i: usize = 0;
            while i < members.len()
                invariant
                    i <= members.len(),
                    view == members_view(members@),
                    match found {
                        Some(at) => at < i && last_named(view.take(i as int), key@, at as int),
                        None => forall|j: int| 0 <= j < i ==> (#[trigger] view[j]).0 != key@,
                    },
                decreases members.len() - i,
            {
                if str_same(members[i].0.as_str(), key) {
                    found = Some(i);
                } else {
                    proof {
                        match found {
                            Some(at) => {
                                assert(view.take(i as int)[at as int] == view.take(i + 1)[at as int]);
                                assert forall|j: int| at < j < i + 1 implies (#[trigger] view.take(
                                    i + 1,
                                )[j]).0 != key@ by {
                                    if j < i {
                                        assert(view.take(i as int)[j].0 != key@);
                                    }
                                }
                            },
                            None => {},
                        }
                    }
                }
                i += 1;
            }
            assert(view.take(i as int) =~= view);
            match found {
                Some(at) => {
                    proof {
                        let chosen = choose|at: int| last_named(view, key@, at);
                        assert(last_named(view, key@, chosen));
                        if chosen < at {
                            assert(view[at as int].0 != key@);
                        } else if at < chosen {
                            assert(view[chosen].0 != key@);
                        }
                    }
                    Some(&members[at].1)
                },
                None => {
                    proof {
                        if exists|at: int| last_named(view, key@, at) {
                            let at = choose|at: int| last_named(view, key@, at);
                            assert(view[at].0 != key@);
                        }
                    }
                    None
                },
            }
        },
        _ => None,
    }
}

/// The strings of `value`, where it is an array of strings.
pub fn read_texts(value: &JsonValue) -> (r: Option<Vec<String>>)
    ensures
        match r {
            Some(texts) => texts_of(value@) == Some(texts.deep_view()),
            None => texts_of(value@) is None,
        },
{
    match value {
        JsonValue::Array(items) => {
            proof {
                lemma_array_view(*items);
            }
            let mut texts: Vec<String> = Vec::new();
            let mut i: usize = 0;
            while i < items.len()
                invariant
                    i <= items.len(),
                    *value == JsonValue::Array(*items),
                    value@ == Json::Array(items_view(items@)),
                    texts@.len() == i,
                    forall|j: int|
                        0 <= j < i ==> (#[trigger] items@[j]) is Text && items@[j]@ == Json::Text(
                            texts@[j]@,
                        ),
                decreases items.len() - i,
            {
                match &items[i] {
                    JsonValue::Text(text) => {
                        texts.push(text.clone());
                    },
                    _ => {
                        assert(!(items_view(items@)[i as int] is Text));
                        return None;
                    },
                }
                i += 1;
            }
            proof {
                assert forall|j: int| 0 <= j < items@.len() implies (#[trigger] items_view(
                    items@,
                )[j]) is Text by {
                    assert(items@[j] is Text);
                }
                assert(texts_of(value@)->Some_0 =~= texts.deep_view());
            }
            Some(texts)
        },
        _ => None,
    }
}

/// A workspace configuration that does not have the shape it must have.
#[derive(Debug, Clone, Copy, PartialEq, Eq, Structural)]
pub struct BadShape;

/// The directory patterns that a root manifest declares under
/// `workspaces`: none where the key is missing or null; the strings where
/// it is an array of strings; the strings under `packages` where it is an
/// object; an error for every other shape.
pub open spec fn manifest_workspaces(document: Json) -> Result<Option<Seq<Seq<char>>>, BadShape> {
    match member_of(document, "workspaces"@) {
        None => if document is Object {
            Ok(None)
        } else {
            Err(BadShape)
        },
        Some(Json::Null) => Ok(None),
        Some(workspaces) => match texts_of(workspaces) {
            Some(globs) => Ok(Some(globs)),
            None => match member_of(workspaces, "packages"@) {
                Some(packages) => match texts_of(packages) {
                    Some(globs) => Ok(Some(globs)),
                    None => Err(BadShape),
                },
                None => Err(BadShape),
            },
        },
    }
}

/// The directory patterns that a `pnpm-workspace.yaml` declares: the
/// strings under `packages`.
pub open spec fn pnpm_workspaces(document: Json) -> Result<Seq<Seq<char>>, BadShape> {
    match member_of(document, "packages"@) {
        Some(packages) => match texts_of(packages) {
            Some(globs) => Ok(globs),
            None => Err(BadShape),
        },
        None => Err(BadShape),
    }
}

/// The directory patterns that a root manifest declares under
/// `workspaces`.
pub fn read_manifest_workspaces(document: &JsonValue) -> (r: Result<Option<Vec<String>>, BadShape>)
    ensures
        match r {
            Ok(Some(globs)) => manifest_workspaces(document@) == Ok::<_, BadShape>(
                Some(globs.deep_view()),
            ),
            Ok(None) => manifest_workspaces(document@) == Ok::<Option<Seq<Seq<char>>>, BadShape>(
                None,
            ),
            Err(_) => manifest_workspaces(document@) is Err,
        },
{
    match get_member(document, "workspaces") {
        None => match document {
            JsonValue::Object(_) => Ok(None),
            _ => Err(BadShape),
        },
        Some(JsonValue::Null) => Ok(None),
        Some(workspaces) => match read_texts(workspaces) {
            Some(globs) => Ok(Some(globs)),
            None => match get_member(workspaces, "packages") {
                Some(packages) => match read_texts(packages) {
                    Some(globs) => Ok(Some(globs)),
                    None => Err(BadShape),
                },
                None => Err(BadShape),
            },
        },
    }
}

/// The directory patterns that a `pnpm-workspace.yaml` declares.
pub fn read_pnpm_workspaces(document: &JsonValue) -> (r: Result<Vec<String>, BadShape>)
    ensures
        match r {
            Ok(globs) => pnpm_workspaces(document@) == Ok::<_, BadShape>(globs.deep_view()),
            Err(_) => pnpm_workspaces(document@) is Err,
        },
{
    match get_member(document, "packages") {
        Some(packages) => match read_texts(packages) {
            Some(globs) => Ok(globs),
            None => Err(BadShape),
        },
        None => Err(BadShape),
    }
}

/// Why the workspace of a project cannot be told.
#[derive(Debug)]
pub enum WorkspaceError {
    /// The configuration is no JSON, or no YAML; with the parser's message.
    Syntax(SyntaxError),
    /// The configuration does not have the shape it must have.
    Shape,
}

/// Why the workspace of a project cannot be told.
pub enum Trouble {
    Syntax,
    Shape,
}

impl View for WorkspaceError {
    type V = Trouble;

    open spec fn view(&self) -> Trouble {
        match self {
            WorkspaceError::Syntax(_) => Trouble::Syntax,
            WorkspaceError::Shape => Trouble::Shape,
        }
    }
}

/// The directory patterns of a project's workspace; none for a project
/// without workspace configuration. PNPM declares them in
/// `pnpm-workspace.yaml`, whose text is `pnpm_text`, or `None` where the
/// project has no such file; NPM and Yarn declare them in the root
/// manifest.
pub open spec fn declared_globs(
    manager: PackageManager,
    manifest_text: Seq<char>,
    pnpm_text: Option<Seq<char>>,
) -> Result<Option<Seq<Seq<char>>>, Trouble> {
    match manager {
        PackageManager::PNPM => match pnpm_text {
            None => Ok(None),
            Some(text) => match yaml_parse(text) {
                None => Err(Trouble::Syntax),
                Some(document) => match pnpm_workspaces(document) {
                    Ok(globs) => Ok(Some(globs)),
                    Err(_) => Err(Trouble::Shape),
                },
            },
        },
        _ => match json_parse(manifest_text) {
            None => Err(Trouble::Syntax),
            Some(document) => match manifest_workspaces(document) {
                Ok(globs) => Ok(globs),
                Err(_) => Err(Trouble::Shape),
            },
        },
    }
}

/// What the outcome of `workspace_globs` stands for.
pub open spec fn globs_view(outcome: Result<Option<Vec<String>>, WorkspaceError>) -> Result<
    Option<Seq<Seq<char>>>,
    Trouble,
> {
    match outcome {
        Ok(Some(globs)) => Ok(Some(globs.deep_view())),
        Ok(None) => Ok(None),
        Err(error) => Err(error@),
    }
}

/// The directory patterns of a project's workspace. The two texts are
/// read by `serde_json` and `serde_yaml`, so a key that a text holds twice
/// counts once, with its last value.
pub fn workspace_globs(manager: PackageManager, manifest_text: &str, pnpm_text: Option<&str>) -> (r:
    Result<Option<Vec<String>>, WorkspaceError>)
    ensures
        globs_view(r) == declared_globs(
            manager,
            manifest_text@,
            match pnpm_text {
                Some(text) => Some(text@),
                None => None,
            },
        ),
{
    match manager {
        PackageManager::PNPM => match pnpm_text {
            None => Ok(None),
            Some(text) => match parse_yaml(text) {
                Err(error) => Err(WorkspaceError::Syntax(error)),
                Ok(document) => match read_pnpm_workspaces(&document) {
                    Ok(globs) => Ok(Some(globs)),
                    Err(_) => Err(WorkspaceError::Shape),
                },
            },
        },
        _ => match parse_json(manifest_text) {
            Err(error) => Err(WorkspaceError::Syntax(error)),
            Ok(document) => match read_manifest_workspaces(&document) {
                Ok(globs) => Ok(globs),
                Err(_) => Err(WorkspaceError::Shape),
            },
        },
    }
}

/// `ignore::Error`: carried to where its message is taken.
#[verifier::external_type_specification]
#[verifier::external_body]
pub struct ExIgnoreError(ignore::Error);

/// Whether `ignore` builds a set of overrides for the directory `root`
/// from these patterns.
pub uninterp spec fn overrides_built(root: Seq<char>, patterns: Seq<Seq<char>>) -> bool;

/// Whether the overrides that `ignore` builds for the directory `root`
/// from these patterns whitelist the file `path`. `ignore` splits paths as
/// the platform does that the crate is built for.
pub uninterp spec fn override_whitelists(
    root: Seq<char>,
    patterns: Seq<Seq<char>>,
    path: Seq<char>,
) -> bool;

/// `OverrideBuilder::new`, `add` for each pattern, `build`, and then
/// `Override::matched` on each path, as a file. The contract claims that the
/// outcome depends on the arguments alone: an error comes exactly where
/// `overrides_built` is false of root and patterns, and else each flag is
/// `override_whitelists` of root, patterns and the path it stands for.
#[verifier::external_body]
fn match_overrides(root: &str, patterns: &Vec<String>, paths: &Vec<String>) -> (r: Result<
    Vec<bool>,
    ignore::Error,
>)
    ensures
        match r {
            Ok(flags) => {
                &&& overrides_built(root@, patterns.deep_view())
                &&& flags@.len() == paths@.len()
                &&& forall|i: int|
                    0 <= i < paths@.len() ==> #[trigger] flags@[i] == override_whitelists(
                        root@,
                        patterns.deep_view(),
                        paths@[i]@,
                    )
            },
            Err(_) => !overrides_built(root@, patterns.deep_view()),
        },
{
    let mut builder = OverrideBuilder::new(root);
    for pattern in patterns {
        builder.add(pattern)?;
    }
    let overrides = builder.build()?;
    Ok(paths.iter().map(|path| overrides.matched(path, false).is_whitelist()).collect())
}

/// `ignore::Error`'s `Display`: the message of the error.
#[verifier::external_body]
fn glob_error_text(error: &ignore::Error) -> String {
    error.to_string()
}

/// A pattern that `ignore` refuses, with its message.
#[derive(Debug)]
pub struct GlobError {
    pub message: String,
}

/// The patterns that select the manifests of a workspace: each directory
/// pattern, then `/package.json`.
pub open spec fn manifest_patterns(globs: Seq<Seq<char>>) -> Seq<Seq<char>> {
    Seq::new(globs.len(), |i: int| globs[i] + "/package.json"@)
}

/// The paths among `paths` that the overrides whitelist, in their order.
pub open spec fn selected(root: Seq<char>, patterns: Seq<Seq<char>>, paths: Seq<Seq<char>>) -> Seq<
    Seq<char>,
>
    decreases paths.len(),
{
    if paths.len() == 0 {
        Seq::empty()
    } else if override_whitelists(root, patterns, paths.last()) {
        selected(root, patterns, paths.drop_last()).push(paths.last())
    } else {
        selected(root, patterns, paths.drop_last())
    }
}

/// The patterns that select the manifests of a workspace.
pub fn manifest_globs(globs: &Vec<String>) -> (r: Vec<String>)
    ensures
        r.deep_view() == manifest_patterns(globs.deep_view()),
{
    let mut patterns: Vec<String> = Vec::new();
    let mut i: usize = 0;
    while i < globs.len()
        invariant
            i <= globs.len(),
            patterns@.len() == i,
            forall|j: int| 0 <= j < i ==> (#[trigger] patterns@[j])@ == globs@[j]@ + "/package.json"@,
        decreases globs.len() - i,
    {
        let mut pattern = globs[i].clone();
        pattern.append("/package.json");
        patterns.push(pattern);
        i += 1;
    }
    assert(patterns.deep_view() =~= manifest_patterns(globs.deep_view()));
    patterns
}

/// The manifests of a workspace among the files that a walk of the project
/// found. `root` is the project's directory, `globs` are the directory
/// patterns of its workspace, and `walked` are the paths that the walk
/// handed out. The manifests are the paths that the overrides built from
/// the patterns whitelist, in the order of the walk. An error comes exactly
/// where `ignore` refuses a pattern.
pub fn find_packages(root: &str, globs: &Vec<String>, walked: &Vec<String>) -> (r: Result<
    Vec<String>,
    GlobError,
>)
    ensures
        match r {
            Ok(manifests) => {
                &&& overrides_built(root@, manifest_patterns(globs.deep_view()))
                &&& manifests.deep_view() == selected(
                    root@,
                    manifest_patterns(globs.deep_view()),
                    walked.deep_view(),
                )
            },
            Err(_) => !overrides_built(root@, manifest_patterns(globs.deep_view())),
        },
{
    let patterns = manifest_globs(globs);
    let flags = match match_overrides(root, &patterns, walked) {
        Ok(flags) => flags,
        Err(error) => {
            return Err(GlobError { message: glob_error_text(&error) });
        },
    };
    Ok(pick(walked, &flags, Ghost(root@), Ghost(patterns.deep_view())))
}

/// The paths whose flag is set.
fn pick(
    paths: &Vec<String>,
    flags: &Vec<bool>,
    Ghost(root): Ghost<Seq<char>>,
    Ghost(patterns): Ghost<Seq<Seq<char>>>,
) -> (r: Vec<String>)
    requires
        flags@.len() == paths@.len(),
        forall|i: int|
            0 <= i < paths@.len() ==> #[trigger] flags@[i] == override_whitelists(
                root,
                patterns,
                paths@[i]@,
            ),
    ensures
        r.deep_view() == selected(root, patterns, paths.deep_view()),
{
    let mut picked: Vec<String> = Vec::new();
    let mut i: usize = 0;
    assert(paths.deep_view().take(0) =~= Seq::empty());
    while i < paths.len()
        invariant
            i <= paths.len(),
            flags@.len() == paths@.len(),
            forall|i: int|
                0 <= i < paths@.len() ==> #[trigger] flags@[i] == override_whitelists(
                    root,
                    patterns,
                    paths@[i]@,
                ),
            picked.deep_view() == selected(root, patterns, paths.deep_view().take(i as int)),
        decreases paths.len() - i,
    {
        let ghost before = picked.deep_view();
        proof {
            let upto = paths.deep_view().take(i + 1);
            assert(upto.drop_last() =~= paths.deep_view().take(i as int));
            assert(upto.last() == paths@[i as int]@);
        }
        if flags[i] {
            picked.push(paths[i].clone());
            assert(picked.deep_view() =~= before.push(paths@[i as int]@));
        }
        i += 1;
    }
    assert(paths.deep_view().take(i as int) =~= paths.deep_view());
    picked
}

} // verus!
