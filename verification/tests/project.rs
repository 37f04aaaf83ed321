use jsproject::commands::binary_candidate;
use jsproject::commands::caret_range;
use jsproject::commands::chosen_version;
use jsproject::commands::find_binary_location;
use jsproject::commands::plan_add;
use jsproject::commands::plan_run;
use jsproject::commands::AddPlan;
use jsproject::commands::BinarySearch;
use jsproject::commands::RunPlan;
use jsproject::json::JsonValue;
use jsproject::package_json::ManifestError;
use jsproject::package_json::PackageJson;
use jsproject::package_name::PackageName;
use jsproject::paths::join;
use jsproject::paths::parent;
use jsproject::paths::starts_with;
use jsproject::project::detect_manager;
use jsproject::project::Package;
use jsproject::project::PackageManager;
use jsproject::project::PackageSearch;
use jsproject::project::Project;
use jsproject::project::ProjectSearch;
use jsproject::registry::read_latest_version;
use jsproject::registry::registry_url;
use jsproject::workspace::find_packages;
use jsproject::workspace::manifest_globs;
use jsproject::workspace::workspace_globs;
use jsproject::workspace::WorkspaceError;

/// The top-level members of a JSON object as they stand in the text,
/// repeated keys kept: what a caller that reads the file hands over.
struct Members(Vec<(String, JsonValue)>);

struct Walk;

impl<'de> serde::de::Visitor<'de> for Walk {
    type Value = Members;

    fn expecting(&self, formatter: &mut std::fmt::Formatter) -> std::fmt::Result {
        formatter.write_str("a package.json")
    }

    fn visit_map<A>(self, mut map: A) -> Result<Members, A::Error>
    where
        A: serde::de::MapAccess<'de>,
    {
        let mut members = Vec::new();
        while let Some(key) = map.next_key::<String>()? {
            members.push((key, json_value(map.next_value()?)));
        }
        Ok(Members(members))
    }
}

impl<'de> serde::Deserialize<'de> for Members {
    fn deserialize<D>(deserializer: D) -> Result<Members, D::Error>
    where
        D: serde::Deserializer<'de>,
    {
        deserializer.deserialize_map(Walk)
    }
}

fn json_value(value: serde_json::Value) -> JsonValue {
    match value {
        serde_json::Value::Null => JsonValue::Null,
        serde_json::Value::Bool(b) => JsonValue::Bool(b),
        serde_json::Value::Number(n) => JsonValue::Number(n.to_string()),
        serde_json::Value::String(s) => JsonValue::Text(s),
        serde_json::Value::Array(a) => JsonValue::Array(a.into_iter().map(json_value).collect()),
        serde_json::Value::Object(m) => {
            JsonValue::Object(m.into_iter().map(|(k, v)| (k, json_value(v))).collect())
        }
    }
}

fn members(text: &str) -> Vec<(String, JsonValue)> {
    serde_json::from_str::<Members>(text).unwrap().0
}

fn name(text: &str) -> PackageName {
    PackageName::new(text.to_owned()).unwrap()
}

fn path(parts: &[&str]) -> Vec<String> {
    parts.iter().map(|part| part.to_string()).collect()
}

fn strings(parts: &[&str]) -> Vec<String> {
    path(parts)
}

fn package(dir: &[&str], manifest: &str) -> Package {
    Package { dir: path(dir), pkg_json: PackageJson::from_entries(&members(manifest)).unwrap() }
}

fn repo() -> Project {
    Project::new(
        package(&["/", "repo"], r#"{"name":"root","private":true,"workspaces":["packages/*"]}"#),
        Some(vec![
            package(
                &["/", "repo", "packages", "a"],
                r#"{"name":"a","dependencies":{"lodash":"^4.0.0"},"peerDependencies":{"react":"^16.0.0"}}"#,
            ),
            package(
                &["/", "repo", "packages", "b"],
                r#"{"name":"b","devDependencies":{"lodash":"^3.0.0"},"scripts":{"build":"tsc"}}"#,
            ),
            package(&["/", "repo", "packages", "foo"], r#"{"name":"foo"}"#),
        ]),
        PackageManager::Yarn,
    )
}

fn dependents(project: &Project, dep: &str) -> Vec<(String, Vec<String>)> {
    project
        .find_dependents(&name(dep))
        .into_iter()
        .map(|(specifier, names)| (specifier, names.iter().map(|n| n.as_str().to_owned()).collect()))
        .collect()
}

#[test]
fn find_dependents_groups_packages_by_specifier() {
    let project = repo();
    assert_eq!(
        dependents(&project, "lodash"),
        vec![("^3.0.0".to_owned(), strings(&["b"])), ("^4.0.0".to_owned(), strings(&["a"]))]
    );
}

#[test]
fn find_dependents_knows_no_peers_and_no_strangers() {
    let project = repo();
    assert!(dependents(&project, "react").is_empty());
    assert!(dependents(&project, "absent").is_empty());
}

#[test]
fn find_dependents_sorts_names_and_names_each_once() {
    let project = Project::new(
        package(&["r"], r#"{"name":"m","dependencies":{"x":"1"},"optionalDependencies":{"x":"2"}}"#),
        Some(vec![
            package(&["r", "z"], r#"{"name":"z","dependencies":{"x":"1"},"devDependencies":{"x":"1"}}"#),
            package(&["r", "c"], r#"{"name":"c","optionalDependencies":{"x":"1"}}"#),
        ]),
        PackageManager::NPM,
    );
    assert_eq!(
        dependents(&project, "x"),
        vec![("1".to_owned(), strings(&["c", "m", "z"])), ("2".to_owned(), strings(&["m"]))]
    );
}

#[test]
fn closest_pkg_is_the_nearest_enclosing_package() {
    let project = repo();
    let inside = project.closest_pkg(&path(&["/", "repo", "packages", "foo", "src"])).unwrap();
    assert_eq!(inside.pkg_json.name.as_str(), "foo");
    let at = project.closest_pkg(&path(&["/", "repo", "packages", "foo"])).unwrap();
    assert_eq!(at.pkg_json.name.as_str(), "foo");
    let other = project.closest_pkg(&path(&["/", "repo", "other"])).unwrap();
    assert_eq!(other.pkg_json.name.as_str(), "root");
    let sibling = project.closest_pkg(&path(&["/", "repo", "packages", "food"])).unwrap();
    assert_eq!(sibling.pkg_json.name.as_str(), "root");
    assert!(project.closest_pkg(&path(&["/", "elsewhere"])).is_none());
    assert!(project.closest_pkg(&path(&["/"])).is_none());
}

#[test]
fn closest_pkg_mut_changes_the_package_in_place() {
    let mut project = repo();
    let found = project.closest_pkg_mut(&path(&["/", "repo", "packages", "a", "lib"])).unwrap();
    found.pkg_json.remove_dep(&name("lodash"));
    assert!(project.get(&name("a")).unwrap().pkg_json.dependencies.is_empty());
    assert_eq!(dependents(&project, "lodash"), vec![("^3.0.0".to_owned(), strings(&["b"]))]);
    assert!(project.closest_pkg_mut(&path(&["/", "nowhere"])).is_none());
}

#[test]
fn get_looks_at_the_root_first() {
    let project = repo();
    assert_eq!(project.get(&name("root")).unwrap().dir, path(&["/", "repo"]));
    assert_eq!(project.get(&name("b")).unwrap().dir, path(&["/", "repo", "packages", "b"]));
    assert!(project.get(&name("absent")).is_none());
    let shadowed = Project::new(
        package(&["r"], r#"{"name":"same"}"#),
        Some(vec![package(&["r", "m"], r#"{"name":"same"}"#)]),
        PackageManager::PNPM,
    );
    assert_eq!(shadowed.get(&name("same")).unwrap().dir, path(&["r"]));
}

#[test]
fn get_mut_reaches_members_and_root() {
    let mut project = repo();
    project.get_mut(&name("foo")).unwrap().pkg_json.add_dep(name("react"), "^17.0.2".to_owned(), false);
    project.get_mut(&name("root")).unwrap().pkg_json.add_dep(name("jest"), "^27.0.0".to_owned(), true);
    assert!(project.get_mut(&name("absent")).is_none());
    assert_eq!(project.get(&name("foo")).unwrap().pkg_json.dependencies.len(), 1);
    assert_eq!(project.root.pkg_json.dev_dependencies.len(), 1);
}

#[test]
fn iter_hands_out_members_in_order_and_the_root_last() {
    let project = repo();
    let names: Vec<&str> = project.iter().iter().map(|p| p.pkg_json.name.as_str()).collect();
    assert_eq!(names, vec!["a", "b", "foo", "root"]);
    assert_eq!(project.member_count(), 3);
    assert_eq!(project.dir(), &path(&["/", "repo"]));
    let single = Project::new(package(&["s"], r#"{"name":"single"}"#), None, PackageManager::NPM);
    assert!(single.packages.is_none());
    assert_eq!(single.iter().len(), 1);
}

#[test]
fn iter_mut_visits_every_package_by_its_place() {
    let mut project = repo();
    let mut at = 0;
    let mut seen = Vec::new();
    while let Some(found) = project.iter_mut(at) {
        found.pkg_json.remove_dep(&name("lodash"));
        seen.push(found.pkg_json.name.as_str().to_owned());
        at += 1;
    }
    assert_eq!(seen, strings(&["a", "b", "foo", "root"]));
    assert!(dependents(&project, "lodash").is_empty());
}

#[test]
fn later_members_replace_earlier_ones_of_the_same_name() {
    let project = Project::new(
        package(&["r"], r#"{"name":"root"}"#),
        Some(vec![
            package(&["r", "one"], r#"{"name":"twin"}"#),
            package(&["r", "two"], r#"{"name":"other"}"#),
            package(&["r", "three"], r#"{"name":"twin"}"#),
        ]),
        PackageManager::Yarn,
    );
    let dirs: Vec<Vec<String>> = project.iter().iter().map(|p| p.dir.clone()).collect();
    assert_eq!(dirs, vec![path(&["r", "two"]), path(&["r", "three"]), path(&["r"])]);
    assert_eq!(project.get(&name("twin")).unwrap().dir, path(&["r", "three"]));
}

#[test]
fn lock_files_tell_the_manager_in_a_fixed_order() {
    assert_eq!(detect_manager(&strings(&["a", "yarn.lock", "package.json"])), Some(PackageManager::Yarn));
    assert_eq!(detect_manager(&strings(&["pnpm-lock.yaml"])), Some(PackageManager::PNPM));
    assert_eq!(detect_manager(&strings(&["package-lock.json", "src"])), Some(PackageManager::NPM));
    assert_eq!(
        detect_manager(&strings(&["package-lock.json", "pnpm-lock.yaml", "yarn.lock"])),
        Some(PackageManager::Yarn)
    );
    assert_eq!(detect_manager(&strings(&["package-lock.json", "pnpm-lock.yaml"])), Some(PackageManager::PNPM));
    assert_eq!(detect_manager(&strings(&["package.json", "Yarn.lock"])), None);
    assert_eq!(detect_manager(&Vec::new()), None);
}

#[test]
fn manager_names() {
    assert_eq!(PackageManager::PNPM.name(), "pnpm");
    assert_eq!(PackageManager::NPM.name(), "npm");
    assert_eq!(PackageManager::Yarn.name(), "Yarn");
    assert_eq!(PackageManager::PNPM.command(), "pnpm");
    assert_eq!(PackageManager::NPM.command(), "npm");
    assert_eq!(PackageManager::Yarn.command(), "yarn");
    assert_eq!(PackageManager::Yarn.lockfile(), "yarn.lock");
    assert_eq!(PackageManager::PNPM.lockfile(), "pnpm-lock.yaml");
    assert_eq!(PackageManager::NPM.lockfile(), "package-lock.json");
}

#[test]
fn paths_are_lists_of_components() {
    let dir = path(&["/", "repo"]);
    assert_eq!(join(&dir, "package.json"), path(&["/", "repo", "package.json"]));
    assert_eq!(parent(&dir), Some(path(&["/"])));
    assert_eq!(parent(&path(&["/"])), Some(Vec::new()));
    assert_eq!(parent(&Vec::new()), None);
    assert!(starts_with(&path(&["/", "repo", "src"]), &dir));
    assert!(starts_with(&dir, &dir));
    assert!(starts_with(&dir, &Vec::new()));
    assert!(!starts_with(&path(&["/"]), &dir));
    assert!(!starts_with(&path(&["/", "repository", "src"]), &dir));
    assert_eq!(package(&["/", "repo"], r#"{"name":"x"}"#).pkg_json_path(), path(&["/", "repo", "package.json"]));
    assert_eq!(package(&["/", "repo"], r#"{"name":"x"}"#).path(), &dir);
}

#[test]
fn package_find_walks_upward_until_a_manifest() {
    let start = path(&["/", "repo", "packages", "foo", "src"]);
    let next = match Package::find(start, None) {
        PackageSearch::LookIn(next) => next,
        _ => panic!("the search goes on"),
    };
    assert_eq!(next, path(&["/", "repo", "packages", "foo"]));
    match Package::find(next.clone(), Some(&members("{\"name\":\"foo\"}"))) {
        PackageSearch::Found(found) => {
            assert_eq!(found.dir, next);
            assert_eq!(found.pkg_json.name.as_str(), "foo");
            assert_eq!(found.write().unwrap(), "{\n  \"name\": \"foo\"\n}\n");
        }
        _ => panic!("the manifest is there"),
    }
    assert!(matches!(
        Package::find(next.clone(), Some(&members("{\"name\":\"\"}"))),
        PackageSearch::Malformed(ManifestError::InvalidName(_))
    ));
    assert!(matches!(
        Package::find(next, Some(&members("{\"name\":\"a\",\"name\":\"b\"}"))),
        PackageSearch::Malformed(ManifestError::DuplicateName)
    ));
    assert!(matches!(Package::find(Vec::new(), None), PackageSearch::NotFound));
}

#[test]
fn project_find() {
    let mut dir = path(&["/", "repo", "packages", "foo", "src"]);
    let mut steps = 0;
    let manager = loop {
        let listing = if dir == path(&["/", "repo"]) {
            strings(&["package.json", "packages", "yarn.lock"])
        } else {
            strings(&["index.js", "package.json"])
        };
        match Project::find(&dir, &listing) {
            ProjectSearch::Found(manager) => break manager,
            ProjectSearch::LookIn(next) => dir = next,
            ProjectSearch::NotFound => panic!("the lock file is there"),
        }
        steps += 1;
    };
    assert_eq!(manager, PackageManager::Yarn);
    assert_eq!(dir, path(&["/", "repo"]));
    assert_eq!(steps, 3);
    assert!(matches!(Project::find(&Vec::new(), &strings(&["package.json"])), ProjectSearch::NotFound));
}

#[test]
fn the_root_is_found_from_every_directory_in_it() {
    let starts = [
        path(&["/", "repo"]),
        path(&["/", "repo", "packages"]),
        path(&["/", "repo", "packages", "foo"]),
        path(&["/", "repo", "packages", "foo", "src", "deep"]),
    ];
    for start in starts {
        let mut dir = start;
        let manager = loop {
            let listing = if dir == path(&["/", "repo"]) {
                strings(&["package.json", "yarn.lock"])
            } else {
                strings(&["package.json"])
            };
            match Project::find(&dir, &listing) {
                ProjectSearch::Found(manager) => break manager,
                ProjectSearch::LookIn(next) => dir = next,
                ProjectSearch::NotFound => panic!("the lock file is there"),
            }
        };
        assert_eq!(manager, PackageManager::Yarn);
        assert_eq!(dir, path(&["/", "repo"]));
    }
    let mut dir = path(&["/", "elsewhere", "deep"]);
    let mut steps = 0;
    let found = loop {
        match Project::find(&dir, &strings(&["package.json"])) {
            ProjectSearch::Found(_) => break true,
            ProjectSearch::LookIn(next) => dir = next,
            ProjectSearch::NotFound => break false,
        }
        steps += 1;
    };
    assert!(!found);
    assert_eq!(steps, 3);
}

#[test]
fn find_packages_test() {
    let walked = strings(&[
        "/repo/fixtures/basic",
        "/repo/fixtures/basic/package.json",
        "/repo/fixtures/basic/packages",
        "/repo/fixtures/basic/packages/foo",
        "/repo/fixtures/basic/packages/foo/package.json",
        "/repo/fixtures/basic/packages/foo/index.js",
        "/repo/fixtures/basic/packages/bar/package.json",
        "/repo/fixtures/basic/packages/bar/lib/package.json",
        "/repo/fixtures/basic/other/baz/package.json",
    ]);
    let found = find_packages("/repo/fixtures/basic", &strings(&["packages/*"]), &walked).unwrap();
    assert_eq!(
        found,
        strings(&[
            "/repo/fixtures/basic/packages/foo/package.json",
            "/repo/fixtures/basic/packages/bar/package.json",
        ])
    );
}

#[test]
fn find_packages_refuses_a_pattern_that_ignore_refuses() {
    let error = find_packages("/repo", &strings(&["packages/{a"]), &strings(&["/repo/packages/a/package.json"]));
    assert!(!error.unwrap_err().message.is_empty());
    assert!(find_packages("/repo", &Vec::new(), &strings(&["/repo/package.json"])).unwrap().is_empty());
    assert_eq!(manifest_globs(&strings(&["packages/*", "apps/**"])), strings(&["packages/*/package.json", "apps/**/package.json"]));
}

#[test]
fn workspace_globs_of_npm_and_yarn_come_from_the_manifest() {
    let bare = r#"{"name":"root","workspaces":["packages/*","tools"]}"#;
    let nested = r#"{"name":"root","workspaces":{"packages":["apps/*"],"nohoist":["**"]}}"#;
    assert_eq!(workspace_globs(PackageManager::Yarn, bare, None).unwrap(), Some(strings(&["packages/*", "tools"])));
    assert_eq!(workspace_globs(PackageManager::NPM, nested, None).unwrap(), Some(strings(&["apps/*"])));
    assert_eq!(workspace_globs(PackageManager::NPM, r#"{"name":"root"}"#, None).unwrap(), None);
    assert_eq!(workspace_globs(PackageManager::Yarn, r#"{"workspaces":null}"#, None).unwrap(), None);
    assert_eq!(workspace_globs(PackageManager::Yarn, r#"{"workspaces":[]}"#, None).unwrap(), Some(Vec::new()));
    assert_eq!(workspace_globs(PackageManager::Yarn, bare, Some("packages: [x]")).unwrap(), Some(strings(&["packages/*", "tools"])));
    assert!(matches!(workspace_globs(PackageManager::Yarn, r#"{"workspaces":"packages/*"}"#, None), Err(WorkspaceError::Shape)));
    assert!(matches!(workspace_globs(PackageManager::Yarn, r#"{"workspaces":[1]}"#, None), Err(WorkspaceError::Shape)));
    assert!(matches!(workspace_globs(PackageManager::NPM, r#"{"workspaces":{"nohoist":[]}}"#, None), Err(WorkspaceError::Shape)));
    assert!(matches!(workspace_globs(PackageManager::NPM, "[]", None), Err(WorkspaceError::Shape)));
    match workspace_globs(PackageManager::NPM, "{", None) {
        Err(WorkspaceError::Syntax(error)) => assert!(!error.message.is_empty()),
        _ => panic!("the text is no JSON"),
    }
}

#[test]
fn workspace_globs_of_pnpm_come_from_its_own_file() {
    let manifest = r#"{"name":"root","workspaces":["ignored/*"]}"#;
    let yaml = "packages:\n  - 'packages/*'\n  - apps/web\n";
    assert_eq!(workspace_globs(PackageManager::PNPM, manifest, Some(yaml)).unwrap(), Some(strings(&["packages/*", "apps/web"])));
    assert_eq!(workspace_globs(PackageManager::PNPM, manifest, None).unwrap(), None);
    assert!(matches!(workspace_globs(PackageManager::PNPM, manifest, Some("other: 1\n")), Err(WorkspaceError::Shape)));
    assert!(matches!(workspace_globs(PackageManager::PNPM, manifest, Some("packages: here\n")), Err(WorkspaceError::Shape)));
    assert!(matches!(workspace_globs(PackageManager::PNPM, manifest, Some("packages: [\n")), Err(WorkspaceError::Syntax(_))));
}

#[test]
fn discovery_finds_the_one_member() {
    let root_text = r#"{"name":"repo","workspaces":["packages/*"]}"#;
    let mut dir = path(&["/", "repo", "packages", "foo", "src", "deep"]);
    let manager = loop {
        let listing = if dir == path(&["/", "repo"]) { strings(&["yarn.lock", "package.json"]) } else { Vec::new() };
        match Project::find(&dir, &listing) {
            ProjectSearch::Found(manager) => break manager,
            ProjectSearch::LookIn(next) => dir = next,
            ProjectSearch::NotFound => panic!("the lock file is there"),
        }
    };
    let globs = workspace_globs(manager, root_text, None).unwrap().unwrap();
    let walked = strings(&["/repo", "/repo/package.json", "/repo/packages/foo/package.json", "/repo/yarn.lock"]);
    let manifests = find_packages("/repo", &globs, &walked).unwrap();
    assert_eq!(manifests, strings(&["/repo/packages/foo/package.json"]));
    let found: Vec<Package> = manifests
        .iter()
        .map(|_| match Package::find(path(&["/", "repo", "packages", "foo"]), Some(&members("{\"name\":\"foo\"}"))) {
            PackageSearch::Found(found) => found,
            _ => panic!("the manifest is there"),
        })
        .collect();
    let root = match Package::find(dir, Some(&members(root_text))) {
        PackageSearch::Found(found) => found,
        _ => panic!("the manifest is there"),
    };
    let project = Project::new(root, Some(found), manager);
    assert_eq!(project.manager, PackageManager::Yarn);
    let members = project.packages.as_ref().unwrap();
    assert_eq!(members.len(), 1);
    assert_eq!(members[0].pkg_json.name.as_str(), "foo");
    assert_eq!(project.root.pkg_json.name.as_str(), "repo");
}

#[test]
fn adding_what_is_absent_everywhere_takes_the_latest_range() {
    let text = "{\n  \"version\": \"0.1.0\",\n  \"name\": \"app\",\n  \"main\": \"index.js\"\n}\n";
    let project = Project::new(package(&["/", "app"], text), None, PackageManager::NPM);
    let react = name("react");
    let existing = project.find_dependents(&react);
    let version = match plan_add(&existing, "17.0.2") {
        AddPlan::Use(version) => version,
        AddPlan::Ask { .. } => panic!("nothing is there to ask about"),
    };
    assert_eq!(version, "^17.0.2");
    let mut changed = project.closest_pkg(&path(&["/", "app", "src"])).unwrap().clone();
    changed.pkg_json.add_dep(react.clone(), version.clone(), false);
    assert_eq!(
        changed.write().unwrap(),
        "{\n  \"version\": \"0.1.0\",\n  \"name\": \"app\",\n  \"main\": \"index.js\",\n  \"dependencies\": {\n    \"react\": \"^17.0.2\"\n  }\n}\n"
    );
    let mut dev = project.root.clone();
    dev.pkg_json.add_dep(react, version, true);
    assert_eq!(
        dev.write().unwrap(),
        "{\n  \"version\": \"0.1.0\",\n  \"name\": \"app\",\n  \"main\": \"index.js\",\n  \"devDependencies\": {\n    \"react\": \"^17.0.2\"\n  }\n}\n"
    );
    assert_eq!(project.root.write().unwrap(), text);
}

#[test]
fn adding_asks_where_versions_are_skewed() {
    let project = repo();
    let existing = project.find_dependents(&name("lodash"));
    match plan_add(&existing, "4.17.21") {
        AddPlan::Ask { several, items } => {
            assert!(several);
            assert_eq!(items, strings(&["^4.17.21 (latest version)", "^3.0.0", "^4.0.0"]));
            assert_eq!(chosen_version(&items, 0, "4.17.21"), Some("^4.17.21".to_owned()));
            assert_eq!(chosen_version(&items, 2, "4.17.21"), Some("^4.0.0".to_owned()));
            assert_eq!(chosen_version(&items, 3, "4.17.21"), None);
        }
        AddPlan::Use(_) => panic!("two specifiers are in use"),
    }
    assert!(matches!(plan_add(&existing, "4.0.0"), AddPlan::Use(version) if version == "^4.0.0"));
    let one = vec![("^1.0.0".to_owned(), vec![name("a")])];
    assert!(matches!(plan_add(&one, "2.0.0"), AddPlan::Ask { several: false, .. }));
    assert_eq!(caret_range("1.2.3"), "^1.2.3");
}

#[test]
fn upgrade_changes_every_package_that_asks() {
    let mut project = repo();
    let report = project.upgrade(&name("lodash"), "4.17.21");
    let told: Vec<(usize, &str)> = report.iter().map(|entry| (entry.at, entry.before.as_str())).collect();
    assert_eq!(told, vec![(0, "^4.0.0"), (1, "^3.0.0")]);
    assert_eq!(dependents(&project, "lodash"), vec![("^4.17.21".to_owned(), strings(&["a", "b"]))]);
    assert!(project.upgrade(&name("react"), "18.0.0").is_empty());
    assert_eq!(project.get(&name("a")).unwrap().pkg_json.peer_dependencies.version_at(0), "^16.0.0");
    assert!(project.upgrade(&name("absent"), "1.0.0").is_empty());
}

#[test]
fn other_commands_run_the_manager_a_script_or_a_binary() {
    let project = repo();
    let here = path(&["/", "repo", "packages", "b", "src"]);
    assert!(matches!(plan_run(&project, &here, &strings(&["install", "--frozen"])), Some(RunPlan::Manager(args)) if args == strings(&["install", "--frozen"])));
    assert!(matches!(plan_run(&project, &path(&["/", "nowhere"]), &strings(&["why", "x"])), Some(RunPlan::Manager(_))));
    assert!(matches!(plan_run(&project, &here, &strings(&["build", "--watch"])), Some(RunPlan::Script(args)) if args == strings(&["run", "build", "--watch"])));
    match plan_run(&project, &here, &strings(&["tsc", "-p", "."])) {
        Some(RunPlan::Binary(binary, args)) => {
            assert_eq!(binary, "tsc");
            assert_eq!(args, strings(&["-p", "."]));
        }
        _ => panic!("no script is named tsc"),
    }
    assert!(matches!(plan_run(&project, &path(&["/", "repo"]), &strings(&["build"])), Some(RunPlan::Binary(..))));
    assert!(plan_run(&project, &here, &Vec::new()).is_none());
    assert!(plan_run(&project, &path(&["/", "nowhere"]), &strings(&["build"])).is_none());
}

#[test]
fn binaries_are_looked_for_upward() {
    let here = path(&["/", "repo", "packages"]);
    assert_eq!(binary_candidate(&here, "tsc"), path(&["/", "repo", "packages", "node_modules", ".bin", "tsc"]));
    assert!(matches!(find_binary_location(&here, "tsc", false), BinarySearch::LookIn(next) if next == path(&["/", "repo"])));
    assert!(matches!(find_binary_location(&here, "tsc", true), BinarySearch::Found(at) if at == path(&["/", "repo", "packages", "node_modules", ".bin", "tsc"])));
    assert!(matches!(find_binary_location(&Vec::new(), "tsc", false), BinarySearch::NotFound));
}

#[test]
fn the_registry_names_the_latest_version() {
    assert_eq!(registry_url(&name("@scope/pkg")), "https://registry.npmjs.org/@scope/pkg");
    let body = r#"{"name":"react","dist-tags":{"next":"18.0.0-rc.0","latest":"17.0.2"},"versions":{}}"#;
    assert_eq!(read_latest_version(body), Some("17.0.2".to_owned()));
    assert_eq!(read_latest_version(r#"{"dist-tags":{"next":"1"}}"#), None);
    assert_eq!(read_latest_version(r#"{"dist-tags":{"latest":1}}"#), None);
    assert_eq!(read_latest_version(r#"{"name":"react"}"#), None);
    assert_eq!(read_latest_version("not json"), None);
}
