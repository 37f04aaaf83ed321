//! Projects: a root package, the packages of its workspace, and the
//! package manager that governs them.

use crate::entries::{distinct_keys, has_key, index_of, key_at, lemma_index_unique, lemma_put_last};
use crate::json::{JsonValue, members_view, SyntaxError};
use crate::manifest::{collect_last, Malformed, Manifest, read_manifest, written_text};
use crate::package_json::{ManifestError, PackageJson};
use crate::package_name::PackageName;
use crate::paths::{join, parent, starts_with};
use crate::round_trip::lemma_collect_last_same;
use crate::text::str_same;
use vstd::prelude::*;

verus! {

/// The package managers that this crate knows.
#[derive(Debug, Clone, Copy, PartialEq, Eq, Structural)]
pub enum PackageManager {
    PNPM,
    NPM,
    Yarn,
}

impl PackageManager {
    /// The name under which the manager is shown.
    pub open spec fn spec_name(self) -> Seq<char> {
        match self {
            PackageManager::PNPM => "pnpm"@,
            PackageManager::NPM => "npm"@,
            PackageManager::Yarn => "Yarn"@,
        }
    }

    /// The program that runs the manager.
    pub open spec fn spec_command(self) -> Seq<char> {
        match self {
            PackageManager::PNPM => "pnpm"@,
            PackageManager::NPM => "npm"@,
            PackageManager::Yarn => "yarn"@,
        }
    }

    /// The file whose presence in a directory shows that the manager
    /// governs it.
    pub open spec fn spec_lockfile(self) -> Seq<char> {
        match self {
            PackageManager::PNPM => "pnpm-lock.yaml"@,
            PackageManager::NPM => "package-lock.json"@,
            PackageManager::Yarn => "yarn.lock"@,
        }
    }

    /// The name under which the manager is shown.
    pub fn name(&self) -> (r: &'static str)
        ensures
            r@ == self.spec_name(),
    {
        match self {
            PackageManager::PNPM => "pnpm",
            PackageManager::NPM => "npm",
            PackageManager::Yarn => "Yarn",
        }
    }

    /// The program that runs the manager.
    pub fn command(&self) -> (r: &'static str)
        ensures
            r@ == self.spec_command(),
    {
        match self {
            PackageManager::PNPM => "pnpm",
            PackageManager::NPM => "npm",
            PackageManager::Yarn => "yarn",
        }
    }

    /// The file whose presence in a directory shows that the manager
    /// governs it.
    pub fn lockfile(&self) -> (r: &'static str)
        ensures
            r@ == self.spec_lockfile(),
    {
        match self {
            PackageManager::PNPM => "pnpm-lock.yaml",
            PackageManager::NPM => "package-lock.json",
            PackageManager::Yarn => "yarn.lock",
        }
    }
}

/// The manager that governs a directory with these file names: Yarn where
/// its lock file is among them, else PNPM, else NPM, each by its own lock
/// file; none where none of the three is there.
pub open spec fn manager_of(file_names: Seq<Seq<char>>) -> Option<PackageManager> {
    if file_names.contains(PackageManager::Yarn.spec_lockfile()) {
        Some(PackageManager::Yarn)
    } else if file_names.contains(PackageManager::PNPM.spec_lockfile()) {
        Some(PackageManager::PNPM)
    } else if file_names.contains(PackageManager::NPM.spec_lockfile()) {
        Some(PackageManager::NPM)
    } else {
        None
    }
}

/// Whether `name` is among `names`.
pub fn contains_name(names: &Vec<String>, name: &str) -> (r: bool)
    ensures
        r == names.deep_view().contains(name@),
{
    let mut i: usize = 0;
    while i < names.len()
        invariant
            i <= names.len(),
            forall|j: int| 0 <= j < i ==> names.deep_view()[j] != name@,
        decreases names.len() - i,
    {
        if str_same(names[i].as_str(), name) {
            assert(names.deep_view()[i as int] == name@);
            return true;
        }
        i += 1;
    }
    false
}

/// The manager that governs a directory with these file names.
pub fn detect_manager(file_names: &Vec<String>) -> (r: Option<PackageManager>)
    ensures
        r == manager_of(file_names.deep_view()),
{
    if contains_name(file_names, PackageManager::Yarn.lockfile()) {
        Some(PackageManager::Yarn)
    } else if contains_name(file_names, PackageManager::PNPM.lockfile()) {
        Some(PackageManager::PNPM)
    } else if contains_name(file_names, PackageManager::NPM.lockfile()) {
        Some(PackageManager::NPM)
    } else {
        None
    }
}

/// A manifest with the directory that holds its file.
#[derive(Debug, Clone)]
pub struct Package {
    /// The components of the directory's path.
    pub dir: Vec<String>,
    pub pkg_json: PackageJson,
}

/// What a `Package` stands for.
pub struct PackageView {
    pub dir: Seq<Seq<char>>,
    pub manifest: Manifest,
}

impl View for Package {
    type V = PackageView;

    open spec fn view(&self) -> PackageView {
        PackageView { dir: self.dir.deep_view(), manifest: self.pkg_json@ }
    }
}

/// The name of the file that holds a manifest.
pub open spec fn manifest_file() -> Seq<char> {
    "package.json"@
}

/// What comes of looking for a manifest in one directory.
#[derive(Debug)]
pub enum PackageSearch {
    /// The directory holds a manifest, and this is the package.
    Found(Package),
    /// The directory holds a manifest that cannot be read.
    Malformed(ManifestError),
    /// The directory holds no manifest: look in this one next.
    LookIn(Vec<String>),
    /// No directory is left to look in.
    NotFound,
}

impl Package {
    /// The package's directory.
    pub fn path(&self) -> (r: &Vec<String>)
        ensures
            r == &self.dir,
    {
        &self.dir
    }

    /// The path of the file that holds the manifest: `package.json` in the
    /// package's directory.
    pub fn pkg_json_path(&self) -> (r: Vec<String>)
        ensures
            r.deep_view() == self@.dir.push(manifest_file()),
    {
        join(&self.dir, "package.json")
    }

    /// Writes the package's manifest: the text that goes into the file at
    /// `pkg_json_path`.
    pub fn write(&self) -> (r: Result<String, SyntaxError>)
        ensures
            match r {
                Ok(text) => written_text(self@.manifest) == Some(text@),
                Err(_) => written_text(self@.manifest) is None,
            },
    {
        self.pkg_json.write()
    }

    /// One step of the search for the manifest that governs a directory.
    /// `contents` are the top-level entries of `package.json` in `dir` as
    /// they stand in the file, every repeated key as often as it stands
    /// there, or `None` where `dir` holds no such file. A manifest that is
    /// there ends the search; else the search goes on in the directory that
    /// holds `dir`, and ends without a package where there is none.
    pub fn find(dir: Vec<String>, contents: Option<&Vec<(String, JsonValue)>>) -> (r:
        PackageSearch)
        ensures
            match contents {
                Some(entries) => match read_manifest(members_view(entries@)) {
                    Ok(manifest) => r matches PackageSearch::Found(package) && package@
                        == (PackageView { dir: dir.deep_view(), manifest }) && package.pkg_json.wf(),
                    Err(error) => r matches PackageSearch::Malformed(e) && e@ == error,
                },
                None => if dir.len() > 0 {
                    r matches PackageSearch::LookIn(next) && next.deep_view()
                        == dir.deep_view().drop_last()
                } else {
                    r is NotFound
                },
            },
    {
        match contents {
            Some(entries) => match PackageJson::from_entries(entries) {
                Ok(pkg_json) => PackageSearch::Found(Package { dir, pkg_json }),
                Err(error) => PackageSearch::Malformed(error),
            },
            None => match parent(&dir) {
                Some(next) => PackageSearch::LookIn(next),
                None => PackageSearch::NotFound,
            },
        }
    }
}

/// A root package, the packages of its workspace where the project has
/// one, and the manager that governs them.
#[derive(Debug, Clone)]
pub struct Project {
    pub root: Package,
    /// The workspace's packages. `None` for a project without workspace
    /// configuration, which is not the same as a workspace without
    /// packages.
    pub packages: Option<Vec<Package>>,
    pub manager: PackageManager,
}

/// What a `Project` stands for.
pub struct ProjectView {
    pub root: PackageView,
    pub packages: Option<Seq<PackageView>>,
    pub manager: PackageManager,
}

/// What a list of packages stands for.
pub open spec fn packages_view(packages: Seq<Package>) -> Seq<PackageView> {
    Seq::new(packages.len(), |i: int| packages[i]@)
}

impl View for Project {
    type V = ProjectView;

    open spec fn view(&self) -> ProjectView {
        ProjectView {
            root: self.root@,
            packages: match self.packages {
                Some(packages) => Some(packages_view(packages@)),
                None => None,
            },
            manager: self.manager,
        }
    }
}

/// The package at `at` is the first of `packages` with the name `name`.
pub open spec fn first_named(packages: Seq<PackageView>, name: Seq<char>, at: int) -> bool {
    &&& 0 <= at < packages.len()
    &&& packages[at].manifest.name == name
    &&& forall|j: int| 0 <= j < at ==> (#[trigger] packages[j]).manifest.name != name
}

/// The package at `at` is the closest to `path`: its directory is `path`
/// or holds it, no package has a longer such directory, and none before it
/// has the same directory.
pub open spec fn is_closest(packages: Seq<PackageView>, path: Seq<Seq<char>>, at: int) -> bool {
    &&& 0 <= at < packages.len()
    &&& packages[at].dir.is_prefix_of(path)
    &&& forall|j: int|
        0 <= j < packages.len() && (#[trigger] packages[j]).dir.is_prefix_of(path) ==> {
            ||| packages[j].dir.len() < packages[at].dir.len()
            ||| packages[j].dir.len() == packages[at].dir.len() && at <= j
        }
}

/// Where a package has a name, a first package has it.
pub proof fn lemma_first_named_exists(packages: Seq<PackageView>, name: Seq<char>, at: int)
    requires
        0 <= at < packages.len(),
        packages[at].manifest.name == name,
    ensures
        exists|first: int| first_named(packages, name, first),
    decreases at,
{
    if forall|j: int| 0 <= j < at ==> (#[trigger] packages[j]).manifest.name != name {
        assert(first_named(packages, name, at));
    } else {
        let j = choose|j: int| 0 <= j < at && (#[trigger] packages[j]).manifest.name == name;
        lemma_first_named_exists(packages, name, j);
    }
}

impl ProjectView {
    /// The packages of the workspace; none where the project has no
    /// workspace.
    pub open spec fn members(self) -> Seq<PackageView> {
        match self.packages {
            Some(packages) => packages,
            None => Seq::empty(),
        }
    }

    /// Every package of the project in the order in which the project
    /// hands them out: the packages of the workspace in their order, then
    /// the root.
    pub open spec fn all(self) -> Seq<PackageView> {
        self.members().push(self.root)
    }

    /// The place in `all` of the package named `name`: the root where it
    /// has that name, else the first package of the workspace that has it.
    pub open spec fn named(self, name: Seq<char>) -> Option<int> {
        if self.root.manifest.name == name {
            Some(self.members().len() as int)
        } else if exists|at: int| first_named(self.members(), name, at) {
            Some(choose|at: int| first_named(self.members(), name, at))
        } else {
            None
        }
    }
}

/// The packages, each under its name.
pub open spec fn by_name(packages: Seq<PackageView>) -> Seq<(Seq<char>, PackageView)> {
    Seq::new(packages.len(), |i: int| (packages[i].manifest.name, packages[i]))
}

/// Where the search for the root of a project ends that starts in `dir`
/// and goes on as `Project::find` says, step by step: in the first
/// directory, from `dir` upward, that holds a lock file, with the manager
/// that the lock file tells. `names_in` gives the file names that each
/// directory holds.
pub open spec fn root_from(
    dir: Seq<Seq<char>>,
    names_in: spec_fn(Seq<Seq<char>>) -> Seq<Seq<char>>,
) -> Option<(Seq<Seq<char>>, PackageManager)>
    decreases dir.len(),
{
    match manager_of(names_in(dir)) {
        Some(manager) => Some((dir, manager)),
        None => if dir.len() > 0 {
            root_from(dir.drop_last(), names_in)
        } else {
            None
        },
    }
}

/// What a step of the search says of where the search ends.
pub open spec fn search_view(
    step: ProjectSearch,
    dir: Seq<Seq<char>>,
    names_in: spec_fn(Seq<Seq<char>>) -> Seq<Seq<char>>,
) -> Option<(Seq<Seq<char>>, PackageManager)> {
    match step {
        ProjectSearch::Found(manager) => Some((dir, manager)),
        ProjectSearch::LookIn(next) => root_from(next.deep_view(), names_in),
        ProjectSearch::NotFound => None,
    }
}

/// The search finds the root from every directory in it: where `root`
/// holds a lock file and no directory between `start` and `root` does, the
/// search that starts in `start` ends in `root`, with the manager that the
/// lock file of `root` tells, whichever directory in `root` the start is.
pub proof fn law_root_found_from_below(
    root: Seq<Seq<char>>,
    start: Seq<Seq<char>>,
    names_in: spec_fn(Seq<Seq<char>>) -> Seq<Seq<char>>,
)
    requires
        root.is_prefix_of(start),
        manager_of(names_in(root)) is Some,
        forall|at: int|
            root.len() < at <= start.len() ==> manager_of(names_in(#[trigger] start.take(at)))
                is None,
    ensures
        root_from(start, names_in) == Some((root, manager_of(names_in(root))->Some_0)),
    decreases start.len(),
{
    if start.len() == root.len() {
        assert(start =~= root);
    } else {
        assert(start.take(start.len() as int) =~= start);
        let above = start.drop_last();
        assert(root =~= above.subrange(0, root.len() as int));
        assert forall|at: int| root.len() < at <= above.len() implies manager_of(
            names_in(#[trigger] above.take(at)),
        ) is None by {
            assert(above.take(at) =~= start.take(at));
        }
        law_root_found_from_below(root, above, names_in);
    }
}

/// What comes of looking for the root of a project in one directory.
#[derive(Debug)]
pub enum ProjectSearch {
    /// The directory holds a lock file: it is the root of a project that
    /// this manager governs.
    Found(PackageManager),
    /// The directory holds no lock file: look in this one next.
    LookIn(Vec<String>),
    /// No directory is left to look in.
    NotFound,
}

/// The manifest of every package is well-formed.
pub open spec fn all_wf(packages: Seq<PackageView>) -> bool {
    forall|i: int| 0 <= i < packages.len() ==> (#[trigger] packages[i]).manifest.wf()
}

/// The packages of a workspace, each under its name: of two with one name
/// the later one stays, and stands where it came. Packages of which no two
/// have one name stay as they are given.
pub fn members_by_name(packages: Vec<Package>) -> (r: Vec<Package>)
    ensures
        by_name(packages_view(r@)) == collect_last(by_name(packages_view(packages@))),
        distinct_keys(by_name(packages_view(r@))),
        all_wf(packages_view(packages@)) ==> all_wf(packages_view(r@)),
        distinct_keys(by_name(packages_view(packages@))) ==> packages_view(r@) == packages_view(
            packages@,
        ),
{
    let ghost all = by_name(packages_view(packages@));
    let mut rest = packages;
    let mut kept: Vec<Package> = Vec::new();
    let ghost mut done: int = 0;
    assert(all.take(0) =~= Seq::empty());
    assert(by_name(packages_view(kept@)) =~= Seq::empty());
    while rest.len() > 0
        invariant
            0 <= done <= all.len(),
            by_name(packages_view(rest@)) == all.skip(done),
            by_name(packages_view(kept@)) == collect_last(all.take(done)),
            distinct_keys(by_name(packages_view(kept@))),
            all_wf(packages_view(packages@)) ==> all_wf(packages_view(rest@)) && all_wf(
                packages_view(kept@),
            ),
        decreases rest.len(),
    {
        let ghost before = by_name(packages_view(kept@));
        let ghost rest_before = by_name(packages_view(rest@));
        let ghost rest_packages = packages_view(rest@);
        let ghost kept_packages = packages_view(kept@);
        let package = rest.remove(0);
        proof {
            if all_wf(packages_view(packages@)) {
                assert(package@ == rest_packages[0]);
                assert forall|i: int| 0 <= i < rest@.len() implies (#[trigger] packages_view(
                    rest@,
                )[i]).manifest.wf() by {
                    assert(packages_view(rest@)[i] == rest_packages[i + 1]);
                }
            }
            assert(rest_before.len() == all.skip(done).len());
            assert(done < all.len());
            assert(rest_before[0] == all.skip(done)[0]);
            assert(rest_before[0] == all[done]);
            assert(rest_before[0] == (package@.manifest.name, package@));
            let rest_after = by_name(packages_view(rest@));
            assert(rest_after.len() == all.skip(done + 1).len());
            assert forall|i: int| 0 <= i < rest_after.len() implies rest_after[i] == all.skip(
                done + 1,
            )[i] by {
                assert(rest_after[i] == rest_before[i + 1]);
                assert(rest_before[i + 1] == all.skip(done)[i + 1]);
            }
            assert(rest_after =~= all.skip(done + 1));
            assert(all.take(done + 1).drop_last() =~= all.take(done));
            lemma_put_last(before, package@.manifest.name, package@);
        }
        let mut at: usize = 0;
        while at < kept.len() && !str_same(
            kept[at].pkg_json.name.as_str(),
            package.pkg_json.name.as_str(),
        )
            invariant
                at <= kept.len(),
                before == by_name(packages_view(kept@)),
                forall|j: int| 0 <= j < at ==> (#[trigger] before[j]).0 != package@.manifest.name,
            decreases kept.len() - at,
        {
            at += 1;
        }
        if at < kept.len() {
            proof {
                assert(key_at(before, package@.manifest.name, at as int));
                lemma_index_unique(before, package@.manifest.name, at as int);
            }
            kept.remove(at);
            assert(by_name(packages_view(kept@)) =~= before.remove(at as int));
            proof {
                if all_wf(packages_view(packages@)) {
                    assert forall|i: int| 0 <= i < kept@.len() implies (#[trigger] packages_view(
                        kept@,
                    )[i]).manifest.wf() by {
                        assert(packages_view(kept@)[i] == kept_packages[if i < at {
                            i
                        } else {
                            i + 1
                        }]);
                    }
                }
            }
        } else {
            proof {
                if has_key(before, package@.manifest.name) {
                    let j = index_of(before, package@.manifest.name);
                    assert(key_at(before, package@.manifest.name, j));
                }
            }
        }
        let ghost middle = by_name(packages_view(kept@));
        let ghost middle_packages = packages_view(kept@);
        kept.push(package);
        proof {
            if all_wf(packages_view(packages@)) {
                assert forall|i: int| 0 <= i < kept@.len() implies (#[trigger] packages_view(
                    kept@,
                )[i]).manifest.wf() by {
                    if i < middle_packages.len() {
                        assert(packages_view(kept@)[i] == middle_packages[i]);
                    }
                }
            }
            assert(by_name(packages_view(kept@)) =~= middle.push(
                (package@.manifest.name, package@),
            ));
            done = done + 1;
        }
    }
    assert(all.take(done) =~= all);
    proof {
        if distinct_keys(all) {
            lemma_collect_last_same(all);
            let left = packages_view(kept@);
            let right = packages_view(packages@);
            assert(left.len() == by_name(left).len());
            assert(right.len() == by_name(right).len());
            assert forall|i: int| 0 <= i < left.len() implies left[i] == right[i] by {
                assert(by_name(left)[i].1 == left[i]);
                assert(by_name(right)[i].1 == right[i]);
            }
            assert(left =~= right);
        }
    }
    kept
}

impl Project {
    /// A project. The packages of the workspace are kept each under its
    /// name, as `members_by_name` has it: as they are given where no two
    /// have one name.
    pub fn new(root: Package, packages: Option<Vec<Package>>, manager: PackageManager) -> (r:
        Project)
        ensures
            r.root == root,
            r.manager == manager,
            match packages {
                Some(packages) => r.packages is Some && by_name(r@.members()) == collect_last(
                    by_name(packages_view(packages@)),
                ),
                None => r.packages is None,
            },
            distinct_keys(by_name(r@.members())),
            match packages {
                Some(given) => distinct_keys(by_name(packages_view(given@))) ==> r@.members()
                    == packages_view(given@),
                None => true,
            },
            root@.manifest.wf() && (packages matches Some(packages) ==> all_wf(
                packages_view(packages@),
            )) ==> all_wf(r@.all()),
    {
        match packages {
            Some(packages) => Project { root, packages: Some(members_by_name(packages)), manager },
            None => {
                assert(by_name(Seq::<PackageView>::empty()) =~= Seq::empty());
                Project { root, packages: None, manager }
            },
        }
    }

    /// One step of the search for the root of the project that governs a
    /// directory. `file_names` are the names of the files in `dir`. A lock
    /// file among them ends the search; else the search goes on in the
    /// directory that holds `dir`, and ends without a project where there
    /// is none. The step leaves where the search ends as it is: that is
    /// `root_from` of `dir`, and of the directory to look in next.
    pub fn find(dir: &Vec<String>, file_names: &Vec<String>) -> (r: ProjectSearch)
        ensures
            match manager_of(file_names.deep_view()) {
                Some(manager) => r matches ProjectSearch::Found(found) && found == manager,
                None => if dir.len() > 0 {
                    r matches ProjectSearch::LookIn(next) && next.deep_view()
                        == dir.deep_view().drop_last()
                } else {
                    r is NotFound
                },
            },
            forall|names_in: spec_fn(Seq<Seq<char>>) -> Seq<Seq<char>>|
                names_in(dir.deep_view()) == file_names.deep_view() ==> #[trigger] root_from(
                    dir.deep_view(),
                    names_in,
                ) == search_view(r, dir.deep_view(), names_in),
    {
        match detect_manager(file_names) {
            Some(manager) => ProjectSearch::Found(manager),
            None => match parent(dir) {
                Some(next) => ProjectSearch::LookIn(next),
                None => ProjectSearch::NotFound,
            },
        }
    }

    /// Every package of the project in the order in which the project
    /// hands them out: the packages of the workspace in their order, then
    /// the root.
    pub open spec fn all(&self) -> Seq<Package> {
        match self.packages {
            Some(packages) => packages@.push(self.root),
            None => seq![self.root],
        }
    }

    /// The number of packages of the workspace.
    pub fn member_count(&self) -> (r: usize)
        ensures
            r == self@.members().len(),
            r + 1 == self.all().len(),
    {
        match &self.packages {
            Some(packages) => packages.len(),
            None => 0,
        }
    }

    /// The directory of the root package.
    pub fn dir(&self) -> (r: &Vec<String>)
        ensures
            r == &self.root.dir,
    {
        self.root.path()
    }

    /// The place among the packages of the workspace of the first that is
    /// named `name`.
    fn member_named(&self, name: &PackageName) -> (r: Option<usize>)
        ensures
            match r {
                Some(at) => first_named(self@.members(), name@, at as int),
                None => forall|at: int| !first_named(self@.members(), name@, at),
            },
    {
        match &self.packages {
            Some(packages) => {
                let mut i: usize = 0;
                while i < packages.len()
                    invariant
                        i <= packages.len(),
                        self.packages == Some(*packages),
                        forall|j: int|
                            0 <= j < i ==> (#[trigger] self@.members()[j]).manifest.name != name@,
                    decreases packages.len() - i,
                {
                    if str_same(packages[i].pkg_json.name.as_str(), name.as_str()) {
                        return Some(i);
                    }
                    i += 1;
                }
                None
            },
            None => None,
        }
    }

    /// The package at a place of `all`.
    pub fn package_at(&self, at: usize) -> (r: &Package)
        requires
            at < self.all().len(),
        ensures
            *r == self.all()[at as int],
    {
        match &self.packages {
            Some(packages) => if at < packages.len() {
                &packages[at]
            } else {
                &self.root
            },
            None => &self.root,
        }
    }

    /// The package named `name`: the root where it has that name, else the
    /// package of the workspace that has it.
    pub fn get(&self, name: &PackageName) -> (r: Option<&Package>)
        ensures
            match r {
                Some(package) => self@.named(name@) is Some && *package == self.all()[self@.named(
                    name@,
                )->Some_0],
                None => self@.named(name@) is None,
            },
    {
        if str_same(self.root.pkg_json.name.as_str(), name.as_str()) {
            Some(&self.root)
        } else {
            match self.member_named(name) {
                Some(at) => {
                    proof {
                        self.lemma_named_member(name@, at as int);
                    }
                    Some(self.package_at(at))
                },
                None => None,
            }
        }
    }

    /// The first package of the workspace with a name is the one that
    /// `named` yields, unless the root has the name.
    proof fn lemma_named_member(&self, name: Seq<char>, at: int)
        requires
            self@.root.manifest.name != name,
            first_named(self@.members(), name, at),
        ensures
            self@.named(name) == Some(at),
    {
        let chosen = choose|at: int| first_named(self@.members(), name, at);
        assert(first_named(self@.members(), name, chosen));
        if chosen < at {
            assert(self@.members()[chosen].manifest.name != name);
        } else if at < chosen {
            assert(self@.members()[at].manifest.name != name);
        }
    }

    /// The closest package among the first of `all`, after one more was
    /// looked at.
    fn closer(&self, path: &Vec<String>, best: Option<usize>, next: usize) -> (r: Option<usize>)
        requires
            next < self.all().len(),
            match best {
                Some(at) => at < next && is_closest(
                    self@.all().take(next as int),
                    path.deep_view(),
                    at as int,
                ),
                None => forall|at: int|
                    0 <= at < next ==> !(#[trigger] self@.all()[at]).dir.is_prefix_of(
                        path.deep_view(),
                    ),
            },
        ensures
            match r {
                Some(at) => at <= next && is_closest(
                    self@.all().take(next + 1),
                    path.deep_view(),
                    at as int,
                ),
                None => forall|at: int|
                    0 <= at <= next ==> !(#[trigger] self@.all()[at]).dir.is_prefix_of(
                        path.deep_view(),
                    ),
            },
    {
        let package = self.package_at(next);
        let ghost before = self@.all().take(next as int);
        let ghost after = self@.all().take(next + 1);
        assert(self@.all() == packages_view(self.all()));
        assert(forall|j: int| 0 <= j < next ==> before[j] == after[j]);
        assert(after[next as int] == package@);
        if starts_with(path, &package.dir) {
            match best {
                Some(at) => {
                    if self.package_at(at).dir.len() < package.dir.len() {
                        Some(next)
                    } else {
                        assert(is_closest(after, path.deep_view(), at as int));
                        best
                    }
                },
                None => Some(next),
            }
        } else {
            match best {
                Some(at) => {
                    assert(is_closest(after, path.deep_view(), at as int));
                },
                None => {},
            }
            best
        }
    }

    /// The place in `all` of the package closest to `path`.
    fn closest_index(&self, path: &Vec<String>) -> (r: Option<usize>)
        ensures
            match r {
                Some(at) => is_closest(self@.all(), path.deep_view(), at as int),
                None => forall|at: int|
                    0 <= at < self@.all().len() ==> !(#[trigger] self@.all()[at]).dir.is_prefix_of(
                        path.deep_view(),
                    ),
            },
    {
        let count = self.member_count();
        let mut best: Option<usize> = None;
        let mut i: usize = 0;
        while i < count
            invariant
                i <= count,
                count + 1 == self.all().len(),
                self@.all() == packages_view(self.all()),
                match best {
                    Some(at) => at < i && is_closest(
                        self@.all().take(i as int),
                        path.deep_view(),
                        at as int,
                    ),
                    None => forall|at: int|
                        0 <= at < i ==> !(#[trigger] self@.all()[at]).dir.is_prefix_of(
                            path.deep_view(),
                        ),
                },
            decreases count - i,
        {
            best = self.closer(path, best, i);
            i += 1;
        }
        let best = self.closer(path, best, count);
        assert(self@.all().take(count + 1) =~= self@.all());
        best
    }

    /// The package whose directory is the closest to `path`: `path` itself
    /// or the nearest directory that holds it; the first such package where
    /// several share that directory. `None` where no package's directory
    /// is `path` or holds it.
    pub fn closest_pkg(&self, path: &Vec<String>) -> (r: Option<&Package>)
        ensures
            match r {
                Some(package) => exists|at: int|
                    is_closest(self@.all(), path.deep_view(), at) && *package == self.all()[at],
                None => forall|at: int|
                    0 <= at < self@.all().len() ==> !(#[trigger] self@.all()[at]).dir.is_prefix_of(
                        path.deep_view(),
                    ),
            },
    {
        match self.closest_index(path) {
            Some(at) => {
                assert(self@.all() == packages_view(self.all()));
                Some(self.package_at(at))
            },
            None => None,
        }
    }

    /// The package at a place of `all`, to be changed.
    pub fn package_at_mut(&mut self, at: usize) -> (r: &mut Package)
        requires
            at < old(self).all().len(),
        ensures
            *r == old(self).all()[at as int],
            final(self).all() == old(self).all().update(at as int, *final(r)),
            final(self).manager == old(self).manager,
            final(self).packages is Some <==> old(self).packages is Some,
    {
        if at < self.member_count() {
            match &mut self.packages {
                Some(packages) => &mut packages[at],
                None => &mut self.root,
            }
        } else {
            &mut self.root
        }
    }

    /// The place in `all` of the package named `name`.
    fn index_named(&self, name: &PackageName) -> (r: Option<usize>)
        ensures
            match r {
                Some(at) => self@.named(name@) == Some(at as int) && at < self.all().len(),
                None => self@.named(name@) is None,
            },
    {
        if str_same(self.root.pkg_json.name.as_str(), name.as_str()) {
            Some(self.member_count())
        } else {
            match self.member_named(name) {
                Some(at) => {
                    proof {
                        self.lemma_named_member(name@, at as int);
                    }
                    Some(at)
                },
                None => None,
            }
        }
    }

    /// The package named `name`, to be changed: the root where it has that
    /// name, else the package of the workspace that has it.
    pub fn get_mut(&mut self, name: &PackageName) -> (r: Option<&mut Package>)
        ensures
            match r {
                Some(package) => {
                    &&& old(self)@.named(name@) is Some
                    &&& *package == old(self).all()[old(self)@.named(name@)->Some_0]
                    &&& final(self).all() == old(self).all().update(
                        old(self)@.named(name@)->Some_0,
                        *final(package),
                    )
                    &&& final(self).manager == old(self).manager
                    &&& final(self).packages is Some <==> old(self).packages is Some
                },
                None => old(self)@.named(name@) is None && *final(self) == *old(self),
            },
    {
        match self.index_named(name) {
            Some(at) => Some(self.package_at_mut(at)),
            None => None,
        }
    }

    /// The package closest to `path`, to be changed. The package is looked
    /// up by the name of the one that `closest_pkg` yields.
    pub fn closest_pkg_mut(&mut self, path: &Vec<String>) -> (r: Option<&mut Package>)
        ensures
            match r {
                Some(package) => exists|closest: int, at: int|
                    {
                        &&& is_closest(old(self)@.all(), path.deep_view(), closest)
                        &&& old(self)@.named(old(self)@.all()[closest].manifest.name) == Some(at)
                        &&& *package == old(self).all()[at]
                        &&& final(self).all() == old(self).all().update(at, *final(package))
                        &&& final(self).manager == old(self).manager
                        &&& final(self).packages is Some <==> old(self).packages is Some
                    },
                None => {
                    &&& forall|at: int|
                        0 <= at < old(self)@.all().len() ==> !(#[trigger] old(
                            self,
                        )@.all()[at]).dir.is_prefix_of(path.deep_view())
                    &&& *final(self) == *old(self)
                },
            },
    {
        let closest = match self.closest_index(path) {
            Some(closest) => closest,
            None => {
                return None;
            },
        };
        assert(self@.all() == packages_view(self.all()));
        let name = self.package_at(closest).pkg_json.name.clone();
        match self.index_named(&name) {
            Some(at) => Some(self.package_at_mut(at)),
            None => {
                proof {
                    self.lemma_name_is_named(closest as int);
                }
                None
            },
        }
    }

    /// The name of every package of the project is the name of a package
    /// that `named` yields.
    proof fn lemma_name_is_named(&self, at: int)
        requires
            0 <= at < self@.all().len(),
        ensures
            self@.named(self@.all()[at].manifest.name) is Some,
    {
        let name = self@.all()[at].manifest.name;
        if self@.root.manifest.name != name {
            lemma_first_named_exists(self@.members(), name, at);
        }
    }

    /// The package at a place of `all`, to be changed; `None` behind the
    /// last place. Going through the places from 0 on visits every package
    /// in the order of `iter`.
    pub fn iter_mut(&mut self, at: usize) -> (r: Option<&mut Package>)
        ensures
            match r {
                Some(package) => {
                    &&& at < old(self).all().len()
                    &&& *package == old(self).all()[at as int]
                    &&& final(self).all() == old(self).all().update(at as int, *final(package))
                    &&& final(self).manager == old(self).manager
                    &&& final(self).packages is Some <==> old(self).packages is Some
                },
                None => at >= old(self).all().len() && *final(self) == *old(self),
            },
    {
        if at <= self.member_count() {
            Some(self.package_at_mut(at))
        } else {
            None
        }
    }

    /// Every package of the project: the packages of the workspace in
    /// their order, then the root.
    pub fn iter(&self) -> (r: Vec<&Package>)
        ensures
            r@.len() == self.all().len(),
            forall|i: int| 0 <= i < r@.len() ==> *(#[trigger] r@[i]) == self.all()[i],
    {
        let count = self.member_count();
        let mut all: Vec<&Package> = Vec::new();
        let mut i: usize = 0;
        while i < count
            invariant
                i <= count,
                count + 1 == self.all().len(),
                all@.len() == i,
                forall|j: int| 0 <= j < i ==> *(#[trigger] all@[j]) == self.all()[j],
            decreases count - i,
        {
            all.push(self.package_at(i));
            i += 1;
        }
        all.push(self.package_at(count));
        all
    }
}

} // verus!
