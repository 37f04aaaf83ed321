//! What the commands decide: which version to add, which packages an
//! upgrade touches, and what a command that names no built-in verb runs.

use crate::dependencies::named_keys;
use crate::dependents::dependents_view;
use crate::entries::{has_key, index_of, key_at, put_sorted, sorted_keys};
use crate::manifest::Manifest;
use crate::manifest_proofs::{lemma_sections_wf, lemma_wf_with_sections};
use crate::package_name::{PackageName, valid_name};
use crate::paths::{copy_path, join, parent};
use crate::project::{packages_view, PackageView, Project};
use crate::text::{str_same, text_lt};
use vstd::prelude::*;

verus! {

/// The range that accepts `version` and what is compatible with it.
pub open spec fn caret(version: Seq<char>) -> Seq<char> {
    "^"@ + version
}

/// The range that accepts `version` and what is compatible with it.
pub fn caret_range(version: &str) -> (r: String)
    ensures
        r@ == caret(version@),
{
    let mut range = "^".to_owned();
    range.append(version);
    range
}

/// How the latest range is shown among the versions to choose from.
pub open spec fn latest_label(range: Seq<char>) -> Seq<char> {
    range + " (latest version)"@
}

/// What adding a dependency takes.
#[derive(Debug)]
pub enum AddPlan {
    /// Add the dependency at this range.
    Use(String),
    /// Ask which of `items` to add: the first is the latest range with its
    /// label, the others are the specifiers in use. `several` says whether
    /// more than one specifier is in use.
    Ask { several: bool, items: Vec<String> },
}

/// What an `AddPlan` stands for.
pub enum AddPlanView {
    Use(Seq<char>),
    Ask { several: bool, items: Seq<Seq<char>> },
}

impl View for AddPlan {
    type V = AddPlanView;

    open spec fn view(&self) -> AddPlanView {
        match self {
            AddPlan::Use(range) => AddPlanView::Use(range@),
            AddPlan::Ask { several, items } => AddPlanView::Ask {
                several: *several,
                items: items.deep_view(),
            },
        }
    }
}

/// What adding a dependency takes, given the specifiers in use and the
/// latest version: the latest range where no specifier is in use or the
/// latest range is among them; else a question.
pub open spec fn add_plan<V>(existing: Seq<(Seq<char>, V)>, latest_version: Seq<char>) -> AddPlanView {
    if existing.len() == 0 || has_key(existing, caret(latest_version)) {
        AddPlanView::Use(caret(latest_version))
    } else {
        AddPlanView::Ask {
            several: existing.len() > 1,
            items: Seq::new(
                existing.len() + 1,
                |i: int|
                    if i == 0 {
                        latest_label(caret(latest_version))
                    } else {
                        existing[i - 1].0
                    },
            ),
        }
    }
}

/// What adding a dependency takes. `existing` is what `find_dependents`
/// found for it.
pub fn plan_add(existing: &Vec<(String, Vec<PackageName>)>, latest_version: &str) -> (r: AddPlan)
    requires
        existing.len() < usize::MAX,
    ensures
        r@ == add_plan(dependents_view(existing@), latest_version@),
{
    let range = caret_range(latest_version);
    let ghost view = dependents_view(existing@);
    let mut found = false;
    let mut i: usize = 0;
    while i < existing.len()
        invariant
            i <= existing.len(),
            view == dependents_view(existing@),
            found <==> exists|j: int| j < i && key_at(view, range@, j),
        decreases existing.len() - i,
    {
        if str_same(existing[i].0.as_str(), range.as_str()) {
            assert(key_at(view, range@, i as int));
            found = true;
        } else {
            proof {
                if exists|j: int| j < i + 1 && key_at(view, range@, j) {
                    let j = choose|j: int| j < i + 1 && key_at(view, range@, j);
                    assert(j < i);
                }
            }
        }
        i += 1;
    }
    assert(found == has_key(view, range@));
    if existing.len() == 0 || found {
        return AddPlan::Use(range);
    }
    let mut label = range;
    label.append(" (latest version)");
    let mut items: Vec<String> = Vec::new();
    items.push(label);
    let mut i: usize = 0;
    while i < existing.len()
        invariant
            i <= existing.len(),
            existing.len() < usize::MAX,
            view == dependents_view(existing@),
            items@.len() == i + 1,
            items@[0]@ == latest_label(caret(latest_version@)),
            forall|j: int| 1 <= j < i + 1 ==> (#[trigger] items@[j])@ == view[j - 1].0,
        decreases existing.len() - i,
    {
        items.push(existing[i].0.clone());
        i += 1;
    }
    let several = existing.len() > 1;
    assert(items.deep_view() =~= add_plan(view, latest_version@)->Ask_items);
    AddPlan::Ask { several, items }
}

/// The version that was chosen from the items of a question: the latest
/// range for the first item, else the item itself. `None` where
/// `selection` is no place among the items.
pub fn chosen_version(items: &Vec<String>, selection: usize, latest_version: &str) -> (r: Option<
    String,
>)
    ensures
        match r {
            Some(version) => selection < items.len() && version@ == if selection == 0 {
                caret(latest_version@)
            } else {
                items@[selection as int]@
            },
            None => selection >= items.len(),
        },
{
    if selection >= items.len() {
        None
    } else if selection == 0 {
        Some(caret_range(latest_version))
    } else {
        Some(items[selection].clone())
    }
}

/// What comes of looking for a binary in one directory.
#[derive(Debug)]
pub enum BinarySearch {
    /// The binary is at this path.
    Found(Vec<String>),
    /// The directory holds no such binary: look in this one next.
    LookIn(Vec<String>),
    /// No directory is left to look in.
    NotFound,
}

/// Where the binary `binary` of the packages installed in `dir` is:
/// `node_modules/.bin/` and its name, in `dir`.
pub open spec fn binary_path(dir: Seq<Seq<char>>, binary: Seq<char>) -> Seq<Seq<char>> {
    dir.push("node_modules"@).push(".bin"@).push(binary)
}

/// Where the binary `binary` of the packages installed in `dir` is.
pub fn binary_candidate(dir: &Vec<String>, binary: &str) -> (r: Vec<String>)
    ensures
        r.deep_view() == binary_path(dir.deep_view(), binary@),
{
    let modules = join(dir, "node_modules");
    let bin = join(&modules, ".bin");
    join(&bin, binary)
}

/// One step of the search for a locally installed binary. `present` says
/// whether a file is at `binary_path` of `dir`. A file that is there ends
/// the search; else the search goes on in the directory that holds `dir`,
/// and ends without a binary where there is none.
pub fn find_binary_location(dir: &Vec<String>, binary: &str, present: bool) -> (r: BinarySearch)
    ensures
        if present {
            r matches BinarySearch::Found(path) && path.deep_view() == binary_path(
                dir.deep_view(),
                binary@,
            )
        } else if dir.len() > 0 {
            r matches BinarySearch::LookIn(next) && next.deep_view() == dir.deep_view().drop_last()
        } else {
            r is NotFound
        },
{
    if present {
        BinarySearch::Found(binary_candidate(dir, binary))
    } else {
        match parent(dir) {
            Some(next) => BinarySearch::LookIn(next),
            None => BinarySearch::NotFound,
        }
    }
}

/// Whether the package manager itself runs the verb.
pub open spec fn manager_verb(verb: Seq<char>) -> bool {
    verb == "install"@ || verb == "why"@
}

/// What a command that names no built-in verb runs.
#[derive(Debug)]
pub enum RunPlan {
    /// The package manager, at the root of the project, with these
    /// arguments.
    Manager(Vec<String>),
    /// The package manager, with `run` and these arguments: the first of
    /// them is a script of the closest package.
    Script(Vec<String>),
    /// A locally installed binary of this name, with these arguments.
    Binary(String, Vec<String>),
}

/// What a `RunPlan` stands for.
pub enum RunPlanView {
    Manager(Seq<Seq<char>>),
    Script(Seq<Seq<char>>),
    Binary(Seq<char>, Seq<Seq<char>>),
}

impl View for RunPlan {
    type V = RunPlanView;

    open spec fn view(&self) -> RunPlanView {
        match self {
            RunPlan::Manager(args) => RunPlanView::Manager(args.deep_view()),
            RunPlan::Script(args) => RunPlanView::Script(args.deep_view()),
            RunPlan::Binary(name, args) => RunPlanView::Binary(name@, args.deep_view()),
        }
    }
}

/// What a command with the arguments `args` runs, where the closest
/// package declares the scripts `scripts`: the manager for its own verbs;
/// the manager's `run` where the first argument is a script; else the
/// binary that the first argument names, with the other arguments.
pub open spec fn run_plan<V>(scripts: Seq<(Seq<char>, V)>, args: Seq<Seq<char>>) -> RunPlanView {
    if manager_verb(args[0]) {
        RunPlanView::Manager(args)
    } else if has_key(scripts, args[0]) {
        RunPlanView::Script(seq!["run"@] + args)
    } else {
        RunPlanView::Binary(args[0], args.skip(1))
    }
}

/// What a command with the arguments `args`, given in `current_dir`, runs.
/// `None` where there is no argument, or, for what is no verb of the
/// manager, no package is closest to `current_dir`.
pub fn plan_run(project: &Project, current_dir: &Vec<String>, args: &Vec<String>) -> (r: Option<
    RunPlan,
>)
    ensures
        match r {
            Some(plan) => args.len() > 0 && (manager_verb(args@[0]@) ==> plan@
                == RunPlanView::Manager(args.deep_view())) && (!manager_verb(args@[0]@)
                ==> exists|at: int|
                crate::project::is_closest(project@.all(), current_dir.deep_view(), at) && plan@
                    == run_plan(project@.all()[at].manifest.scripts, args.deep_view())),
            None => args.len() == 0 || (!manager_verb(args@[0]@) && forall|at: int|
                0 <= at < project@.all().len() ==> !(#[trigger] project@.all()[at]).dir.is_prefix_of(
                    current_dir.deep_view(),
                )),
        },
{
    if args.len() == 0 {
        return None;
    }
    let verb = args[0].as_str();
    if str_same(verb, "install") || str_same(verb, "why") {
        return Some(RunPlan::Manager(copy_path(args)));
    }
    let package = match project.closest_pkg(current_dir) {
        Some(package) => package,
        None => {
            return None;
        },
    };
    proof {
        assert(project@.all() == crate::project::packages_view(project.all()));
    }
    if package.pkg_json.has_script(verb) {
        let mut run: Vec<String> = Vec::new();
        run.push("run".to_owned());
        let mut i: usize = 0;
        while i < args.len()
            invariant
                i <= args.len(),
                run@.len() == i + 1,
                run@[0]@ == "run"@,
                forall|j: int| 1 <= j < i + 1 ==> (#[trigger] run@[j])@ == args@[j - 1]@,
            decreases args.len() - i,
        {
            run.push(args[i].clone());
            i += 1;
        }
        assert(run.deep_view() =~= seq!["run"@] + args.deep_view());
        Some(RunPlan::Script(run))
    } else {
        let mut rest: Vec<String> = Vec::new();
        let mut i: usize = 1;
        while i < args.len()
            invariant
                1 <= i <= args.len(),
                rest@.len() == i - 1,
                forall|j: int| 0 <= j < i - 1 ==> (#[trigger] rest@[j])@ == args@[j + 1]@,
            decreases args.len() - i,
        {
            rest.push(args[i].clone());
            i += 1;
        }
        assert(rest.deep_view() =~= args.deep_view().skip(1));
        Some(RunPlan::Binary(args[0].clone(), rest))
    }
}

/// A package that an upgrade changed: its place among the packages of the
/// project, and the version that it asked for before.
#[derive(Debug)]
pub struct Upgraded {
    pub at: usize,
    pub before: String,
}

/// The package as it is after the upgrade of `dep` to `range`.
pub open spec fn upgraded(package: PackageView, dep: Seq<char>, range: Seq<char>) -> PackageView {
    PackageView { manifest: package.manifest.with_version(dep, range), ..package }
}

/// The report names exactly the first `upto` packages that asked for
/// `dep`, in their order, each with the version it asked for.
pub open spec fn reports(
    report: Seq<Upgraded>,
    before: Seq<PackageView>,
    upto: int,
    dep: Seq<char>,
) -> bool {
    &&& forall|k: int|
        0 <= k < report.len() ==> (#[trigger] report[k]).at < upto
            && before[report[k].at as int].manifest.version_of(dep) == Some(report[k].before@)
    &&& forall|j: int, k: int|
        0 <= j < k < report.len() ==> (#[trigger] report[j]).at < (#[trigger] report[k]).at
    &&& forall|i: int|
        0 <= i < upto && (#[trigger] before[i]).manifest.version_of(dep) is Some ==> exists|k: int|
            0 <= k < report.len() && (#[trigger] report[k]).at == i
}

impl Project {
    /// Upgrades `dep` to `range` in the package at `at`, and hands back
    /// the version that the package asked for.
    fn upgrade_at(&mut self, at: usize, dep: &PackageName, range: &str) -> (r: Option<String>)
        requires
            at < old(self).all().len(),
            old(self)@.all()[at as int].manifest.wf(),
        ensures
            final(self)@.all() == old(self)@.all().update(
                at as int,
                upgraded(old(self)@.all()[at as int], dep@, range@),
            ),
            final(self).manager == old(self).manager,
            final(self).packages is Some <==> old(self).packages is Some,
            match r {
                Some(before) => old(self)@.all()[at as int].manifest.version_of(dep@) == Some(
                    before@,
                ),
                None => old(self)@.all()[at as int].manifest.version_of(dep@) is None,
            },
    {
        proof {
            assert(self@.all() == packages_view(self.all()));
        }
        let package = self.package_at_mut(at);
        let before = package.pkg_json.set_dep_version(dep, range);
        proof {
            assert(self@.all() =~= packages_view(self.all()));
            assert(self@.all() =~= old(self)@.all().update(
                at as int,
                upgraded(old(self)@.all()[at as int], dep@, range@),
            ));
        }
        before
    }

    /// Upgrades the dependency `dep` to the range of `latest_version` in
    /// every package of the project that asks for it among its
    /// dependencies, dev dependencies or optional dependencies, and reports
    /// the packages that it changed. An empty report says that no package
    /// asks for `dep`.
    pub fn upgrade(&mut self, dep: &PackageName, latest_version: &str) -> (r: Vec<Upgraded>)
        requires
            old(self)@.manifests_wf(),
        ensures
            final(self)@.manifests_wf(),
            final(self)@.all().len() == old(self)@.all().len(),
            forall|i: int|
                0 <= i < old(self)@.all().len() ==> #[trigger] final(self)@.all()[i] == upgraded(
                    old(self)@.all()[i],
                    dep@,
                    caret(latest_version@),
                ),
            final(self).manager == old(self).manager,
            final(self).packages is Some <==> old(self).packages is Some,
            reports(r@, old(self)@.all(), old(self)@.all().len() as int, dep@),
    {
        let range = caret_range(latest_version);
        let count = self.member_count();
        let mut report: Vec<Upgraded> = Vec::new();
        let mut i: usize = 0;
        while i < count
            invariant
                i <= count,
                count + 1 == self.all().len(),
                range@ == caret(latest_version@),
                self@.all().len() == old(self)@.all().len(),
                old(self)@.manifests_wf(),
                forall|j: int| 0 <= j < i ==> #[trigger] self@.all()[j] == upgraded(
                    old(self)@.all()[j],
                    dep@,
                    range@,
                ),
                forall|j: int|
                    i <= j < self@.all().len() ==> #[trigger] self@.all()[j] == old(self)@.all()[j],
                self.manager == old(self).manager,
                self.packages is Some <==> old(self).packages is Some,
                reports(report@, old(self)@.all(), i as int, dep@),
            decreases count - i,
        {
            self.upgrade_next(&mut report, i, dep, range.as_str(), Ghost(old(self)@.all()));
            i += 1;
        }
        self.upgrade_next(&mut report, count, dep, range.as_str(), Ghost(old(self)@.all()));
        proof {
            assert forall|j: int| 0 <= j < self@.all().len() implies (
            #[trigger] self@.all()[j]).manifest.wf() by {
                let before = old(self)@.all()[j].manifest;
                assert(self@.all()[j] == upgraded(old(self)@.all()[j], dep@, range@));
                lemma_with_version_wf(before, dep@, range@);
            }
        }
        report
    }

    /// Upgrades the package at `at` and notes it in the report where it
    /// asked for `dep`.
    fn upgrade_next(
        &mut self,
        report: &mut Vec<Upgraded>,
        at: usize,
        dep: &PackageName,
        range: &str,
        Ghost(before): Ghost<Seq<PackageView>>,
    )
        requires
            at < old(self).all().len(),
            old(self)@.all().len() == before.len(),
            before[at as int].manifest.wf(),
            forall|j: int| 0 <= j < at ==> #[trigger] old(self)@.all()[j] == upgraded(
                before[j],
                dep@,
                range@,
            ),
            forall|j: int| at <= j < before.len() ==> #[trigger] old(self)@.all()[j] == before[j],
            reports(old(report)@, before, at as int, dep@),
        ensures
            final(self).all().len() == old(self).all().len(),
            final(self)@.all().len() == before.len(),
            forall|j: int| 0 <= j < at + 1 ==> #[trigger] final(self)@.all()[j] == upgraded(
                before[j],
                dep@,
                range@,
            ),
            forall|j: int| at + 1 <= j < before.len() ==> #[trigger] final(self)@.all()[j]
                == before[j],
            final(self).manager == old(self).manager,
            final(self).packages is Some <==> old(self).packages is Some,
            reports(final(report)@, before, at + 1, dep@),
    {
        let ghost noted = report@;
        match self.upgrade_at(at, dep, range) {
            Some(version) => {
                report.push(Upgraded { at, before: version });
                proof {
                    let now = report@;
                    assert forall|i: int|
                        0 <= i < at + 1 && (#[trigger] before[i]).manifest.version_of(dep@)
                            is Some implies exists|k: int|
                        0 <= k < now.len() && (#[trigger] now[k]).at == i by {
                        if i < at {
                            let k = choose|k: int|
                                0 <= k < noted.len() && (#[trigger] noted[k]).at == i;
                            assert(now[k].at == i);
                        } else {
                            assert(now[now.len() - 1].at == i);
                        }
                    }
                    assert forall|j: int, k: int| 0 <= j < k < now.len() implies (
                    #[trigger] now[j]).at < (#[trigger] now[k]).at by {
                        if k < noted.len() {
                            assert(noted[j].at < noted[k].at);
                        } else {
                            assert(noted[j].at < at);
                        }
                    }
                }
            },
            None => {
                proof {
                    assert forall|i: int|
                        0 <= i < at + 1 && (#[trigger] before[i]).manifest.version_of(dep@)
                            is Some implies exists|k: int|
                        0 <= k < noted.len() && (#[trigger] noted[k]).at == i by {
                        assert(i < at);
                    }
                }
            },
        }
        proof {
            assert(self@.all().len() == before.len());
            assert(self.all().len() == self@.all().len()) by {
                assert(self@.all() == packages_view(self.all()));
            }
            assert(old(self).all().len() == old(self)@.all().len()) by {
                assert(old(self)@.all() == packages_view(old(self).all()));
            }
        }
    }
}

/// A well-formed manifest stays so when a dependency gets another version.
pub proof fn lemma_with_version_wf(manifest: Manifest, dep: Seq<char>, range: Seq<char>)
    requires
        manifest.wf(),
    ensures
        manifest.with_version(dep, range).wf(),
{
    lemma_sections_wf(manifest);
    let after = manifest.with_version(dep, range);
    if has_key(manifest.dependencies, dep) {
        lemma_same_keys(manifest.dependencies, dep, range);
    }
    if has_key(manifest.dev_dependencies, dep) {
        lemma_same_keys(manifest.dev_dependencies, dep, range);
    }
    if has_key(manifest.optional_dependencies, dep) {
        lemma_same_keys(manifest.optional_dependencies, dep, range);
    }
    lemma_wf_with_sections(manifest, after);
}

/// A new value under a key that is there keeps the keys as they are.
proof fn lemma_same_keys(section: Seq<(Seq<char>, Seq<char>)>, dep: Seq<char>, range: Seq<char>)
    requires
        sorted_keys(section),
        named_keys(section),
        has_key(section, dep),
    ensures
        sorted_keys(put_sorted(section, dep, range)),
        named_keys(put_sorted(section, dep, range)),
{
    let at = index_of(section, dep);
    assert(key_at(section, dep, at));
    let after = put_sorted(section, dep, range);
    assert forall|i: int, j: int| 0 <= i < j < after.len() implies text_lt(
        (#[trigger] after[i]).0,
        (#[trigger] after[j]).0,
    ) by {
        assert(text_lt(section[i].0, section[j].0));
    }
    assert forall|i: int| 0 <= i < after.len() implies valid_name((#[trigger] after[i]).0) by {
        assert(valid_name(section[i].0));
    }
}

} // verus!
