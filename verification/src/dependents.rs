//! Who depends on a package, and at which version.

use crate::entries::{has_key, key_at, lemma_sorted_distinct, lemma_splits_at, lookup, sorted_keys};
use crate::manifest::Manifest;
use crate::manifest_proofs::lemma_sections_wf;
use crate::package_name::PackageName;
use crate::project::{Package, Project, ProjectView};
use crate::text::{lemma_text_lt_total, lemma_text_lt_transitive, str_less, str_same, text_lt};
use vstd::prelude::*;

verus! {

/// The manifest asks for `dep` at `specifier` among its dependencies, its
/// dev dependencies or its optional dependencies. Peer dependencies do not
/// count.
pub open spec fn asks_for(manifest: Manifest, dep: Seq<char>, specifier: Seq<char>) -> bool {
    ||| lookup(manifest.dependencies, dep) == Some(specifier)
    ||| lookup(manifest.dev_dependencies, dep) == Some(specifier)
    ||| lookup(manifest.optional_dependencies, dep) == Some(specifier)
}

impl ProjectView {
    /// One of the first `upto` packages is named `package` and asks for
    /// `dep` at `specifier`.
    pub open spec fn uses_upto(
        self,
        upto: int,
        package: Seq<char>,
        dep: Seq<char>,
        specifier: Seq<char>,
    ) -> bool {
        exists|i: int|
            0 <= i < upto && i < self.all().len() && (#[trigger] self.all()[i]).manifest.name
                == package && asks_for(self.all()[i].manifest, dep, specifier)
    }

    /// A package of the project is named `package` and asks for `dep` at
    /// `specifier`.
    pub open spec fn uses(self, package: Seq<char>, dep: Seq<char>, specifier: Seq<char>) -> bool {
        self.uses_upto(self.all().len() as int, package, dep, specifier)
    }

    /// Every manifest of the project is well-formed.
    pub open spec fn manifests_wf(self) -> bool {
        crate::project::all_wf(self.all())
    }
}

/// The names stand in strictly rising order.
pub open spec fn sorted_texts(names: Seq<Seq<char>>) -> bool {
    forall|i: int, j: int| 0 <= i < j < names.len() ==> text_lt(names[i], names[j])
}

/// What a list of package names stands for.
pub open spec fn names_view(names: Seq<PackageName>) -> Seq<Seq<char>> {
    Seq::new(names.len(), |i: int| names[i]@)
}

/// What a list of specifiers, each with the names of the packages that
/// use it, stands for.
pub open spec fn dependents_view(found: Seq<(String, Vec<PackageName>)>) -> Seq<
    (Seq<char>, Seq<Seq<char>>),
> {
    Seq::new(found.len(), |i: int| (found[i].0@, names_view(found[i].1@)))
}

/// `package` stands in the list of `specifier`.
pub open spec fn lists(
    found: Seq<(Seq<char>, Seq<Seq<char>>)>,
    specifier: Seq<char>,
    package: Seq<char>,
) -> bool {
    exists|k: int| key_at(found, specifier, k) && (#[trigger] found[k]).1.contains(package)
}

/// The specifiers are sorted, and each has a sorted list of names that is
/// not empty.
pub open spec fn tidy(found: Seq<(Seq<char>, Seq<Seq<char>>)>) -> bool {
    &&& sorted_keys(found)
    &&& forall|k: int|
        0 <= k < found.len() ==> sorted_texts((#[trigger] found[k]).1) && found[k].1.len() > 0
}

/// Puts `package` into a sorted list of names, unless it is there.
fn insert_name(names: &mut Vec<PackageName>, package: &PackageName)
    requires
        sorted_texts(names_view(old(names)@)),
    ensures
        sorted_texts(names_view(final(names)@)),
        final(names)@.len() > 0,
        forall|name: Seq<char>|
            names_view(final(names)@).contains(name) <==> (names_view(old(names)@).contains(name)
                || name == package@),
{
    let ghost before = names_view(names@);
    let mut at: usize = 0;
    while at < names.len() && str_less(names[at].as_str(), package.as_str())
        invariant
            at <= names.len(),
            before == names_view(names@),
            forall|j: int| 0 <= j < at ==> text_lt(#[trigger] before[j], package@),
        decreases names.len() - at,
    {
        at += 1;
    }
    if at < names.len() && str_same(names[at].as_str(), package.as_str()) {
        assert(before[at as int] == package@);
        assert(before.contains(package@));
        return ;
    }
    names.insert(at, package.clone());
    let ghost after = names_view(names@);
    proof {
        assert(after =~= before.insert(at as int, package@));
        assert forall|i: int, j: int| 0 <= i < j < after.len() implies text_lt(
            after[i],
            after[j],
        ) by {
            let i0 = if i < at {
                i
            } else {
                i - 1
            };
            let j0 = if j < at {
                j
            } else {
                j - 1
            };
            if i == at {
                lemma_text_lt_total(before[at as int], package@);
                if j0 > at {
                    assert(text_lt(before[at as int], before[j0]));
                    lemma_text_lt_transitive(package@, before[at as int], before[j0]);
                }
            } else if j == at {
                assert(text_lt(before[i0], package@));
            } else {
                assert(text_lt(before[i0], before[j0]));
            }
        }
        assert forall|name: Seq<char>|
            after.contains(name) <==> (before.contains(name) || name == package@) by {
            if after.contains(name) {
                let i = choose|i: int| 0 <= i < after.len() && after[i] == name;
                if i < at {
                    assert(before[i] == name);
                } else if i > at {
                    assert(before[i - 1] == name);
                }
            }
            if before.contains(name) {
                let i = choose|i: int| 0 <= i < before.len() && before[i] == name;
                if i < at {
                    assert(after[i] == name);
                } else {
                    assert(after[i + 1] == name);
                }
            }
            if name == package@ {
                assert(after[at as int] == name);
            }
        }
    }
}

/// Notes that the package `package` uses `specifier`.
fn record(found: &mut Vec<(String, Vec<PackageName>)>, specifier: &str, package: &PackageName)
    requires
        tidy(dependents_view(old(found)@)),
    ensures
        tidy(dependents_view(final(found)@)),
        forall|s: Seq<char>, p: Seq<char>|
            lists(dependents_view(final(found)@), s, p) <==> (lists(
                dependents_view(old(found)@),
                s,
                p,
            ) || (s == specifier@ && p == package@)),
{
    let ghost before = dependents_view(found@);
    let mut at: usize = 0;
    while at < found.len() && str_less(found[at].0.as_str(), specifier)
        invariant
            at <= found.len(),
            before == dependents_view(found@),
            forall|j: int| 0 <= j < at ==> text_lt((#[trigger] before[j]).0, specifier@),
        decreases found.len() - at,
    {
        at += 1;
    }
    proof {
        lemma_splits_at(before, specifier@, at as int);
        lemma_sorted_distinct(before);
    }
    if at < found.len() && str_same(found[at].0.as_str(), specifier) {
        let mut entry = found.remove(at);
        let ghost old_names = names_view(entry.1@);
        assert(old_names == before[at as int].1);
        insert_name(&mut entry.1, package);
        let ghost new_names = names_view(entry.1@);
        found.insert(at, entry);
        let ghost after = dependents_view(found@);
        proof {
            assert(after =~= before.update(at as int, (specifier@, new_names)));
            assert forall|i: int, j: int| 0 <= i < j < after.len() implies text_lt(
                (#[trigger] after[i]).0,
                (#[trigger] after[j]).0,
            ) by {
                assert(text_lt(before[i].0, before[j].0));
            }
            assert forall|k: int| 0 <= k < after.len() implies sorted_texts(
                (#[trigger] after[k]).1,
            ) && after[k].1.len() > 0 by {
                if k != at {
                    assert(after[k] == before[k]);
                }
            }
            assert forall|s: Seq<char>, p: Seq<char>|
                lists(after, s, p) <==> (lists(before, s, p) || (s == specifier@ && p
                    == package@)) by {
                if lists(after, s, p) {
                    let k = choose|k: int| key_at(after, s, k) && (#[trigger] after[k]).1.contains(p);
                    if k != at {
                        assert(key_at(before, s, k) && before[k].1.contains(p));
                    } else if p != package@ {
                        assert(key_at(before, s, k) && before[k].1.contains(p));
                    }
                }
                if lists(before, s, p) {
                    let k = choose|k: int|
                        key_at(before, s, k) && (#[trigger] before[k]).1.contains(p);
                    assert(key_at(after, s, k) && after[k].1.contains(p));
                }
                if s == specifier@ && p == package@ {
                    assert(key_at(after, s, at as int) && after[at as int].1.contains(p));
                }
            }
        }
    } else {
        let mut names: Vec<PackageName> = Vec::new();
        names.push(package.clone());
        let ghost new_names = names_view(names@);
        assert(new_names =~= seq![package@]);
        found.insert(at, (specifier.to_owned(), names));
        let ghost after = dependents_view(found@);
        proof {
            assert(after =~= before.insert(at as int, (specifier@, new_names)));
            assert(!has_key(before, specifier@));
            crate::entries::lemma_split_exists(before, specifier@);
            crate::entries::lemma_put_sorted(before, specifier@, new_names);
            assert(after == crate::entries::put_sorted(before, specifier@, new_names));
            assert forall|k: int| 0 <= k < after.len() implies sorted_texts(
                (#[trigger] after[k]).1,
            ) && after[k].1.len() > 0 by {
                if k < at {
                    assert(after[k] == before[k]);
                } else if k > at {
                    assert(after[k] == before[k - 1]);
                }
            }
            assert forall|s: Seq<char>, p: Seq<char>|
                lists(after, s, p) <==> (lists(before, s, p) || (s == specifier@ && p
                    == package@)) by {
                if lists(after, s, p) {
                    let k = choose|k: int| key_at(after, s, k) && (#[trigger] after[k]).1.contains(p);
                    if k < at {
                        assert(key_at(before, s, k) && before[k].1.contains(p));
                    } else if k > at {
                        assert(key_at(before, s, k - 1) && before[k - 1].1.contains(p));
                    } else {
                        let i = choose|i: int| 0 <= i < new_names.len() && new_names[i] == p;
                    }
                }
                if lists(before, s, p) {
                    let k = choose|k: int|
                        key_at(before, s, k) && (#[trigger] before[k]).1.contains(p);
                    if k < at {
                        assert(key_at(after, s, k) && after[k].1.contains(p));
                    } else {
                        assert(key_at(after, s, k + 1) && after[k + 1].1.contains(p));
                    }
                }
                if s == specifier@ && p == package@ {
                    assert(new_names[0] == p);
                    assert(key_at(after, s, at as int) && after[at as int].1.contains(p));
                }
            }
        }
    }
}

/// Notes every specifier at which `package` asks for `dep`.
fn record_package(found: &mut Vec<(String, Vec<PackageName>)>, package: &Package, dep: &PackageName)
    requires
        tidy(dependents_view(old(found)@)),
        package@.manifest.wf(),
    ensures
        tidy(dependents_view(final(found)@)),
        forall|s: Seq<char>, p: Seq<char>|
            lists(dependents_view(final(found)@), s, p) <==> (lists(
                dependents_view(old(found)@),
                s,
                p,
            ) || (p == package@.manifest.name && asks_for(package@.manifest, dep@, s))),
{
    proof {
        lemma_sections_wf(package@.manifest);
    }
    let sections = package.pkg_json.iter_normal_deps();
    let name = &package.pkg_json.name;
    match sections[0].get(dep) {
        Some(specifier) => {
            record(found, specifier.as_str(), name);
        },
        None => {},
    }
    match sections[1].get(dep) {
        Some(specifier) => {
            record(found, specifier.as_str(), name);
        },
        None => {},
    }
    match sections[2].get(dep) {
        Some(specifier) => {
            record(found, specifier.as_str(), name);
        },
        None => {},
    }
}

impl Project {
    /// Every use of the dependency `name` in the project: the version
    /// specifiers at which packages ask for it, sorted, each with the
    /// sorted names of the packages that ask for it at that specifier.
    pub fn find_dependents(&self, name: &PackageName) -> (r: Vec<(String, Vec<PackageName>)>)
        requires
            self@.manifests_wf(),
        ensures
            tidy(dependents_view(r@)),
            forall|specifier: Seq<char>, package: Seq<char>|
                lists(dependents_view(r@), specifier, package) <==> self@.uses(
                    package,
                    name@,
                    specifier,
                ),
    {
        let mut found: Vec<(String, Vec<PackageName>)> = Vec::new();
        let count = self.member_count();
        let mut i: usize = 0;
        while i < count
            invariant
                i <= count,
                count + 1 == self.all().len(),
                self@.manifests_wf(),
                tidy(dependents_view(found@)),
                forall|s: Seq<char>, p: Seq<char>|
                    lists(dependents_view(found@), s, p) <==> self@.uses_upto(
                        i as int,
                        p,
                        name@,
                        s,
                    ),
            decreases count - i,
        {
            self.record_next(&mut found, i, name);
            i += 1;
        }
        self.record_next(&mut found, count, name);
        found
    }

    /// Notes every specifier at which the package at `at` asks for `dep`.
    fn record_next(&self, found: &mut Vec<(String, Vec<PackageName>)>, at: usize, dep: &PackageName)
        requires
            at < self.all().len(),
            self@.manifests_wf(),
            tidy(dependents_view(old(found)@)),
            forall|s: Seq<char>, p: Seq<char>|
                lists(dependents_view(old(found)@), s, p) <==> self@.uses_upto(
                    at as int,
                    p,
                    dep@,
                    s,
                ),
        ensures
            tidy(dependents_view(final(found)@)),
            forall|s: Seq<char>, p: Seq<char>|
                lists(dependents_view(final(found)@), s, p) <==> self@.uses_upto(
                    at + 1,
                    p,
                    dep@,
                    s,
                ),
    {
        let package = self.package_at(at);
        assert(self@.all() == crate::project::packages_view(self.all()));
        assert(self@.all()[at as int] == package@);
        record_package(found, package, dep);
        proof {
            assert forall|s: Seq<char>, p: Seq<char>|
                lists(dependents_view(found@), s, p) <==> self@.uses_upto(at + 1, p, dep@, s) by {
                if self@.uses_upto(at + 1, p, dep@, s) {
                    let i = choose|i: int|
                        0 <= i < at + 1 && i < self@.all().len() && (
                        #[trigger] self@.all()[i]).manifest.name == p && asks_for(
                            self@.all()[i].manifest,
                            dep@,
                            s,
                        );
                    if i < at {
                        assert(self@.uses_upto(at as int, p, dep@, s));
                    }
                }
                if self@.uses_upto(at as int, p, dep@, s) {
                    let i = choose|i: int|
                        0 <= i < at && i < self@.all().len() && (
                        #[trigger] self@.all()[i]).manifest.name == p && asks_for(
                            self@.all()[i].manifest,
                            dep@,
                            s,
                        );
                    assert(self@.uses_upto(at + 1, p, dep@, s));
                }
                if p == package@.manifest.name && asks_for(package@.manifest, dep@, s) {
                    assert(self@.uses_upto(at + 1, p, dep@, s));
                }
            }
        }
    }
}

} // verus!
