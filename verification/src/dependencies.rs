//! One dependency section of a manifest: package names with the version
//! each is asked for, kept sorted by name.

use crate::entries::{
    has_key,
    key_at,
    lemma_index_unique,
    lemma_put_sorted,
    lemma_sorted_distinct,
    lemma_splits_at,
    lookup,
    put_sorted,
    sorted_keys,
    splits_at,
    without_key,
};
use crate::json::{Json, JsonValue, lemma_object_view, members_view};
use crate::manifest::text_object;
use crate::package_name::{PackageName, valid_name};
use crate::text::{str_less, str_same, text_lt};
use vstd::prelude::*;

verus! {

/// What a list of names and versions stands for.
pub open spec fn dependency_entries(list: Seq<(PackageName, String)>) -> Seq<
    (Seq<char>, Seq<char>),
> {
    Seq::new(list.len(), |i: int| (list[i].0@, list[i].1@))
}

/// Every key is a package name.
pub open spec fn named_keys<V>(entries: Seq<(Seq<char>, V)>) -> bool {
    forall|i: int| 0 <= i < entries.len() ==> valid_name((#[trigger] entries[i]).0)
}

/// A map from package name to version specifier that hands its entries out
/// sorted by name.
#[derive(Debug)]
pub struct Dependencies {
    list: Vec<(PackageName, String)>,
}

impl View for Dependencies {
    type V = Seq<(Seq<char>, Seq<char>)>;

    closed spec fn view(&self) -> Seq<(Seq<char>, Seq<char>)> {
        dependency_entries(self.list@)
    }
}

impl Clone for Dependencies {
    fn clone(&self) -> (r: Dependencies)
        ensures
            r@ == self@,
    {
        let mut list: Vec<(PackageName, String)> = Vec::new();
        let mut i: usize = 0;
        while i < self.list.len()
            invariant
                i <= self.list.len(),
                list@.len() == i,
                forall|j: int|
                    0 <= j < i ==> (#[trigger] list@[j]).0@ == self.list@[j].0@ && list@[j].1@
                        == self.list@[j].1@,
            decreases self.list.len() - i,
        {
            list.push((self.list[i].0.clone(), self.list[i].1.clone()));
            i += 1;
        }
        let r = Dependencies { list };
        assert(r@ =~= self@);
        r
    }
}

impl Dependencies {
    /// The entries are sorted by name, and every name is a package name.
    pub open spec fn wf(&self) -> bool {
        sorted_keys(self@) && named_keys(self@)
    }

    /// A section without entries.
    pub fn new() -> (r: Dependencies)
        ensures
            r@ == Seq::<(Seq<char>, Seq<char>)>::empty(),
            r.wf(),
    {
        let r = Dependencies { list: Vec::new() };
        assert(r@ =~= Seq::empty());
        r
    }

    /// The number of entries.
    pub fn len(&self) -> (r: usize)
        ensures
            r == self@.len(),
    {
        self.list.len()
    }

    /// Whether the section has no entry.
    pub fn is_empty(&self) -> (r: bool)
        ensures
            r == (self@.len() == 0),
    {
        self.list.len() == 0
    }

    /// The name of the entry at `i`.
    pub fn name_at(&self, i: usize) -> (r: &PackageName)
        requires
            i < self@.len(),
        ensures
            r@ == self@[i as int].0,
    {
        &self.list[i].0
    }

    /// The version of the entry at `i`.
    pub fn version_at(&self, i: usize) -> (r: &String)
        requires
            i < self@.len(),
        ensures
            r@ == self@[i as int].1,
    {
        &self.list[i].1
    }

    /// The number of entries whose name comes before `name`.
    fn position(&self, name: &str) -> (at: usize)
        requires
            self.wf(),
        ensures
            splits_at(self@, name@, at as int),
            has_key(self@, name@) <==> key_at(self@, name@, at as int),
    {
        let mut at: usize = 0;
        while at < self.list.len() && str_less(self.list[at].0.as_str(), name)
            invariant
                at <= self.list.len(),
                forall|j: int| 0 <= j < at ==> text_lt((#[trigger] self@[j]).0, name@),
            decreases self.list.len() - at,
        {
            at += 1;
        }
        proof {
            lemma_splits_at(self@, name@, at as int);
        }
        at
    }

    /// The version asked for of `name`.
    pub fn get(&self, name: &PackageName) -> (r: Option<&String>)
        requires
            self.wf(),
        ensures
            match r {
                Some(version) => lookup(self@, name@) == Some(version@),
                None => lookup(self@, name@) is None,
            },
    {
        let at = self.position(name.as_str());
        if at < self.list.len() && str_same(self.list[at].0.as_str(), name.as_str()) {
            proof {
                lemma_sorted_distinct(self@);
                lemma_index_unique(self@, name@, at as int);
            }
            Some(&self.list[at].1)
        } else {
            None
        }
    }

    /// Whether the section asks for `name`.
    pub fn contains_key(&self, name: &PackageName) -> (r: bool)
        requires
            self.wf(),
        ensures
            r == has_key(self@, name@),
    {
        let at = self.position(name.as_str());
        at < self.list.len() && str_same(self.list[at].0.as_str(), name.as_str())
    }

    /// Gives `name` the version `version`, and hands back the version it
    /// had.
    pub fn insert(&mut self, name: PackageName, version: String) -> (r: Option<String>)
        requires
            old(self).wf(),
        ensures
            final(self).wf(),
            final(self)@ == put_sorted(old(self)@, name@, version@),
            match r {
                Some(before) => lookup(old(self)@, name@) == Some(before@),
                None => lookup(old(self)@, name@) is None,
            },
    {
        let at = self.position(name.as_str());
        let ghost before = self@;
        proof {
            lemma_sorted_distinct(before);
            lemma_put_sorted(before, name@, version@);
            lemma_splits_at(before, name@, at as int);
        }
        if at < self.list.len() && str_same(self.list[at].0.as_str(), name.as_str()) {
            proof {
                lemma_index_unique(before, name@, at as int);
            }
            let replaced = self.list.remove(at);
            self.list.insert(at, (name, version));
            assert(self@ =~= before.update(at as int, (name@, version@)));
            assert(named_keys(self@)) by {
                assert forall|i: int| 0 <= i < self@.len() implies valid_name(
                    (#[trigger] self@[i]).0,
                ) by {
                    assert(self@[i].0 == before[i].0);
                }
            }
            Some(replaced.1)
        } else {
            self.list.insert(at, (name, version));
            assert(self@ =~= before.insert(at as int, (name@, version@)));
            assert(named_keys(self@)) by {
                assert forall|i: int| 0 <= i < self@.len() implies valid_name(
                    (#[trigger] self@[i]).0,
                ) by {
                    if i < at {
                        assert(self@[i].0 == before[i].0);
                    } else if i > at {
                        assert(self@[i].0 == before[i - 1].0);
                    }
                }
            }
            None
        }
    }

    /// The section as a JSON object of strings.
    pub fn to_json(&self) -> (r: JsonValue)
        ensures
            r@ == text_object(self@),
    {
        let mut members: Vec<(String, JsonValue)> = Vec::new();
        let mut i: usize = 0;
        while i < self.list.len()
            invariant
                i <= self.list.len(),
                members@.len() == i,
                forall|j: int|
                    0 <= j < i ==> (#[trigger] members@[j]).0@ == self@[j].0 && members@[j].1@
                        == Json::Text(self@[j].1),
            decreases self.list.len() - i,
        {
            members.push(
                (self.list[i].0.as_str().to_owned(), JsonValue::Text(self.list[i].1.clone())),
            );
            i += 1;
        }
        proof {
            lemma_object_view(members);
            assert(members_view(members@) =~= text_object(self@)->Object_0);
        }
        JsonValue::Object(members)
    }

    /// Takes the entry of `name` out, and hands back the version it had.
    pub fn remove(&mut self, name: &PackageName) -> (r: Option<String>)
        requires
            old(self).wf(),
        ensures
            final(self).wf(),
            final(self)@ == without_key(old(self)@, name@),
            match r {
                Some(before) => lookup(old(self)@, name@) == Some(before@),
                None => lookup(old(self)@, name@) is None,
            },
    {
        let at = self.position(name.as_str());
        let ghost before = self@;
        if at < self.list.len() && str_same(self.list[at].0.as_str(), name.as_str()) {
            proof {
                lemma_sorted_distinct(before);
                lemma_index_unique(before, name@, at as int);
            }
            let removed = self.list.remove(at);
            assert(self@ =~= before.remove(at as int));
            assert(self.wf()) by {
                assert forall|i: int| 0 <= i < self@.len() implies #[trigger] self@[i]
                    == before[if i < at {
                    i
                } else {
                    i + 1
                }] by {}
                assert forall|i: int, j: int| 0 <= i < j < self@.len() implies text_lt(
                    (#[trigger] self@[i]).0,
                    (#[trigger] self@[j]).0,
                ) by {
                    let i0 = if i < at {
                        i
                    } else {
                        i + 1
                    };
                    let j0 = if j < at {
                        j
                    } else {
                        j + 1
                    };
                    assert(text_lt(before[i0].0, before[j0].0));
                }
            }
            Some(removed.1)
        } else {
            None
        }
    }
}

} // verus!
