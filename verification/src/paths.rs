//! Paths as lists of components.
//!
//! A directory is known to this crate by the components of its path,
//! outermost first. Its ancestors are the prefixes of that list; whoever
//! reads the file system turns a path into its components and back.

use crate::text::str_same;
use vstd::prelude::*;

verus! {

/// Whether `path` lies in `dir` or is `dir`: the components of `dir` are
/// the first components of `path`.
pub fn starts_with(path: &Vec<String>, dir: &Vec<String>) -> (r: bool)
    ensures
        r == dir.deep_view().is_prefix_of(path.deep_view()),
{
    if dir.len() > path.len() {
        return false;
    }
    let mut i: usize = 0;
    while i < dir.len()
        invariant
            i <= dir.len(),
            dir.len() <= path.len(),
            forall|j: int| 0 <= j < i ==> dir.deep_view()[j] == path.deep_view()[j],
        decreases dir.len() - i,
    {
        if !str_same(dir[i].as_str(), path[i].as_str()) {
            assert(dir.deep_view()[i as int] != path.deep_view().subrange(
                0,
                dir.deep_view().len() as int,
            )[i as int]);
            return false;
        }
        i += 1;
    }
    assert(dir.deep_view() =~= path.deep_view().subrange(0, dir.deep_view().len() as int));
    true
}

/// A copy of the path.
pub fn copy_path(path: &Vec<String>) -> (r: Vec<String>)
    ensures
        r.deep_view() == path.deep_view(),
{
    let mut copy: Vec<String> = Vec::new();
    let mut i: usize = 0;
    while i < path.len()
        invariant
            i <= path.len(),
            copy.len() == i,
            forall|j: int| 0 <= j < i ==> copy@[j]@ == path@[j]@,
        decreases path.len() - i,
    {
        copy.push(path[i].clone());
        i += 1;
    }
    assert(copy.deep_view() =~= path.deep_view());
    copy
}

/// The directory that holds `path`: the path without its last component.
/// `None` for the path without components.
pub fn parent(path: &Vec<String>) -> (r: Option<Vec<String>>)
    ensures
        match r {
            Some(dir) => path.len() > 0 && dir.deep_view() == path.deep_view().drop_last(),
            None => path.len() == 0,
        },
{
    if path.len() == 0 {
        return None;
    }
    let mut dir = copy_path(path);
    dir.pop();
    assert(dir.deep_view() =~= path.deep_view().drop_last());
    Some(dir)
}

/// The path of `name` in the directory `dir`.
pub fn join(dir: &Vec<String>, name: &str) -> (r: Vec<String>)
    ensures
        r.deep_view() == dir.deep_view().push(name@),
{
    let mut path = copy_path(dir);
    path.push(name.to_owned());
    assert(path.deep_view() =~= dir.deep_view().push(name@));
    path
}

} // verus!
