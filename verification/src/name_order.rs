//! Equality and order of package names: those of the names as strings.

use crate::package_name::PackageName;
use crate::text::{str_less, str_same, text_lt};
use std::cmp::Ordering;
use vstd::prelude::*;
use vstd::std_specs::cmp::{PartialEqSpecImpl, PartialOrdSpecImpl};

verus! {

impl PartialEq for PackageName {
    fn eq(&self, other: &PackageName) -> (r: bool) {
        str_same(self.as_str(), other.as_str())
    }
}

impl PartialEqSpecImpl for PackageName {
    open spec fn obeys_eq_spec() -> bool {
        true
    }

    open spec fn eq_spec(&self, other: &PackageName) -> bool {
        self@ == other@
    }
}

impl Eq for PackageName {

}

impl PartialOrd for PackageName {
    fn partial_cmp(&self, other: &PackageName) -> (r: Option<Ordering>) {
        if str_same(self.as_str(), other.as_str()) {
            Some(Ordering::Equal)
        } else if str_less(self.as_str(), other.as_str()) {
            Some(Ordering::Less)
        } else {
            Some(Ordering::Greater)
        }
    }
}

impl PartialOrdSpecImpl for PackageName {
    open spec fn obeys_partial_cmp_spec() -> bool {
        true
    }

    open spec fn partial_cmp_spec(&self, other: &PackageName) -> Option<Ordering> {
        if self@ == other@ {
            Some(Ordering::Equal)
        } else if text_lt(self@, other@) {
            Some(Ordering::Less)
        } else {
            Some(Ordering::Greater)
        }
    }
}

} // verus!
