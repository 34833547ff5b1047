//! Paths as text, with `/` between their components.

use vstd::prelude::*;
use vstd::string::StringExecFns;
use crate::text::{ends_with, starts_with};

verus! {

/// `component` adjoined to `base`: an absolute component stands alone; a
/// separator goes between the two unless `base` is empty or ends in one.
pub open spec fn joined_path(base: Seq<char>, component: Seq<char>) -> Seq<char> {
    if "/"@.is_prefix_of(component) {
        component
    } else if base.len() == 0 || "/"@.is_suffix_of(base) {
        base + component
    } else {
        base + "/"@ + component
    }
}

/// Adjoins `component` to `base`.
pub fn join_path(base: &str, component: &str) -> (path: String)
    ensures
        path@ == joined_path(base@, component@),
{
    if starts_with(component, "/") {
        String::from_str(component)
    } else if base.is_empty() || ends_with(base, "/") {
        let mut path = String::from_str(base);
        path.append(component);
        path
    } else {
        let mut path = String::from_str(base);
        path.append("/");
        path.append(component);
        path
    }
}

} // verus!
