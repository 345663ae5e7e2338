//! Finding and measuring the target directories under a root.
//!
//! The program walks the tree (discovering target dirs without descending into
//! them, then measuring each one) and streams [`ScanEvent`]s to the dashboard;
//! this module holds the events and the matching rule.

use vstd::prelude::*;

use crate::report::ScanReport;
use crate::target::string_views;

verus! {

/// Progress streamed from a background scan so the dashboard stays responsive.
pub enum ScanEvent {
    /// Discovery finished; this many target dirs will be measured.
    Found(usize),
    /// One more directory finished measuring (for the progress counter).
    Measured,
    /// Everything is measured and grouped.
    Done(ScanReport),
}

/// True when a walked entry is a directory to record: it is a directory, it is
/// not the scan root, and its name is one of the enabled names. A recorded
/// directory is not descended into.
pub fn is_target_dir(is_dir: bool, is_root: bool, name: &str, lookup: &Vec<String>) -> (r: bool)
    ensures
        r == (is_dir && !is_root && string_views(lookup@).contains(name@)),
{
    if !is_dir || is_root {
        return false;
    }
    let wanted = name.to_owned();
    let mut i: usize = 0;
    while i < lookup.len()
        invariant
            i <= lookup.len(),
            wanted@ == name@,
            is_dir && !is_root,
            forall|j: int| 0 <= j < i ==> lookup@[j]@ != name@,
        decreases lookup.len() - i,
    {
        if lookup[i] == wanted {
            assert(string_views(lookup@).len() == lookup@.len());
            assert(string_views(lookup@)[i as int] == name@);
            assert(string_views(lookup@).contains(name@));
            return true;
        }
        i = i + 1;
    }
    assert forall|j: int| 0 <= j < string_views(lookup@).len() implies string_views(lookup@)[j]
        != name@ by {
        assert(string_views(lookup@)[j] == lookup@[j]@);
    }
    false
}

} // verus!
