//! Totals of the entries that a walk has shown.

use vstd::prelude::*;

verus! {

/// How many directories and how many files have been shown so far.
#[derive(Debug)]
pub struct Counts {
    pub dirs: isize,
    pub files: isize,
}

impl Counts {
    /// The number of entries counted, directories and files together.
    pub open spec fn total(&self) -> int {
        self.dirs + self.files
    }

    /// Whether one more entry of either kind can be counted without overflow.
    pub open spec fn has_room(&self) -> bool {
        self.dirs < isize::MAX && self.files < isize::MAX
    }

    /// Tells whether one more entry of either kind can still be counted.
    pub fn can_grow(&self) -> (r: bool)
        ensures
            r == self.has_room(),
    {
        self.dirs < isize::MAX && self.files < isize::MAX
    }
}

impl Default for Counts {
    fn default() -> (c: Counts)
        ensures
            c.dirs == 0,
            c.files == 0,
    {
        Counts { dirs: 0, files: 0 }
    }
}

} // verus!
