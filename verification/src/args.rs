//! The options of one invocation.

use crate::pattern::Pattern;
use vstd::prelude::*;

verus! {

/// What a walk shows and where it stops. Built once and then only read.
#[derive(Debug)]
pub struct Opt {
    /// Show hidden entries too.
    pub all_files: bool,
    /// Show directories only.
    pub only_dirs: bool,
    /// Label each entry with its whole path rather than its name.
    pub full_paths: bool,
    /// The deepest level that is still listed.
    pub max_depth: Option<usize>,
    /// The most children a directory may have and still be opened.
    pub file_limit: Option<usize>,
    /// Files are shown only if their name matches this.
    pub match_pattern: Option<Pattern>,
    /// Files are left out if their name matches this.
    pub ignore_pattern: Option<Pattern>,
}

/// The options as plain values; a pattern stands as the text of its expression.
pub struct OptView {
    pub all_files: bool,
    pub only_dirs: bool,
    pub full_paths: bool,
    pub max_depth: Option<nat>,
    pub file_limit: Option<nat>,
    pub match_pattern: Option<Seq<char>>,
    pub ignore_pattern: Option<Seq<char>>,
}

/// The text of an optional pattern.
pub open spec fn pattern_text(p: Option<Pattern>) -> Option<Seq<char>> {
    match p {
        Some(p) => Some(p@),
        None => None,
    }
}

/// An optional bound as a natural number.
pub open spec fn bound_value(b: Option<usize>) -> Option<nat> {
    match b {
        Some(n) => Some(n as nat),
        None => None,
    }
}

impl View for Opt {
    type V = OptView;

    open spec fn view(&self) -> OptView {
        OptView {
            all_files: self.all_files,
            only_dirs: self.only_dirs,
            full_paths: self.full_paths,
            max_depth: bound_value(self.max_depth),
            file_limit: bound_value(self.file_limit),
            match_pattern: pattern_text(self.match_pattern),
            ignore_pattern: pattern_text(self.ignore_pattern),
        }
    }
}

impl Default for Opt {
    /// The options of a plain listing: hidden entries left out, no limits,
    /// no patterns.
    fn default() -> (opt: Opt)
        ensures
            opt@ == (OptView {
                all_files: false,
                only_dirs: false,
                full_paths: false,
                max_depth: None,
                file_limit: None,
                match_pattern: None,
                ignore_pattern: None,
            }),
    {
        Opt {
            all_files: false,
            only_dirs: false,
            full_paths: false,
            max_depth: None,
            file_limit: None,
            match_pattern: None,
            ignore_pattern: None,
        }
    }
}

} // verus!
