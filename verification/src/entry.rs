//! The children of a directory, and which of them a listing keeps.

use crate::args::{Opt, OptView};
use crate::name::{hidden_name, is_hidden};
use crate::pattern::regex_finds;
use vstd::prelude::*;

verus! {

/// One child of a directory as the file system reports it.
#[derive(Debug)]
pub struct Entry {
    /// The child's path: the directory's path joined with the name.
    pub path: String,
    /// The child's file name.
    pub name: String,
    /// Whether the child is a directory; anything else counts as a file.
    pub is_dir: bool,
}

/// An entry as plain values.
pub struct EntryView {
    pub path: Seq<char>,
    pub name: Seq<char>,
    pub is_dir: bool,
}

impl View for Entry {
    type V = EntryView;

    open spec fn view(&self) -> EntryView {
        EntryView { path: self.path@, name: self.name@, is_dir: self.is_dir }
    }
}

impl DeepView for Entry {
    type V = EntryView;

    open spec fn deep_view(&self) -> EntryView {
        self@
    }
}

/// Whether a listing keeps the entry `e`.
///
/// Hidden entries go unless all files are asked for. With directories only,
/// everything else goes. The two patterns are held against files alone: a file
/// stays if it matches the first and does not match the second, as far as
/// they are set.
pub open spec fn survives(opt: OptView, e: EntryView) -> bool {
    &&& opt.all_files || !hidden_name(e.name)
    &&& opt.only_dirs ==> e.is_dir
    &&& !e.is_dir ==> {
        &&& opt.match_pattern matches Some(p) ==> regex_finds(p, e.name)
        &&& opt.ignore_pattern matches Some(p) ==> !regex_finds(p, e.name)
    }
}

/// The entries of `listing` that a listing keeps, in their order.
pub open spec fn keep(opt: OptView, listing: Seq<EntryView>) -> Seq<EntryView> {
    listing.filter(|e: EntryView| survives(opt, e))
}

/// Tells whether a listing under `args` keeps `entry`.
pub fn is_kept(args: &Opt, entry: &Entry) -> (r: bool)
    ensures
        r == survives(args@, entry@),
{
    if !args.all_files && is_hidden(entry.name.as_str()) {
        return false;
    }
    if args.only_dirs && !entry.is_dir {
        return false;
    }
    if entry.is_dir {
        return true;
    }
    let wanted = match &args.match_pattern {
        Some(p) => p.is_match(entry.name.as_str()),
        None => true,
    };
    let unwanted = match &args.ignore_pattern {
        Some(p) => p.is_match(entry.name.as_str()),
        None => false,
    };
    wanted && !unwanted
}

/// Drops from `entries` what a listing under `args` does not keep.
pub fn filter_entries(args: &Opt, entries: Vec<Entry>) -> (kept: Vec<Entry>)
    ensures
        kept.deep_view() == keep(args@, entries.deep_view()),
{
    let ghost all = entries.deep_view();
    let mut kept: Vec<Entry> = Vec::new();
    for entry in it: entries
        invariant
            it.seq() == entries@,
            all == entries.deep_view(),
            kept.deep_view() == keep(args@, all.take(it.index() as int)),
    {
        proof {
            let i = it.index() as int;
            reveal(Seq::filter);
            assert(all.take(i + 1).drop_last() =~= all.take(i));
            assert(all.take(i + 1).last() == entry@);
        }
        let ghost before = kept.deep_view();
        if is_kept(args, &entry) {
            kept.push(entry);
            assert(kept.deep_view() =~= before.push(entry@));
        }
    }
    assert(all.take(all.len() as int) =~= all);
    kept
}

} // verus!
