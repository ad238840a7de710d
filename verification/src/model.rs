//! The walk as a state machine over plain values.
//!
//! A walk alternates between the library and whoever reads the file system.
//! The library decides; the reader lists one directory when asked and reports
//! what it found. This module says, for every state and every report, what
//! the next state is and what is put out.

use crate::args::OptView;
use crate::entry::{keep, EntryView};
use crate::name::hidden_name;
use crate::order::order_by_name;
use crate::render::{Connector, LineView};
use vstd::prelude::*;

verus! {

/// A directory that is waiting to be listed.
pub struct VisitView {
    /// The directory's path.
    pub path: Seq<char>,
    /// What stands in front of the connector of each of its children.
    pub prefix: Seq<char>,
    /// How many more levels may be opened below it, if there is a bound.
    pub levels: Option<nat>,
}

/// A directory whose children are being shown.
pub struct FrameView {
    pub path: Seq<char>,
    pub prefix: Seq<char>,
    pub levels: Option<nat>,
    /// The children that are shown, in the order in which they are shown.
    pub rows: Seq<EntryView>,
    /// The index of the next child to show.
    pub cursor: nat,
}

/// The state of a walk: the directories that still have children to show,
/// innermost last, and the directory whose listing is awaited, if any.
pub struct WalkerView {
    pub stack: Seq<FrameView>,
    pub awaiting: Option<VisitView>,
}

/// What went wrong for the reader.
#[derive(Clone, Copy, Debug, PartialEq, Eq, Structural)]
pub enum Failure {
    /// The directory could not be read.
    Unreadable,
    /// A child's name is not valid text.
    MalformedName,
}

/// What the reader reports.
pub enum EventView {
    /// What was put out has been written.
    Resume,
    /// The children of the directory that was asked for.
    Listed(Seq<EntryView>),
    /// The directory that was asked for could not be listed.
    Failed(Failure),
}

/// What the reader is to do after writing the lines.
pub enum NextView {
    /// List the directory at this path and report its children.
    Read(Seq<char>),
    /// Report back at once.
    Continue,
    /// Nothing: the walk is over.
    Done,
}

/// What one step puts out, and what comes next.
pub struct ActionView {
    pub lines: Seq<LineView>,
    pub next: NextView,
}

/// Why a walk was given up. Each names the directory that was being listed.
pub enum WalkErrorView {
    Unreadable { path: Seq<char> },
    MalformedName { path: Seq<char> },
}

/// Every directory on the stack still has a child to show.
pub open spec fn well_formed(w: WalkerView) -> bool {
    forall|i: int| 0 <= i < w.stack.len() ==> (#[trigger] w.stack[i]).cursor < w.stack[i].rows.len()
}

/// Whether a directory at `depth` is too deep to be listed.
pub open spec fn gated(max_depth: Option<nat>, depth: nat) -> bool {
    max_depth matches Some(most) && depth > most
}

/// How many more levels may be opened below a directory at `depth`.
pub open spec fn levels_below(max_depth: Option<nat>, depth: nat) -> Option<nat> {
    match max_depth {
        Some(most) => Some((most - depth) as nat),
        None => None,
    }
}

/// One level fewer, if there is a bound.
pub open spec fn one_less(levels: Option<nat>) -> Option<nat> {
    match levels {
        Some(n) => Some((n - 1) as nat),
        None => None,
    }
}

/// Whether a directory with `count` children to show has too many to be opened.
pub open spec fn over_limit(file_limit: Option<nat>, count: nat) -> bool {
    file_limit matches Some(most) && count > most
}

/// The children of a directory that are shown, in the order in which they
/// are shown: those that the options keep, ascending by name.
pub open spec fn arrange(opt: OptView, listing: Seq<EntryView>) -> Seq<EntryView> {
    order_by_name(keep(opt, listing))
}

/// What comes next when no listing is awaited.
pub open spec fn next_of(stack: Seq<FrameView>) -> NextView {
    if stack.len() == 0 {
        NextView::Done
    } else {
        NextView::Continue
    }
}

/// The start of a walk at `root`, which lies at `depth`.
///
/// The styling is reset. A root that is too deep only ends the line and the
/// walk is over; otherwise its listing is asked for.
pub open spec fn begin(opt: OptView, root: Seq<char>, prefix: Seq<char>, depth: nat) -> (
    WalkerView,
    ActionView,
) {
    if gated(opt.max_depth, depth) {
        (
            WalkerView { stack: Seq::empty(), awaiting: None },
            ActionView { lines: seq![LineView::Reset, LineView::Break], next: NextView::Done },
        )
    } else {
        (
            WalkerView {
                stack: Seq::empty(),
                awaiting: Some(
                    VisitView { path: root, prefix, levels: levels_below(opt.max_depth, depth) },
                ),
            },
            ActionView { lines: seq![LineView::Reset], next: NextView::Read(root) },
        )
    }
}

/// The listing of the awaited directory `visit` has come.
///
/// With more children to show than the limit allows, the directory stays
/// closed and a notice says so. Otherwise the line ends and the children, if
/// there are any, are lined up to be shown.
pub open spec fn open_directory(
    w: WalkerView,
    opt: OptView,
    visit: VisitView,
    listing: Seq<EntryView>,
) -> (WalkerView, ActionView) {
    let kept = keep(opt, listing);
    if over_limit(opt.file_limit, kept.len()) {
        (
            WalkerView { stack: w.stack, awaiting: None },
            ActionView {
                lines: seq![LineView::Notice { count: kept.len() }],
                next: next_of(w.stack),
            },
        )
    } else {
        let rows = order_by_name(kept);
        let stack = if rows.len() > 0 {
            w.stack.push(
                FrameView {
                    path: visit.path,
                    prefix: visit.prefix,
                    levels: visit.levels,
                    rows,
                    cursor: 0,
                },
            )
        } else {
            w.stack
        };
        (
            WalkerView { stack, awaiting: None },
            ActionView { lines: seq![LineView::Break], next: next_of(stack) },
        )
    }
}

/// The label of child `index` of a directory that shows `rows` behind `prefix`.
pub open spec fn label_of(opt: OptView, prefix: Seq<char>, rows: Seq<EntryView>, index: int) -> LineView {
    let entry = rows[index];
    LineView::Label {
        prefix,
        connector: Connector::at(index, rows.len() as int),
        text: if opt.full_paths {
            entry.path
        } else {
            entry.name
        },
        is_dir: entry.is_dir,
        hidden: hidden_name(entry.name),
    }
}

/// The visit of the child directory at the cursor of `frame`.
pub open spec fn child_of(frame: FrameView) -> VisitView {
    VisitView {
        path: frame.path + "/"@ + frame.rows[frame.cursor as int].name,
        prefix: frame.prefix + Connector::at(frame.cursor as int, frame.rows.len() as int).trail(),
        levels: one_less(frame.levels),
    }
}

/// The stack once the child at the cursor of the innermost directory has
/// been shown: the directory leaves the stack with its last child.
pub open spec fn advance(stack: Seq<FrameView>) -> Seq<FrameView> {
    let frame = stack.last();
    if frame.cursor + 1 == frame.rows.len() {
        stack.drop_last()
    } else {
        stack.drop_last().push(FrameView { cursor: frame.cursor + 1, ..frame })
    }
}

/// Shows the next child of the innermost directory.
///
/// A file gets its label. A directory gets its label and a reset of the
/// styling; then, if it lies too deep, the line ends, and otherwise its
/// listing is asked for.
pub open spec fn show_next(w: WalkerView, opt: OptView) -> (WalkerView, ActionView) {
    let frame = w.stack.last();
    let rest = advance(w.stack);
    let label = label_of(opt, frame.prefix, frame.rows, frame.cursor as int);
    if !frame.rows[frame.cursor as int].is_dir {
        (
            WalkerView { stack: rest, awaiting: None },
            ActionView { lines: seq![label], next: next_of(rest) },
        )
    } else if frame.levels == Some(0nat) {
        (
            WalkerView { stack: rest, awaiting: None },
            ActionView {
                lines: seq![label, LineView::Reset, LineView::Break],
                next: next_of(rest),
            },
        )
    } else {
        let child = child_of(frame);
        (
            WalkerView { stack: rest, awaiting: Some(child) },
            ActionView { lines: seq![label, LineView::Reset], next: NextView::Read(child.path) },
        )
    }
}

/// The error that ends a walk when `visit` could not be listed.
pub open spec fn failure_of(failure: Failure, visit: VisitView) -> WalkErrorView {
    match failure {
        Failure::Unreadable => WalkErrorView::Unreadable { path: visit.path },
        Failure::MalformedName => WalkErrorView::MalformedName { path: visit.path },
    }
}

/// One step of a walk.
///
/// While a listing is awaited, the listing opens the directory, a failure
/// ends the walk with an error, and anything else asks for the listing again.
/// While none is awaited, `Resume` shows the next child if there is one; any
/// other report changes nothing and puts nothing out.
pub open spec fn step(w: WalkerView, opt: OptView, event: EventView) -> (
    WalkerView,
    Result<ActionView, WalkErrorView>,
) {
    match w.awaiting {
        Some(visit) => match event {
            EventView::Listed(listing) => {
                let (after, action) = open_directory(w, opt, visit, listing);
                (after, Ok(action))
            },
            EventView::Failed(failure) => (
                WalkerView { stack: Seq::empty(), awaiting: None },
                Err(failure_of(failure, visit)),
            ),
            EventView::Resume => (
                w,
                Ok(ActionView { lines: Seq::empty(), next: NextView::Read(visit.path) }),
            ),
        },
        None => if event is Resume && w.stack.len() > 0 {
            let (after, action) = show_next(w, opt);
            (after, Ok(action))
        } else {
            (w, Ok(ActionView { lines: Seq::empty(), next: next_of(w.stack) }))
        },
    }
}

/// What a line adds to the number of children shown: one if it is the label
/// of a directory and `dirs` holds, or the label of a file and `dirs` does
/// not hold; nothing otherwise.
pub open spec fn weight(line: LineView, dirs: bool) -> nat {
    match line {
        LineView::Label { is_dir, .. } => if is_dir == dirs {
            1
        } else {
            0
        },
        _ => 0,
    }
}

/// How many children the lines show: directories if `dirs`, files otherwise.
pub open spec fn shown(lines: Seq<LineView>, dirs: bool) -> nat
    decreases lines.len(),
{
    if lines.len() == 0 {
        0
    } else {
        shown(lines.drop_last(), dirs) + weight(lines.last(), dirs)
    }
}

/// The lines that a step puts out; none when the walk is given up.
pub open spec fn lines_of(outcome: Result<ActionView, WalkErrorView>) -> Seq<LineView> {
    match outcome {
        Ok(action) => action.lines,
        Err(_) => Seq::empty(),
    }
}

/// One more line adds its weight to the number shown.
pub proof fn lemma_shown_push(lines: Seq<LineView>, line: LineView, dirs: bool)
    ensures
        shown(lines.push(line), dirs) == shown(lines, dirs) + weight(line, dirs),
{
    assert(lines.push(line).drop_last() =~= lines);
}

/// Whether the step that takes `event` in state `w` shows a child: no
/// listing is awaited, the reader resumes, and a directory still has one.
pub open spec fn shows_child(w: WalkerView, event: EventView) -> bool {
    w.awaiting is None && event is Resume && w.stack.len() > 0
}

/// A step shows at most one child: the one at the cursor of the innermost
/// directory, when it shows a child at all.
pub proof fn lemma_step_shows_one(w: WalkerView, opt: OptView, event: EventView)
    ensures
        shows_child(w, event) ==> {
            let child = w.stack.last().rows[w.stack.last().cursor as int];
            &&& shown(lines_of(step(w, opt, event).1), true) == (if child.is_dir {
                1nat
            } else {
                0nat
            })
            &&& shown(lines_of(step(w, opt, event).1), false) == (if child.is_dir {
                0nat
            } else {
                1nat
            })
        },
        !shows_child(w, event) ==> {
            &&& shown(lines_of(step(w, opt, event).1), true) == 0
            &&& shown(lines_of(step(w, opt, event).1), false) == 0
        },
{
    let lines = lines_of(step(w, opt, event).1);
    let none = Seq::<LineView>::empty();
    if lines.len() == 1 {
        assert(lines =~= none.push(lines[0]));
        lemma_shown_push(none, lines[0], true);
        lemma_shown_push(none, lines[0], false);
    } else if lines.len() == 2 {
        assert(lines =~= none.push(lines[0]).push(lines[1]));
        lemma_shown_push(none, lines[0], true);
        lemma_shown_push(none, lines[0], false);
        lemma_shown_push(none.push(lines[0]), lines[1], true);
        lemma_shown_push(none.push(lines[0]), lines[1], false);
    } else if lines.len() == 3 {
        assert(lines =~= none.push(lines[0]).push(lines[1]).push(lines[2]));
        lemma_shown_push(none, lines[0], true);
        lemma_shown_push(none, lines[0], false);
        lemma_shown_push(none.push(lines[0]), lines[1], true);
        lemma_shown_push(none.push(lines[0]), lines[1], false);
        lemma_shown_push(none.push(lines[0]).push(lines[1]), lines[2], true);
        lemma_shown_push(none.push(lines[0]).push(lines[1]), lines[2], false);
    }
}

} // verus!
