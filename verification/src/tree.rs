//! What a whole walk puts out.
//!
//! The state machine takes one report at a time. This module says what comes
//! of it when the reports are those of a reader that lists each directory it
//! is asked for: the lines are those of the tree, drawn directory by
//! directory, each with its children below it.

use crate::args::OptView;
use crate::entry::{keep, EntryView};
use crate::model::{
    arrange, begin, child_of, gated, label_of, levels_below, next_of, over_limit, step,
    well_formed, ActionView, EventView, Failure, FrameView, NextView, VisitView, WalkErrorView,
    WalkerView,
};
use crate::render::LineView;
use vstd::prelude::*;

verus! {

/// What the reader reports when it has written the lines and done what
/// `next` asks: the children of the directory, or why it cannot be listed.
pub open spec fn reply(
    disk: spec_fn(Seq<char>) -> Result<Seq<EntryView>, Failure>,
    next: NextView,
) -> EventView {
    match next {
        NextView::Read(path) => match disk(path) {
            Ok(listing) => EventView::Listed(listing),
            Err(failure) => EventView::Failed(failure),
        },
        _ => EventView::Resume,
    }
}

/// Where a walk stands after some steps, and what it has put out in them.
pub struct DriveView {
    pub walker: WalkerView,
    pub next: NextView,
    pub lines: Seq<LineView>,
    pub error: Option<WalkErrorView>,
}

/// The walk that is in state `w` and is to do `next`, carried on by a reader
/// of `disk` for at most `steps` steps. It stops early when it is over, and
/// it is over with the first directory that cannot be listed.
pub open spec fn drive(
    opt: OptView,
    disk: spec_fn(Seq<char>) -> Result<Seq<EntryView>, Failure>,
    w: WalkerView,
    next: NextView,
    steps: nat,
) -> DriveView
    decreases steps,
{
    if steps == 0 || next is Done {
        DriveView { walker: w, next, lines: Seq::empty(), error: None }
    } else {
        let (after, outcome) = step(w, opt, reply(disk, next));
        match outcome {
            Ok(action) => {
                let rest = drive(opt, disk, after, action.next, (steps - 1) as nat);
                DriveView { lines: action.lines + rest.lines, ..rest }
            },
            Err(error) => DriveView {
                walker: after,
                next: NextView::Done,
                lines: Seq::empty(),
                error: Some(error),
            },
        }
    }
}

/// The frame of a directory whose listing has just come.
pub open spec fn first_frame(
    opt: OptView,
    disk: spec_fn(Seq<char>) -> Result<Seq<EntryView>, Failure>,
    visit: VisitView,
) -> FrameView {
    FrameView {
        path: visit.path,
        prefix: visit.prefix,
        levels: visit.levels,
        rows: arrange(opt, disk(visit.path)->Ok_0),
        cursor: 0,
    }
}

/// The frame with the cursor on the next child.
pub open spec fn next_frame(frame: FrameView) -> FrameView {
    FrameView { cursor: frame.cursor + 1, ..frame }
}

/// Whether the child at the cursor is a directory that gets listed.
pub open spec fn opens(frame: FrameView) -> bool {
    frame.rows[frame.cursor as int].is_dir && frame.levels != Some(0nat)
}

/// Whether the directory `visit` can be read and has too many children to
/// be opened.
pub open spec fn stays_closed(
    opt: OptView,
    disk: spec_fn(Seq<char>) -> Result<Seq<EntryView>, Failure>,
    visit: VisitView,
) -> bool {
    over_limit(opt.file_limit, keep(opt, disk(visit.path)->Ok_0).len())
}

/// The walk below `visit` reads no directory that cannot be listed and goes
/// no more than `height` levels down.
pub open spec fn settles(
    opt: OptView,
    disk: spec_fn(Seq<char>) -> Result<Seq<EntryView>, Failure>,
    visit: VisitView,
    height: nat,
) -> bool
    decreases height, 1nat, 0nat,
{
    if disk(visit.path) is Err {
        false
    } else if stays_closed(opt, disk, visit) {
        true
    } else {
        rows_settle(opt, disk, first_frame(opt, disk, visit), height)
    }
}

/// The same of the children of `frame` from its cursor on.
pub open spec fn rows_settle(
    opt: OptView,
    disk: spec_fn(Seq<char>) -> Result<Seq<EntryView>, Failure>,
    frame: FrameView,
    height: nat,
) -> bool
    decreases height, 0nat, frame.rows.len() - frame.cursor,
{
    if frame.cursor >= frame.rows.len() {
        true
    } else if !opens(frame) {
        rows_settle(opt, disk, next_frame(frame), height)
    } else if height == 0 {
        false
    } else {
        settles(opt, disk, child_of(frame), (height - 1) as nat) && rows_settle(
            opt,
            disk,
            next_frame(frame),
            height,
        )
    }
}

/// The lines of the directory `visit` from the moment it is listed: a notice
/// if it has too many children; otherwise the end of the line and then its
/// children, one after the other.
pub open spec fn subtree_lines(
    opt: OptView,
    disk: spec_fn(Seq<char>) -> Result<Seq<EntryView>, Failure>,
    visit: VisitView,
    height: nat,
) -> Seq<LineView>
    decreases height, 1nat, 0nat,
{
    if stays_closed(opt, disk, visit) {
        seq![LineView::Notice { count: keep(opt, disk(visit.path)->Ok_0).len() }]
    } else {
        seq![LineView::Break] + rows_lines(opt, disk, first_frame(opt, disk, visit), height)
    }
}

/// The lines of the children of `frame` from its cursor on. Each child has
/// its label. A directory's label is followed by a reset and then by the
/// lines of that directory, or by the end of the line if it lies too deep.
pub open spec fn rows_lines(
    opt: OptView,
    disk: spec_fn(Seq<char>) -> Result<Seq<EntryView>, Failure>,
    frame: FrameView,
    height: nat,
) -> Seq<LineView>
    decreases height, 0nat, frame.rows.len() - frame.cursor,
{
    if frame.cursor >= frame.rows.len() {
        Seq::empty()
    } else {
        let label = label_of(opt, frame.prefix, frame.rows, frame.cursor as int);
        let rest = rows_lines(opt, disk, next_frame(frame), height);
        if !frame.rows[frame.cursor as int].is_dir {
            seq![label] + rest
        } else if frame.levels == Some(0nat) {
            seq![label, LineView::Reset, LineView::Break] + rest
        } else if height == 0 {
            seq![label, LineView::Reset] + rest
        } else {
            seq![label, LineView::Reset] + subtree_lines(
                opt,
                disk,
                child_of(frame),
                (height - 1) as nat,
            ) + rest
        }
    }
}

/// The number of steps that the directory `visit` takes from the moment it
/// is to be listed.
pub open spec fn subtree_steps(
    opt: OptView,
    disk: spec_fn(Seq<char>) -> Result<Seq<EntryView>, Failure>,
    visit: VisitView,
    height: nat,
) -> nat
    decreases height, 1nat, 0nat,
{
    if stays_closed(opt, disk, visit) {
        1
    } else {
        1 + rows_steps(opt, disk, first_frame(opt, disk, visit), height)
    }
}

/// The number of steps that the children of `frame` take from its cursor on.
pub open spec fn rows_steps(
    opt: OptView,
    disk: spec_fn(Seq<char>) -> Result<Seq<EntryView>, Failure>,
    frame: FrameView,
    height: nat,
) -> nat
    decreases height, 0nat, frame.rows.len() - frame.cursor,
{
    if frame.cursor >= frame.rows.len() {
        0
    } else {
        let rest = rows_steps(opt, disk, next_frame(frame), height);
        if !opens(frame) || height == 0 {
            1 + rest
        } else {
            1 + subtree_steps(opt, disk, child_of(frame), (height - 1) as nat) + rest
        }
    }
}

/// The lines of a whole walk that starts at `root`, which lies at `depth`:
/// a reset, and then either the end of the line, if `root` lies too deep, or
/// the lines of `root`.
pub open spec fn walk_lines(
    opt: OptView,
    disk: spec_fn(Seq<char>) -> Result<Seq<EntryView>, Failure>,
    root: Seq<char>,
    prefix: Seq<char>,
    depth: nat,
    height: nat,
) -> Seq<LineView> {
    if gated(opt.max_depth, depth) {
        seq![LineView::Reset, LineView::Break]
    } else {
        seq![LineView::Reset] + subtree_lines(
            opt,
            disk,
            VisitView { path: root, prefix, levels: levels_below(opt.max_depth, depth) },
            height,
        )
    }
}

/// Driving a walk for `a` steps and then for `b` more is driving it for
/// `a + b` steps.
pub proof fn lemma_drive_split(
    opt: OptView,
    disk: spec_fn(Seq<char>) -> Result<Seq<EntryView>, Failure>,
    w: WalkerView,
    next: NextView,
    a: nat,
    b: nat,
)
    ensures
        ({
            let first = drive(opt, disk, w, next, a);
            let second = drive(opt, disk, first.walker, first.next, b);
            drive(opt, disk, w, next, a + b) == (DriveView {
                walker: second.walker,
                next: second.next,
                lines: first.lines + second.lines,
                error: if first.error is Some {
                    first.error
                } else {
                    second.error
                },
            })
        }),
    decreases a,
{
    let first = drive(opt, disk, w, next, a);
    let second = drive(opt, disk, first.walker, first.next, b);
    if a == 0 || next is Done {
        assert(first.lines + second.lines =~= second.lines);
        if a > 0 {
            assert(second.lines =~= Seq::empty());
        }
    } else {
        let (after, outcome) = step(w, opt, reply(disk, next));
        match outcome {
            Ok(action) => {
                lemma_drive_split(opt, disk, after, action.next, (a - 1) as nat, b);
                let rest = drive(opt, disk, after, action.next, (a - 1) as nat);
                assert((action.lines + rest.lines) + second.lines =~= action.lines + (rest.lines
                    + second.lines));
            },
            Err(error) => {
                assert(first.lines + second.lines =~= Seq::empty());
            },
        }
    }
}

/// A reader of `disk` carries the walk through the directory `visit`, whose
/// listing is awaited: after `subtree_steps` steps the lines of that
/// directory are out, the directories that were waiting on the stack are as
/// they were, and nothing has gone wrong.
pub proof fn lemma_drive_subtree(
    opt: OptView,
    disk: spec_fn(Seq<char>) -> Result<Seq<EntryView>, Failure>,
    w: WalkerView,
    visit: VisitView,
    height: nat,
)
    requires
        well_formed(w),
        w.awaiting == Some(visit),
        settles(opt, disk, visit, height),
    ensures
        drive(opt, disk, w, NextView::Read(visit.path), subtree_steps(opt, disk, visit, height))
            == (DriveView {
            walker: WalkerView { stack: w.stack, awaiting: None },
            next: next_of(w.stack),
            lines: subtree_lines(opt, disk, visit, height),
            error: None,
        }),
    decreases height, 1nat, 0nat,
{
    let (after, outcome) = step(w, opt, reply(disk, NextView::Read(visit.path)));
    let action = outcome->Ok_0;
    if stays_closed(opt, disk, visit) {
        let rest = drive(opt, disk, after, action.next, 0);
        assert(action.lines + rest.lines =~= action.lines);
    } else {
        let frame = first_frame(opt, disk, visit);
        let steps = rows_steps(opt, disk, frame, height);
        if frame.rows.len() == 0 {
            let rest = drive(opt, disk, after, action.next, steps);
            assert(steps == 0);
            assert(action.lines + rest.lines =~= seq![LineView::Break] + rows_lines(
                opt,
                disk,
                frame,
                height,
            ));
        } else {
            lemma_drive_rows(opt, disk, w.stack, frame, height);
        }
    }
}

/// The same for the children of the innermost directory `frame`, which
/// stands on top of `stack`: after `rows_steps` steps their lines are out and
/// `stack` is what is left.
pub proof fn lemma_drive_rows(
    opt: OptView,
    disk: spec_fn(Seq<char>) -> Result<Seq<EntryView>, Failure>,
    stack: Seq<FrameView>,
    frame: FrameView,
    height: nat,
)
    requires
        well_formed(WalkerView { stack, awaiting: None }),
        frame.cursor < frame.rows.len(),
        rows_settle(opt, disk, frame, height),
    ensures
        drive(
            opt,
            disk,
            WalkerView { stack: stack.push(frame), awaiting: None },
            NextView::Continue,
            rows_steps(opt, disk, frame, height),
        ) == (DriveView {
            walker: WalkerView { stack, awaiting: None },
            next: next_of(stack),
            lines: rows_lines(opt, disk, frame, height),
            error: None,
        }),
    decreases height, 0nat, frame.rows.len() - frame.cursor,
{
    let w = WalkerView { stack: stack.push(frame), awaiting: None };
    let idle = WalkerView { stack, awaiting: None };
    let (after, outcome) = step(w, opt, EventView::Resume);
    let action = outcome->Ok_0;
    let last = frame.cursor + 1 == frame.rows.len();
    let onward = next_frame(frame);
    let left = if last {
        stack
    } else {
        stack.push(onward)
    };
    assert(w.stack.last() == frame);
    assert(w.stack.drop_last() =~= stack);
    assert(after.stack == left);
    let tail_steps = rows_steps(opt, disk, onward, height);
    let tail_lines = rows_lines(opt, disk, onward, height);
    // What is left of this directory once the child at the cursor is done.
    let tail = drive(opt, disk, WalkerView { stack: left, awaiting: None }, next_of(left), tail_steps);
    assert(tail == (DriveView { walker: idle, next: next_of(stack), lines: tail_lines, error: None })) by {
        if !last {
            lemma_drive_rows(opt, disk, stack, onward, height);
        }
    }
    if !opens(frame) {
        assert(action.lines + tail_lines =~= rows_lines(opt, disk, frame, height));
    } else {
        let child = child_of(frame);
        let below = (height - 1) as nat;
        let child_steps = subtree_steps(opt, disk, child, below);
        assert(well_formed(after)) by {
            assert forall|i: int| 0 <= i < after.stack.len() implies (#[trigger] after.stack[i]).cursor
                < after.stack[i].rows.len() by {
                if i < stack.len() {
                    assert(after.stack[i] == stack[i]);
                }
            }
        }
        lemma_drive_subtree(opt, disk, after, child, below);
        lemma_drive_split(opt, disk, after, action.next, child_steps, tail_steps);
        assert(action.lines + (subtree_lines(opt, disk, child, below) + tail_lines) =~= rows_lines(
            opt,
            disk,
            frame,
            height,
        ));
    }
}

/// A whole walk: a reader of `disk` that starts at `root` and carries on
/// until the walk is over has written exactly the lines of the tree below
/// `root`, and nothing has gone wrong.
pub proof fn lemma_drive_walk(
    opt: OptView,
    disk: spec_fn(Seq<char>) -> Result<Seq<EntryView>, Failure>,
    root: Seq<char>,
    prefix: Seq<char>,
    depth: nat,
    height: nat,
)
    requires
        !gated(opt.max_depth, depth) ==> settles(
            opt,
            disk,
            VisitView { path: root, prefix, levels: levels_below(opt.max_depth, depth) },
            height,
        ),
    ensures
        ({
            let (w, action) = begin(opt, root, prefix, depth);
            let steps = subtree_steps(
                opt,
                disk,
                VisitView { path: root, prefix, levels: levels_below(opt.max_depth, depth) },
                height,
            );
            let end = drive(opt, disk, w, action.next, steps);
            &&& action.lines + end.lines == walk_lines(opt, disk, root, prefix, depth, height)
            &&& end.next is Done
            &&& end.error is None
            &&& end.walker == (WalkerView { stack: Seq::empty(), awaiting: None })
        }),
{
    let (w, action) = begin(opt, root, prefix, depth);
    let visit = VisitView { path: root, prefix, levels: levels_below(opt.max_depth, depth) };
    let steps = subtree_steps(opt, disk, visit, height);
    let end = drive(opt, disk, w, action.next, steps);
    if gated(opt.max_depth, depth) {
        assert(action.lines + end.lines =~= action.lines);
    } else {
        lemma_drive_subtree(opt, disk, w, visit, height);
    }
}

/// With a depth limit a walk ends by itself: where every directory can be
/// read, a directory that may open `levels` more levels settles within them.
pub proof fn lemma_depth_limit_settles(
    opt: OptView,
    disk: spec_fn(Seq<char>) -> Result<Seq<EntryView>, Failure>,
    visit: VisitView,
    levels: nat,
)
    requires
        visit.levels == Some(levels),
        forall|path: Seq<char>| (#[trigger] disk(path)) is Ok,
    ensures
        settles(opt, disk, visit, levels),
    decreases levels, 1nat, 0nat,
{
    if !stays_closed(opt, disk, visit) {
        lemma_depth_limit_rows_settle(opt, disk, first_frame(opt, disk, visit), levels);
    }
}

/// The same of the children of `frame` from its cursor on.
pub proof fn lemma_depth_limit_rows_settle(
    opt: OptView,
    disk: spec_fn(Seq<char>) -> Result<Seq<EntryView>, Failure>,
    frame: FrameView,
    levels: nat,
)
    requires
        frame.levels == Some(levels),
        forall|path: Seq<char>| (#[trigger] disk(path)) is Ok,
    ensures
        rows_settle(opt, disk, frame, levels),
    decreases levels, 0nat, frame.rows.len() - frame.cursor,
{
    if frame.cursor < frame.rows.len() {
        lemma_depth_limit_rows_settle(opt, disk, next_frame(frame), levels);
        if opens(frame) {
            lemma_depth_limit_settles(opt, disk, child_of(frame), (levels - 1) as nat);
        }
    }
}

} // verus!
