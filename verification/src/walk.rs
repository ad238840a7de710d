//! The walk: a state machine that is told what each directory holds and says
//! what to write and which directory to list next.

use crate::args::{bound_value, Opt};
use crate::counts::Counts;
use crate::entry::{filter_entries, Entry};
use crate::model;
use crate::model::{
    lemma_shown_push, lemma_step_shows_one, lines_of, shown, shows_child, weight, well_formed,
    ActionView, EventView, Failure, FrameView, NextView, VisitView, WalkErrorView, WalkerView,
};
use crate::name::is_hidden;
use crate::order::sort_entries;
use crate::render::{join, Connector, Line, LineView};
use vstd::prelude::*;

verus! {

/// A directory that is waiting to be listed.
#[derive(Debug)]
struct Visit {
    path: String,
    prefix: String,
    levels: Option<usize>,
}

impl View for Visit {
    type V = VisitView;

    closed spec fn view(&self) -> VisitView {
        VisitView { path: self.path@, prefix: self.prefix@, levels: bound_value(self.levels) }
    }
}

/// A directory whose children are being shown.
#[derive(Debug)]
struct Frame {
    path: String,
    prefix: String,
    levels: Option<usize>,
    rows: Vec<Entry>,
    cursor: usize,
}

impl View for Frame {
    type V = FrameView;

    closed spec fn view(&self) -> FrameView {
        FrameView {
            path: self.path@,
            prefix: self.prefix@,
            levels: bound_value(self.levels),
            rows: self.rows.deep_view(),
            cursor: self.cursor as nat,
        }
    }
}

impl DeepView for Frame {
    type V = FrameView;

    closed spec fn deep_view(&self) -> FrameView {
        self@
    }
}

/// What the reader reports to the walk.
#[derive(Debug)]
pub enum Event {
    /// What was put out has been written.
    Resume,
    /// The children of the directory that was asked for.
    Listed(Vec<Entry>),
    /// The directory that was asked for could not be listed.
    Failed(Failure),
}

impl View for Event {
    type V = EventView;

    open spec fn view(&self) -> EventView {
        match self {
            Event::Resume => EventView::Resume,
            Event::Listed(listing) => EventView::Listed(listing.deep_view()),
            Event::Failed(failure) => EventView::Failed(*failure),
        }
    }
}

/// What the reader is to do once the lines are written.
#[derive(Debug, PartialEq, Eq)]
pub enum Next {
    /// List the directory at this path and report its children.
    Read(String),
    /// Report back at once.
    Continue,
    /// Nothing: the walk is over.
    Done,
}

impl View for Next {
    type V = NextView;

    open spec fn view(&self) -> NextView {
        match self {
            Next::Read(path) => NextView::Read(path@),
            Next::Continue => NextView::Continue,
            Next::Done => NextView::Done,
        }
    }
}

/// What one step puts out, and what comes next.
#[derive(Debug)]
pub struct Action {
    pub lines: Vec<Line>,
    pub next: Next,
}

impl View for Action {
    type V = ActionView;

    open spec fn view(&self) -> ActionView {
        ActionView { lines: self.lines.deep_view(), next: self.next@ }
    }
}

/// Why a walk was given up. Each names the directory that was being listed.
#[derive(Debug, PartialEq, Eq)]
pub enum WalkError {
    /// The directory could not be read.
    Unreadable { path: String },
    /// A child of the directory has a name that is not valid text.
    MalformedName { path: String },
}

impl View for WalkError {
    type V = WalkErrorView;

    open spec fn view(&self) -> WalkErrorView {
        match self {
            WalkError::Unreadable { path } => WalkErrorView::Unreadable { path: path@ },
            WalkError::MalformedName { path } => WalkErrorView::MalformedName { path: path@ },
        }
    }
}

/// The result of a step as plain values.
pub open spec fn outcome_view(r: Result<Action, WalkError>) -> Result<ActionView, WalkErrorView> {
    match r {
        Ok(action) => Ok(action@),
        Err(error) => Err(error@),
    }
}

/// The view of an awaited directory, if there is one.
spec fn awaited(visit: Option<Visit>) -> Option<VisitView> {
    match visit {
        Some(v) => Some(v@),
        None => None,
    }
}

/// The depth at which a walk starts when it is given the directory that the
/// user named: with a depth limit of zero not even that directory is listed.
pub const ROOT_DEPTH: usize = 1;

/// The state of a walk.
#[derive(Debug)]
pub struct Walker {
    stack: Vec<Frame>,
    awaiting: Option<Visit>,
}

impl View for Walker {
    type V = WalkerView;

    closed spec fn view(&self) -> WalkerView {
        WalkerView { stack: self.stack.deep_view(), awaiting: awaited(self.awaiting) }
    }
}

/// Appends `line` to `lines`.
fn put(lines: &mut Vec<Line>, line: Line)
    ensures
        final(lines).deep_view() == old(lines).deep_view().push(line@),
        shown(final(lines).deep_view(), true) == shown(old(lines).deep_view(), true) + weight(
            line@,
            true,
        ),
        shown(final(lines).deep_view(), false) == shown(old(lines).deep_view(), false) + weight(
            line@,
            false,
        ),
{
    proof {
        lemma_shown_push(lines.deep_view(), line@, true);
        lemma_shown_push(lines.deep_view(), line@, false);
    }
    let ghost before = lines.deep_view();
    lines.push(line);
    assert(lines.deep_view() =~= before.push(line@));
}

/// Starts a walk at the directory `root`, which lies at `current_depth`.
/// `prefix` stands in front of the connector of each child of `root`.
///
/// The lines of the result are to be written; then its `next` says whether
/// `root` is to be listed and reported to [`Walker::step`], or whether the
/// walk is already over because `root` lies deeper than the options allow.
pub fn walk_tree(args: &Opt, root: &str, prefix: &str, current_depth: usize) -> (r: (Walker, Action))
    ensures
        (r.0@, r.1@) == model::begin(args@, root@, prefix@, current_depth as nat),
        well_formed(r.0@),
{
    let mut lines: Vec<Line> = Vec::new();
    put(&mut lines, Line::Reset);
    let too_deep = match args.max_depth {
        Some(most) => current_depth > most,
        None => false,
    };
    if too_deep {
        put(&mut lines, Line::Break);
        let walker = Walker { stack: Vec::new(), awaiting: None };
        let action = Action { lines, next: Next::Done };
        assert(walker@.stack =~= Seq::empty());
        assert(action@.lines =~= seq![LineView::Reset, LineView::Break]);
        (walker, action)
    } else {
        let levels = match args.max_depth {
            Some(most) => Some(most - current_depth),
            None => None,
        };
        let visit = Visit {
            path: String::from_str(root),
            prefix: String::from_str(prefix),
            levels,
        };
        let walker = Walker { stack: Vec::new(), awaiting: Some(visit) };
        let action = Action { lines, next: Next::Read(String::from_str(root)) };
        assert(walker@.stack =~= Seq::empty());
        assert(action@.lines =~= seq![LineView::Reset]);
        (walker, action)
    }
}

impl Walker {
    #[verifier::type_invariant]
    spec fn inv(self) -> bool {
        well_formed(self@)
    }

    /// Takes one report from the reader and says what to write and what to
    /// do next. The walker that comes back carries the walk on.
    ///
    /// The totals grow by one for each child that the lines show: `dirs` for
    /// a directory, `files` for a file. A step that shows a child needs room
    /// in the totals for it.
    pub fn step(self, args: &Opt, event: Event, counts: &mut Counts) -> (r: (
        Walker,
        Result<Action, WalkError>,
    ))
        requires
            shows_child(self@, event@) ==> old(counts).has_room(),
        ensures
            (r.0@, outcome_view(r.1)) == model::step(self@, args@, event@),
            final(counts).dirs == old(counts).dirs + shown(lines_of(outcome_view(r.1)), true),
            final(counts).files == old(counts).files + shown(lines_of(outcome_view(r.1)), false),
            final(counts).dirs + final(counts).files == old(counts).dirs + old(counts).files + (
            if shows_child(self@, event@) {
                1int
            } else {
                0int
            }),
            well_formed(r.0@),
    {
        proof {
            use_type_invariant(&self);
            lemma_step_shows_one(self@, args@, event@);
        }
        let Walker { stack, awaiting } = self;
        match awaiting {
            Some(visit) => match event {
                Event::Listed(listing) => {
                    let (stack, action) = open_directory(stack, args, visit, listing);
                    (Walker { stack, awaiting: None }, Ok(action))
                },
                Event::Failed(failure) => {
                    let walker = Walker { stack: Vec::new(), awaiting: None };
                    assert(walker@.stack =~= Seq::empty());
                    let error = match failure {
                        Failure::Unreadable => WalkError::Unreadable { path: visit.path },
                        Failure::MalformedName => WalkError::MalformedName { path: visit.path },
                    };
                    (walker, Err(error))
                },
                Event::Resume => {
                    let action = Action { lines: Vec::new(), next: Next::Read(visit.path.clone()) };
                    assert(action@.lines =~= Seq::empty());
                    (Walker { stack, awaiting: Some(visit) }, Ok(action))
                },
            },
            None => {
                let resume = match event {
                    Event::Resume => true,
                    _ => false,
                };
                if resume && stack.len() > 0 {
                    let (stack, awaiting, action) = show_next(stack, args, counts);
                    (Walker { stack, awaiting }, Ok(action))
                } else {
                    let action = Action { lines: Vec::new(), next: next_idle(&stack) };
                    assert(action@.lines =~= Seq::empty());
                    (Walker { stack, awaiting: None }, Ok(action))
                }
            },
        }
    }
}

/// The state that holds `stack` and awaits `awaiting`.
spec fn state(stack: Vec<Frame>, awaiting: Option<Visit>) -> WalkerView {
    WalkerView { stack: stack.deep_view(), awaiting: awaited(awaiting) }
}

/// What comes next when no listing is awaited.
fn next_idle(stack: &Vec<Frame>) -> (next: Next)
    ensures
        next@ == model::next_of(stack.deep_view()),
{
    if stack.len() == 0 {
        Next::Done
    } else {
        Next::Continue
    }
}

/// Takes the listing of the directory `visit`, which was awaited.
fn open_directory(stack: Vec<Frame>, args: &Opt, visit: Visit, listing: Vec<Entry>) -> (r: (
    Vec<Frame>,
    Action,
))
    requires
        well_formed(state(stack, None)),
    ensures
        (state(r.0, None), r.1@) == model::open_directory(
            state(stack, None),
            args@,
            visit@,
            listing.deep_view(),
        ),
        well_formed(state(r.0, None)),
        shown(r.1@.lines, true) == 0,
        shown(r.1@.lines, false) == 0,
{
    let mut stack = stack;
    let kept = filter_entries(args, listing);
    let too_many = match args.file_limit {
        Some(most) => kept.len() > most,
        None => false,
    };
    let mut lines: Vec<Line> = Vec::new();
    assert(lines.deep_view() =~= Seq::empty());
    if too_many {
        put(&mut lines, Line::Notice { count: kept.len() });
        assert(lines.deep_view() =~= seq![LineView::Notice { count: kept.len() as nat }]);
    } else {
        put(&mut lines, Line::Break);
        assert(lines.deep_view() =~= seq![LineView::Break]);
        let rows = sort_entries(kept);
        if rows.len() > 0 {
            let ghost before = stack.deep_view();
            let frame = Frame {
                path: visit.path,
                prefix: visit.prefix,
                levels: visit.levels,
                rows,
                cursor: 0,
            };
            stack.push(frame);
            assert(stack.deep_view() =~= before.push(frame@));
        }
    }
    let next = next_idle(&stack);
    (stack, Action { lines, next })
}

/// Shows the next child of the innermost directory.
fn show_next(stack: Vec<Frame>, args: &Opt, counts: &mut Counts) -> (r: (
    Vec<Frame>,
    Option<Visit>,
    Action,
))
    requires
        well_formed(state(stack, None)),
        stack.len() > 0,
        old(counts).has_room(),
    ensures
        (state(r.0, r.1), r.2@) == model::show_next(state(stack, None), args@),
        well_formed(state(r.0, r.1)),
        final(counts).dirs == old(counts).dirs + shown(r.2@.lines, true),
        final(counts).files == old(counts).files + shown(r.2@.lines, false),
{
    let mut stack = stack;
    let ghost before = stack.deep_view();
    assert(before[before.len() - 1].cursor < before[before.len() - 1].rows.len());
    let frame = stack.pop().unwrap();
    assert(frame@ == before.last());
    assert(stack.deep_view() =~= before.drop_last());
    assert(frame@.cursor < frame@.rows.len());
    let Frame { path, prefix, levels, rows, cursor } = frame;
    assert(rows.deep_view().len() == rows@.len());
    let count = rows.len();
    assert(cursor < count);
    let last = cursor + 1 == count;
    let connector = if last {
        Connector::Terminal
    } else {
        Connector::Branch
    };
    let entry = &rows[cursor];
    assert(entry@ == frame@.rows[cursor as int]);
    let is_dir = entry.is_dir;
    let text = if args.full_paths {
        entry.path.clone()
    } else {
        entry.name.clone()
    };
    let label = Line::Label {
        prefix: prefix.clone(),
        connector,
        text,
        is_dir,
        hidden: is_hidden(entry.name.as_str()),
    };
    let mut lines: Vec<Line> = Vec::new();
    assert(lines.deep_view() =~= Seq::empty());
    put(&mut lines, label);
    assert(label@ == model::label_of(args@, frame@.prefix, frame@.rows, cursor as int));
    let mut child: Option<Visit> = None;
    if is_dir {
        counts.dirs = counts.dirs + 1;
        put(&mut lines, Line::Reset);
        let closed = match levels {
            Some(left) => left == 0,
            None => false,
        };
        if closed {
            put(&mut lines, Line::Break);
            assert(lines.deep_view() =~= seq![label@, LineView::Reset, LineView::Break]);
        } else {
            assert(lines.deep_view() =~= seq![label@, LineView::Reset]);
            let mut child_path = join(path.as_str(), "/");
            child_path.append(entry.name.as_str());
            child = Some(
                Visit {
                    path: child_path,
                    prefix: join(prefix.as_str(), connector.trail_str()),
                    levels: match levels {
                        Some(left) => Some((left - 1) as usize),
                        None => None,
                    },
                },
            );
        }
    } else {
        counts.files = counts.files + 1;
        assert(lines.deep_view() =~= seq![label@]);
    }
    if !last {
        let ghost popped = stack.deep_view();
        let back = Frame { path, prefix, levels, rows, cursor: cursor + 1 };
        stack.push(back);
        assert(stack.deep_view() =~= popped.push(back@));
    }
    let next = match &child {
        Some(visit) => Next::Read(visit.path.clone()),
        None => next_idle(&stack),
    };
    (stack, child, Action { lines, next })
}

} // verus!
