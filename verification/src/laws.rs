//! What holds of every listing and of every walk.

use crate::args::OptView;
use crate::entry::{keep, survives, EntryView};
use crate::model::{
    arrange, begin, failure_of, gated, label_of, levels_below, lines_of, one_less, shown, step,
    well_formed, ActionView, EventView, Failure, NextView, WalkErrorView, WalkerView,
};
use crate::name::{
    hidden_name, lemma_bytes_le_antisymmetric, lemma_bytes_le_reflexive, lemma_bytes_le_total,
    lemma_bytes_le_transitive, name_le,
};
use crate::order::{ascending, lemma_order_ascending, lemma_order_permutes, order_by_name};
use crate::pattern::regex_finds;
use crate::render::{Connector, LineView};
use vstd::prelude::*;
use vstd::utf8::encode_utf8;

verus! {

/// The order of names is a total order: every name is at or before itself,
/// of two names one is at or before the other, the order carries over a name
/// in between, and two names that are each at or before the other are one
/// name.
pub proof fn lemma_name_order(a: Seq<char>, b: Seq<char>, c: Seq<char>)
    ensures
        name_le(a, a),
        name_le(a, b) || name_le(b, a),
        name_le(a, b) && name_le(b, c) ==> name_le(a, c),
        name_le(a, b) && name_le(b, a) ==> a == b,
{
    lemma_bytes_le_reflexive(encode_utf8(a));
    lemma_bytes_le_total(encode_utf8(a), encode_utf8(b));
    if name_le(a, b) && name_le(b, c) {
        lemma_bytes_le_transitive(encode_utf8(a), encode_utf8(b), encode_utf8(c));
    }
    if name_le(a, b) && name_le(b, a) {
        lemma_bytes_le_antisymmetric(encode_utf8(a), encode_utf8(b));
        vstd::utf8::encode_utf8_decode_utf8(a);
        vstd::utf8::encode_utf8_decode_utf8(b);
    }
}

/// A directory shows exactly the children that the options keep, in ascending
/// order of name. Its last child, and no other, gets the terminal connector,
/// and no kept child has a later name than that one.
pub proof fn lemma_one_terminal(opt: OptView, prefix: Seq<char>, listing: Seq<EntryView>)
    ensures
        arrange(opt, listing).len() == keep(opt, listing).len(),
        arrange(opt, listing).to_multiset() == keep(opt, listing).to_multiset(),
        ascending(arrange(opt, listing)),
        forall|i: int|
            0 <= i < arrange(opt, listing).len() ==> (#[trigger] label_of(
                opt,
                prefix,
                arrange(opt, listing),
                i,
            ) matches LineView::Label { connector, .. } && (connector == Connector::Terminal <==> i
                == arrange(opt, listing).len() - 1)),
        forall|i: int|
            0 <= i < keep(opt, listing).len() ==> name_le(
                (#[trigger] keep(opt, listing)[i]).name,
                arrange(opt, listing).last().name,
            ),
{
    let kept = keep(opt, listing);
    let rows = arrange(opt, listing);
    lemma_order_permutes(kept);
    lemma_order_ascending(kept);
    assert forall|i: int| 0 <= i < kept.len() implies name_le(
        (#[trigger] kept[i]).name,
        rows.last().name,
    ) by {
        let e = kept[i];
        assert(kept.contains(e));
        vstd::seq_lib::to_multiset_contains(kept, e);
        vstd::seq_lib::to_multiset_contains(rows, e);
        let j = choose|j: int| 0 <= j < rows.len() && rows[j] == e;
        if j == rows.len() - 1 {
            lemma_bytes_le_reflexive(encode_utf8(e.name));
        } else {
            assert(name_le(rows[j].name, rows[rows.len() - 1].name));
        }
    }
}

/// A file whose name matches the pattern to ignore is left out, whatever the
/// pattern to match says of it.
pub proof fn lemma_ignore_wins(opt: OptView, listing: Seq<EntryView>, e: EntryView)
    requires
        !e.is_dir,
        opt.ignore_pattern matches Some(p) && regex_finds(p, e.name),
    ensures
        !survives(opt, e),
        !keep(opt, listing).contains(e),
{
    let pred = |x: EntryView| survives(opt, x);
    if keep(opt, listing).contains(e) {
        let i = choose|i: int| 0 <= i < keep(opt, listing).len() && keep(opt, listing)[i] == e;
        listing.lemma_filter_pred(pred, i);
    }
}

/// The patterns do not touch directories: a directory that the listing holds
/// is kept unless it is hidden and hidden entries are left out.
pub proof fn lemma_directories_exempt(opt: OptView, listing: Seq<EntryView>, e: EntryView)
    requires
        e.is_dir,
        opt.all_files || !hidden_name(e.name),
    ensures
        survives(opt, e),
        listing.contains(e) ==> keep(opt, listing).contains(e),
{
    let pred = |x: EntryView| survives(opt, x);
    if listing.contains(e) {
        let i = choose|i: int| 0 <= i < listing.len() && listing[i] == e;
        listing.lemma_filter_contains(pred, i);
    }
}

/// A walk that starts deeper than the options allow puts out a reset and a
/// line break and is over: nothing is asked to be listed.
pub proof fn lemma_too_deep(opt: OptView, root: Seq<char>, prefix: Seq<char>, depth: nat)
    requires
        gated(opt.max_depth, depth),
    ensures
        begin(opt, root, prefix, depth).1 == (ActionView {
            lines: seq![LineView::Reset, LineView::Break],
            next: NextView::Done,
        }),
        begin(opt, root, prefix, depth).0.awaiting is None,
        begin(opt, root, prefix, depth).0.stack.len() == 0,
{
}

/// Counting levels down is the same as counting depth up: below a directory
/// that is listed, a child is too deep exactly when no level is left, and
/// otherwise it is left one level fewer.
pub proof fn lemma_levels_follow_depth(max_depth: Option<nat>, depth: nat)
    requires
        !gated(max_depth, depth),
    ensures
        gated(max_depth, depth + 1) <==> levels_below(max_depth, depth) == Some(0nat),
        !gated(max_depth, depth + 1) ==> levels_below(max_depth, depth + 1) == one_less(
            levels_below(max_depth, depth),
        ),
{
}

/// A directory that cannot be listed ends the walk: the step gives the error
/// that names it and puts nothing out, and whatever is reported afterwards,
/// nothing more is put out and the walk is over.
pub proof fn lemma_failure_ends_walk(w: WalkerView, opt: OptView, failure: Failure, later: EventView)
    requires
        w.awaiting is Some,
    ensures
        step(w, opt, EventView::Failed(failure)).1 == Err::<ActionView, WalkErrorView>(
            failure_of(failure, w.awaiting->Some_0),
        ),
        step(step(w, opt, EventView::Failed(failure)).0, opt, later) == (
            step(w, opt, EventView::Failed(failure)).0,
            Ok::<ActionView, WalkErrorView>(
                ActionView { lines: Seq::empty(), next: NextView::Done },
            ),
        ),
{
}

/// A step leaves every directory on the stack with a child to show.
pub proof fn lemma_step_well_formed(w: WalkerView, opt: OptView, event: EventView)
    requires
        well_formed(w),
    ensures
        well_formed(step(w, opt, event).0),
{
    let after = step(w, opt, event).0;
    assert forall|i: int| 0 <= i < after.stack.len() implies (#[trigger] after.stack[i]).cursor
        < after.stack[i].rows.len() by {
        if i < w.stack.len() - 1 {
            assert(after.stack[i] == w.stack[i]);
        } else if i < w.stack.len() {
            assert(w.stack[i].cursor < w.stack[i].rows.len());
        }
    }
}

/// The number of children shown by two runs of lines is the sum of what each
/// shows.
pub proof fn lemma_shown_concat(a: Seq<LineView>, b: Seq<LineView>, dirs: bool)
    ensures
        shown(a + b, dirs) == shown(a, dirs) + shown(b, dirs),
    decreases b.len(),
{
    if b.len() == 0 {
        assert(a + b =~= a);
    } else {
        lemma_shown_concat(a, b.drop_last(), dirs);
        assert((a + b).drop_last() =~= a + b.drop_last());
    }
}

/// What a walk has put out and counted after a run of reports.
pub struct RunView {
    pub walker: WalkerView,
    pub lines: Seq<LineView>,
    pub dirs: int,
    pub files: int,
}

/// The walk that starts in state `w` with the totals `dirs` and `files` and
/// takes the reports `events` one after the other.
pub open spec fn run(w: WalkerView, opt: OptView, events: Seq<EventView>, dirs: int, files: int) -> RunView
    decreases events.len(),
{
    if events.len() == 0 {
        RunView { walker: w, lines: Seq::empty(), dirs, files }
    } else {
        let before = run(w, opt, events.drop_last(), dirs, files);
        let (walker, outcome) = step(before.walker, opt, events.last());
        RunView {
            walker,
            lines: before.lines + lines_of(outcome),
            dirs: before.dirs + shown(lines_of(outcome), true),
            files: before.files + shown(lines_of(outcome), false),
        }
    }
}

/// Over any walk the totals never shrink, and they grow by exactly the number
/// of children that the lines show: the directories by the directories shown,
/// the files by the files shown.
pub proof fn lemma_run_counts(w: WalkerView, opt: OptView, events: Seq<EventView>, dirs: int, files: int)
    requires
        well_formed(w),
    ensures
        well_formed(run(w, opt, events, dirs, files).walker),
        run(w, opt, events, dirs, files).dirs == dirs + shown(
            run(w, opt, events, dirs, files).lines,
            true,
        ),
        run(w, opt, events, dirs, files).files == files + shown(
            run(w, opt, events, dirs, files).lines,
            false,
        ),
        run(w, opt, events, dirs, files).dirs + run(w, opt, events, dirs, files).files == dirs
            + files + shown(run(w, opt, events, dirs, files).lines, true) + shown(
            run(w, opt, events, dirs, files).lines,
            false,
        ),
        run(w, opt, events, dirs, files).dirs >= dirs,
        run(w, opt, events, dirs, files).files >= files,
    decreases events.len(),
{
    if events.len() > 0 {
        let before = run(w, opt, events.drop_last(), dirs, files);
        lemma_run_counts(w, opt, events.drop_last(), dirs, files);
        lemma_step_well_formed(before.walker, opt, events.last());
        let outcome = step(before.walker, opt, events.last()).1;
        lemma_shown_concat(before.lines, lines_of(outcome), true);
        lemma_shown_concat(before.lines, lines_of(outcome), false);
    }
}

} // verus!
