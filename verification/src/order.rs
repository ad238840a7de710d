//! The order in which the children of a directory are shown.

use crate::entry::{Entry, EntryView};
use crate::name::{
    lemma_bytes_le_total, lemma_bytes_le_transitive, name_before, name_le, name_lt,
};
use vstd::prelude::*;
use vstd::utf8::encode_utf8;

verus! {

/// Every entry's name is at or before the names of the entries behind it.
pub open spec fn ascending(s: Seq<EntryView>) -> bool {
    forall|i: int, j: int| 0 <= i < j < s.len() ==> name_le(#[trigger] s[i].name, #[trigger] s[j].name)
}

/// Where an entry called `name` goes into `sorted`: directly behind the last
/// entry that its name does not come strictly before.
pub open spec fn slot(sorted: Seq<EntryView>, name: Seq<char>) -> int
    decreases sorted.len(),
{
    if sorted.len() > 0 && name_lt(name, sorted.last().name) {
        slot(sorted.drop_last(), name)
    } else {
        sorted.len() as int
    }
}

/// The entries of `s` in ascending order of name. Entries of the same name
/// keep the order they had in `s`.
pub open spec fn order_by_name(s: Seq<EntryView>) -> Seq<EntryView>
    decreases s.len(),
{
    if s.len() == 0 {
        s
    } else {
        let sorted = order_by_name(s.drop_last());
        sorted.insert(slot(sorted, s.last().name), s.last())
    }
}

/// The slot lies within the sequence, everything from it on has a strictly
/// later name, and what stands directly before it has not.
pub proof fn lemma_slot(sorted: Seq<EntryView>, name: Seq<char>)
    ensures
        0 <= slot(sorted, name) <= sorted.len(),
        forall|k: int| slot(sorted, name) <= k < sorted.len() ==> name_lt(name, #[trigger] sorted[k].name),
        slot(sorted, name) > 0 ==> name_le(sorted[slot(sorted, name) - 1].name, name),
    decreases sorted.len(),
{
    if sorted.len() > 0 && name_lt(name, sorted.last().name) {
        let rest = sorted.drop_last();
        lemma_slot(rest, name);
        assert forall|k: int| slot(sorted, name) <= k < sorted.len() implies name_lt(
            name,
            #[trigger] sorted[k].name,
        ) by {
            if k < rest.len() {
                assert(sorted[k] == rest[k]);
            }
        }
    } else if sorted.len() > 0 {
        lemma_bytes_le_total(encode_utf8(name), encode_utf8(sorted.last().name));
    }
}

/// Putting an entry into its slot keeps an ascending sequence ascending.
pub proof fn lemma_insert_ascending(sorted: Seq<EntryView>, e: EntryView)
    requires
        ascending(sorted),
    ensures
        ascending(sorted.insert(slot(sorted, e.name), e)),
{
    let p = slot(sorted, e.name);
    let r = sorted.insert(p, e);
    lemma_slot(sorted, e.name);
    assert forall|i: int, j: int| 0 <= i < j < r.len() implies name_le(
        #[trigger] r[i].name,
        #[trigger] r[j].name,
    ) by {
        if j < p {
            assert(r[i] == sorted[i] && r[j] == sorted[j]);
        } else if j == p {
            assert(r[i] == sorted[i]);
            if i < p - 1 {
                assert(name_le(sorted[i].name, sorted[p - 1].name));
                lemma_bytes_le_transitive(
                    encode_utf8(sorted[i].name),
                    encode_utf8(sorted[p - 1].name),
                    encode_utf8(e.name),
                );
            }
        } else if i == p {
            assert(r[j] == sorted[j - 1]);
            assert(name_lt(e.name, sorted[j - 1].name));
            lemma_bytes_le_total(encode_utf8(e.name), encode_utf8(sorted[j - 1].name));
        } else if i < p {
            assert(r[i] == sorted[i] && r[j] == sorted[j - 1]);
        } else {
            assert(r[i] == sorted[i - 1] && r[j] == sorted[j - 1]);
        }
    }
}

/// Ordering by name yields an ascending sequence.
pub proof fn lemma_order_ascending(s: Seq<EntryView>)
    ensures
        ascending(order_by_name(s)),
    decreases s.len(),
{
    if s.len() > 0 {
        lemma_order_ascending(s.drop_last());
        lemma_insert_ascending(order_by_name(s.drop_last()), s.last());
    }
}

/// Ordering by name neither adds nor loses an entry: the result holds the
/// same entries, each as often as before.
pub proof fn lemma_order_permutes(s: Seq<EntryView>)
    ensures
        order_by_name(s).to_multiset() == s.to_multiset(),
        order_by_name(s).len() == s.len(),
    decreases s.len(),
{
    if s.len() > 0 {
        let rest = s.drop_last();
        let sorted = order_by_name(rest);
        lemma_order_permutes(rest);
        lemma_slot(sorted, s.last().name);
        vstd::seq_lib::to_multiset_insert(sorted, slot(sorted, s.last().name), s.last());
        vstd::seq_lib::to_multiset_build(rest, s.last());
        assert(rest.push(s.last()) =~= s);
    } else {
        assert(order_by_name(s) =~= s);
    }
}

/// Sorts `entries` by name, ascending, keeping entries of one name in order.
pub fn sort_entries(entries: Vec<Entry>) -> (sorted: Vec<Entry>)
    ensures
        sorted.deep_view() == order_by_name(entries.deep_view()),
{
    let ghost all = entries.deep_view();
    let mut sorted: Vec<Entry> = Vec::new();
    for entry in it: entries
        invariant
            it.seq() == entries@,
            all == entries.deep_view(),
            sorted.deep_view() == order_by_name(all.take(it.index() as int)),
    {
        let ghost before = sorted.deep_view();
        proof {
            let i = it.index() as int;
            assert(all.take(i + 1).drop_last() =~= all.take(i));
            assert(all.take(i + 1).last() == entry@);
        }
        let mut at: usize = sorted.len();
        assert(before.take(at as int) =~= before);
        while at > 0 && name_before(entry.name.as_str(), sorted[at - 1].name.as_str())
            invariant
                at <= sorted.len(),
                before == sorted.deep_view(),
                slot(before, entry@.name) == slot(before.take(at as int), entry@.name),
            decreases at,
        {
            proof {
                assert(before.take(at as int).drop_last() =~= before.take(at as int - 1));
            }
            at -= 1;
        }
        sorted.insert(at, entry);
        assert(sorted.deep_view() =~= before.insert(at as int, entry@));
    }
    assert(all.take(all.len() as int) =~= all);
    sorted
}

} // verus!
