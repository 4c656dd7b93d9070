//! What holds of every merge: it emits each entry once, in chronological
//! order when the files are, and breaks ties by file order.

use crate::merge::{
    each_sorted, has_head, head, instant_of, is_merge, is_merge_prefix, is_next,
    lemma_exhausted_count, lemma_prefix_closed, lemma_prefix_offsets, offsets_after,
    total_entries, Emission,
};
use crate::timestamp::Timestamp;
use vstd::prelude::*;

verus! {

/// Whether file `f` exists and has an entry number `i`.
pub open spec fn is_entry(stamps: Seq<Seq<Timestamp>>, f: int, i: int) -> bool {
    &&& 0 <= f < stamps.len()
    &&& 0 <= i < stamps[f].len()
}

/// Whether step `k` of `order` emits entry `i` of file `f`.
pub open spec fn emits(order: Seq<Emission>, k: int, f: int, i: int) -> bool {
    &&& 0 <= k < order.len()
    &&& order[k].file == f
    &&& order[k].entry == i
}

proof fn lemma_last_before_heads(stamps: Seq<Seq<Timestamp>>, order: Seq<Emission>, g: int)
    requires
        each_sorted(stamps),
        is_merge_prefix(stamps, order),
        order.len() > 0,
        has_head(stamps, offsets_after(stamps.len(), order), g),
    ensures
        instant_of(stamps, order.last()) <= head(stamps, offsets_after(stamps.len(), order), g),
        has_head(
            stamps,
            offsets_after(stamps.len(), order.drop_last()),
            order.last().file as int,
        ),
        instant_of(stamps, order.last()) == head(
            stamps,
            offsets_after(stamps.len(), order.drop_last()),
            order.last().file as int,
        ),
{
    let offsets = offsets_after(stamps.len(), order.drop_last());
    let f = order.last().file as int;
    lemma_prefix_offsets(stamps, order.drop_last());
    assert(has_head(stamps, offsets, f));
    if g != f {
        assert(has_head(stamps, offsets, g));
    } else {
        assert(stamps[f][offsets[f]].instant() <= stamps[f][offsets[f] + 1].instant());
    }
}

/// Once the files are sorted, nothing that a beginning of the merge has
/// emitted is later than an entry that is still to come.
pub proof fn lemma_emitted_before_heads(
    stamps: Seq<Seq<Timestamp>>,
    order: Seq<Emission>,
    k: int,
    g: int,
)
    requires
        each_sorted(stamps),
        is_merge_prefix(stamps, order),
        0 <= k < order.len(),
        has_head(stamps, offsets_after(stamps.len(), order), g),
    ensures
        instant_of(stamps, order[k]) <= head(stamps, offsets_after(stamps.len(), order), g),
    decreases order.len(),
{
    lemma_last_before_heads(stamps, order, g);
    if k < order.len() - 1 {
        lemma_emitted_before_heads(stamps, order.drop_last(), k, order.last().file as int);
    }
}

/// The merge of files that are each in chronological order is in
/// chronological order: no step emits an entry earlier than one emitted
/// before it.
pub proof fn lemma_merge_sorted(stamps: Seq<Seq<Timestamp>>, order: Seq<Emission>, i: int, j: int)
    requires
        each_sorted(stamps),
        is_merge_prefix(stamps, order),
        0 <= i <= j < order.len(),
    ensures
        instant_of(stamps, order[i]) <= instant_of(stamps, order[j]),
{
    if i < j {
        let upto = order.take(j + 1);
        lemma_prefix_closed(stamps, order, j + 1);
        lemma_prefix_closed(stamps, order, j);
        assert(upto.drop_last() == order.take(j));
        assert(upto.last() == order[j]);
        let offsets = offsets_after(stamps.len(), order.take(j));
        assert(has_head(stamps, offsets, order[j].file as int));
        lemma_emitted_before_heads(stamps, order.take(j), i, order[j].file as int);
    }
}

/// Along a sequence of steps the count of entries emitted from a file
/// never goes down.
pub proof fn lemma_offsets_monotone(files: nat, order: Seq<Emission>, upto: int, f: int)
    requires
        0 <= upto <= order.len(),
        0 <= f < files,
    ensures
        offsets_after(files, order).len() == files,
        0 <= offsets_after(files, order.take(upto))[f] <= offsets_after(files, order)[f],
    decreases order.len(),
{
    if order.len() == 0 {
        assert(order.take(upto) == order);
    } else if upto == order.len() {
        assert(order.take(upto) == order);
        lemma_offsets_monotone(files, order.drop_last(), upto - 1, f);
    } else {
        lemma_offsets_monotone(files, order.drop_last(), upto, f);
        assert(order.drop_last().take(upto) == order.take(upto));
    }
}

/// What a step of a beginning of the merge emits: the entry of its file
/// whose number is the count of entries emitted from that file before.
pub proof fn lemma_step(stamps: Seq<Seq<Timestamp>>, order: Seq<Emission>, k: int)
    requires
        is_merge_prefix(stamps, order),
        0 <= k < order.len(),
    ensures
        is_merge_prefix(stamps, order.take(k)),
        is_next(stamps, offsets_after(stamps.len(), order.take(k)), order[k].file as int),
        order[k].entry == offsets_after(stamps.len(), order.take(k))[order[k].file as int],
        order[k].file < stamps.len(),
        order[k].entry < stamps[order[k].file as int].len(),
        order[k].entry < offsets_after(stamps.len(), order)[order[k].file as int],
{
    lemma_prefix_closed(stamps, order, k + 1);
    lemma_prefix_closed(stamps, order, k);
    let upto = order.take(k + 1);
    assert(upto.drop_last() == order.take(k));
    assert(upto.last() == order[k]);
    let f = order[k].file as int;
    assert(has_head(stamps, offsets_after(stamps.len(), order.take(k)), f));
    lemma_offsets_monotone(stamps.len(), order, k + 1, f);
}

/// Tie-break: of two entries with the same timestamp from different files,
/// the merge emits the one from the earlier file first, provided that no
/// entry before it in its own file is later than it, as is the case in a
/// file in chronological order.
pub proof fn lemma_ties_in_file_order(
    stamps: Seq<Seq<Timestamp>>,
    order: Seq<Emission>,
    a: int,
    b: int,
)
    requires
        is_merge_prefix(stamps, order),
        0 <= a < order.len(),
        0 <= b < order.len(),
        order[a].file < order[b].file,
        instant_of(stamps, order[a]) == instant_of(stamps, order[b]),
        forall|j: int|
            0 <= j <= order[a].entry ==> (#[trigger] stamps[order[a].file as int][j]).instant()
                <= instant_of(stamps, order[a]),
    ensures
        a < b,
{
    if b < a {
        let f1 = order[a].file as int;
        let f2 = order[b].file as int;
        lemma_step(stamps, order, a);
        lemma_step(stamps, order, b);
        let at_b = offsets_after(stamps.len(), order.take(b));
        lemma_offsets_monotone(stamps.len(), order.take(a), b, f1);
        assert(order.take(a).take(b) == order.take(b));
        assert(has_head(stamps, at_b, f1));
        assert(stamps[f1][at_b[f1]].instant() <= instant_of(stamps, order[a]));
        assert(head(stamps, at_b, f2) < head(stamps, at_b, f1));
    }
}

/// Entries of one file leave in file order: a later step emits a later
/// entry of the file.
pub proof fn lemma_file_order_kept(
    stamps: Seq<Seq<Timestamp>>,
    order: Seq<Emission>,
    a: int,
    b: int,
)
    requires
        is_merge_prefix(stamps, order),
        0 <= a < b < order.len(),
        order[a].file == order[b].file,
    ensures
        order[a].entry < order[b].entry,
{
    lemma_step(stamps, order, b);
    lemma_prefix_closed(stamps, order, b);
    lemma_step(stamps, order.take(b), a);
}

/// Every entry that the offsets count as emitted was emitted by some step.
pub proof fn lemma_counted_was_emitted(
    stamps: Seq<Seq<Timestamp>>,
    order: Seq<Emission>,
    f: int,
    i: int,
) -> (k: int)
    requires
        is_merge_prefix(stamps, order),
        0 <= f < stamps.len(),
        0 <= i < offsets_after(stamps.len(), order)[f],
    ensures
        emits(order, k, f, i),
    decreases order.len(),
{
    if order.len() == 0 {
        0
    } else {
        let before = offsets_after(stamps.len(), order.drop_last());
        lemma_prefix_offsets(stamps, order.drop_last());
        if order.last().file == f && before[f] == i {
            order.len() - 1
        } else {
            lemma_counted_was_emitted(stamps, order.drop_last(), f, i)
        }
    }
}

/// The merge emits every entry of every file exactly once: it has as many
/// steps as there are entries, every step emits an entry that exists, no two
/// steps emit the same entry, and every entry is emitted by some step.
pub proof fn lemma_merge_complete(stamps: Seq<Seq<Timestamp>>, order: Seq<Emission>)
    requires
        is_merge(stamps, order),
    ensures
        order.len() == total_entries(stamps),
        forall|k: int|
            0 <= k < order.len() ==> (#[trigger] order[k]).file < stamps.len() && order[k].entry
                < stamps[order[k].file as int].len(),
        forall|a: int, b: int|
            0 <= a < b < order.len() ==> #[trigger] order[a] != #[trigger] order[b],
        forall|f: int, i: int| #[trigger]
            is_entry(stamps, f, i) ==> exists|k: int| #[trigger] emits(order, k, f, i),
{
    let offsets = offsets_after(stamps.len(), order);
    lemma_prefix_offsets(stamps, order);
    lemma_exhausted_count(stamps, offsets);
    assert forall|k: int| 0 <= k < order.len() implies (#[trigger] order[k]).file < stamps.len()
        && order[k].entry < stamps[order[k].file as int].len() by {
        lemma_step(stamps, order, k);
    }
    assert forall|a: int, b: int| 0 <= a < b < order.len() implies #[trigger] order[a]
        != #[trigger] order[b] by {
        if order[a].file == order[b].file {
            lemma_file_order_kept(stamps, order, a, b);
        }
    }
    assert forall|f: int, i: int| #[trigger] is_entry(stamps, f, i) implies exists|k: int|
        #[trigger] emits(order, k, f, i) by {
        assert(!has_head(stamps, offsets, f));
        let k = lemma_counted_was_emitted(stamps, order, f, i);
        assert(emits(order, k, f, i));
    }
}

} // verus!
