//! The k-way merge: in which order the entries of several files are emitted.

use crate::log::{file_views, EntryView, FileView, LogFile};
use crate::timestamp::Timestamp;
use vstd::prelude::*;

verus! {

/// One step of the merge: entry number `entry` of file number `file`.
#[derive(Clone, Copy, Debug, PartialEq, Eq, Structural)]
pub struct Emission {
    pub file: usize,
    pub entry: usize,
}

/// The timestamps of the entries of each file, in file order.
pub open spec fn stamps_of(files: Seq<FileView>) -> Seq<Seq<Timestamp>> {
    files.map_values(|file: FileView| file.entries.map_values(|entry: EntryView| entry.timestamp))
}

/// The timestamps of loaded files are those of their entries.
proof fn lemma_stamps_of_loaded(files: Seq<LogFile>)
    ensures
        stamps_of(file_views(files)).len() == files.len(),
        forall|f: int|
            0 <= f < files.len() ==> (#[trigger] stamps_of(file_views(files))[f]).len()
                == files[f].entries@.len(),
        forall|f: int, i: int|
            0 <= f < files.len() && 0 <= i < files[f].entries@.len() ==> #[trigger] stamps_of(
                file_views(files),
            )[f][i] == files[f].entries@[i].timestamp,
{
}

/// Whether file `f` still has an entry that was not emitted, given how many
/// entries of each file were emitted so far.
pub open spec fn has_head(stamps: Seq<Seq<Timestamp>>, offsets: Seq<int>, f: int) -> bool {
    &&& 0 <= f < stamps.len()
    &&& f < offsets.len()
    &&& 0 <= offsets[f] < stamps[f].len()
}

/// The instant of the first entry of file `f` that was not emitted yet.
pub open spec fn head(stamps: Seq<Seq<Timestamp>>, offsets: Seq<int>, f: int) -> int {
    stamps[f][offsets[f]].instant()
}

/// Whether `f` is the file that the merge takes its next entry from: its
/// head is strictly earlier than the head of every file before it, and not
/// later than the head of any file after it.
pub open spec fn is_next(stamps: Seq<Seq<Timestamp>>, offsets: Seq<int>, f: int) -> bool {
    &&& has_head(stamps, offsets, f)
    &&& forall|g: int| #[trigger]
        has_head(stamps, offsets, g) && g < f ==> head(stamps, offsets, f) < head(
            stamps,
            offsets,
            g,
        )
    &&& forall|g: int| #[trigger]
        has_head(stamps, offsets, g) && g > f ==> head(stamps, offsets, f) <= head(
            stamps,
            offsets,
            g,
        )
}

/// Whether every entry of every file was emitted.
pub open spec fn exhausted(stamps: Seq<Seq<Timestamp>>, offsets: Seq<int>) -> bool {
    forall|f: int| !#[trigger] has_head(stamps, offsets, f)
}

/// How many entries of each of `files` files the steps in `order` have
/// emitted.
pub open spec fn offsets_after(files: nat, order: Seq<Emission>) -> Seq<int>
    decreases order.len(),
{
    if order.len() == 0 {
        Seq::new(files, |f: int| 0int)
    } else {
        let before = offsets_after(files, order.drop_last());
        let f = order.last().file as int;
        if f < files {
            before.update(f, before[f] + 1)
        } else {
            before
        }
    }
}

/// Whether `order` is a beginning of the merge of the files: each step
/// takes the next unemitted entry of the file whose turn it is.
pub open spec fn is_merge_prefix(stamps: Seq<Seq<Timestamp>>, order: Seq<Emission>) -> bool
    decreases order.len(),
{
    order.len() == 0 || {
        let offsets = offsets_after(stamps.len(), order.drop_last());
        &&& is_merge_prefix(stamps, order.drop_last())
        &&& is_next(stamps, offsets, order.last().file as int)
        &&& order.last().entry == offsets[order.last().file as int]
    }
}

/// Whether `order` is the merge of the files: a beginning of the merge
/// after which no file has an entry left.
pub open spec fn is_merge(stamps: Seq<Seq<Timestamp>>, order: Seq<Emission>) -> bool {
    &&& is_merge_prefix(stamps, order)
    &&& exhausted(stamps, offsets_after(stamps.len(), order))
}

/// The order in which the merge emits the entries of the files.
pub open spec fn merged(stamps: Seq<Seq<Timestamp>>) -> Seq<Emission> {
    choose|order: Seq<Emission>| is_merge(stamps, order)
}

/// The instant of the entry that step `step` emits.
pub open spec fn instant_of(stamps: Seq<Seq<Timestamp>>, step: Emission) -> int {
    stamps[step.file as int][step.entry as int].instant()
}

/// Whether the entries of every file are in non-decreasing order of time.
pub open spec fn each_sorted(stamps: Seq<Seq<Timestamp>>) -> bool {
    forall|f: int, i: int, j: int|
        0 <= f < stamps.len() && 0 <= i <= j < stamps[f].len() ==> (#[trigger] stamps[f][
            i
        ]).instant() <= (#[trigger] stamps[f][j]).instant()
}

/// Whether the number of files, and of entries in each file, can be held in
/// a machine word.
pub open spec fn addressable(stamps: Seq<Seq<Timestamp>>) -> bool {
    &&& stamps.len() <= usize::MAX
    &&& forall|f: int| 0 <= f < stamps.len() ==> (#[trigger] stamps[f]).len() <= usize::MAX
}

/// Number of entries in all files together.
pub open spec fn total_entries(stamps: Seq<Seq<Timestamp>>) -> nat
    decreases stamps.len(),
{
    if stamps.len() == 0 {
        0
    } else {
        total_entries(stamps.drop_last()) + stamps.last().len()
    }
}

/// Number of entries among the first `upto` files that are not emitted yet.
pub open spec fn unemitted(stamps: Seq<Seq<Timestamp>>, offsets: Seq<int>, upto: int) -> int
    decreases upto,
{
    if upto <= 0 {
        0
    } else {
        unemitted(stamps, offsets, upto - 1) + stamps[upto - 1].len() - offsets[upto - 1]
    }
}

/// The offsets held in machine words, as integers.
pub open spec fn counts(offsets: Seq<usize>) -> Seq<int> {
    offsets.map_values(|offset: usize| offset as int)
}

/// Whether no offset runs past the end of its file.
pub open spec fn within(stamps: Seq<Seq<Timestamp>>, offsets: Seq<int>) -> bool {
    &&& offsets.len() == stamps.len()
    &&& forall|f: int| 0 <= f < stamps.len() ==> 0 <= #[trigger] offsets[f] <= stamps[f].len()
}

proof fn lemma_unemitted_bounds(stamps: Seq<Seq<Timestamp>>, offsets: Seq<int>, upto: int)
    requires
        within(stamps, offsets),
        0 <= upto <= stamps.len(),
    ensures
        unemitted(stamps, offsets, upto) >= 0,
    decreases upto,
{
    if upto > 0 {
        lemma_unemitted_bounds(stamps, offsets, upto - 1);
    }
}

proof fn lemma_unemitted_step(stamps: Seq<Seq<Timestamp>>, offsets: Seq<int>, f: int, upto: int)
    requires
        offsets.len() == stamps.len(),
        0 <= f < stamps.len(),
        0 <= upto <= stamps.len(),
    ensures
        unemitted(stamps, offsets.update(f, offsets[f] + 1), upto) == unemitted(
            stamps,
            offsets,
            upto,
        ) - (if f < upto {
            1int
        } else {
            0int
        }),
    decreases upto,
{
    if upto > 0 {
        lemma_unemitted_step(stamps, offsets, f, upto - 1);
    }
}

proof fn lemma_unemitted_at_start(stamps: Seq<Seq<Timestamp>>, upto: int)
    requires
        0 <= upto <= stamps.len(),
    ensures
        unemitted(stamps, Seq::new(stamps.len(), |f: int| 0int), upto) == total_entries(
            stamps.take(upto),
        ),
    decreases upto,
{
    if upto > 0 {
        lemma_unemitted_at_start(stamps, upto - 1);
        assert(stamps.take(upto).drop_last() == stamps.take(upto - 1));
    } else {
        assert(stamps.take(upto).len() == 0);
    }
}

proof fn lemma_unemitted_zero(stamps: Seq<Seq<Timestamp>>, offsets: Seq<int>, upto: int)
    requires
        within(stamps, offsets),
        exhausted(stamps, offsets),
        0 <= upto <= stamps.len(),
    ensures
        unemitted(stamps, offsets, upto) == 0,
    decreases upto,
{
    if upto > 0 {
        lemma_unemitted_zero(stamps, offsets, upto - 1);
        assert(!has_head(stamps, offsets, upto - 1));
    }
}

/// When every file is used up, no entry remains to be emitted.
pub proof fn lemma_exhausted_count(stamps: Seq<Seq<Timestamp>>, offsets: Seq<int>)
    requires
        within(stamps, offsets),
        exhausted(stamps, offsets),
    ensures
        unemitted(stamps, offsets, stamps.len() as int) == 0,
{
    lemma_unemitted_zero(stamps, offsets, stamps.len() as int);
}

/// The offsets behind a beginning of the merge stay within the files, and
/// together with the entries still to come they account for every entry.
pub proof fn lemma_prefix_offsets(stamps: Seq<Seq<Timestamp>>, order: Seq<Emission>)
    requires
        is_merge_prefix(stamps, order),
    ensures
        within(stamps, offsets_after(stamps.len(), order)),
        order.len() + unemitted(
            stamps,
            offsets_after(stamps.len(), order),
            stamps.len() as int,
        ) == total_entries(stamps),
    decreases order.len(),
{
    if order.len() == 0 {
        lemma_unemitted_at_start(stamps, stamps.len() as int);
        assert(stamps.take(stamps.len() as int) == stamps);
    } else {
        lemma_prefix_offsets(stamps, order.drop_last());
        let before = offsets_after(stamps.len(), order.drop_last());
        lemma_unemitted_step(stamps, before, order.last().file as int, stamps.len() as int);
    }
}

/// The file with the earliest head, the first such file on a tie, or
/// nothing when every file is used up.
fn next_source(files: &Vec<LogFile>, offsets: &Vec<usize>) -> (pick: Option<usize>)
    requires
        within(stamps_of(file_views(files@)), counts(offsets@)),
    ensures
        pick matches Some(f) ==> is_next(
            stamps_of(file_views(files@)),
            counts(offsets@),
            f as int,
        ),
        pick is None ==> exhausted(stamps_of(file_views(files@)), counts(offsets@)),
{
    let ghost stamps = stamps_of(file_views(files@));
    let ghost offs = counts(offsets@);
    proof {
        lemma_stamps_of_loaded(files@);
    }
    let mut best: Option<usize> = None;
    let mut g: usize = 0;
    while g < files.len()
        invariant
            g <= files.len(),
            stamps == stamps_of(file_views(files@)),
            offs == counts(offsets@),
            within(stamps, offs),
            forall|f: int|
                0 <= f < files.len() ==> (#[trigger] stamps[f]).len() == files[f].entries@.len(),
            forall|f: int, i: int|
                0 <= f < files.len() && 0 <= i < files[f].entries@.len() ==> #[trigger] stamps[f][i]
                    == files[f].entries@[i].timestamp,
            best matches Some(b) ==> b < g && has_head(stamps, offs, b as int),
            best matches Some(b) ==> forall|h: int| #[trigger]
                has_head(stamps, offs, h) && h < b ==> head(stamps, offs, b as int) < head(
                    stamps,
                    offs,
                    h,
                ),
            best matches Some(b) ==> forall|h: int| #[trigger]
                has_head(stamps, offs, h) && b < h < g ==> head(stamps, offs, b as int) <= head(
                    stamps,
                    offs,
                    h,
                ),
            best is None ==> forall|h: int| 0 <= h < g ==> !#[trigger] has_head(stamps, offs, h),
        decreases files.len() - g,
    {
        assert(offs[g as int] == offsets@[g as int]);
        if offsets[g] < files[g].entries.len() {
            assert(has_head(stamps, offs, g as int));
            match best {
                None => {
                    best = Some(g);
                },
                Some(b) => {
                    assert(offs[b as int] == offsets@[b as int]);
                    let candidate = &files[g].entries[offsets[g]];
                    let current = &files[b].entries[offsets[b]];
                    if candidate.is_before(current) {
                        best = Some(g);
                    }
                },
            }
        }
        g += 1;
    }
    best
}

/// The order in which the entries of `files` are emitted: at each step the
/// earliest entry among the first unemitted entries of all files, and on
/// equal timestamps the one from the file that comes first in `files`.
pub fn merge_order(files: &Vec<LogFile>) -> (order: Vec<Emission>)
    ensures
        is_merge(stamps_of(file_views(files@)), order@),
        order@ == merged(stamps_of(file_views(files@))),
        order@.len() == total_entries(stamps_of(file_views(files@))),
{
    let ghost stamps = stamps_of(file_views(files@));
    proof {
        lemma_stamps_of_loaded(files@);
    }
    let mut offsets: Vec<usize> = Vec::new();
    let mut f: usize = 0;
    while f < files.len()
        invariant
            f <= files.len(),
            offsets@.len() == f,
            forall|g: int| 0 <= g < f ==> offsets@[g] == 0,
        decreases files.len() - f,
    {
        offsets.push(0);
        f += 1;
    }
    let mut order: Vec<Emission> = Vec::new();
    assert(counts(offsets@) =~= offsets_after(stamps.len(), order@));
    loop
        invariant
            stamps == stamps_of(file_views(files@)),
            stamps.len() == files.len(),
            forall|f: int|
                0 <= f < files.len() ==> (#[trigger] stamps[f]).len() == files[f].entries@.len(),
            is_merge_prefix(stamps, order@),
            counts(offsets@) == offsets_after(stamps.len(), order@),
        ensures
            is_merge(stamps, order@),
        decreases unemitted(stamps, offsets_after(stamps.len(), order@), stamps.len() as int),
    {
        proof {
            lemma_prefix_offsets(stamps, order@);
        }
        match next_source(files, &offsets) {
            None => {
                break ;
            },
            Some(pick) => {
                let ghost before = order@;
                let ghost offs = offsets_after(stamps.len(), before);
                assert(offs[pick as int] == offsets@[pick as int]);
                assert(has_head(stamps, offs, pick as int));
                assert(stamps[pick as int].len() == files[pick as int].entries.len());
                let entry = offsets[pick];
                order.push(Emission { file: pick, entry });
                offsets.set(pick, entry + 1);
                proof {
                    let after = offs.update(pick as int, offs[pick as int] + 1);
                    assert(order@.drop_last() == before);
                    assert(order@.last().file == pick);
                    assert(offsets_after(stamps.len(), order@) == after);
                    assert(counts(offsets@) =~= after);
                    lemma_unemitted_step(stamps, offs, pick as int, stamps.len() as int);
                    lemma_unemitted_bounds(stamps, after, stamps.len() as int);
                }
            },
        }
    }
    proof {
        lemma_prefix_offsets(stamps, order@);
        lemma_exhausted_count(stamps, offsets_after(stamps.len(), order@));
        lemma_merge_unique(stamps, order@, merged(stamps));
    }
    order
}

/// Two beginnings of the merge of the same files agree as far as both go.
pub proof fn lemma_prefixes_agree(
    stamps: Seq<Seq<Timestamp>>,
    first: Seq<Emission>,
    second: Seq<Emission>,
    upto: int,
)
    requires
        is_merge_prefix(stamps, first),
        is_merge_prefix(stamps, second),
        0 <= upto <= first.len(),
        upto <= second.len(),
    ensures
        first.take(upto) == second.take(upto),
        is_merge_prefix(stamps, first.take(upto)),
{
    if upto < first.len() {
        lemma_prefix_closed(stamps, first, upto);
    } else {
        assert(first.take(upto) == first);
    }
    if upto < second.len() {
        lemma_prefix_closed(stamps, second, upto);
    } else {
        assert(second.take(upto) == second);
    }
    if upto > 0 {
        lemma_prefixes_agree_below(stamps, first.take(upto), second.take(upto));
    } else {
        assert(first.take(upto) =~= second.take(upto));
    }
}

proof fn lemma_prefixes_agree_below(
    stamps: Seq<Seq<Timestamp>>,
    first: Seq<Emission>,
    second: Seq<Emission>,
)
    requires
        is_merge_prefix(stamps, first),
        is_merge_prefix(stamps, second),
        first.len() == second.len(),
    ensures
        first == second,
    decreases first.len(),
{
    if first.len() > 0 {
        lemma_prefixes_agree_below(stamps, first.drop_last(), second.drop_last());
        let offsets = offsets_after(stamps.len(), first.drop_last());
        let a = first.last().file as int;
        let b = second.last().file as int;
        assert(has_head(stamps, offsets, a));
        assert(has_head(stamps, offsets, b));
        assert(a == b);
        assert(first.last() == second.last());
        assert(first =~= first.drop_last().push(first.last()));
        assert(second =~= second.drop_last().push(second.last()));
    } else {
        assert(first =~= second);
    }
}

/// Every beginning of a beginning of the merge is one.
pub proof fn lemma_prefix_closed(stamps: Seq<Seq<Timestamp>>, order: Seq<Emission>, upto: int)
    requires
        is_merge_prefix(stamps, order),
        0 <= upto <= order.len(),
    ensures
        is_merge_prefix(stamps, order.take(upto)),
    decreases order.len(),
{
    if upto == order.len() {
        assert(order.take(upto) == order);
    } else {
        lemma_prefix_closed(stamps, order.drop_last(), upto);
        assert(order.drop_last().take(upto) == order.take(upto));
    }
}

/// The merge is determined by the files: any two orders that are merges of
/// the same files are the same order.
pub proof fn lemma_merge_unique(
    stamps: Seq<Seq<Timestamp>>,
    first: Seq<Emission>,
    second: Seq<Emission>,
)
    requires
        is_merge(stamps, first),
    ensures
        is_merge(stamps, merged(stamps)),
        is_merge(stamps, second) ==> first == second,
{
    if is_merge(stamps, second) {
        if first.len() <= second.len() {
            lemma_merge_no_longer(stamps, first, second);
        } else {
            lemma_merge_no_longer(stamps, second, first);
        }
        lemma_prefixes_agree_below(stamps, first, second);
    }
}

proof fn lemma_merge_no_longer(
    stamps: Seq<Seq<Timestamp>>,
    short: Seq<Emission>,
    long: Seq<Emission>,
)
    requires
        is_merge(stamps, short),
        is_merge_prefix(stamps, long),
        short.len() <= long.len(),
    ensures
        short.len() == long.len(),
{
    if short.len() < long.len() {
        let upto = short.len() as int;
        lemma_prefix_closed(stamps, long, upto + 1);
        lemma_prefix_closed(stamps, long, upto);
        lemma_prefixes_agree_below(stamps, short, long.take(upto));
        let step = long.take(upto + 1);
        assert(step.drop_last() == long.take(upto));
        assert(has_head(stamps, offsets_after(stamps.len(), short), step.last().file as int));
    }
}

proof fn lemma_next_among(stamps: Seq<Seq<Timestamp>>, offsets: Seq<int>, upto: int) -> (best: int)
    requires
        0 <= upto <= stamps.len(),
        exists|h: int| h < upto && has_head(stamps, offsets, h),
    ensures
        best < upto,
        has_head(stamps, offsets, best),
        forall|g: int| #[trigger]
            has_head(stamps, offsets, g) && g < best ==> head(stamps, offsets, best) < head(
                stamps,
                offsets,
                g,
            ),
        forall|g: int| #[trigger]
            has_head(stamps, offsets, g) && best < g < upto ==> head(stamps, offsets, best)
                <= head(stamps, offsets, g),
    decreases upto,
{
    let last = upto - 1;
    if exists|h: int| h < last && has_head(stamps, offsets, h) {
        let below = lemma_next_among(stamps, offsets, last);
        if has_head(stamps, offsets, last) && head(stamps, offsets, last) < head(
            stamps,
            offsets,
            below,
        ) {
            last
        } else {
            below
        }
    } else {
        let h = choose|h: int| h < upto && has_head(stamps, offsets, h);
        assert(h == last);
        last
    }
}

/// As long as some file has an entry left, some file is next.
pub proof fn lemma_next_exists(stamps: Seq<Seq<Timestamp>>, offsets: Seq<int>) -> (f: int)
    requires
        !exhausted(stamps, offsets),
    ensures
        is_next(stamps, offsets, f),
{
    let h = choose|h: int| has_head(stamps, offsets, h);
    assert(h < stamps.len() && has_head(stamps, offsets, h));
    lemma_next_among(stamps, offsets, stamps.len() as int)
}

proof fn lemma_merge_from(stamps: Seq<Seq<Timestamp>>, order: Seq<Emission>) -> (full: Seq<
    Emission,
>)
    requires
        addressable(stamps),
        is_merge_prefix(stamps, order),
    ensures
        is_merge(stamps, full),
    decreases unemitted(stamps, offsets_after(stamps.len(), order), stamps.len() as int),
{
    let offsets = offsets_after(stamps.len(), order);
    lemma_prefix_offsets(stamps, order);
    if exhausted(stamps, offsets) {
        order
    } else {
        let f = lemma_next_exists(stamps, offsets);
        let step = Emission { file: f as usize, entry: offsets[f] as usize };
        let longer = order.push(step);
        assert(longer.drop_last() == order);
        assert(longer.last() == step);
        lemma_unemitted_step(stamps, offsets, f, stamps.len() as int);
        lemma_prefix_offsets(stamps, longer);
        lemma_unemitted_bounds(
            stamps,
            offsets_after(stamps.len(), longer),
            stamps.len() as int,
        );
        lemma_merge_from(stamps, longer)
    }
}

/// Every collection of files has a merge, and `merged` names it.
pub proof fn lemma_merge_exists(stamps: Seq<Seq<Timestamp>>)
    requires
        addressable(stamps),
    ensures
        is_merge(stamps, merged(stamps)),
{
    let full = lemma_merge_from(stamps, Seq::empty());
}

} // verus!
