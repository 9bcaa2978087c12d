//! What a run persists, batch by batch.
//!
//! A batch that is taken while `total` rows are persisted leaves its kept
//! rows in the buffer, and the valid rows among them are appended to the
//! output. The functions here add these rows up over the batches of a run.

use crate::buffer::{
    csv_bytes, filled, is_match, kept, lemma_csv_bytes_concat, lemma_filtered_fill_is_contiguous,
    lemma_kept_rows_match, match_pred, room, slot_of, valid_len, BUFFER_CAPACITY,
};
use crate::engine::{Observation, Progress, Todo};
use vstd::prelude::*;

verus! {

/// The number of records of `batch` that match.
pub open spec fn matches_in(batch: Seq<Seq<Seq<char>>>, keys: Set<Seq<char>>) -> nat {
    batch.filter(match_pred(keys)).len()
}

/// The number of records of `batches` that match.
pub open spec fn matches_among(batches: Seq<Seq<Seq<Seq<char>>>>, keys: Set<Seq<char>>) -> nat
    decreases batches.len(),
{
    if batches.len() == 0 {
        0
    } else {
        matches_among(batches.drop_last(), keys) + matches_in(batches.last(), keys)
    }
}

/// Each matching record of `batch` has a non-empty first field.
pub open spec fn well_keyed(batch: Seq<Seq<Seq<char>>>, keys: Set<Seq<char>>) -> bool {
    forall|k: int| 0 <= k < batch.len() && is_match(#[trigger] batch[k], keys) ==> batch[k][0].len() > 0
}

/// The rows that `batch` adds to the output of a run with this quota that
/// has persisted `total` rows.
pub open spec fn yield_of(
    batch: Seq<Seq<Seq<char>>>,
    keys: Set<Seq<char>>,
    quota: nat,
    total: nat,
) -> nat {
    valid_len(filled(kept(batch, keys, room(quota, total))))
}

/// The rows persisted after `batches` were taken one after the other.
pub open spec fn total_after(
    batches: Seq<Seq<Seq<Seq<char>>>>,
    keys: Set<Seq<char>>,
    quota: nat,
) -> nat
    decreases batches.len(),
{
    if batches.len() == 0 {
        0
    } else {
        let before = total_after(batches.drop_last(), keys, quota);
        before + yield_of(batches.last(), keys, quota, before)
    }
}

/// The smaller of two numbers.
pub open spec fn at_most(n: nat, bound: nat) -> nat {
    if n <= bound {
        n
    } else {
        bound
    }
}

/// A batch adds no more rows than the quota leaves room for, and no more
/// than it has matching records. Where it is well keyed and its matching
/// records fit the buffer, it adds all of them that the quota leaves room
/// for.
pub proof fn lemma_yield(
    batch: Seq<Seq<Seq<char>>>,
    keys: Set<Seq<char>>,
    quota: nat,
    total: nat,
)
    ensures
        yield_of(batch, keys, quota, total) <= room(quota, total),
        yield_of(batch, keys, quota, total) <= matches_in(batch, keys),
        total <= quota ==> total + yield_of(batch, keys, quota, total) <= quota,
        total <= quota && well_keyed(batch, keys) && matches_in(batch, keys) <= BUFFER_CAPACITY
            ==> total + yield_of(batch, keys, quota, total) == at_most(
            total + matches_in(batch, keys),
            quota,
        ),
{
    let limit = room(quota, total);
    lemma_kept_rows_match(batch, keys, limit);
    lemma_filtered_fill_is_contiguous(batch, keys, limit);
}

/// Whatever the batches hold, a run never persists more rows than its
/// quota.
pub proof fn lemma_total_within_quota(
    batches: Seq<Seq<Seq<Seq<char>>>>,
    keys: Set<Seq<char>>,
    quota: nat,
)
    ensures
        total_after(batches, keys, quota) <= quota,
        total_after(batches, keys, quota) <= matches_among(batches, keys),
    decreases batches.len(),
{
    if batches.len() > 0 {
        lemma_total_within_quota(batches.drop_last(), keys, quota);
        lemma_yield(batches.last(), keys, quota, total_after(batches.drop_last(), keys, quota));
    }
}

/// Where each batch is well keyed and its matching records fit the buffer,
/// a run persists every matching record until the quota is met, and then
/// none: the rows persisted are the matching records, capped by the quota.
pub proof fn lemma_total_is_matches_up_to_quota(
    batches: Seq<Seq<Seq<Seq<char>>>>,
    keys: Set<Seq<char>>,
    quota: nat,
)
    requires
        forall|b: int|
            0 <= b < batches.len() ==> well_keyed(#[trigger] batches[b], keys) && matches_in(
                batches[b],
                keys,
            ) <= BUFFER_CAPACITY,
    ensures
        total_after(batches, keys, quota) == at_most(matches_among(batches, keys), quota),
    decreases batches.len(),
{
    if batches.len() > 0 {
        let earlier = batches.drop_last();
        assert forall|b: int| 0 <= b < earlier.len() implies well_keyed(#[trigger] earlier[b], keys)
            && matches_in(earlier[b], keys) <= BUFFER_CAPACITY by {
            assert(earlier[b] == batches[b]);
        }
        lemma_total_is_matches_up_to_quota(earlier, keys, quota);
        lemma_total_within_quota(earlier, keys, quota);
        lemma_yield(batches.last(), keys, quota, total_after(earlier, keys, quota));
    }
}

/// The rows that `batch` adds to the output of a run with this quota that
/// has persisted `total` rows: the valid rows that its fill leaves in the
/// buffer.
pub open spec fn rows_of(
    batch: Seq<Seq<Seq<char>>>,
    keys: Set<Seq<char>>,
    quota: nat,
    total: nat,
) -> Seq<Seq<Seq<char>>> {
    let slots = filled(kept(batch, keys, room(quota, total)));
    slots.take(valid_len(slots) as int)
}

/// The rows written after `batches` were taken one after the other.
pub open spec fn written_after(
    batches: Seq<Seq<Seq<Seq<char>>>>,
    keys: Set<Seq<char>>,
    quota: nat,
) -> Seq<Seq<Seq<char>>>
    decreases batches.len(),
{
    if batches.len() == 0 {
        Seq::empty()
    } else {
        let before = written_after(batches.drop_last(), keys, quota);
        before + rows_of(batches.last(), keys, quota, before.len())
    }
}

/// The text appended after `batches` were taken one after the other, each
/// batch's rows in one piece.
pub open spec fn text_after(
    batches: Seq<Seq<Seq<Seq<char>>>>,
    keys: Set<Seq<char>>,
    quota: nat,
) -> Seq<u8>
    decreases batches.len(),
{
    if batches.len() == 0 {
        Seq::empty()
    } else {
        text_after(batches.drop_last(), keys, quota) + csv_bytes(
            rows_of(
                batches.last(),
                keys,
                quota,
                written_after(batches.drop_last(), keys, quota).len(),
            ),
        )
    }
}

/// The matching records of `batches`, in the order in which they are read.
pub open spec fn matching_among(
    batches: Seq<Seq<Seq<Seq<char>>>>,
    keys: Set<Seq<char>>,
) -> Seq<Seq<Seq<char>>>
    decreases batches.len(),
{
    if batches.len() == 0 {
        Seq::empty()
    } else {
        matching_among(batches.drop_last(), keys) + batches.last().filter(match_pred(keys))
    }
}

/// The rows written are as many as the rows persisted, and the matching
/// records are as many as were counted.
pub proof fn lemma_written_len(
    batches: Seq<Seq<Seq<Seq<char>>>>,
    keys: Set<Seq<char>>,
    quota: nat,
)
    ensures
        written_after(batches, keys, quota).len() == total_after(batches, keys, quota),
        matching_among(batches, keys).len() == matches_among(batches, keys),
    decreases batches.len(),
{
    if batches.len() > 0 {
        lemma_written_len(batches.drop_last(), keys, quota);
        let before = written_after(batches.drop_last(), keys, quota).len();
        let slots = filled(kept(batches.last(), keys, room(quota, before)));
        crate::buffer::lemma_valid_prefix_exists(slots);
    }
}

/// The output of a run is the CSV text of the rows it wrote, in the order
/// in which it wrote them.
pub proof fn lemma_text_is_of_written_rows(
    batches: Seq<Seq<Seq<Seq<char>>>>,
    keys: Set<Seq<char>>,
    quota: nat,
)
    ensures
        text_after(batches, keys, quota) == csv_bytes(written_after(batches, keys, quota)),
    decreases batches.len(),
{
    if batches.len() > 0 {
        lemma_text_is_of_written_rows(batches.drop_last(), keys, quota);
        let before = written_after(batches.drop_last(), keys, quota);
        lemma_csv_bytes_concat(before, rows_of(batches.last(), keys, quota, before.len()));
    }
}

/// Where each batch is well keyed and its matching records fit the buffer,
/// a run writes the slots of the matching records in the order in which
/// they are read, as many of them as the quota allows: the first `quota` of
/// them, or all where they are fewer.
pub proof fn lemma_written_rows(
    batches: Seq<Seq<Seq<Seq<char>>>>,
    keys: Set<Seq<char>>,
    quota: nat,
)
    requires
        forall|b: int|
            0 <= b < batches.len() ==> well_keyed(#[trigger] batches[b], keys) && matches_in(
                batches[b],
                keys,
            ) <= BUFFER_CAPACITY,
    ensures
        written_after(batches, keys, quota) == matching_among(batches, keys).take(
            at_most(matching_among(batches, keys).len(), quota) as int,
        ).map_values(|record: Seq<Seq<char>>| slot_of(record)),
    decreases batches.len(),
{
    let to_slot = |record: Seq<Seq<char>>| slot_of(record);
    if batches.len() == 0 {
        assert(written_after(batches, keys, quota) =~= matching_among(batches, keys).take(
            0,
        ).map_values(to_slot));
    } else {
        let earlier = batches.drop_last();
        assert forall|b: int| 0 <= b < earlier.len() implies well_keyed(#[trigger] earlier[b], keys)
            && matches_in(earlier[b], keys) <= BUFFER_CAPACITY by {
            assert(earlier[b] == batches[b]);
        }
        lemma_written_rows(earlier, keys, quota);
        let found = matching_among(earlier, keys);
        let here = batches.last().filter(match_pred(keys));
        let before = written_after(earlier, keys, quota);
        let total = before.len();
        let limit = room(quota, total);
        let rows = kept(batches.last(), keys, limit);
        lemma_kept_rows_match(batches.last(), keys, limit);
        lemma_filtered_fill_is_contiguous(batches.last(), keys, limit);
        assert(rows_of(batches.last(), keys, quota, total) =~= rows);
        let taken = rows.len() as int;
        assert(rows =~= here.take(taken).map_values(to_slot));
        let all = found + here;
        let wanted = at_most(all.len(), quota) as int;
        if found.len() >= quota {
            assert(all.take(wanted) =~= found.take(quota as int));
            assert(before + rows =~= all.take(wanted).map_values(to_slot));
        } else {
            assert(found.take(found.len() as int) =~= found);
            assert(all.take(wanted) =~= found + here.take(taken));
            assert(before + rows =~= all.take(wanted).map_values(to_slot));
        }
    }
}

/// One round of a run that is ready for a batch: a batch that adds no row
/// leaves the run as it is, and one that adds rows has them counted as
/// persisted once they are appended.
pub proof fn lemma_round(
    p: Progress,
    batch: Seq<Seq<Seq<char>>>,
    keys: Set<Seq<char>>,
)
    requires
        p.inv(),
        p.is_ready(),
    ensures
        ({
            let rows = yield_of(batch, keys, p.quota as nat, p.total as nat);
            &&& rows == 0 ==> p.next(Observation::NothingToWrite) == (p, Todo::ReadBatch)
            &&& rows > 0 ==> {
                let waiting = p.next(Observation::Encoded(rows as usize));
                &&& waiting == (Progress { pending: rows as usize, ..p }, Todo::Append)
                &&& waiting.0.next(Observation::Appended).0.total == p.total + rows
                &&& waiting.0.next(Observation::Appended).0.is_over() <==> p.total + rows
                    == p.quota
            }
        }),
{
    lemma_yield(batch, keys, p.quota as nat, p.total as nat);
}

} // verus!
