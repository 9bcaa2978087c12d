//! The match buffer: a fixed number of row slots that is filled from the
//! front and reused from batch to batch.

use crate::codec::{csv_record_bytes, csv_record_outcome, encode_record};
use crate::key_set::KeySet;
use vstd::prelude::*;

verus! {

/// Number of row slots in the match buffer.
pub const BUFFER_CAPACITY: usize = 30000;

/// Number of fields in a row slot.
pub const ROW_WIDTH: usize = 6;

/// Index of the field that is tested against the key set.
pub const KEY_FIELD: usize = 2;

/// The slot that holds nothing: every field is the empty string.
pub open spec fn empty_slot() -> Seq<Seq<char>> {
    Seq::new(ROW_WIDTH as nat, |j: int| Seq::<char>::empty())
}

/// The slot that a record fills: its leading fields in order, empty strings
/// where the record is shorter than a slot, nothing of what lies beyond.
pub open spec fn slot_of(record: Seq<Seq<char>>) -> Seq<Seq<char>> {
    Seq::new(
        ROW_WIDTH as nat,
        |j: int|
            if j < record.len() {
                record[j]
            } else {
                Seq::<char>::empty()
            },
    )
}

/// A record is kept when it has a key field and that field is in the key set.
pub open spec fn is_match(record: Seq<Seq<char>>, keys: Set<Seq<char>>) -> bool {
    record.len() > KEY_FIELD && keys.contains(record[KEY_FIELD as int])
}

/// `is_match` for a fixed key set, as a predicate on records.
pub open spec fn match_pred(keys: Set<Seq<char>>) -> spec_fn(Seq<Seq<char>>) -> bool {
    |record: Seq<Seq<char>>| is_match(record, keys)
}

/// How many rows a fill may write when `already` rows count towards `quota`:
/// what is left of the quota, and never more than the buffer holds.
pub open spec fn room(quota: nat, already: nat) -> nat {
    if already >= quota {
        0
    } else if quota - already >= BUFFER_CAPACITY {
        BUFFER_CAPACITY as nat
    } else {
        (quota - already) as nat
    }
}

/// The rows that a filtered fill writes: the slots of the first `limit`
/// matching records of the batch, in the order of the batch.
pub open spec fn kept(batch: Seq<Seq<Seq<char>>>, keys: Set<Seq<char>>, limit: nat) -> Seq<
    Seq<Seq<char>>,
> {
    let matching = batch.filter(match_pred(keys));
    let n = if matching.len() <= limit {
        matching.len()
    } else {
        limit
    };
    matching.take(n as int).map_values(|record: Seq<Seq<char>>| slot_of(record))
}

/// The rows that an unfiltered fill writes: the slots of the leading records
/// of the batch, as many as the buffer holds.
pub open spec fn copied(batch: Seq<Seq<Seq<char>>>) -> Seq<Seq<Seq<char>>> {
    let n = if batch.len() <= BUFFER_CAPACITY {
        batch.len()
    } else {
        BUFFER_CAPACITY as nat
    };
    batch.take(n as int).map_values(|record: Seq<Seq<char>>| slot_of(record))
}

/// The buffer that holds `rows` from slot 0 on and nothing behind them.
pub open spec fn filled(rows: Seq<Seq<Seq<char>>>) -> Seq<Seq<Seq<char>>> {
    Seq::new(
        BUFFER_CAPACITY as nat,
        |i: int|
            if i < rows.len() {
                rows[i]
            } else {
                empty_slot()
            },
    )
}

/// `n` is the length of the valid prefix of `slots`: the first `n` slots
/// have a non-empty first field, and slot `n`, if there is one, has not.
pub open spec fn is_valid_prefix(slots: Seq<Seq<Seq<char>>>, n: nat) -> bool {
    &&& n <= slots.len()
    &&& forall|i: int| 0 <= i < n ==> (#[trigger] slots[i])[0].len() > 0
    &&& n < slots.len() ==> slots[n as int][0].len() == 0
}

/// The length of the valid prefix of `slots`.
pub open spec fn valid_len(slots: Seq<Seq<Seq<char>>>) -> nat {
    choose|n: nat| is_valid_prefix(slots, n)
}

/// The CSV text of `rows`: the bytes of each row, in order.
pub open spec fn csv_bytes(rows: Seq<Seq<Seq<char>>>) -> Seq<u8>
    decreases rows.len(),
{
    if rows.len() == 0 {
        Seq::empty()
    } else {
        csv_bytes(rows.drop_last()) + csv_record_bytes(rows.last())
    }
}

/// Each of `rows` can be written as a CSV record.
pub open spec fn encodable(rows: Seq<Seq<Seq<char>>>) -> bool {
    forall|i: int| 0 <= i < rows.len() ==> csv_record_outcome(#[trigger] rows[i]) is Some
}

/// A sequence of slots has one valid prefix.
pub proof fn lemma_valid_prefix_unique(slots: Seq<Seq<Seq<char>>>, n: nat, m: nat)
    requires
        is_valid_prefix(slots, n),
        is_valid_prefix(slots, m),
    ensures
        n == m,
{
    if n < m {
        assert(slots[n as int][0].len() > 0);
    } else if m < n {
        assert(slots[m as int][0].len() > 0);
    }
}

/// `valid_len` is the length of the valid prefix.
pub proof fn lemma_valid_len(slots: Seq<Seq<Seq<char>>>, n: nat)
    requires
        is_valid_prefix(slots, n),
    ensures
        valid_len(slots) == n,
{
    lemma_valid_prefix_unique(slots, n, valid_len(slots));
}

/// The CSV text of rows that follow one another is the text of the first
/// followed by the text of the second.
pub proof fn lemma_csv_bytes_concat(first: Seq<Seq<Seq<char>>>, second: Seq<Seq<Seq<char>>>)
    ensures
        csv_bytes(first + second) == csv_bytes(first) + csv_bytes(second),
    decreases second.len(),
{
    if second.len() == 0 {
        assert(first + second =~= first);
        assert(csv_bytes(first) + csv_bytes(second) =~= csv_bytes(first));
    } else {
        lemma_csv_bytes_concat(first, second.drop_last());
        assert((first + second).drop_last() =~= first + second.drop_last());
        assert((first + second).last() == second.last());
        assert(csv_bytes(first + second) =~= csv_bytes(first) + csv_bytes(second));
    }
}

/// Every sequence of slots has a valid prefix, and `valid_len` is its
/// length.
pub proof fn lemma_valid_prefix_exists(slots: Seq<Seq<Seq<char>>>)
    ensures
        is_valid_prefix(slots, valid_len(slots)),
        valid_len(slots) <= slots.len(),
{
    lemma_first_gap(slots, slots.len());
    assert(is_valid_prefix(slots, first_gap(slots, slots.len())));
}

/// In a buffer that holds `rows` and nothing behind them, the valid prefix
/// ends within the rows; it is all of them where each has a non-empty first
/// field.
pub proof fn lemma_valid_len_of_filled(rows: Seq<Seq<Seq<char>>>)
    requires
        rows.len() <= BUFFER_CAPACITY,
    ensures
        valid_len(filled(rows)) <= rows.len(),
        is_valid_prefix(filled(rows), valid_len(filled(rows))),
        (forall|i: int| 0 <= i < rows.len() ==> (#[trigger] rows[i])[0].len() > 0) ==> valid_len(
            filled(rows),
        ) == rows.len(),
{
    let slots = filled(rows);
    let n = first_gap(slots, rows.len());
    lemma_first_gap(slots, rows.len());
    if rows.len() < BUFFER_CAPACITY {
        assert(slots[rows.len() as int][0].len() == 0);
    }
    assert(is_valid_prefix(slots, n));
    lemma_valid_len(slots, n);
    if forall|i: int| 0 <= i < rows.len() ==> (#[trigger] rows[i])[0].len() > 0 {
        if n < rows.len() {
            assert(slots[n as int] == rows[n as int]);
        }
    }
}

/// Each row that a filtered fill keeps is the slot of a record of the batch
/// that matches, and a fill keeps no more rows than its limit.
pub proof fn lemma_kept_rows_match(
    batch: Seq<Seq<Seq<char>>>,
    keys: Set<Seq<char>>,
    limit: nat,
)
    ensures
        kept(batch, keys, limit).len() <= limit,
        kept(batch, keys, limit).len() <= batch.len(),
        forall|i: int|
            0 <= i < kept(batch, keys, limit).len() ==> {
                let record = batch.filter(match_pred(keys))[i];
                &&& #[trigger] kept(batch, keys, limit)[i] == slot_of(record)
                &&& is_match(record, keys)
                &&& batch.contains(record)
            },
{
    let matching = batch.filter(match_pred(keys));
    batch.lemma_filter_len(match_pred(keys));
    assert forall|i: int| 0 <= i < kept(batch, keys, limit).len() implies {
        let record = matching[i];
        &&& #[trigger] kept(batch, keys, limit)[i] == slot_of(record)
        &&& is_match(record, keys)
        &&& batch.contains(record)
    } by {
        batch.lemma_filter_pred(match_pred(keys), i);
        assert(matching.contains(matching[i]));
        batch.lemma_filter_contains_rev(match_pred(keys), matching[i]);
    }
}

/// After a filtered fill the rows written lie in the leading slots, in the
/// order in which they were written, and every slot behind them is empty.
/// The valid prefix ends within the rows written; it is all of them where
/// each matching record of the batch has a non-empty first field.
pub proof fn lemma_filtered_fill_is_contiguous(
    batch: Seq<Seq<Seq<char>>>,
    keys: Set<Seq<char>>,
    limit: nat,
)
    requires
        limit <= BUFFER_CAPACITY,
    ensures
        ({
            let rows = kept(batch, keys, limit);
            let slots = filled(rows);
            &&& rows.len() <= BUFFER_CAPACITY
            &&& forall|i: int| 0 <= i < rows.len() ==> #[trigger] slots[i] == rows[i]
            &&& forall|i: int| rows.len() <= i < BUFFER_CAPACITY ==> #[trigger] slots[i] == empty_slot()
            &&& valid_len(slots) <= rows.len()
            &&& (forall|k: int|
                0 <= k < batch.len() && is_match(#[trigger] batch[k], keys) ==> batch[k][0].len() > 0)
                ==> valid_len(slots) == rows.len()
        }),
{
    let rows = kept(batch, keys, limit);
    lemma_kept_rows_match(batch, keys, limit);
    lemma_valid_len_of_filled(rows);
    if forall|k: int|
        0 <= k < batch.len() && is_match(#[trigger] batch[k], keys) ==> batch[k][0].len() > 0 {
        assert forall|i: int| 0 <= i < rows.len() implies (#[trigger] rows[i])[0].len() > 0 by {
            let record = batch.filter(match_pred(keys))[i];
            assert(rows[i] == slot_of(record));
            assert(batch.contains(record));
            let k = choose|k: int| 0 <= k < batch.len() && batch[k] == record;
            assert(is_match(batch[k], keys));
            assert(rows[i][0] == record[0]);
        }
    }
}

/// A batch without a matching record leaves the buffer empty, with no valid
/// row.
pub proof fn lemma_no_match_keeps_nothing(
    batch: Seq<Seq<Seq<char>>>,
    keys: Set<Seq<char>>,
    limit: nat,
)
    requires
        forall|k: int| 0 <= k < batch.len() ==> !is_match(#[trigger] batch[k], keys),
    ensures
        kept(batch, keys, limit).len() == 0,
        filled(kept(batch, keys, limit)) == filled(Seq::empty()),
        valid_len(filled(kept(batch, keys, limit))) == 0,
{
    let rows = kept(batch, keys, limit);
    lemma_kept_rows_match(batch, keys, limit);
    if rows.len() > 0 {
        let record = batch.filter(match_pred(keys))[0];
        assert(rows[0] == slot_of(record));
        assert(batch.contains(record));
        let k = choose|k: int| 0 <= k < batch.len() && batch[k] == record;
        assert(is_match(batch[k], keys));
    }
    assert(rows =~= Seq::<Seq<Seq<char>>>::empty());
    lemma_valid_len_of_filled(rows);
}

/// The first of the leading `bound` slots whose first field is empty, or
/// `bound` where there is none.
spec fn first_gap(slots: Seq<Seq<Seq<char>>>, bound: nat) -> nat
    decreases bound,
{
    if bound == 0 {
        0
    } else {
        let before = first_gap(slots, (bound - 1) as nat);
        if before == bound - 1 && slots[bound - 1][0].len() > 0 {
            bound
        } else {
            before
        }
    }
}

proof fn lemma_first_gap(slots: Seq<Seq<Seq<char>>>, bound: nat)
    requires
        bound <= slots.len(),
    ensures
        first_gap(slots, bound) <= bound,
        forall|i: int| 0 <= i < first_gap(slots, bound) ==> (#[trigger] slots[i])[0].len() > 0,
        first_gap(slots, bound) < bound ==> slots[first_gap(slots, bound) as int][0].len() == 0,
    decreases bound,
{
    if bound > 0 {
        lemma_first_gap(slots, (bound - 1) as nat);
    }
}

/// A fixed-capacity buffer of row slots.
pub struct MatchBuffer {
    slots: Vec<Vec<String>>,
}

impl View for MatchBuffer {
    type V = Seq<Seq<Seq<char>>>;

    closed spec fn view(&self) -> Seq<Seq<Seq<char>>> {
        self.slots.deep_view()
    }
}

fn empty_row() -> (row: Vec<String>)
    ensures
        row.deep_view() == empty_slot(),
{
    let mut row: Vec<String> = Vec::new();
    let mut j: usize = 0;
    while j < ROW_WIDTH
        invariant
            j <= ROW_WIDTH,
            row@.len() == j,
            forall|k: int| 0 <= k < j ==> (#[trigger] row@[k])@ == Seq::<char>::empty(),
        decreases ROW_WIDTH - j,
    {
        row.push(String::new());
        j = j + 1;
    }
    assert(row.deep_view() =~= empty_slot());
    row
}

fn row_of(record: &Vec<String>) -> (row: Vec<String>)
    ensures
        row.deep_view() == slot_of(record.deep_view()),
{
    let mut row: Vec<String> = Vec::new();
    let mut j: usize = 0;
    while j < ROW_WIDTH
        invariant
            j <= ROW_WIDTH,
            row@.len() == j,
            forall|k: int|
                0 <= k < j ==> (#[trigger] row@[k])@ == slot_of(record.deep_view())[k],
        decreases ROW_WIDTH - j,
    {
        if j < record.len() {
            row.push(record[j].clone());
        } else {
            row.push(String::new());
        }
        j = j + 1;
    }
    assert(row.deep_view() =~= slot_of(record.deep_view()));
    row
}

impl MatchBuffer {
    /// The buffer has all its slots, and each slot all its fields.
    pub closed spec fn wf(&self) -> bool {
        &&& self.slots@.len() == BUFFER_CAPACITY
        &&& forall|i: int| 0 <= i < self.slots@.len() ==> (#[trigger] self.slots@[i])@.len() == ROW_WIDTH
    }

    /// A well-formed buffer has `BUFFER_CAPACITY` slots of `ROW_WIDTH`
    /// fields each, whatever it holds.
    pub proof fn lemma_shape(&self)
        requires
            self.wf(),
        ensures
            self@.len() == BUFFER_CAPACITY,
            forall|i: int| 0 <= i < BUFFER_CAPACITY ==> (#[trigger] self@[i]).len() == ROW_WIDTH,
    {
    }

    /// A buffer of empty slots.
    pub fn new() -> (buffer: MatchBuffer)
        ensures
            buffer.wf(),
            buffer@ == filled(Seq::empty()),
    {
        let mut slots: Vec<Vec<String>> = Vec::new();
        let mut i: usize = 0;
        while i < BUFFER_CAPACITY
            invariant
                i <= BUFFER_CAPACITY,
                slots@.len() == i,
                forall|k: int| 0 <= k < i ==> (#[trigger] slots@[k]).deep_view() == empty_slot(),
            decreases BUFFER_CAPACITY - i,
        {
            slots.push(empty_row());
            i = i + 1;
        }
        let buffer = MatchBuffer { slots };
        assert(buffer@ =~= filled(Seq::empty()));
        assert forall|i: int| 0 <= i < buffer.slots@.len() implies (#[trigger] buffer.slots@[i])@.len()
            == ROW_WIDTH by {
            assert(buffer.slots@[i].deep_view().len() == ROW_WIDTH);
        }
        buffer
    }

    /// Resets every slot to empty strings.
    pub fn clear(&mut self)
        requires
            old(self).wf(),
        ensures
            final(self).wf(),
            final(self)@ == filled(Seq::empty()),
    {
        let mut i: usize = 0;
        while i < BUFFER_CAPACITY
            invariant
                i <= BUFFER_CAPACITY,
                self.wf(),
                forall|k: int| 0 <= k < i ==> (#[trigger] self.slots@[k]).deep_view() == empty_slot(),
            decreases BUFFER_CAPACITY - i,
        {
            let row = empty_row();
            assert(row.deep_view().len() == ROW_WIDTH);
            self.slots.set(i, row);
            i = i + 1;
        }
        assert(self@ =~= filled(Seq::empty()));
    }

    /// Copies the leading records of `batch` into the slots, one record per
    /// slot from slot 0 on, and returns how many slots were written.
    pub fn fill(&mut self, batch: &Vec<Vec<String>>) -> (written: usize)
        requires
            old(self).wf(),
        ensures
            final(self).wf(),
            final(self)@ == filled(copied(batch.deep_view())),
            written == copied(batch.deep_view()).len(),
            written <= BUFFER_CAPACITY,
    {
        self.clear();
        let max_row = if batch.len() <= BUFFER_CAPACITY {
            batch.len()
        } else {
            BUFFER_CAPACITY
        };
        let ghost records = batch.deep_view();
        let ghost to_slot = |record: Seq<Seq<char>>| slot_of(record);
        let mut row: usize = 0;
        while row < max_row
            invariant
                row <= max_row <= BUFFER_CAPACITY,
                max_row <= batch@.len(),
                records == batch.deep_view(),
                to_slot == |record: Seq<Seq<char>>| slot_of(record),
                self.wf(),
                self@ == filled(records.take(row as int).map_values(to_slot)),
            decreases max_row - row,
        {
            let copy = row_of(&batch[row]);
            assert(copy.deep_view().len() == ROW_WIDTH);
            let ghost before = self@;
            self.slots.set(row, copy);
            proof {
                assert(records[row as int] == batch@[row as int].deep_view());
                let rows = records.take(row + 1).map_values(to_slot);
                assert(rows =~= records.take(row as int).map_values(to_slot).push(
                    slot_of(records[row as int]),
                ));
                assert(rows.drop_last() =~= records.take(row as int).map_values(to_slot));
                lemma_slot_written(before, self@, rows);
            }
            row = row + 1;
        }
        max_row
    }

    /// Keeps the records of `batch` whose key field is in `keys`: clears the
    /// buffer, then copies each such record into the next free slot, in the
    /// order of the batch. It stops as soon as the buffer is full or the rows
    /// written by this call, added to `already_matched`, reach `quota`.
    /// Returns how many rows it wrote.
    pub fn fill_filtered(
        &mut self,
        batch: &Vec<Vec<String>>,
        keys: &KeySet,
        quota: usize,
        already_matched: usize,
    ) -> (written: usize)
        requires
            old(self).wf(),
            keys.wf(),
        ensures
            final(self).wf(),
            final(self)@ == filled(
                kept(batch.deep_view(), keys@, room(quota as nat, already_matched as nat)),
            ),
            written == kept(
                batch.deep_view(),
                keys@,
                room(quota as nat, already_matched as nat),
            ).len(),
            written <= room(quota as nat, already_matched as nat),
    {
        self.clear();
        let limit = room_for(quota, already_matched);
        let ghost records = batch.deep_view();
        let ghost pred = match_pred(keys@);
        let ghost to_slot = |record: Seq<Seq<char>>| slot_of(record);
        let mut count: usize = 0;
        let mut i: usize = 0;
        while i < batch.len() && count < limit
            invariant
                i <= batch@.len(),
                count <= limit <= BUFFER_CAPACITY,
                records == batch.deep_view(),
                pred == match_pred(keys@),
                to_slot == |record: Seq<Seq<char>>| slot_of(record),
                keys.wf(),
                self.wf(),
                count == records.take(i as int).filter(pred).len(),
                self@ == filled(records.take(i as int).filter(pred).map_values(to_slot)),
            decreases batch@.len() - i,
        {
            let record = &batch[i];
            proof {
                assert(records[i as int] == batch@[i as int].deep_view());
                assert(records.take(i + 1) =~= records.take(i as int).push(records[i as int]));
                records.take(i as int).lemma_filter_push(records[i as int], pred);
            }
            if record.len() > KEY_FIELD && keys.contains(&record[KEY_FIELD]) {
                assert(record.deep_view()[KEY_FIELD as int] == record@[KEY_FIELD as int]@);
                assert(pred(records[i as int]));
                let copy = row_of(record);
                assert(copy.deep_view().len() == ROW_WIDTH);
                let ghost before = self@;
                self.slots.set(count, copy);
                proof {
                    let found = records.take(i as int).filter(pred);
                    let rows = records.take(i + 1).filter(pred).map_values(to_slot);
                    assert(rows =~= found.map_values(to_slot).push(slot_of(records[i as int])));
                    assert(rows.drop_last() =~= found.map_values(to_slot));
                    lemma_slot_written(before, self@, rows);
                }
                count = count + 1;
            } else {
                assert(record.len() > KEY_FIELD ==> record.deep_view()[KEY_FIELD as int]
                    == record@[KEY_FIELD as int]@);
                assert(!pred(records[i as int]));
            }
            i = i + 1;
        }
        proof {
            lemma_kept_from_prefix(records, keys@, limit as nat, i as int);
        }
        count
    }

    /// The number of valid rows: the slots from slot 0 up to the first slot
    /// whose first field is empty.
    pub fn valid_rows(&self) -> (n: usize)
        requires
            self.wf(),
        ensures
            is_valid_prefix(self@, n as nat),
            n == valid_len(self@),
            n <= BUFFER_CAPACITY,
    {
        let mut n: usize = 0;
        while n < BUFFER_CAPACITY
            invariant
                n <= BUFFER_CAPACITY,
                self.wf(),
                forall|i: int| 0 <= i < n ==> (#[trigger] self@[i])[0].len() > 0,
            decreases BUFFER_CAPACITY - n,
        {
            assert(self@[n as int][0] == self.slots@[n as int]@[0]@);
            if self.slots[n][0].as_str().is_empty() {
                proof {
                    lemma_valid_len(self@, n as nat);
                }
                return n;
            }
            n = n + 1;
        }
        proof {
            lemma_valid_len(self@, n as nat);
        }
        n
    }

    /// A copy of slot `index`.
    pub fn row(&self, index: usize) -> (fields: Vec<String>)
        requires
            self.wf(),
            index < BUFFER_CAPACITY,
        ensures
            fields.deep_view() == self@[index as int],
    {
        let slot = &self.slots[index];
        let mut fields: Vec<String> = Vec::new();
        let mut j: usize = 0;
        while j < ROW_WIDTH
            invariant
                j <= ROW_WIDTH,
                slot@.len() == ROW_WIDTH,
                fields@.len() == j,
                forall|k: int| 0 <= k < j ==> (#[trigger] fields@[k])@ == slot@[k]@,
            decreases ROW_WIDTH - j,
        {
            fields.push(slot[j].clone());
            j = j + 1;
        }
        assert(fields.deep_view() =~= slot.deep_view());
        fields
    }

    /// The CSV text of the first `n` slots: the bytes of each of them, in
    /// order. The call succeeds exactly where each of these slots can be
    /// written as a CSV record, so always where `n` is 0; otherwise it ends
    /// with the error of the first slot that cannot.
    pub fn encode_rows(&self, n: usize) -> (outcome: Result<Vec<u8>, csv::Error>)
        requires
            self.wf(),
            n <= BUFFER_CAPACITY,
        ensures
            outcome is Ok <==> encodable(self@.take(n as int)),
            outcome matches Ok(bytes) ==> bytes@ == csv_bytes(self@.take(n as int)),
    {
        let mut text: Vec<u8> = Vec::new();
        let mut i: usize = 0;
        while i < n
            invariant
                i <= n <= BUFFER_CAPACITY,
                self.wf(),
                text@ == csv_bytes(self@.take(i as int)),
                encodable(self@.take(i as int)),
            decreases n - i,
        {
            let encoded = encode_record(&self.slots[i]);
            proof {
                assert(self@[i as int] == self.slots@[i as int].deep_view());
                assert(self@.take(n as int)[i as int] == self@[i as int]);
            }
            match take_encoded(&mut text, encoded) {
                Ok(()) => {
                    proof {
                        assert(self@.take(i + 1).drop_last() =~= self@.take(i as int));
                        assert(self@.take(i + 1).last() == self@[i as int]);
                        assert forall|j: int| 0 <= j < i + 1 implies csv_record_outcome(
                            #[trigger] self@.take(i + 1)[j],
                        ) is Some by {
                            if j < i {
                                assert(self@.take(i + 1)[j] == self@.take(i as int)[j]);
                            }
                        }
                    }
                },
                Err(error) => {
                    assert(!encodable(self@.take(n as int)));
                    return Err(error);
                },
            }
            i = i + 1;
        }
        Ok(text)
    }
}

/// Takes the outcome of encoding one row into the text under construction:
/// the bytes of a row are added at its end; an error is handed on and leaves
/// the text as it is.
pub fn take_encoded(text: &mut Vec<u8>, encoded: Result<Vec<u8>, csv::Error>) -> (taken: Result<
    (),
    csv::Error,
>)
    ensures
        encoded matches Ok(bytes) ==> taken == Ok::<(), csv::Error>(()) && final(text)@ == old(text)@
            + bytes@,
        encoded matches Err(error) ==> taken == Err::<(), csv::Error>(error) && final(text)@ == old(
            text,
        )@,
{
    match encoded {
        Ok(mut bytes) => {
            text.append(&mut bytes);
            Ok(())
        },
        Err(error) => Err(error),
    }
}

/// How many rows a fill may write when `already` rows count towards `quota`.
pub fn room_for(quota: usize, already: usize) -> (n: usize)
    ensures
        n == room(quota as nat, already as nat),
        n <= BUFFER_CAPACITY,
{
    if already >= quota {
        0
    } else if quota - already >= BUFFER_CAPACITY {
        BUFFER_CAPACITY
    } else {
        quota - already
    }
}

/// Writing the last of `rows` into the first free slot of a buffer that
/// holds the others gives the buffer that holds `rows`.
proof fn lemma_slot_written(
    before: Seq<Seq<Seq<char>>>,
    after: Seq<Seq<Seq<char>>>,
    rows: Seq<Seq<Seq<char>>>,
)
    requires
        0 < rows.len() <= BUFFER_CAPACITY,
        before == filled(rows.drop_last()),
        after.len() == BUFFER_CAPACITY,
        after[rows.len() - 1] == rows.last(),
        forall|k: int| 0 <= k < BUFFER_CAPACITY && k != rows.len() - 1 ==> after[k] == before[k],
    ensures
        after == filled(rows),
{
    assert forall|k: int| 0 <= k < BUFFER_CAPACITY implies after[k] == filled(rows)[k] by {
        if k < rows.len() - 1 {
            assert(rows.drop_last()[k] == rows[k]);
        }
    }
    assert(after =~= filled(rows));
}

/// Once the matching records among the first `i` fill the limit, or the
/// batch is at its end, the kept rows are those found among the first `i`.
proof fn lemma_kept_from_prefix(
    batch: Seq<Seq<Seq<char>>>,
    keys: Set<Seq<char>>,
    limit: nat,
    i: int,
)
    requires
        0 <= i <= batch.len(),
        batch.take(i).filter(match_pred(keys)).len() <= limit,
        i == batch.len() || batch.take(i).filter(match_pred(keys)).len() == limit,
    ensures
        kept(batch, keys, limit) == batch.take(i).filter(match_pred(keys)).map_values(
            |record: Seq<Seq<char>>| slot_of(record),
        ),
{
    let pred = match_pred(keys);
    let head = batch.take(i).filter(pred);
    let tail = batch.skip(i).filter(pred);
    assert(batch =~= batch.take(i) + batch.skip(i));
    Seq::filter_distributes_over_add(batch.take(i), batch.skip(i), pred);
    assert(batch.filter(pred) == head + tail);
    if i == batch.len() {
        assert(batch.skip(i) =~= Seq::<Seq<Seq<char>>>::empty());
        reveal(Seq::filter);
        assert(tail =~= Seq::<Seq<Seq<char>>>::empty());
        assert(head + tail =~= head);
        assert(head.take(head.len() as int) =~= head);
    } else {
        assert((head + tail).take(limit as int) =~= head);
    }
}

} // verus!
