//! The chunk reader: a CSV source read in batches, the key set and the match
//! buffer of a run, and the run's state.

use crate::buffer::{
    copied, csv_bytes, encodable, filled, is_valid_prefix, kept, lemma_valid_len_of_filled, room,
    valid_len, MatchBuffer, BUFFER_CAPACITY,
};
use crate::codec::read_record;
use crate::engine::{seen_by, Action, Event, Fault, Observation, Phase, Progress, RunError, Todo};
use crate::key_set::KeySet;
use crate::paths::{
    input_csv_path, output_csv_path, spec_input_csv_path, spec_output_csv_path,
};
use vstd::prelude::*;

verus! {

/// The valid rows of the buffer as CSV text.
#[derive(Debug)]
pub struct EncodedRows {
    /// How many rows the text holds.
    pub rows: usize,
    /// The text.
    pub bytes: Vec<u8>,
}

/// Takes the outcome of one read into the batch under construction: a record
/// is added, and `Ok(true)` asks for more; at the end of the stream
/// `Ok(false)` says that the batch is complete; an error is handed on.
pub fn take_outcome(
    lines: &mut Vec<Vec<String>>,
    outcome: Option<Result<Vec<String>, csv::Error>>,
) -> (more: Result<bool, csv::Error>)
    ensures
        outcome matches Some(Ok(record)) ==> more == Ok::<bool, csv::Error>(true) && final(lines)@
            == old(lines)@.push(record),
        outcome is None ==> more == Ok::<bool, csv::Error>(false) && final(lines)@ == old(lines)@,
        outcome matches Some(Err(error)) ==> more == Err::<bool, csv::Error>(error) && final(lines)@
            == old(lines)@,
{
    match outcome {
        Some(Ok(record)) => {
            lines.push(record);
            Ok(true)
        },
        Some(Err(error)) => Err(error),
        None => Ok(false),
    }
}

/// The batch that was gathered, or `None` where no record was.
pub fn finish_chunk(lines: Vec<Vec<String>>) -> (chunk: Option<Result<Vec<Vec<String>>, csv::Error>>)
    ensures
        lines@.len() == 0 ==> chunk is None,
        lines@.len() > 0 ==> chunk == Some(Ok::<Vec<Vec<String>>, csv::Error>(lines)),
{
    if lines.len() == 0 {
        None
    } else {
        Some(Ok(lines))
    }
}

/// A CSV source that is read in batches, with the key set, the match buffer
/// and the state of the run over it.
#[verifier::reject_recursive_types(R)]
pub struct MyCsvChunkReader<R> {
    rdr: csv::Reader<R>,
    chunk_size: usize,
    save_mat: MatchBuffer,
    target_path: String,
    output_path: String,
    filename: String,
    link_id_map: KeySet,
    progress: Progress,
}

impl<R> MyCsvChunkReader<R> {
    /// The CSV source, with its cursor.
    pub closed spec fn source(&self) -> csv::Reader<R> {
        self.rdr
    }

    /// The largest number of records in a batch.
    pub closed spec fn spec_chunk_size(&self) -> usize {
        self.chunk_size
    }

    /// The slots of the match buffer.
    pub closed spec fn buffer(&self) -> Seq<Seq<Seq<char>>> {
        self.save_mat@
    }

    /// The key set.
    pub closed spec fn keys(&self) -> Set<Seq<char>> {
        self.link_id_map@
    }

    /// The state of the run.
    pub closed spec fn spec_progress(&self) -> Progress {
        self.progress
    }

    /// The directory of the archives.
    pub closed spec fn spec_target_path(&self) -> Seq<char> {
        self.target_path@
    }

    /// The directory of the output, with the working directory below it.
    pub closed spec fn spec_output_path(&self) -> Seq<char> {
        self.output_path@
    }

    /// The name of the day's extract.
    pub closed spec fn spec_filename(&self) -> Seq<char> {
        self.filename@
    }

    /// The target quota: the size of the key set times the expected
    /// observations per key.
    pub open spec fn quota(&self) -> nat {
        self.keys().len() * (crate::key_set::OBSERVATIONS_PER_KEY as nat)
    }

    /// The buffer and the key set are well-formed, the quota of the run is
    /// that of the key set, and the run has stayed within it.
    pub closed spec fn wf(&self) -> bool {
        &&& self.save_mat.wf()
        &&& self.link_id_map.wf()
        &&& self.progress.quota == self.link_id_map.spec_quota()
        &&& self.progress.inv()
    }

    /// The same settings and key set. What becomes of the source, of the
    /// buffer and of the run's state is stated apart.
    pub open spec fn same_setup(&self, other: &Self) -> bool {
        &&& self.spec_chunk_size() == other.spec_chunk_size()
        &&& self.keys() == other.keys()
        &&& self.spec_target_path() == other.spec_target_path()
        &&& self.spec_output_path() == other.spec_output_path()
        &&& self.spec_filename() == other.spec_filename()
    }

    /// What `wf` says of the run and the buffer.
    pub proof fn lemma_wf(&self)
        requires
            self.wf(),
        ensures
            self.spec_progress().inv(),
            self.spec_progress().quota == self.quota(),
            self.spec_progress().total <= self.quota(),
            self.keys().finite(),
            self.buffer().len() == BUFFER_CAPACITY,
    {
        self.link_id_map.lemma_finite();
        self.save_mat.lemma_shape();
    }

    /// A reader over `rdr` with an empty key set and no paths.
    pub fn new(rdr: csv::Reader<R>, chunk_size: usize) -> (reader: Self)
        ensures
            reader.wf(),
            reader.source() == rdr,
            reader.spec_chunk_size() == chunk_size,
            reader.buffer() == filled(Seq::empty()),
            reader.keys() == Set::<Seq<char>>::empty(),
            reader.spec_target_path() == Seq::<char>::empty(),
            reader.spec_output_path() == Seq::<char>::empty(),
            reader.spec_filename() == Seq::<char>::empty(),
            reader.spec_progress() == (Progress {
                phase: Phase::Init,
                total: 0,
                pending: 0,
                quota: 0,
            }),
    {
        let link_id_map = KeySet::new();
        proof {
            assert(link_id_map@.len() == 0);
        }
        MyCsvChunkReader {
            rdr,
            chunk_size,
            save_mat: MatchBuffer::new(),
            target_path: String::new(),
            output_path: String::new(),
            filename: String::new(),
            link_id_map,
            progress: Progress::new(0),
        }
    }

    /// A reader over `rdr`, the opened input file of the day `filename`, for
    /// a run that keeps the records of `link_id_map`.
    pub fn new_from_file(
        rdr: csv::Reader<R>,
        target_path: String,
        output_path: String,
        filename: String,
        chunk_size: usize,
        link_id_map: KeySet,
    ) -> (reader: Self)
        requires
            link_id_map.wf(),
            link_id_map.spec_quota() <= usize::MAX,
        ensures
            reader.wf(),
            reader.source() == rdr,
            reader.spec_chunk_size() == chunk_size,
            reader.buffer() == filled(Seq::empty()),
            reader.keys() == link_id_map@,
            reader.spec_target_path() == target_path@,
            reader.spec_output_path() == output_path@,
            reader.spec_filename() == filename@,
            reader.spec_progress() == (Progress {
                phase: Phase::Init,
                total: 0,
                pending: 0,
                quota: link_id_map.spec_quota() as usize,
            }),
    {
        let quota = match link_id_map.quota() {
            Some(quota) => quota,
            None => 0,
        };
        MyCsvChunkReader {
            rdr,
            chunk_size,
            save_mat: MatchBuffer::new(),
            target_path,
            output_path,
            filename,
            link_id_map,
            progress: Progress::new(quota),
        }
    }

    /// Resets every slot of the match buffer to empty strings.
    pub fn clear_save_mat(&mut self)
        requires
            old(self).wf(),
        ensures
            final(self).wf(),
            final(self).same_setup(old(self)),
            final(self).source() == old(self).source(),
            final(self).spec_progress() == old(self).spec_progress(),
            final(self).buffer() == filled(Seq::empty()),
    {
        self.save_mat.clear();
    }

    /// Copies the leading records of `lines` into the match buffer, one
    /// record per slot and no more than the buffer holds, and returns how
    /// many slots were written.
    pub fn fill_mat_from_chunk(&mut self, lines: &Vec<Vec<String>>) -> (written: usize)
        requires
            old(self).wf(),
        ensures
            final(self).wf(),
            final(self).same_setup(old(self)),
            final(self).source() == old(self).source(),
            final(self).spec_progress() == old(self).spec_progress(),
            final(self).buffer() == filled(copied(lines.deep_view())),
            written == copied(lines.deep_view()).len(),
            written <= BUFFER_CAPACITY,
    {
        self.save_mat.fill(lines)
    }

    /// Keeps the records of `lines` whose key field is in the key set:
    /// clears the match buffer, then copies each such record into the next
    /// free slot, in the order of the batch. It stops as soon as the buffer
    /// is full or the rows written by this call, added to `already_matched`,
    /// reach the quota. Returns how many rows it wrote; a record without a
    /// key field is passed over.
    pub fn fill_mat_from_chunk_filtered(
        &mut self,
        lines: &Vec<Vec<String>>,
        already_matched: usize,
    ) -> (written: usize)
        requires
            old(self).wf(),
        ensures
            final(self).wf(),
            final(self).same_setup(old(self)),
            final(self).source() == old(self).source(),
            final(self).spec_progress() == old(self).spec_progress(),
            final(self).buffer() == filled(
                kept(
                    lines.deep_view(),
                    old(self).keys(),
                    room(old(self).quota(), already_matched as nat),
                ),
            ),
            written == kept(
                lines.deep_view(),
                old(self).keys(),
                room(old(self).quota(), already_matched as nat),
            ).len(),
            written <= BUFFER_CAPACITY,
            already_matched + written <= old(self).quota() || written == 0,
            valid_len(final(self).buffer()) <= written,
    {
        let written = self.save_mat.fill_filtered(
            lines,
            &self.link_id_map,
            self.progress.quota,
            already_matched,
        );
        proof {
            lemma_valid_len_of_filled(
                kept(lines.deep_view(), self.keys(), room(self.quota(), already_matched as nat)),
            );
        }
        written
    }

    /// The number of valid rows in the match buffer: the slots from slot 0
    /// up to the first slot whose first field is empty.
    pub fn valid_rows(&self) -> (n: usize)
        requires
            self.wf(),
        ensures
            n == valid_len(self.buffer()),
            is_valid_prefix(self.buffer(), n as nat),
            n <= BUFFER_CAPACITY,
    {
        self.save_mat.valid_rows()
    }

    /// The valid rows of the match buffer as CSV text, to be appended to the
    /// output. `None` where there is no valid row; the text and the number
    /// of its rows where each valid row can be written as a CSV record; the
    /// error of the first that cannot otherwise.
    pub fn save_mat_to_csv(&self) -> (saved: Option<Result<EncodedRows, csv::Error>>)
        requires
            self.wf(),
        ensures
            is_valid_prefix(self.buffer(), valid_len(self.buffer())),
            saved is None <==> valid_len(self.buffer()) == 0,
            saved matches Some(Ok(_)) <==> valid_len(self.buffer()) > 0 && encodable(
                self.buffer().take(valid_len(self.buffer()) as int),
            ),
            saved matches Some(Ok(text)) ==> text.rows == valid_len(self.buffer()) && text.bytes@
                == csv_bytes(self.buffer().take(text.rows as int)),
    {
        let valid_rows = self.save_mat.valid_rows();
        if valid_rows == 0 {
            return None;
        }
        match self.save_mat.encode_rows(valid_rows) {
            Ok(bytes) => Some(Ok(EncodedRows { rows: valid_rows, bytes })),
            Err(error) => Some(Err(error)),
        }
    }

    /// Takes what the caller reports and says what is to be done next.
    ///
    /// A batch that is reported while the run is ready for one is filtered
    /// into the match buffer, with the rows persisted so far counting
    /// towards the quota, and the valid rows that it leaves are turned into
    /// CSV text. Everything else leaves the buffer as it is. The run then
    /// moves as `Progress::next` says.
    pub fn step(&mut self, event: Event) -> (action: Action)
        requires
            old(self).wf(),
        ensures
            final(self).wf(),
            final(self).same_setup(old(self)),
            final(self).buffer() == if old(self).spec_progress().is_ready() {
                match event {
                    Event::Batch(Some(Ok(batch))) => filled(
                        kept(
                            batch.deep_view(),
                            old(self).keys(),
                            room(old(self).quota(), old(self).spec_progress().total as nat),
                        ),
                    ),
                    _ => old(self).buffer(),
                }
            } else {
                old(self).buffer()
            },
            (final(self).spec_progress(), action.todo()) == old(self).spec_progress().next(
                seen_by(event, valid_len(final(self).buffer()), action is Append),
            ),
            action matches Action::ClearOutput(path) ==> path@ == spec_output_csv_path(
                old(self).spec_output_path(),
                old(self).spec_filename(),
            ),
            action matches Action::Finish(path) ==> path@ == spec_input_csv_path(
                old(self).spec_output_path(),
                old(self).spec_filename(),
            ),
            action matches Action::Append { path, bytes, rows } ==> {
                &&& path@ == spec_output_csv_path(
                    old(self).spec_output_path(),
                    old(self).spec_filename(),
                )
                &&& rows == valid_len(final(self).buffer())
                &&& bytes@ == csv_bytes(final(self).buffer().take(rows as int))
            },
            action matches Action::Abort(RunError::Read(error)) ==> event == Event::Batch(
                Some(Err::<Vec<Vec<String>>, csv::Error>(error)),
            ),
            action is Append <==> old(self).spec_progress().is_ready() && (event matches Event::Batch(
                Some(Ok(_)),
            )) && valid_len(final(self).buffer()) > 0 && encodable(
                final(self).buffer().take(valid_len(final(self).buffer()) as int),
            ),
            final(self).source() == old(self).source(),
            final(self).spec_progress().total >= old(self).spec_progress().total,
            final(self).spec_progress().total + final(self).spec_progress().pending <= old(
                self,
            ).quota(),
    {
        let ready = self.progress.phase == Phase::Scanning && self.progress.pending == 0;
        let mut cause: Option<csv::Error> = None;
        let mut text: Option<Vec<u8>> = None;
        let seen = match event {
            Event::Start => Observation::Start,
            Event::OutputCleared => Observation::Cleared,
            Event::Appended => Observation::Appended,
            Event::OutputFailed => Observation::OutputFailed,
            Event::Batch(None) => Observation::EndOfInput,
            Event::Batch(Some(Err(error))) => {
                cause = Some(error);
                Observation::ReadFailed
            },
            Event::Batch(Some(Ok(batch))) => {
                if ready {
                    let total = self.progress.total;
                    let _ = self.fill_mat_from_chunk_filtered(&batch, total);
                    match self.save_mat_to_csv() {
                        None => Observation::NothingToWrite,
                        Some(Ok(encoded)) => {
                            text = Some(encoded.bytes);
                            Observation::Encoded(encoded.rows)
                        },
                        Some(Err(error)) => {
                            cause = Some(error);
                            Observation::EncodeFailed
                        },
                    }
                } else {
                    Observation::NothingToWrite
                }
            },
        };
        let ghost valid = valid_len(self.buffer());
        proof {
            assert(old(self).spec_progress().next(seen) == old(self).spec_progress().next(
                seen_by(event, valid, text is Some),
            ));
        }
        let (progress, todo) = self.progress.advance(seen);
        self.progress = progress;
        match todo {
            Todo::ClearOutput => Action::ClearOutput(self.output_file()),
            Todo::ReadBatch => Action::ReadBatch,
            Todo::Finish => Action::Finish(self.input_file()),
            Todo::Append => match text {
                Some(bytes) => {
                    let rows = self.progress.pending;
                    Action::Append { path: self.output_file(), bytes, rows }
                },
                None => unreached(),
            },
            Todo::Abort(fault) => match fault {
                Fault::Read => match cause {
                    Some(error) => Action::Abort(RunError::Read(error)),
                    None => unreached(),
                },
                Fault::Encode => match cause {
                    Some(error) => Action::Abort(RunError::Encode(error)),
                    None => unreached(),
                },
                Fault::Output => Action::Abort(RunError::Output),
                Fault::OutOfTurn => Action::Abort(RunError::OutOfTurn),
            },
        }
    }

    /// The state of the run.
    pub fn progress(&self) -> (p: Progress)
        ensures
            p == self.spec_progress(),
    {
        self.progress
    }

    /// The largest number of records in a batch.
    pub fn chunk_size(&self) -> (n: usize)
        ensures
            n == self.spec_chunk_size(),
    {
        self.chunk_size
    }

    /// The file that the run writes.
    pub fn output_file(&self) -> (path: String)
        ensures
            path@ == spec_output_csv_path(self.spec_output_path(), self.spec_filename()),
    {
        output_csv_path(self.output_path.as_str(), self.filename.as_str())
    }

    /// The file that the run reads.
    pub fn input_file(&self) -> (path: String)
        ensures
            path@ == spec_input_csv_path(self.spec_output_path(), self.spec_filename()),
    {
        input_csv_path(self.output_path.as_str(), self.filename.as_str())
    }

    /// A copy of slot `index` of the match buffer.
    pub fn row(&self, index: usize) -> (fields: Vec<String>)
        requires
            self.wf(),
            index < BUFFER_CAPACITY,
        ensures
            fields.deep_view() == self.buffer()[index as int],
    {
        self.save_mat.row(index)
    }
}

impl<R: std::io::Read> MyCsvChunkReader<R> {
    /// Reads up to `chunk_size` records. `None` is the end of the stream: no
    /// record could be read. A batch is never empty, and may be shorter than
    /// `chunk_size`. The first record that cannot be read ends the call with
    /// its error.
    pub fn next_chunk(&mut self) -> (chunk: Option<Result<Vec<Vec<String>>, csv::Error>>)
        requires
            old(self).wf(),
        ensures
            final(self).wf(),
            final(self).same_setup(old(self)),
            final(self).buffer() == old(self).buffer(),
            final(self).spec_progress() == old(self).spec_progress(),
            chunk matches Some(Ok(batch)) ==> 1 <= batch@.len() <= old(self).spec_chunk_size(),
            old(self).spec_chunk_size() == 0 ==> chunk is None,
    {
        let mut lines: Vec<Vec<String>> = Vec::new();
        let mut i: usize = 0;
        while i < self.chunk_size
            invariant
                i <= self.chunk_size,
                lines@.len() == i,
                self.wf(),
                self.same_setup(old(self)),
                self.buffer() == old(self).buffer(),
                self.spec_progress() == old(self).spec_progress(),
            decreases self.chunk_size - i,
        {
            let outcome = read_record(&mut self.rdr);
            match take_outcome(&mut lines, outcome) {
                Ok(true) => {},
                Ok(false) => {
                    break;
                },
                Err(error) => {
                    return Some(Err(error));
                },
            }
            i = i + 1;
        }
        finish_chunk(lines)
    }
}

} // verus!
