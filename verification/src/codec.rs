//! Reading and writing CSV records with the `csv` crate.
//!
//! Everything in this file is believed, not proved: Verus reads the contracts
//! and skips the bodies.

use vstd::prelude::*;

verus! {

/// `csv::Reader`, a cursor over the records of a CSV stream. Nothing inside
/// it is visible to proofs.
#[verifier::external_type_specification]
#[verifier::external_body]
#[verifier::reject_recursive_types(R)]
pub struct ExCsvReader<R>(csv::Reader<R>);

/// `csv::Error`, the error of the `csv` crate. Nothing inside it is visible
/// to proofs.
#[verifier::external_type_specification]
#[verifier::external_body]
pub struct ExCsvError(csv::Error);

/// What a fresh `csv::Writer` with the default dialect (comma, quotes where
/// needed, line feed) makes of one record with these fields: the bytes that
/// it writes, or `None` where it refuses the record.
pub uninterp spec fn csv_record_outcome(fields: Seq<Seq<char>>) -> Option<Seq<u8>>;

/// The bytes that are written for one record with these fields; none where
/// the record is refused.
pub open spec fn csv_record_bytes(fields: Seq<Seq<char>>) -> Seq<u8> {
    match csv_record_outcome(fields) {
        Some(bytes) => bytes,
        None => Seq::empty(),
    }
}

/// Reads the next record with `csv::Reader::records` and `next` on the
/// iterator it returns, and hands its fields out as owned strings.
///
/// The outcome depends on the stream behind the reader, so the contract
/// claims nothing about it: `None` is the end of the stream, `Some(Err(_))` a
/// record that could not be read.
#[verifier::external_body]
pub(crate) fn read_record<R: std::io::Read>(reader: &mut csv::Reader<R>) -> (outcome: Option<
    Result<Vec<String>, csv::Error>,
>) {
    match reader.records().next() {
        Some(Ok(record)) => Some(Ok(record.iter().map(|field| field.to_string()).collect())),
        Some(Err(error)) => Some(Err(error)),
        None => None,
    }
}

/// Writes one record with `csv::Writer::write_record` into a fresh writer
/// over a byte vector, built by `csv::WriterBuilder` without headers, and
/// flushes it with `csv::Writer::flush`.
///
/// The contract claims that whether the call succeeds, and the bytes of a
/// successful call, are a function of the fields alone, and names that
/// function. It does not claim that the call succeeds.
#[verifier::external_body]
pub(crate) fn encode_record(fields: &Vec<String>) -> (outcome: Result<Vec<u8>, csv::Error>)
    ensures
        outcome is Ok <==> csv_record_outcome(fields.deep_view()) is Some,
        outcome matches Ok(bytes) ==> csv_record_outcome(fields.deep_view()) == Some(bytes@),
{
    let mut bytes = Vec::new();
    {
        let mut writer = csv::WriterBuilder::new().has_headers(false).from_writer(&mut bytes);
        writer.write_record(fields.iter())?;
        writer.flush()?;
    }
    Ok(bytes)
}

} // verus!
