//! One input row, one output row, and the transform between them.

use vstd::prelude::*;
use vstd::slice::slice_to_vec;
use crate::calendar::{
    date_text_valid, day_of, hour_of, lemma_timestamp_round_trip, minute_of, month_of,
    second_of, time_text_valid, timestamp_of_texts, timestamp_parse, format_timestamp, year_of,
};
use crate::text::{all_ascii, ascii_str, ascii_to_string};
use crate::digits::is_digit;

verus! {

/// The bytes named by a sequence of characters, one byte per character.
pub open spec fn chars_to_bytes(s: Seq<char>) -> Seq<u8> {
    s.map(|i: int, c: char| c as u8)
}

/// Why a file's conversion failed before anything was written.
#[derive(Clone, Copy, Debug, PartialEq, Eq, Structural)]
pub enum ConvertError {
    /// The file holds no header row.
    MissingHeader,
    /// The header row lacks one of the seven required column names.
    MissingColumn,
    /// A data row lacks a field, or a numeric field is not numeric text.
    MalformedRow,
    /// A row's date and time fields do not name a real calendar date and time.
    BadTimestamp,
}

/// One raw input row: the date and time field texts, the four price field
/// texts, and the traded volume.
#[derive(Debug)]
pub struct CsvRecord {
    pub date: Vec<u8>,
    pub time: Vec<u8>,
    pub open: Vec<u8>,
    pub high: Vec<u8>,
    pub low: Vec<u8>,
    pub close: Vec<u8>,
    pub vol: u64,
}

/// One output row: the canonical timestamp and the five numeric fields
/// copied unchanged from the raw row.
#[derive(Debug)]
pub struct ProcessedRecord {
    pub datetime_str: String,
    pub open: Vec<u8>,
    pub high: Vec<u8>,
    pub low: Vec<u8>,
    pub close: Vec<u8>,
    pub vol: u64,
}

impl ProcessedRecord {
    /// The output row that the transform owes for a given raw row.
    pub open spec fn is_transform_of(&self, rec: CsvRecord) -> bool {
        &&& self.datetime_str@ == ascii_str(timestamp_of_texts(rec.date@, rec.time@))
        &&& self.open@ == rec.open@
        &&& self.high@ == rec.high@
        &&& self.low@ == rec.low@
        &&& self.close@ == rec.close@
        &&& self.vol == rec.vol
    }
}

/// Combines a raw row's date and time fields into the canonical
/// `YYYY-MM-DD HH:MM:SS` timestamp and copies the five numeric fields
/// unchanged. Fails exactly when the date and time texts do not name a
/// real calendar date and time of day.
pub fn transform(rec: &CsvRecord) -> (r: Result<ProcessedRecord, ConvertError>)
    ensures
        r.is_ok() <==> (date_text_valid(rec.date@) && time_text_valid(rec.time@)),
        r matches Ok(p) ==> p.is_transform_of(*rec),
        r.is_err() ==> r == Err::<ProcessedRecord, ConvertError>(ConvertError::BadTimestamp),
{
    match format_timestamp(rec.date.as_slice(), rec.time.as_slice()) {
        Some(ts) => {
            proof {
                assert(all_ascii(ts@)) by {
                    assert(forall|i: int|
                        0 <= i < rec.date@.len() ==> is_digit(#[trigger] rec.date@[i]));
                    assert(forall|i: int|
                        0 <= i < rec.time@.len() ==> is_digit(#[trigger] rec.time@[i]));
                    assert(forall|i: int| 0 <= i < ts@.len() ==> #[trigger] ts@[i] < 128) by {
                        assert(ts@ == timestamp_of_texts(rec.date@, rec.time@));
                    }
                }
            }
            let datetime_str = ascii_to_string(ts);
            Ok(
                ProcessedRecord {
                    datetime_str,
                    open: slice_to_vec(rec.open.as_slice()),
                    high: slice_to_vec(rec.high.as_slice()),
                    low: slice_to_vec(rec.low.as_slice()),
                    close: slice_to_vec(rec.close.as_slice()),
                    vol: rec.vol,
                },
            )
        },
        None => Err(ConvertError::BadTimestamp),
    }
}

/// The invariant of an output row: its timestamp string, read back as
/// bytes by an independent parse, names exactly the calendar instant of
/// the raw row's date and time fields.
pub proof fn lemma_processed_timestamp_instant(rec: CsvRecord, p: ProcessedRecord)
    requires
        date_text_valid(rec.date@),
        time_text_valid(rec.time@),
        p.is_transform_of(rec),
    ensures
        timestamp_parse(chars_to_bytes(p.datetime_str@)) == Some(
            (
                year_of(rec.date@),
                month_of(rec.date@),
                day_of(rec.date@),
                hour_of(rec.time@),
                minute_of(rec.time@),
                second_of(rec.time@),
            ),
        ),
{
    let ts = timestamp_of_texts(rec.date@, rec.time@);
    assert(forall|i: int| 0 <= i < rec.date@.len() ==> is_digit(#[trigger] rec.date@[i]));
    assert(forall|i: int| 0 <= i < rec.time@.len() ==> is_digit(#[trigger] rec.time@[i]));
    assert(chars_to_bytes(ascii_str(ts)) =~= ts) by {
        assert(forall|i: int| 0 <= i < ts.len() ==> #[trigger] ts[i] < 128);
    }
    lemma_timestamp_round_trip(rec.date@, rec.time@);
}

} // verus!
