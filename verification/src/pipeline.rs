//! One file's end-to-end conversion, all rows or none: parse the raw
//! rows, transform each, and assemble the column-oriented table.

use vstd::prelude::*;
use crate::calendar::{date_text_valid, time_text_valid, timestamp_of_texts};
use crate::digits::{digits_val, strip_plus};
use crate::parser::{
    col_index, date_name, time_name, open_name, high_name, low_name, close_name, vol_name,
    file_lines, header_ok, parse_file_content, row_fields, row_wf_ix, ColumnIdx,
};
use crate::records::{transform, ConvertError, ProcessedRecord};
use crate::table::{build_table, Table};
use crate::text::ascii_str;

verus! {

/// The positions of the seven required columns, as the header row names
/// them.
pub open spec fn header_index(cols: Seq<Seq<u8>>) -> ColumnIdx {
    ColumnIdx {
        date: col_index(cols, date_name()) as usize,
        time: col_index(cols, time_name()) as usize,
        open: col_index(cols, open_name()) as usize,
        high: col_index(cols, high_name()) as usize,
        low: col_index(cols, low_name()) as usize,
        close: col_index(cols, close_name()) as usize,
        vol: col_index(cols, vol_name()) as usize,
    }
}

/// A data row converts: it is well-formed and its date and time fields
/// name a real calendar date and time of day.
pub open spec fn row_converts(ix: ColumnIdx, fields: Seq<Seq<u8>>) -> bool {
    &&& row_wf_ix(ix, fields)
    &&& date_text_valid(fields[ix.date as int])
    &&& time_text_valid(fields[ix.time as int])
}

/// Row `k` of the table is the transform of data row `k` of the file.
pub open spec fn table_row_matches(t: Table, ix: ColumnIdx, fields: Seq<Seq<u8>>, k: int) -> bool {
    &&& (t.datetime_str@[k])@ == ascii_str(
        timestamp_of_texts(fields[ix.date as int], fields[ix.time as int]),
    )
    &&& (t.open@[k])@ == fields[ix.open as int]
    &&& (t.high@[k])@ == fields[ix.high as int]
    &&& (t.low@[k])@ == fields[ix.low as int]
    &&& (t.close@[k])@ == fields[ix.close as int]
    &&& t.vol@[k] == digits_val(strip_plus(fields[ix.vol as int]))
}

/// Converts one file's bytes into its output table, all rows or none:
/// the header must name the seven columns, every data row must be
/// well-formed and carry a real calendar date and time, and the first
/// failure fails the whole file with its stage's error.
pub fn convert_content(content: &[u8]) -> (r: Result<Table, ConvertError>)
    ensures
        ({
            let lines = file_lines(content@);
            let cols = row_fields(lines[0]);
            let ix = header_index(cols);
            &&& (lines.len() == 0 ==> r == Err::<Table, ConvertError>(ConvertError::MissingHeader))
            &&& (lines.len() > 0 && !header_ok(cols) ==> r == Err::<Table, ConvertError>(
                ConvertError::MissingColumn,
            ))
            &&& (lines.len() > 0 && header_ok(cols) ==> {
                &&& (r.is_ok() <==> (forall|k: int|
                    1 <= k < lines.len() ==> row_converts(ix, row_fields(#[trigger] lines[k]))))
                &&& (r matches Ok(t) ==> t.wf() && t.row_count() == lines.len() - 1 && (forall|
                    k: int,
                |
                    0 <= k < lines.len() - 1 ==> table_row_matches(
                        t,
                        ix,
                        row_fields(#[trigger] lines[k + 1]),
                        k,
                    )))
                &&& (r matches Err(e) ==> (e == ConvertError::MalformedRow || e
                    == ConvertError::BadTimestamp))
                &&& (r == Err::<Table, ConvertError>(ConvertError::MalformedRow) ==> (exists|
                    k: int,
                |
                    1 <= k < lines.len() && !row_wf_ix(ix, row_fields(#[trigger] lines[k]))))
                &&& (r == Err::<Table, ConvertError>(ConvertError::BadTimestamp) ==> (exists|
                    k: int,
                |
                    1 <= k < lines.len() && row_wf_ix(ix, row_fields(#[trigger] lines[k]))
                        && !row_converts(ix, row_fields(lines[k]))))
            })
        }),
{
    let records = match parse_file_content(content) {
        Ok(records) => records,
        Err(e) => {
            return Err(e);
        },
    };
    let ghost lines = file_lines(content@);
    let ghost ix = header_index(row_fields(lines[0]));
    let mut processed: Vec<ProcessedRecord> = Vec::new();
    let mut i: usize = 0;
    while i < records.len()
        invariant
            i <= records@.len(),
            records@.len() == file_lines(content@).len() - 1,
            lines == file_lines(content@),
            file_lines(content@).len() > 0,
            header_ok(row_fields(file_lines(content@)[0])),
            ix == header_index(row_fields(file_lines(content@)[0])),
            forall|k: int|
                1 <= k < file_lines(content@).len() ==> row_wf_ix(
                    ix,
                    row_fields(#[trigger] file_lines(content@)[k]),
                ),
            forall|k: int|
                0 <= k < records@.len() ==> crate::parser::record_matches_row_ix(
                    #[trigger] records@[k],
                    ix,
                    row_fields(file_lines(content@)[k + 1]),
                ),
            processed@.len() == i,
            forall|k: int|
                0 <= k < i ==> (#[trigger] processed@[k]).is_transform_of(records@[k]),
            forall|k: int|
                1 <= k <= i ==> row_converts(ix, row_fields(#[trigger] file_lines(content@)[k])),
        decreases records@.len() - i,
    {
        match transform(&records[i]) {
            Ok(p) => {
                processed.push(p);
            },
            Err(_) => {
                proof {
                    assert(!row_converts(ix, row_fields(lines[i + 1])));
                    assert(row_wf_ix(ix, row_fields(lines[i + 1])));
                }
                return Err(ConvertError::BadTimestamp);
            },
        }
        i += 1;
    }
    let t = build_table(&processed);
    proof {
        assert forall|k: int| 0 <= k < lines.len() - 1 implies table_row_matches(
            t,
            ix,
            row_fields(#[trigger] lines[k + 1]),
            k,
        ) by {
            assert(processed@[k].is_transform_of(records@[k]));
            assert(crate::parser::record_matches_row_ix(records@[k], ix, row_fields(lines[k + 1])));
        }
    }
    Ok(t)
}

} // verus!
