//! Column-oriented assembly of one file's processed rows.

use vstd::prelude::*;
use vstd::slice::slice_to_vec;
use crate::records::ProcessedRecord;

verus! {

/// One file's rows in column-oriented form: the fixed six-column schema
/// (timestamp, open, high, low, close, volume), every column the same
/// length.
#[derive(Debug)]
pub struct Table {
    pub datetime_str: Vec<String>,
    pub open: Vec<Vec<u8>>,
    pub high: Vec<Vec<u8>>,
    pub low: Vec<Vec<u8>>,
    pub close: Vec<Vec<u8>>,
    pub vol: Vec<u64>,
}

impl Table {
    /// Number of rows of the table.
    pub open spec fn row_count(&self) -> nat {
        self.datetime_str@.len()
    }

    /// All six columns have the same length.
    pub open spec fn wf(&self) -> bool {
        &&& self.open@.len() == self.row_count()
        &&& self.high@.len() == self.row_count()
        &&& self.low@.len() == self.row_count()
        &&& self.close@.len() == self.row_count()
        &&& self.vol@.len() == self.row_count()
    }

    /// Row `i` of the table carries exactly the fields of record `i`.
    pub open spec fn matches_records(&self, recs: Seq<ProcessedRecord>) -> bool {
        &&& self.row_count() == recs.len()
        &&& forall|i: int|
            0 <= i < recs.len() ==> (#[trigger] self.datetime_str@[i])@ == recs[i].datetime_str@
        &&& forall|i: int| 0 <= i < recs.len() ==> (#[trigger] self.open@[i])@ == recs[i].open@
        &&& forall|i: int| 0 <= i < recs.len() ==> (#[trigger] self.high@[i])@ == recs[i].high@
        &&& forall|i: int| 0 <= i < recs.len() ==> (#[trigger] self.low@[i])@ == recs[i].low@
        &&& forall|i: int| 0 <= i < recs.len() ==> (#[trigger] self.close@[i])@ == recs[i].close@
        &&& forall|i: int| 0 <= i < recs.len() ==> #[trigger] self.vol@[i] == recs[i].vol
    }
}

/// Assembles all processed rows of one file into one column array per
/// field. Zero rows is a valid input and yields a zero-row table with the
/// fixed schema.
pub fn build_table(records: &Vec<ProcessedRecord>) -> (t: Table)
    ensures
        t.wf(),
        t.matches_records(records@),
{
    let mut t = Table {
        datetime_str: Vec::new(),
        open: Vec::new(),
        high: Vec::new(),
        low: Vec::new(),
        close: Vec::new(),
        vol: Vec::new(),
    };
    let mut i: usize = 0;
    while i < records.len()
        invariant
            i <= records@.len(),
            t.wf(),
            t.row_count() == i,
            t.matches_records(records@.take(i as int)),
        decreases records@.len() - i,
    {
        t.datetime_str.push(records[i].datetime_str.clone());
        t.open.push(slice_to_vec(records[i].open.as_slice()));
        t.high.push(slice_to_vec(records[i].high.as_slice()));
        t.low.push(slice_to_vec(records[i].low.as_slice()));
        t.close.push(slice_to_vec(records[i].close.as_slice()));
        t.vol.push(records[i].vol);
        proof {
            assert(records@.take(i + 1).drop_last() =~= records@.take(i as int));
        }
        i += 1;
    }
    proof {
        assert(records@.take(records@.len() as int) =~= records@);
    }
    t
}

} // verus!
