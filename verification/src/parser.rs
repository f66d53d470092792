//! The fixed-layout input text: lines, comma-separated fields, the header
//! row with its seven required column names, and whole-file parsing into
//! raw records.

use vstd::prelude::*;
use vstd::slice::slice_to_vec;
use crate::digits::{all_digits, digits_val, strip_plus};
use crate::records::{ConvertError, CsvRecord};
use crate::text::is_price_text;

verus! {

/// Fields of a byte text split on a separator: the maximal runs between
/// separators, in order; always one more field than separators.
pub open spec fn split_bytes(s: Seq<u8>, sep: u8) -> Seq<Seq<u8>>
    decreases s.len(),
{
    if s.len() == 0 {
        seq![Seq::<u8>::empty()]
    } else if s[0] == sep {
        seq![Seq::<u8>::empty()] + split_bytes(s.skip(1), sep)
    } else {
        let rest = split_bytes(s.skip(1), sep);
        seq![seq![s[0]] + rest[0]] + rest.skip(1)
    }
}

/// A text without the separator splits into the one field that is the
/// whole text.
proof fn lemma_split_no_sep(a: Seq<u8>, sep: u8)
    requires
        forall|k: int| 0 <= k < a.len() ==> a[k] != sep,
    ensures
        split_bytes(a, sep) == seq![a],
    decreases a.len(),
{
    if a.len() > 0 {
        lemma_split_no_sep(a.skip(1), sep);
        assert(seq![a[0]] + a.skip(1) =~= a);
        assert(split_bytes(a.skip(1), sep) == seq![a.skip(1)]);
        assert(seq![a.skip(1)].skip(1) =~= Seq::<Seq<u8>>::empty());
        assert(split_bytes(a, sep) =~= seq![a]);
    } else {
        assert(a =~= Seq::<u8>::empty());
        assert(split_bytes(a, sep) =~= seq![a]);
    }
}

/// Each element of the deep view of a vector of byte vectors is that
/// element's own view.
proof fn lemma_deep_view_elems(v: Vec<Vec<u8>>)
    ensures
        v.deep_view().len() == v@.len(),
        forall|i: int| 0 <= i < v@.len() ==> #[trigger] v.deep_view()[i] == v@[i]@,
{
    assert forall|i: int| 0 <= i < v@.len() implies #[trigger] v.deep_view()[i] == v@[i]@ by {
        assert(v.deep_view()[i] =~= v@[i]@);
    }
}

/// Splitting a text that starts with a separator-free field, the separator,
/// and a remainder yields that field and then the split of the remainder.
proof fn lemma_split_sep_prefix(a: Seq<u8>, b: Seq<u8>, sep: u8)
    requires
        forall|k: int| 0 <= k < a.len() ==> a[k] != sep,
    ensures
        split_bytes(a + seq![sep] + b, sep) == seq![a] + split_bytes(b, sep),
    decreases a.len(),
{
    let s = a + seq![sep] + b;
    if a.len() == 0 {
        assert(s[0] == sep);
        assert(s.skip(1) =~= b);
        assert(a =~= Seq::<u8>::empty());
        assert(split_bytes(s, sep) =~= seq![a] + split_bytes(b, sep));
    } else {
        assert(s[0] == a[0]);
        assert(a[0] != sep);
        assert(s.skip(1) =~= a.skip(1) + seq![sep] + b);
        lemma_split_sep_prefix(a.skip(1), b, sep);
        let rest = split_bytes(s.skip(1), sep);
        assert(rest == seq![a.skip(1)] + split_bytes(b, sep));
        assert(rest[0] == a.skip(1));
        assert(seq![s[0]] + rest[0] =~= a);
        assert(rest.skip(1) =~= split_bytes(b, sep));
        assert(split_bytes(s, sep) =~= seq![a] + split_bytes(b, sep));
    }
}

/// Splits a byte text on a separator byte.
pub fn split_bytes_exec(s: &[u8], sep: u8) -> (r: Vec<Vec<u8>>)
    ensures
        r.deep_view() == split_bytes(s@, sep),
{
    let mut res: Vec<Vec<u8>> = Vec::new();
    let mut cur: Vec<u8> = Vec::new();
    let mut i: usize = 0;
    proof {
        assert(cur@ + s@.skip(0) =~= s@);
        assert(res.deep_view() + split_bytes(s@, sep) =~= split_bytes(s@, sep));
    }
    while i < s.len()
        invariant
            i <= s@.len(),
            forall|k: int| 0 <= k < cur@.len() ==> cur@[k] != sep,
            split_bytes(s@, sep) == res.deep_view() + split_bytes(
                cur@ + s@.skip(i as int),
                sep,
            ),
        decreases s@.len() - i,
    {
        let b = s[i];
        if b == sep {
            proof {
                assert(cur@ + s@.skip(i as int) =~= cur@ + seq![sep] + s@.skip(i + 1));
                lemma_split_sep_prefix(cur@, s@.skip(i + 1), sep);
            }
            let ghost old_res = res.deep_view();
            let ghost old_cur = cur@;
            res.push(cur);
            cur = Vec::new();
            proof {
                assert(res.deep_view() =~~= old_res + seq![old_cur]);
                assert(cur@ + s@.skip(i + 1) =~= s@.skip(i + 1));
                assert(old_res + (seq![old_cur] + split_bytes(s@.skip(i + 1), sep)) =~= (old_res
                    + seq![old_cur]) + split_bytes(s@.skip(i + 1), sep));
            }
        } else {
            proof {
                assert(cur@.push(b) + s@.skip(i + 1) =~= cur@ + s@.skip(i as int));
            }
            cur.push(b);
        }
        i += 1;
    }
    proof {
        assert(cur@ + s@.skip(s@.len() as int) =~= cur@);
        lemma_split_no_sep(cur@, sep);
    }
    let ghost old_res = res.deep_view();
    let ghost old_cur = cur@;
    res.push(cur);
    proof {
        assert(res.deep_view() =~~= old_res + seq![old_cur]);
    }
    res
}

/// A line stripped of one trailing carriage return (`13`), if any.
pub open spec fn trim_cr(l: Seq<u8>) -> Seq<u8> {
    if l.len() > 0 && l.last() == 13 {
        l.drop_last()
    } else {
        l
    }
}

/// The meaningful lines of a file: each line stripped of a trailing
/// carriage return, blank lines dropped.
pub open spec fn tidy_lines(ls: Seq<Seq<u8>>) -> Seq<Seq<u8>>
    decreases ls.len(),
{
    if ls.len() == 0 {
        Seq::empty()
    } else {
        let t = trim_cr(ls[0]);
        if t.len() == 0 {
            tidy_lines(ls.skip(1))
        } else {
            seq![t] + tidy_lines(ls.skip(1))
        }
    }
}

/// Tidying a concatenation tidies each part.
proof fn lemma_tidy_append(a: Seq<Seq<u8>>, b: Seq<Seq<u8>>)
    ensures
        tidy_lines(a + b) == tidy_lines(a) + tidy_lines(b),
    decreases a.len(),
{
    if a.len() == 0 {
        assert(a + b =~= b);
        assert(tidy_lines(a) + tidy_lines(b) =~= tidy_lines(b));
    } else {
        assert((a + b).len() > 0);
        assert((a + b)[0] == a[0]);
        assert((a + b).skip(1) =~= a.skip(1) + b);
        lemma_tidy_append(a.skip(1), b);
        let t = trim_cr(a[0]);
        if t.len() == 0 {
            assert(tidy_lines(a + b) == tidy_lines(a.skip(1)) + tidy_lines(b));
        } else {
            assert(seq![t] + (tidy_lines(a.skip(1)) + tidy_lines(b)) =~= (seq![t] + tidy_lines(
                a.skip(1),
            )) + tidy_lines(b));
        }
    }
}

/// The meaningful lines of a whole file's bytes: the newline-split
/// (`10`) lines, tidied.
pub open spec fn file_lines(content: Seq<u8>) -> Seq<Seq<u8>> {
    tidy_lines(split_bytes(content, 10))
}

/// Strips trailing carriage returns and drops blank lines.
pub fn tidy_lines_exec(raw: &Vec<Vec<u8>>) -> (r: Vec<Vec<u8>>)
    ensures
        r.deep_view() == tidy_lines(raw.deep_view()),
{
    let mut out: Vec<Vec<u8>> = Vec::new();
    let mut i: usize = 0;
    while i < raw.len()
        invariant
            i <= raw@.len(),
            out.deep_view() == tidy_lines(raw.deep_view().take(i as int)),
        decreases raw@.len() - i,
    {
        let mut line = slice_to_vec(raw[i].as_slice());
        proof {
            assert(raw.deep_view()[i as int] =~= raw@[i as int]@);
        }
        if line.len() > 0 && line[line.len() - 1] == 13 {
            line.pop();
            proof {
                assert(line@ =~= trim_cr(raw.deep_view()[i as int]));
            }
        }
        proof {
            assert(line@ == trim_cr(raw.deep_view()[i as int]));
        }
        let ghost old_out = out.deep_view();
        if line.len() > 0 {
            out.push(line);
            proof {
                assert(out.deep_view() =~~= old_out + seq![trim_cr(raw.deep_view()[i as int])]);
            }
        }
        proof {
            let dv = raw.deep_view();
            assert(dv.take(i + 1) =~= dv.take(i as int) + seq![dv[i as int]]);
            lemma_tidy_append(dv.take(i as int), seq![dv[i as int]]);
            assert(seq![dv[i as int]].skip(1) =~= Seq::<Seq<u8>>::empty());
            assert(tidy_lines(Seq::<Seq<u8>>::empty()) =~= Seq::<Seq<u8>>::empty());
            let t = trim_cr(dv[i as int]);
            if t.len() == 0 {
                assert(tidy_lines(seq![dv[i as int]]) =~= Seq::<Seq<u8>>::empty());
                assert(out.deep_view() =~= tidy_lines(dv.take(i + 1)));
            } else {
                assert(tidy_lines(seq![dv[i as int]]) =~= seq![t]);
                assert(out.deep_view() =~= tidy_lines(dv.take(i + 1)));
            }
        }
        i += 1;
    }
    proof {
        assert(raw.deep_view().take(raw@.len() as int) =~= raw.deep_view());
    }
    out
}

/// The `<DATE>` column name.
pub open spec fn date_name() -> Seq<u8> {
    seq![60u8, 68u8, 65u8, 84u8, 69u8, 62u8]
}

/// The `<TIME>` column name.
pub open spec fn time_name() -> Seq<u8> {
    seq![60u8, 84u8, 73u8, 77u8, 69u8, 62u8]
}

/// The `<OPEN>` column name.
pub open spec fn open_name() -> Seq<u8> {
    seq![60u8, 79u8, 80u8, 69u8, 78u8, 62u8]
}

/// The `<HIGH>` column name.
pub open spec fn high_name() -> Seq<u8> {
    seq![60u8, 72u8, 73u8, 71u8, 72u8, 62u8]
}

/// The `<LOW>` column name.
pub open spec fn low_name() -> Seq<u8> {
    seq![60u8, 76u8, 79u8, 87u8, 62u8]
}

/// The `<CLOSE>` column name.
pub open spec fn close_name() -> Seq<u8> {
    seq![60u8, 67u8, 76u8, 79u8, 83u8, 69u8, 62u8]
}

/// The `<VOL>` column name.
pub open spec fn vol_name() -> Seq<u8> {
    seq![60u8, 86u8, 79u8, 76u8, 62u8]
}

/// Index of the first column equal to `name`, or `-1` when absent.
pub open spec fn col_index(cols: Seq<Seq<u8>>, name: Seq<u8>) -> int
    decreases cols.len(),
{
    if cols.len() == 0 {
        -1
    } else if cols[0] == name {
        0
    } else {
        let r = col_index(cols.skip(1), name);
        if r < 0 {
            -1
        } else {
            1 + r
        }
    }
}

/// A found column index lies in range and points at the name.
pub proof fn lemma_col_index_props(cols: Seq<Seq<u8>>, name: Seq<u8>)
    ensures
        -1 <= col_index(cols, name) < cols.len(),
        col_index(cols, name) >= 0 ==> cols[col_index(cols, name)] == name,
    decreases cols.len(),
{
    if cols.len() > 0 && cols[0] != name {
        lemma_col_index_props(cols.skip(1), name);
    }
}

/// If the first `i` columns differ from the name and column `i` (when it
/// exists) carries it, the first match is exactly there (or absent).
proof fn lemma_col_index_at(cols: Seq<Seq<u8>>, name: Seq<u8>, i: int)
    requires
        0 <= i <= cols.len(),
        forall|k: int| 0 <= k < i ==> cols[k] != name,
        i < cols.len() ==> cols[i] == name,
    ensures
        i < cols.len() ==> col_index(cols, name) == i,
        i == cols.len() ==> col_index(cols, name) == -1,
    decreases i,
{
    if cols.len() == 0 {
    } else if i == 0 {
        if cols.len() > 0 && cols[0] != name {
            lemma_col_index_props(cols.skip(1), name);
        }
    } else {
        assert(cols[0] != name);
        assert(forall|k: int| 0 <= k < i - 1 ==> cols.skip(1)[k] != name);
        assert(i - 1 < cols.skip(1).len() ==> cols.skip(1)[i - 1] == name);
        lemma_col_index_at(cols.skip(1), name, i - 1);
    }
}

/// Whether two byte texts are equal.
pub fn bytes_eq(a: &[u8], b: &[u8]) -> (r: bool)
    ensures
        r == (a@ == b@),
{
    if a.len() != b.len() {
        return false;
    }
    let mut i: usize = 0;
    while i < a.len()
        invariant
            i <= a@.len(),
            a@.len() == b@.len(),
            forall|k: int| 0 <= k < i ==> a@[k] == b@[k],
        decreases a@.len() - i,
    {
        if a[i] != b[i] {
            return false;
        }
        i += 1;
    }
    proof {
        assert(a@ =~= b@);
    }
    true
}

/// Finds the first column carrying the given name.
pub fn find_col(cols: &Vec<Vec<u8>>, name: &[u8]) -> (r: Option<usize>)
    ensures
        r matches Some(j) ==> j == col_index(cols.deep_view(), name@) && j < cols@.len(),
        r.is_none() ==> col_index(cols.deep_view(), name@) == -1,
{
    let mut i: usize = 0;
    while i < cols.len()
        invariant
            i <= cols@.len(),
            forall|k: int| 0 <= k < i ==> cols.deep_view()[k] != name@,
        decreases cols@.len() - i,
    {
        if bytes_eq(cols[i].as_slice(), name) {
            proof {
                assert(cols.deep_view()[i as int] =~= cols@[i as int]@);
                lemma_col_index_at(cols.deep_view(), name@, i as int);
            }
            return Some(i);
        }
        proof {
            assert(cols.deep_view()[i as int] =~= cols@[i as int]@);
        }
        i += 1;
    }
    proof {
        lemma_col_index_at(cols.deep_view(), name@, cols@.len() as int);
    }
    None
}

/// Positions of the seven required columns in one file's header row.
#[derive(Clone, Copy, Debug)]
pub struct ColumnIdx {
    pub date: usize,
    pub time: usize,
    pub open: usize,
    pub high: usize,
    pub low: usize,
    pub close: usize,
    pub vol: usize,
}

/// The header row carries all seven required column names.
pub open spec fn header_ok(cols: Seq<Seq<u8>>) -> bool {
    &&& col_index(cols, date_name()) >= 0
    &&& col_index(cols, time_name()) >= 0
    &&& col_index(cols, open_name()) >= 0
    &&& col_index(cols, high_name()) >= 0
    &&& col_index(cols, low_name()) >= 0
    &&& col_index(cols, close_name()) >= 0
    &&& col_index(cols, vol_name()) >= 0
}

impl ColumnIdx {
    /// These indices are exactly the first positions of the seven names.
    pub open spec fn matches_header(&self, cols: Seq<Seq<u8>>) -> bool {
        &&& self.date == col_index(cols, date_name())
        &&& self.time == col_index(cols, time_name())
        &&& self.open == col_index(cols, open_name())
        &&& self.high == col_index(cols, high_name())
        &&& self.low == col_index(cols, low_name())
        &&& self.close == col_index(cols, close_name())
        &&& self.vol == col_index(cols, vol_name())
    }
}

/// Locates the seven required columns in the header row's fields; fails
/// exactly when one of the names is absent.
pub fn parse_header(fields: &Vec<Vec<u8>>) -> (r: Result<ColumnIdx, ConvertError>)
    ensures
        r.is_ok() <==> header_ok(fields.deep_view()),
        r matches Ok(ix) ==> ix.matches_header(fields.deep_view()),
        r.is_err() ==> r == Err::<ColumnIdx, ConvertError>(ConvertError::MissingColumn),
{
    let nd: Vec<u8> = vec![60, 68, 65, 84, 69, 62];
    let nt: Vec<u8> = vec![60, 84, 73, 77, 69, 62];
    let no: Vec<u8> = vec![60, 79, 80, 69, 78, 62];
    let nh: Vec<u8> = vec![60, 72, 73, 71, 72, 62];
    let nl: Vec<u8> = vec![60, 76, 79, 87, 62];
    let nc: Vec<u8> = vec![60, 67, 76, 79, 83, 69, 62];
    let nv: Vec<u8> = vec![60, 86, 79, 76, 62];
    proof {
        assert(nd@ =~= date_name());
        assert(nt@ =~= time_name());
        assert(no@ =~= open_name());
        assert(nh@ =~= high_name());
        assert(nl@ =~= low_name());
        assert(nc@ =~= close_name());
        assert(nv@ =~= vol_name());
    }
    let date = match find_col(fields, nd.as_slice()) {
        Some(j) => j,
        None => {
            return Err(ConvertError::MissingColumn);
        },
    };
    let time = match find_col(fields, nt.as_slice()) {
        Some(j) => j,
        None => {
            return Err(ConvertError::MissingColumn);
        },
    };
    let open = match find_col(fields, no.as_slice()) {
        Some(j) => j,
        None => {
            return Err(ConvertError::MissingColumn);
        },
    };
    let high = match find_col(fields, nh.as_slice()) {
        Some(j) => j,
        None => {
            return Err(ConvertError::MissingColumn);
        },
    };
    let low = match find_col(fields, nl.as_slice()) {
        Some(j) => j,
        None => {
            return Err(ConvertError::MissingColumn);
        },
    };
    let close = match find_col(fields, nc.as_slice()) {
        Some(j) => j,
        None => {
            return Err(ConvertError::MissingColumn);
        },
    };
    let vol = match find_col(fields, nv.as_slice()) {
        Some(j) => j,
        None => {
            return Err(ConvertError::MissingColumn);
        },
    };
    Ok(ColumnIdx { date, time, open, high, low, close, vol })
}

/// A volume field: non-empty digit text, one optional leading plus sign,
/// whose value fits in `u64`.
pub open spec fn vol_text_ok(f: Seq<u8>) -> bool {
    let b = strip_plus(f);
    b.len() > 0 && all_digits(b) && digits_val(b) <= u64::MAX
}

/// A data row has every required column present, well-formed price text in
/// the four price columns, and a well-formed volume field.
pub open spec fn row_wf_ix(ix: ColumnIdx, fields: Seq<Seq<u8>>) -> bool {
    &&& ix.date < fields.len()
    &&& ix.time < fields.len()
    &&& ix.open < fields.len()
    &&& ix.high < fields.len()
    &&& ix.low < fields.len()
    &&& ix.close < fields.len()
    &&& ix.vol < fields.len()
    &&& is_price_text(fields[ix.open as int])
    &&& is_price_text(fields[ix.high as int])
    &&& is_price_text(fields[ix.low as int])
    &&& is_price_text(fields[ix.close as int])
    &&& vol_text_ok(fields[ix.vol as int])
}

/// The record copies each field of the row from its named column.
pub open spec fn record_matches_row_ix(rec: CsvRecord, ix: ColumnIdx, fields: Seq<Seq<u8>>) -> bool {
    &&& rec.date@ == fields[ix.date as int]
    &&& rec.time@ == fields[ix.time as int]
    &&& rec.open@ == fields[ix.open as int]
    &&& rec.high@ == fields[ix.high as int]
    &&& rec.low@ == fields[ix.low as int]
    &&& rec.close@ == fields[ix.close as int]
    &&& rec.vol == digits_val(strip_plus(fields[ix.vol as int]))
}

/// Reads one data row's fields into a raw record; `None` exactly when a
/// required column is missing from the row or a numeric field is malformed.
pub fn parse_row(fields: &Vec<Vec<u8>>, ix: &ColumnIdx) -> (r: Option<CsvRecord>)
    ensures
        r.is_some() <==> row_wf_ix(*ix, fields.deep_view()),
        r matches Some(rec) ==> record_matches_row_ix(rec, *ix, fields.deep_view()),
{
    proof {
        lemma_deep_view_elems(*fields);
    }
    let n = fields.len();
    if ix.date >= n || ix.time >= n || ix.open >= n || ix.high >= n || ix.low >= n || ix.close >= n
        || ix.vol >= n {
        return None;
    }
    if !crate::text::check_price_text(fields[ix.open].as_slice()) {
        return None;
    }
    if !crate::text::check_price_text(fields[ix.high].as_slice()) {
        return None;
    }
    if !crate::text::check_price_text(fields[ix.low].as_slice()) {
        return None;
    }
    if !crate::text::check_price_text(fields[ix.close].as_slice()) {
        return None;
    }
    let vol_field = fields[ix.vol].as_slice();
    let vol_digits: &[u8] = if vol_field.len() > 0 && vol_field[0] == 43 {
        vstd::slice::slice_subrange(vol_field, 1, vol_field.len())
    } else {
        vol_field
    };
    proof {
        assert(vol_digits@ =~= strip_plus(fields.deep_view()[ix.vol as int]));
    }
    let vol = match crate::digits::parse_u64(vol_digits) {
        Some(v) => v,
        None => {
            return None;
        },
    };
    Some(
        CsvRecord {
            date: slice_to_vec(fields[ix.date].as_slice()),
            time: slice_to_vec(fields[ix.time].as_slice()),
            open: slice_to_vec(fields[ix.open].as_slice()),
            high: slice_to_vec(fields[ix.high].as_slice()),
            low: slice_to_vec(fields[ix.low].as_slice()),
            close: slice_to_vec(fields[ix.close].as_slice()),
            vol,
        },
    )
}

/// Comma-separated (`44`) fields of one line.
pub open spec fn row_fields(line: Seq<u8>) -> Seq<Seq<u8>> {
    split_bytes(line, 44)
}

/// Reads a whole file's bytes into raw records, all rows or none:
/// the first meaningful line is the header naming the seven columns, every
/// further meaningful line is a data row, and the first malformed row fails
/// the whole file.
pub fn parse_file_content(content: &[u8]) -> (r: Result<Vec<CsvRecord>, ConvertError>)
    ensures
        ({
            let lines = file_lines(content@);
            let cols = row_fields(lines[0]);
            &&& (lines.len() == 0 ==> r == Err::<Vec<CsvRecord>, ConvertError>(
                ConvertError::MissingHeader,
            ))
            &&& (lines.len() > 0 && !header_ok(cols) ==> r == Err::<Vec<CsvRecord>, ConvertError>(
                ConvertError::MissingColumn,
            ))
            &&& (lines.len() > 0 && header_ok(cols) ==> {
                let ix = ColumnIdx {
                    date: col_index(cols, date_name()) as usize,
                    time: col_index(cols, time_name()) as usize,
                    open: col_index(cols, open_name()) as usize,
                    high: col_index(cols, high_name()) as usize,
                    low: col_index(cols, low_name()) as usize,
                    close: col_index(cols, close_name()) as usize,
                    vol: col_index(cols, vol_name()) as usize,
                };
                &&& (r.is_ok() <==> (forall|k: int|
                    1 <= k < lines.len() ==> row_wf_ix(ix, row_fields(#[trigger] lines[k]))))
                &&& (r matches Ok(recs) ==> recs@.len() == lines.len() - 1 && (forall|k: int|
                    0 <= k < recs@.len() ==> record_matches_row_ix(
                        recs@[k],
                        ix,
                        row_fields(lines[k + 1]),
                    )))
                &&& (r.is_err() ==> r == Err::<Vec<CsvRecord>, ConvertError>(
                    ConvertError::MalformedRow,
                ))
            })
        }),
{
    let raw_lines = split_bytes_exec(content, 10);
    let lines = tidy_lines_exec(&raw_lines);
    if lines.len() == 0 {
        return Err(ConvertError::MissingHeader);
    }
    let header_fields = split_bytes_exec(lines[0].as_slice(), 44);
    proof {
        assert(lines@[0]@ =~= lines.deep_view()[0]);
        assert(header_fields.deep_view() == row_fields(file_lines(content@)[0]));
    }
    let ix = match parse_header(&header_fields) {
        Ok(ix) => ix,
        Err(e) => {
            return Err(e);
        },
    };
    let mut records: Vec<CsvRecord> = Vec::new();
    let mut i: usize = 1;
    while i < lines.len()
        invariant
            1 <= i <= lines@.len(),
            lines.deep_view() == file_lines(content@),
            ix.matches_header(row_fields(lines.deep_view()[0])),
            header_ok(row_fields(lines.deep_view()[0])),
            records@.len() == i - 1,
            forall|k: int|
                1 <= k < i ==> row_wf_ix(ix, row_fields(#[trigger] lines.deep_view()[k])),
            forall|k: int|
                0 <= k < i - 1 ==> record_matches_row_ix(
                    #[trigger] records@[k],
                    ix,
                    row_fields(lines.deep_view()[k + 1]),
                ),
        decreases lines@.len() - i,
    {
        let fields = split_bytes_exec(lines[i].as_slice(), 44);
        proof {
            assert(lines@[i as int]@ =~= lines.deep_view()[i as int]);
            assert(fields.deep_view() == row_fields(lines.deep_view()[i as int]));
        }
        match parse_row(&fields, &ix) {
            Some(rec) => {
                records.push(rec);
            },
            None => {
                proof {
                    assert(!row_wf_ix(ix, row_fields(lines.deep_view()[i as int])));
                }
                return Err(ConvertError::MalformedRow);
            },
        }
        i += 1;
    }
    Ok(records)
}

} // verus!
