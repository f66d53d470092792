//! The batch run's decisions: which files are convertible, the output
//! naming rule, worker-pool sizing, output-directory cleanup, and the
//! success/failure tally.

use vstd::prelude::*;
use vstd::slice::slice_to_vec;

verus! {

/// Index of the last occurrence of a byte, or `-1` when absent.
pub open spec fn last_index_of(s: Seq<u8>, b: u8) -> int
    decreases s.len(),
{
    if s.len() == 0 {
        -1
    } else if s.last() == b {
        s.len() - 1
    } else {
        last_index_of(s.drop_last(), b)
    }
}

/// A found last index lies in range, points at the byte, and nothing
/// after it carries the byte.
pub proof fn lemma_last_index_props(s: Seq<u8>, b: u8)
    ensures
        -1 <= last_index_of(s, b) < s.len(),
        last_index_of(s, b) >= 0 ==> s[last_index_of(s, b)] == b,
        forall|k: int| last_index_of(s, b) < k < s.len() ==> s[k] != b,
    decreases s.len(),
{
    if s.len() > 0 {
        if s.last() == b {
            assert(s[s.len() - 1] == s.last());
        } else {
            lemma_last_index_props(s.drop_last(), b);
            assert(s.drop_last().len() == s.len() - 1);
            assert forall|k: int| last_index_of(s, b) < k < s.len() implies s[k] != b by {
                if k < s.len() - 1 {
                    assert(s[k] == s.drop_last()[k]);
                } else {
                    assert(s[k] == s.last());
                }
            }
            if last_index_of(s, b) >= 0 {
                assert(s[last_index_of(s, b)] == s.drop_last()[last_index_of(s, b)]);
            }
        }
    }
}

/// The last occurrence is where nothing later matches and the place
/// itself does (or nothing matches at all).
proof fn lemma_last_index_at(s: Seq<u8>, b: u8, i: int)
    requires
        -1 <= i < s.len(),
        i >= 0 ==> s[i] == b,
        forall|k: int| i < k < s.len() ==> s[k] != b,
    ensures
        last_index_of(s, b) == i,
    decreases s.len(),
{
    if s.len() > 0 {
        if i == s.len() - 1 {
        } else {
            assert(s.last() != b);
            assert(forall|k: int|
                0 <= k < s.len() - 1 ==> #[trigger] s.drop_last()[k] == s[k]);
            lemma_last_index_at(s.drop_last(), b, i);
        }
    }
}

/// Finds the last occurrence of a byte in a text.
pub fn find_last_byte(s: &[u8], b: u8) -> (r: Option<usize>)
    ensures
        r matches Some(j) ==> j == last_index_of(s@, b),
        r.is_none() ==> last_index_of(s@, b) == -1,
{
    let mut j: usize = s.len();
    while j > 0
        invariant
            j <= s@.len(),
            forall|k: int| j <= k < s@.len() ==> s@[k] != b,
        decreases j,
    {
        j -= 1;
        if s[j] == b {
            proof {
                lemma_last_index_at(s@, b, j as int);
            }
            return Some(j);
        }
    }
    proof {
        lemma_last_index_at(s@, b, -1);
    }
    None
}

/// The file name has an extension: a dot (`46`) after its first byte.
pub open spec fn has_extension(name: Seq<u8>) -> bool {
    last_index_of(name, 46) >= 1
}

/// Text after the last dot of a file name.
pub open spec fn ext_of(name: Seq<u8>) -> Seq<u8> {
    name.skip(last_index_of(name, 46) + 1)
}

/// The file name's stem: what stands before the last dot, or the whole
/// name when there is no extension.
pub open spec fn stem_of(name: Seq<u8>) -> Seq<u8> {
    if has_extension(name) {
        name.take(last_index_of(name, 46))
    } else {
        name
    }
}

/// The input extension `txt`.
pub open spec fn txt_ext() -> Seq<u8> {
    seq![116u8, 120u8, 116u8]
}

/// The output extension `parquet`.
pub open spec fn parquet_ext() -> Seq<u8> {
    seq![112u8, 97u8, 114u8, 113u8, 117u8, 101u8, 116u8]
}

/// A convertible input file: its extension equals `txt`, case-sensitively.
pub open spec fn is_txt_name(name: Seq<u8>) -> bool {
    has_extension(name) && ext_of(name) == txt_ext()
}

/// The output file name owed to an input file: `<stem>.parquet`.
pub open spec fn output_name_of(name: Seq<u8>) -> Seq<u8> {
    stem_of(name) + seq![46u8] + parquet_ext()
}

/// Whether a file name carries the convertible input extension.
pub fn is_txt_file(name: &[u8]) -> (r: bool)
    ensures
        r == is_txt_name(name@),
{
    match find_last_byte(name, 46) {
        Some(j) if j >= 1 => {
            proof {
                lemma_last_index_props(name@, 46);
            }
            let len = name.len();
            let txt: Vec<u8> = vec![116, 120, 116];
            let e = crate::parser::bytes_eq(
                vstd::slice::slice_subrange(name, j + 1, len),
                txt.as_slice(),
            );
            proof {
                assert(name@.subrange(j + 1, name@.len() as int) =~= ext_of(name@));
                assert(txt@ =~= txt_ext());
            }
            e
        },
        _ => {
            proof {
                lemma_last_index_props(name@, 46);
            }
            false
        },
    }
}

/// Builds the output file name `<stem>.parquet` for an input file name.
pub fn output_file_name(name: &[u8]) -> (r: Vec<u8>)
    ensures
        r@ == output_name_of(name@),
{
    proof {
        lemma_last_index_props(name@, 46);
    }
    let stem: &[u8] = match find_last_byte(name, 46) {
        Some(j) if j >= 1 => vstd::slice::slice_subrange(name, 0, j),
        _ => name,
    };
    proof {
        if has_extension(name@) {
            assert(stem@ =~= stem_of(name@));
        }
    }
    let mut r = slice_to_vec(stem);
    r.push(46);
    r.push(112);
    r.push(97);
    r.push(114);
    r.push(113);
    r.push(117);
    r.push(101);
    r.push(116);
    proof {
        assert(r@ =~= output_name_of(name@));
    }
    r
}

/// An extension-bearing name is its stem, a dot, and its extension.
proof fn lemma_name_decompose(name: Seq<u8>)
    requires
        has_extension(name),
    ensures
        name == stem_of(name) + seq![46u8] + ext_of(name),
{
    lemma_last_index_props(name, 46);
    assert(name =~= stem_of(name) + seq![46u8] + ext_of(name));
}

/// Two distinct convertible input names never collide on their output
/// names: conversion writes one distinct output per input.
pub proof fn lemma_distinct_outputs(n1: Seq<u8>, n2: Seq<u8>)
    requires
        is_txt_name(n1),
        is_txt_name(n2),
        n1 != n2,
    ensures
        output_name_of(n1) != output_name_of(n2),
{
    if output_name_of(n1) == output_name_of(n2) {
        let s1 = stem_of(n1);
        let s2 = stem_of(n2);
        assert(output_name_of(n1).len() == s1.len() + 1 + parquet_ext().len());
        assert(output_name_of(n2).len() == s2.len() + 1 + parquet_ext().len());
        assert(s1.len() == s2.len());
        assert(s1 =~= s2) by {
            assert(forall|k: int|
                0 <= k < s1.len() ==> #[trigger] s1[k] == output_name_of(n1)[k]);
            assert(forall|k: int|
                0 <= k < s2.len() ==> #[trigger] s2[k] == output_name_of(n2)[k]);
        }
        lemma_name_decompose(n1);
        lemma_name_decompose(n2);
        assert(n1 =~= n2);
    }
}

/// One file's conversion order: the input file's name and the output
/// file's name, owned by exactly one worker.
#[derive(Debug)]
pub struct ConversionJob {
    pub input_name: Vec<u8>,
    pub output_name: Vec<u8>,
}

/// The convertible names among a directory's file names, in order.
pub open spec fn txt_names(names: Seq<Seq<u8>>) -> Seq<Seq<u8>>
    decreases names.len(),
{
    if names.len() == 0 {
        Seq::empty()
    } else if is_txt_name(names[0]) {
        seq![names[0]] + txt_names(names.skip(1))
    } else {
        txt_names(names.skip(1))
    }
}

/// Selecting convertible names distributes over concatenation.
proof fn lemma_txt_names_append(a: Seq<Seq<u8>>, b: Seq<Seq<u8>>)
    ensures
        txt_names(a + b) == txt_names(a) + txt_names(b),
    decreases a.len(),
{
    if a.len() == 0 {
        assert(a + b =~= b);
        assert(txt_names(a) + txt_names(b) =~= txt_names(b));
    } else {
        assert((a + b)[0] == a[0]);
        assert((a + b).skip(1) =~= a.skip(1) + b);
        lemma_txt_names_append(a.skip(1), b);
        if is_txt_name(a[0]) {
            assert(seq![a[0]] + (txt_names(a.skip(1)) + txt_names(b)) =~= (seq![a[0]] + txt_names(
                a.skip(1),
            )) + txt_names(b));
        }
    }
}

/// Pairs every convertible file name with its output name: exactly one
/// job per `txt` file, in enumeration order.
pub fn plan_jobs(names: &Vec<Vec<u8>>) -> (jobs: Vec<ConversionJob>)
    ensures
        jobs@.len() == txt_names(names.deep_view()).len(),
        forall|i: int|
            0 <= i < jobs@.len() ==> (#[trigger] jobs@[i]).input_name@ == txt_names(
                names.deep_view(),
            )[i] && jobs@[i].output_name@ == output_name_of(txt_names(names.deep_view())[i]),
{
    let mut jobs: Vec<ConversionJob> = Vec::new();
    let mut i: usize = 0;
    proof {
        assert(names.deep_view().take(0) =~= Seq::<Seq<u8>>::empty());
    }
    while i < names.len()
        invariant
            i <= names@.len(),
            jobs@.len() == txt_names(names.deep_view().take(i as int)).len(),
            forall|k: int|
                0 <= k < jobs@.len() ==> (#[trigger] jobs@[k]).input_name@ == txt_names(
                    names.deep_view().take(i as int),
                )[k] && jobs@[k].output_name@ == output_name_of(
                    txt_names(names.deep_view().take(i as int))[k],
                ),
        decreases names@.len() - i,
    {
        proof {
            assert(names.deep_view()[i as int] =~= names@[i as int]@);
            let dv = names.deep_view();
            assert(dv.take(i + 1) =~= dv.take(i as int) + seq![dv[i as int]]);
            lemma_txt_names_append(dv.take(i as int), seq![dv[i as int]]);
            assert(seq![dv[i as int]].skip(1) =~= Seq::<Seq<u8>>::empty());
            assert(txt_names(Seq::<Seq<u8>>::empty()) =~= Seq::<Seq<u8>>::empty());
            if is_txt_name(dv[i as int]) {
                assert(txt_names(seq![dv[i as int]]) =~= seq![dv[i as int]]);
            } else {
                assert(txt_names(seq![dv[i as int]]) =~= Seq::<Seq<u8>>::empty());
            }
        }
        if is_txt_file(names[i].as_slice()) {
            let input_name = slice_to_vec(names[i].as_slice());
            let output_name = output_file_name(names[i].as_slice());
            jobs.push(ConversionJob { input_name, output_name });
        }
        i += 1;
    }
    proof {
        assert(names.deep_view().take(names@.len() as int) =~= names.deep_view());
    }
    jobs
}

/// Why a batch run cannot start.
#[derive(Clone, Copy, Debug, PartialEq, Eq, Structural)]
pub enum SetupError {
    /// An explicit worker count of zero was requested.
    ZeroThreads,
}

/// Decides the worker-pool size before any enumeration: an explicit
/// request of zero fails setup; a request above the available parallelism
/// is clamped to it (the flag reports the clamp, for a warning); a request
/// within it is used as given; no request means the available default.
pub fn effective_threads(requested: Option<usize>, available: usize) -> (r: Result<
    (usize, bool),
    SetupError,
>)
    requires
        available >= 1,
    ensures
        r.is_err() <==> requested == Some(0usize),
        r.is_err() ==> r == Err::<(usize, bool), SetupError>(SetupError::ZeroThreads),
        requested matches Some(n) ==> r == (if n == 0 {
            Err::<(usize, bool), SetupError>(SetupError::ZeroThreads)
        } else if n <= available {
            Ok::<(usize, bool), SetupError>((n, false))
        } else {
            Ok::<(usize, bool), SetupError>((available, true))
        }),
        requested is None ==> r == Ok::<(usize, bool), SetupError>((available, false)),
        r matches Ok(p) ==> 1 <= p.0 <= available,
{
    match requested {
        Some(0) => Err(SetupError::ZeroThreads),
        Some(n) => {
            if n <= available {
                Ok((n, false))
            } else {
                Ok((available, true))
            }
        },
        None => Ok((available, false)),
    }
}

/// What a directory listing shows of one entry: its base name and whether
/// it is a regular file.
#[derive(Debug)]
pub struct DirEntryInfo {
    pub name: Vec<u8>,
    pub is_file: bool,
}

/// The names of the regular files among a directory's entries, in order.
pub open spec fn regular_file_names(entries: Seq<DirEntryInfo>) -> Seq<Seq<u8>>
    decreases entries.len(),
{
    if entries.len() == 0 {
        Seq::empty()
    } else if entries[0].is_file {
        seq![entries[0].name@] + regular_file_names(entries.skip(1))
    } else {
        regular_file_names(entries.skip(1))
    }
}

/// Selecting regular files distributes over concatenation.
proof fn lemma_regular_file_names_append(a: Seq<DirEntryInfo>, b: Seq<DirEntryInfo>)
    ensures
        regular_file_names(a + b) == regular_file_names(a) + regular_file_names(b),
    decreases a.len(),
{
    if a.len() == 0 {
        assert(a + b =~= b);
        assert(regular_file_names(a) + regular_file_names(b) =~= regular_file_names(b));
    } else {
        assert((a + b)[0] == a[0]);
        assert((a + b).skip(1) =~= a.skip(1) + b);
        lemma_regular_file_names_append(a.skip(1), b);
        if a[0].is_file {
            assert(seq![a[0].name@] + (regular_file_names(a.skip(1)) + regular_file_names(b))
                =~= (seq![a[0].name@] + regular_file_names(a.skip(1))) + regular_file_names(b));
        }
    }
}

/// Selects exactly the regular files to remove when an output directory
/// already exists: every direct-child regular file, and nothing else —
/// subdirectories are left untouched.
pub fn files_to_clear(entries: &Vec<DirEntryInfo>) -> (r: Vec<Vec<u8>>)
    ensures
        r.deep_view() == regular_file_names(entries@),
{
    let mut r: Vec<Vec<u8>> = Vec::new();
    let mut i: usize = 0;
    proof {
        assert(entries@.take(0) =~= Seq::<DirEntryInfo>::empty());
        assert(r.deep_view() =~= regular_file_names(entries@.take(0)));
    }
    while i < entries.len()
        invariant
            i <= entries@.len(),
            r.deep_view() == regular_file_names(entries@.take(i as int)),
        decreases entries@.len() - i,
    {
        let ghost old_r = r.deep_view();
        if entries[i].is_file {
            r.push(slice_to_vec(entries[i].name.as_slice()));
            proof {
                assert(r.deep_view() =~~= old_r + seq![entries@[i as int].name@]);
            }
        }
        proof {
            assert(entries@.take(i + 1) =~= entries@.take(i as int) + seq![entries@[i as int]]);
            lemma_regular_file_names_append(entries@.take(i as int), seq![entries@[i as int]]);
            assert(seq![entries@[i as int]].skip(1) =~= Seq::<DirEntryInfo>::empty());
            assert(regular_file_names(Seq::<DirEntryInfo>::empty()) =~= Seq::<Seq<u8>>::empty());
            if entries@[i as int].is_file {
                assert(regular_file_names(seq![entries@[i as int]]) =~= seq![
                    entries@[i as int].name@,
                ]);
            } else {
                assert(regular_file_names(seq![entries@[i as int]]) =~= Seq::<Seq<u8>>::empty());
            }
        }
        i += 1;
    }
    proof {
        assert(entries@.take(entries@.len() as int) =~= entries@);
    }
    r
}

/// How many outcomes of a run succeeded.
pub open spec fn count_true(s: Seq<bool>) -> int
    decreases s.len(),
{
    if s.len() == 0 {
        0
    } else {
        count_true(s.drop_last()) + if s.last() {
            1int
        } else {
            0int
        }
    }
}

/// The aggregate tally of a batch run: every job attempted, each either
/// succeeded or failed.
#[derive(Clone, Copy, Debug, PartialEq, Eq, Structural)]
pub struct BatchSummary {
    pub attempted: usize,
    pub succeeded: usize,
    pub failed: usize,
}

impl BatchSummary {
    /// Every attempted job is accounted exactly once.
    pub open spec fn wf(&self) -> bool {
        self.attempted == self.succeeded + self.failed
    }
}

/// Tallies per-job outcomes: every outcome is counted, a success never
/// counts as a failure nor the reverse, and one failed job fails nothing
/// else — the tally is complete whatever mix of outcomes arrived.
pub fn summarize(outcomes: &Vec<bool>) -> (s: BatchSummary)
    ensures
        s.wf(),
        s.attempted == outcomes@.len(),
        s.succeeded == count_true(outcomes@),
        s.failed == outcomes@.len() - count_true(outcomes@),
{
    let mut succeeded: usize = 0;
    let mut failed: usize = 0;
    let mut i: usize = 0;
    while i < outcomes.len()
        invariant
            i <= outcomes@.len(),
            succeeded == count_true(outcomes@.take(i as int)),
            succeeded + failed == i,
        decreases outcomes@.len() - i,
    {
        proof {
            assert(outcomes@.take(i + 1).drop_last() =~= outcomes@.take(i as int));
        }
        if outcomes[i] {
            succeeded += 1;
        } else {
            failed += 1;
        }
        i += 1;
    }
    proof {
        assert(outcomes@.take(outcomes@.len() as int) =~= outcomes@);
    }
    BatchSummary { attempted: outcomes.len(), succeeded, failed }
}

} // verus!
