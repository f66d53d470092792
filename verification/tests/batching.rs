use csv_to_parquet::batch::{
    effective_threads, files_to_clear, is_txt_file, output_file_name, plan_jobs, summarize,
    BatchSummary, DirEntryInfo, SetupError,
};
use csv_to_parquet::pipeline::convert_content;

#[test]
fn zero_threads_fails_setup() {
    assert_eq!(effective_threads(Some(0), 4), Err(SetupError::ZeroThreads));
}

#[test]
fn oversized_thread_request_clamps_with_warning() {
    assert_eq!(effective_threads(Some(8), 4), Ok((4, true)));
    assert_eq!(effective_threads(Some(100), 1), Ok((1, true)));
}

#[test]
fn thread_request_within_limit_is_used() {
    assert_eq!(effective_threads(Some(2), 4), Ok((2, false)));
    assert_eq!(effective_threads(Some(4), 4), Ok((4, false)));
}

#[test]
fn no_thread_request_uses_default() {
    assert_eq!(effective_threads(None, 4), Ok((4, false)));
}

#[test]
fn txt_extension_is_matched_case_sensitively() {
    assert!(is_txt_file(b"a.txt"));
    assert!(is_txt_file(b"prices.2024.txt"));
    assert!(!is_txt_file(b"a.TXT"));
    assert!(!is_txt_file(b"a.csv"));
    assert!(!is_txt_file(b"atxt"));
    assert!(!is_txt_file(b".txt"));
    assert!(!is_txt_file(b"a.txt.bak"));
}

#[test]
fn output_names_replace_the_extension() {
    assert_eq!(output_file_name(b"data.txt"), b"data.parquet".to_vec());
    assert_eq!(output_file_name(b"a.b.txt"), b"a.b.parquet".to_vec());
}

#[test]
fn one_job_per_convertible_file() {
    let names = vec![
        b"a.txt".to_vec(),
        b"b.csv".to_vec(),
        b"c.txt".to_vec(),
        b"notes".to_vec(),
    ];
    let jobs = plan_jobs(&names);
    assert_eq!(jobs.len(), 2);
    assert_eq!(jobs[0].input_name, b"a.txt".to_vec());
    assert_eq!(jobs[0].output_name, b"a.parquet".to_vec());
    assert_eq!(jobs[1].input_name, b"c.txt".to_vec());
    assert_eq!(jobs[1].output_name, b"c.parquet".to_vec());
}

#[test]
fn distinct_inputs_never_collide_on_outputs() {
    let names = vec![b"a.txt".to_vec(), b"ab.txt".to_vec(), b"b.txt".to_vec()];
    let jobs = plan_jobs(&names);
    assert_eq!(jobs.len(), 3);
    for i in 0..jobs.len() {
        for j in 0..jobs.len() {
            if i != j {
                assert_ne!(jobs[i].output_name, jobs[j].output_name);
            }
        }
    }
}

#[test]
fn cleanup_selects_files_and_spares_subdirectories() {
    let entries = vec![
        DirEntryInfo { name: b"stale.parquet".to_vec(), is_file: true },
        DirEntryInfo { name: b"archive".to_vec(), is_file: false },
        DirEntryInfo { name: b"leftover.txt".to_vec(), is_file: true },
    ];
    let doomed = files_to_clear(&entries);
    assert_eq!(
        doomed,
        vec![b"stale.parquet".to_vec(), b"leftover.txt".to_vec()]
    );
}

#[test]
fn summary_counts_every_outcome_once() {
    assert_eq!(
        summarize(&vec![true, false, true]),
        BatchSummary { attempted: 3, succeeded: 2, failed: 1 }
    );
    assert_eq!(
        summarize(&Vec::new()),
        BatchSummary { attempted: 0, succeeded: 0, failed: 0 }
    );
}

#[test]
fn one_bad_file_does_not_fail_the_batch() {
    let good = "<DATE>,<TIME>,<OPEN>,<HIGH>,<LOW>,<CLOSE>,<VOL>\n\
                20240131,123005,1.5,2.5,0.5,2.0,100\n";
    let bad = "<DATE>,<TIME>,<OPEN>,<HIGH>,<LOW>,<CLOSE>,<VOL>\n\
               20240131,123005,1.5,oops,0.5,2.0,100\n";
    let setup = effective_threads(Some(2), 4);
    assert!(setup.is_ok());
    let outcomes = vec![
        convert_content(good.as_bytes()).is_ok(),
        convert_content(bad.as_bytes()).is_ok(),
    ];
    let summary = summarize(&outcomes);
    assert_eq!(summary.attempted, 2);
    assert_eq!(summary.succeeded, 1);
    assert_eq!(summary.failed, 1);
    // the run itself still counts as successful: only setup can fail it
    assert!(setup.is_ok());
}
