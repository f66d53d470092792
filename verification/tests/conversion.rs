use csv_to_parquet::calendar::{check_date_text, check_time_text};
use csv_to_parquet::cli::parse_usize_positive;
use csv_to_parquet::digits::parse_u64;
use csv_to_parquet::parser::parse_file_content;
use csv_to_parquet::pipeline::convert_content;
use csv_to_parquet::records::{transform, ConvertError, CsvRecord};

fn record(date: &str, time: &str) -> CsvRecord {
    CsvRecord {
        date: date.as_bytes().to_vec(),
        time: time.as_bytes().to_vec(),
        open: b"1.5".to_vec(),
        high: b"2.5".to_vec(),
        low: b"0.5".to_vec(),
        close: b"2.0".to_vec(),
        vol: 100,
    }
}

#[test]
fn thread_count_text_valid() {
    assert_eq!(parse_usize_positive("5"), Ok(5));
    assert_eq!(parse_usize_positive("17"), Ok(17));
    assert_eq!(parse_usize_positive("+8"), Ok(8));
}

#[test]
fn thread_count_text_rejected() {
    assert_eq!(
        parse_usize_positive("0").unwrap_err(),
        "Must be a positive integer"
    );
    assert_eq!(
        parse_usize_positive("+0").unwrap_err(),
        "Must be a positive integer"
    );
    assert_eq!(
        parse_usize_positive("").unwrap_err(),
        "Not a valid number: cannot parse integer from empty string"
    );
    assert_eq!(
        parse_usize_positive("abc").unwrap_err(),
        "Not a valid number: invalid digit found in string"
    );
    assert_eq!(
        parse_usize_positive("+").unwrap_err(),
        "Not a valid number: invalid digit found in string"
    );
    assert_eq!(
        parse_usize_positive("1x").unwrap_err(),
        "Not a valid number: invalid digit found in string"
    );
    assert_eq!(
        parse_usize_positive("18446744073709551616000").unwrap_err(),
        "Not a valid number: number too large to fit in target type"
    );
}

#[test]
fn thread_count_messages_match_standard_parsing() {
    for text in ["", "abc", "+", "1x", "+8", "17", "18446744073709551616000"] {
        match text.parse::<usize>() {
            Ok(n) if n > 0 => assert_eq!(parse_usize_positive(text), Ok(n)),
            Ok(_) => assert_eq!(
                parse_usize_positive(text).unwrap_err(),
                "Must be a positive integer"
            ),
            Err(e) => assert_eq!(
                parse_usize_positive(text).unwrap_err(),
                format!("Not a valid number: {}", e)
            ),
        }
    }
}

#[test]
fn volume_text_boundaries() {
    assert_eq!(parse_u64(b"0"), Some(0));
    assert_eq!(parse_u64(b"007"), Some(7));
    assert_eq!(parse_u64(b"18446744073709551615"), Some(u64::MAX));
    assert_eq!(parse_u64(b"18446744073709551616"), None);
    assert_eq!(parse_u64(b""), None);
    assert_eq!(parse_u64(b"12a"), None);
}

#[test]
fn date_text_checks() {
    assert!(check_date_text(b"20240131"));
    assert!(check_date_text(b"20240229"));
    assert!(!check_date_text(b"20230229"));
    assert!(check_date_text(b"20000229"));
    assert!(!check_date_text(b"19000229"));
    assert!(!check_date_text(b"20241301"));
    assert!(!check_date_text(b"20240132"));
    assert!(!check_date_text(b"20240100"));
    assert!(!check_date_text(b"2024013"));
    assert!(!check_date_text(b"2024o131"));
}

#[test]
fn time_text_checks() {
    assert!(check_time_text(b"000000"));
    assert!(check_time_text(b"235959"));
    assert!(!check_time_text(b"240000"));
    assert!(!check_time_text(b"236000"));
    assert!(!check_time_text(b"123060"));
    assert!(!check_time_text(b"12300"));
}

#[test]
fn transform_builds_canonical_timestamp() {
    let p = transform(&record("20240131", "123005")).unwrap();
    assert_eq!(p.datetime_str, "2024-01-31 12:30:05");
    assert_eq!(p.open, b"1.5".to_vec());
    assert_eq!(p.high, b"2.5".to_vec());
    assert_eq!(p.low, b"0.5".to_vec());
    assert_eq!(p.close, b"2.0".to_vec());
    assert_eq!(p.vol, 100);
}

#[test]
fn transform_rejects_unreal_dates() {
    assert_eq!(
        transform(&record("20230229", "123005")).unwrap_err(),
        ConvertError::BadTimestamp
    );
    assert!(transform(&record("20240131", "240000")).is_err());
    assert!(transform(&record("2024-131", "123005")).is_err());
}

const GOOD: &str = "<DATE>,<TIME>,<OPEN>,<HIGH>,<LOW>,<CLOSE>,<VOL>\n\
                    20240131,123005,1.5,2.5,0.5,2.0,100\n\
                    20240201,000000,2.0,3.0,1.0,2.5,250\n";

#[test]
fn parse_whole_file() {
    let recs = parse_file_content(GOOD.as_bytes()).unwrap();
    assert_eq!(recs.len(), 2);
    assert_eq!(recs[0].date, b"20240131".to_vec());
    assert_eq!(recs[0].time, b"123005".to_vec());
    assert_eq!(recs[0].open, b"1.5".to_vec());
    assert_eq!(recs[0].vol, 100);
    assert_eq!(recs[1].date, b"20240201".to_vec());
    assert_eq!(recs[1].vol, 250);
}

#[test]
fn parse_maps_columns_by_name() {
    let content = "<VOL>,<CLOSE>,<LOW>,<HIGH>,<OPEN>,<TIME>,<DATE>,<EXTRA>\n\
                   100,2.0,0.5,2.5,1.5,123005,20240131,ignored\n";
    let recs = parse_file_content(content.as_bytes()).unwrap();
    assert_eq!(recs.len(), 1);
    assert_eq!(recs[0].date, b"20240131".to_vec());
    assert_eq!(recs[0].close, b"2.0".to_vec());
    assert_eq!(recs[0].vol, 100);
}

#[test]
fn volume_accepts_a_leading_plus() {
    let content = "<DATE>,<TIME>,<OPEN>,<HIGH>,<LOW>,<CLOSE>,<VOL>\n\
                   20240131,123005,1.5,2.5,0.5,2.0,+100\n";
    let recs = parse_file_content(content.as_bytes()).unwrap();
    assert_eq!(recs.len(), 1);
    assert_eq!(recs[0].vol, 100);
}

#[test]
fn parse_handles_crlf_and_blank_lines() {
    let content = "<DATE>,<TIME>,<OPEN>,<HIGH>,<LOW>,<CLOSE>,<VOL>\r\n\
                   20240131,123005,1.5,2.5,0.5,2.0,100\r\n\r\n";
    let recs = parse_file_content(content.as_bytes()).unwrap();
    assert_eq!(recs.len(), 1);
    assert_eq!(recs[0].date, b"20240131".to_vec());
}

#[test]
fn parse_empty_file_is_missing_header() {
    assert_eq!(
        parse_file_content(b"").map(|_| ()),
        Err(ConvertError::MissingHeader)
    );
}

#[test]
fn parse_missing_column_fails() {
    let content = "<DATE>,<TIME>,<OPEN>,<HIGH>,<LOW>,<CLOSE>\n20240131,123005,1.5,2.5,0.5,2.0\n";
    assert_eq!(
        parse_file_content(content.as_bytes()).map(|_| ()),
        Err(ConvertError::MissingColumn)
    );
}

#[test]
fn parse_is_all_or_nothing_per_file() {
    let content = "<DATE>,<TIME>,<OPEN>,<HIGH>,<LOW>,<CLOSE>,<VOL>\n\
                   20240131,123005,1.5,2.5,0.5,2.0,100\n\
                   20240201,000000,2.0,bad,1.0,2.5,250\n";
    assert_eq!(
        parse_file_content(content.as_bytes()).map(|_| ()),
        Err(ConvertError::MalformedRow)
    );
    let short = "<DATE>,<TIME>,<OPEN>,<HIGH>,<LOW>,<CLOSE>,<VOL>\n20240131,123005,1.5\n";
    assert_eq!(
        parse_file_content(short.as_bytes()).map(|_| ()),
        Err(ConvertError::MalformedRow)
    );
}

#[test]
fn convert_builds_table() {
    let t = convert_content(GOOD.as_bytes()).unwrap();
    assert_eq!(t.datetime_str.len(), 2);
    assert_eq!(t.datetime_str[0], "2024-01-31 12:30:05");
    assert_eq!(t.datetime_str[1], "2024-02-01 00:00:00");
    assert_eq!(t.open[0], b"1.5".to_vec());
    assert_eq!(t.high[1], b"3.0".to_vec());
    assert_eq!(t.low[0], b"0.5".to_vec());
    assert_eq!(t.close[1], b"2.5".to_vec());
    assert_eq!(t.vol, vec![100, 250]);
}

#[test]
fn header_and_zero_rows_is_a_valid_table() {
    let t = convert_content(b"<DATE>,<TIME>,<OPEN>,<HIGH>,<LOW>,<CLOSE>,<VOL>\n").unwrap();
    assert_eq!(t.datetime_str.len(), 0);
    assert_eq!(t.open.len(), 0);
    assert_eq!(t.high.len(), 0);
    assert_eq!(t.low.len(), 0);
    assert_eq!(t.close.len(), 0);
    assert_eq!(t.vol.len(), 0);
}

#[test]
fn convert_rejects_unreal_timestamp() {
    let content = "<DATE>,<TIME>,<OPEN>,<HIGH>,<LOW>,<CLOSE>,<VOL>\n\
                   20241301,123005,1.5,2.5,0.5,2.0,100\n";
    assert_eq!(
        convert_content(content.as_bytes()).map(|_| ()),
        Err(ConvertError::BadTimestamp)
    );
}
