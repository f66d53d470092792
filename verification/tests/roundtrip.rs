use csv_to_parquet::calendar::check_date_text;
use csv_to_parquet::records::{transform, CsvRecord};

fn record(date: &str, time: &str) -> CsvRecord {
    CsvRecord {
        date: date.as_bytes().to_vec(),
        time: time.as_bytes().to_vec(),
        open: b"1.0".to_vec(),
        high: b"1.0".to_vec(),
        low: b"1.0".to_vec(),
        close: b"1.0".to_vec(),
        vol: 1,
    }
}

#[test]
fn transform_agrees_with_independent_datetime_parsing() {
    let pairs = [
        ("20240131", "123005"),
        ("20240229", "000000"),
        ("20000229", "235959"),
        ("19991231", "120000"),
        ("20240901", "010203"),
    ];
    for (date, time) in pairs {
        let source = chrono::NaiveDateTime::parse_from_str(
            &format!("{} {}", date, time),
            "%Y%m%d %H%M%S",
        )
        .unwrap();
        let p = transform(&record(date, time)).unwrap();
        let reparsed =
            chrono::NaiveDateTime::parse_from_str(&p.datetime_str, "%Y-%m-%d %H:%M:%S").unwrap();
        assert_eq!(source, reparsed);
    }
}

#[test]
fn date_validity_agrees_with_independent_calendar() {
    for year in [1900u32, 1999, 2000, 2023, 2024] {
        for month in 1u32..=13 {
            for day in [1u32, 28, 29, 30, 31, 32] {
                let text = format!("{:04}{:02}{:02}", year, month, day);
                let ours = check_date_text(text.as_bytes());
                let independent = chrono::NaiveDate::from_ymd_opt(
                    year as i32,
                    month,
                    day,
                )
                .is_some();
                assert_eq!(ours, independent, "disagreement on {}", text);
            }
        }
    }
}
