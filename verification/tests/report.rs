use cdn_log_ingest::date::Date;
use cdn_log_ingest::downloads::{DownloadRecord, DownloadsMap};
use cdn_log_ingest::version::Version;

fn map_of(counts: &[(&str, u64)]) -> DownloadsMap {
    let date = Date::from_ymd_opt(2024, 1, 16).unwrap();
    let mut map = DownloadsMap::new();
    for (name, count) in counts {
        map.add(DownloadRecord::new(name.to_string(), Version::new(1, 0, 0), date, *count))
            .unwrap();
    }
    map
}

fn names_and_counts(report: Vec<DownloadRecord>) -> Vec<(String, u64)> {
    report.into_iter().map(|r| (r.name, r.count)).collect()
}

#[test]
fn top_orders_by_falling_count() {
    let map = map_of(&[("a", 5), ("b", 100), ("c", 1)]);
    let expected =
        vec![("b".to_string(), 100), ("a".to_string(), 5), ("c".to_string(), 1)];
    assert_eq!(names_and_counts(map.top_downloads(3)), expected);
    assert_eq!(names_and_counts(map.top_downloads(4)), expected);
    assert_eq!(names_and_counts(map.top_downloads(30)), expected);
    assert_eq!(names_and_counts(map.top_downloads(usize::MAX)), expected);
}

#[test]
fn top_two_of_three() {
    let map = map_of(&[("a", 5), ("b", 100), ("c", 1)]);
    assert_eq!(
        names_and_counts(map.top_downloads(2)),
        vec![("b".to_string(), 100), ("a".to_string(), 5)]
    );
    assert_eq!(names_and_counts(map.top_downloads(1)), vec![("b".to_string(), 100)]);
    assert!(map.top_downloads(0).is_empty());
}

#[test]
fn top_keeps_equal_counts_in_their_order() {
    let map = map_of(&[("a", 7), ("b", 9), ("c", 7), ("d", 9), ("e", 7), ("f", 1)]);
    assert_eq!(
        names_and_counts(map.top_downloads(30)),
        vec![
            ("b".to_string(), 9),
            ("d".to_string(), 9),
            ("a".to_string(), 7),
            ("c".to_string(), 7),
            ("e".to_string(), 7),
            ("f".to_string(), 1),
        ]
    );
    assert_eq!(
        names_and_counts(map.top_downloads(4)),
        vec![
            ("b".to_string(), 9),
            ("d".to_string(), 9),
            ("a".to_string(), 7),
            ("c".to_string(), 7),
        ]
    );
}

#[test]
fn top_of_an_empty_aggregate_is_empty() {
    assert!(DownloadsMap::new().top_downloads(30).is_empty());
}

#[test]
fn top_leaves_the_aggregate_as_it_was() {
    let map = map_of(&[("a", 5), ("b", 100), ("c", 1)]);
    let _ = map.top_downloads(2);
    assert_eq!(
        names_and_counts(map.into_vec()),
        vec![("a".to_string(), 5), ("b".to_string(), 100), ("c".to_string(), 1)]
    );
}

#[test]
fn top_agrees_with_a_stable_sort() {
    let mut counts: Vec<(String, u64)> = Vec::new();
    let mut x: u64 = 12345;
    for i in 0..200 {
        x = x.wrapping_mul(6364136223846793005).wrapping_add(1442695040888963407);
        counts.push((format!("crate{i}"), (x >> 33) % 17));
    }
    let date = Date::from_ymd_opt(2024, 1, 16).unwrap();
    let mut map = DownloadsMap::new();
    for (name, count) in &counts {
        map.add(DownloadRecord::new(name.clone(), Version::new(1, 0, 0), date, *count)).unwrap();
    }
    let mut sorted = counts.clone();
    sorted.sort_by_key(|(_, count)| std::cmp::Reverse(*count));
    assert_eq!(names_and_counts(map.top_downloads(200)), sorted);
    sorted.truncate(30);
    assert_eq!(names_and_counts(map.top_downloads(30)), sorted);
}

#[test]
fn report_line_of_an_entry() {
    let date = Date::from_ymd_opt(2024, 1, 16).unwrap();
    let record = DownloadRecord::new("quick-error".to_string(), Version::new(1, 2, 3), date, 2);
    assert_eq!(record.report_line(), "2024-01-16  quick-error@1.2.3 .. 2");
    let mut version = Version::new(0, 1, 0);
    version.pre = "rc.1".to_string();
    let record = DownloadRecord::new("a".to_string(), version, date, u64::MAX);
    assert_eq!(record.report_line(), "2024-01-16  a@0.1.0-rc.1 .. 18446744073709551615");
    let record = DownloadRecord::new(String::new(), Version::new(0, 0, 0), date, 0);
    assert_eq!(record.report_line(), "2024-01-16  @0.0.0 .. 0");
}

#[test]
fn report_line_is_the_line_of_the_log() {
    let day = chrono::NaiveDate::from_ymd_opt(2024, 1, 17).unwrap();
    let num = semver::Version::parse("1.0.0-beta.2+exp.sha").unwrap();
    let (krate, downloads) = ("serde", 1234567u64);
    let expected = format!("{day}  {krate}@{num} .. {downloads}");
    let mut version = Version::new(num.major, num.minor, num.patch);
    version.pre = num.pre.as_str().to_string();
    version.build = num.build.as_str().to_string();
    let record = DownloadRecord::new(
        krate.to_string(),
        version,
        Date::from_ymd_opt(2024, 1, 17).unwrap(),
        downloads,
    );
    assert_eq!(record.report_line(), expected);
}
