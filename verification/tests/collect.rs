use log_archiver::collect::{collect, record, DatedEntry};
use log_archiver::date::CalendarDate;
use log_archiver::failure::Failure;

const FORMAT: &str = "%Y-%m-%d.log";

fn names(list: &[&str]) -> Vec<String> {
    list.iter().map(|n| n.to_string()).collect()
}

fn entry(name: &str, year: i32, month: u32, day: u32) -> DatedEntry {
    DatedEntry { name: name.to_string(), date: CalendarDate { year, month, day } }
}

#[test]
fn lenient_collect_keeps_the_dated_names_of_a_mixed_directory() {
    let listing = names(&[
        "2024-01-07.log",
        "README.md",
        "2024-01-05.log",
        "2024-01-06.log.gz",
        "2024-01-06.log",
    ]);
    let found = collect(&listing, FORMAT, false);
    assert_eq!(
        found,
        Ok(vec![
            entry("2024-01-07.log", 2024, 1, 7),
            entry("2024-01-05.log", 2024, 1, 5),
            entry("2024-01-06.log", 2024, 1, 6),
        ])
    );
    assert_eq!(found.unwrap().len(), 3);
}

#[test]
fn strict_collect_fails_on_a_mixed_directory() {
    let listing = names(&[
        "2024-01-07.log",
        "README.md",
        "2024-01-05.log",
        "2024-01-06.log.gz",
        "2024-01-06.log",
    ]);
    assert_eq!(
        collect(&listing, FORMAT, true),
        Err(Failure::UnparseableFilename { name: "README.md".to_string() })
    );
}

#[test]
fn strict_collect_tells_the_first_name_that_does_not_match() {
    let listing = names(&["b.txt", "2024-01-05.log", "a.txt"]);
    assert_eq!(
        collect(&listing, FORMAT, true),
        Err(Failure::UnparseableFilename { name: "b.txt".to_string() })
    );
    let listing = names(&["2024-01-05.log", "2024-01-06.log", "last.txt"]);
    assert_eq!(
        collect(&listing, FORMAT, true),
        Err(Failure::UnparseableFilename { name: "last.txt".to_string() })
    );
}

#[test]
fn strict_collect_succeeds_where_every_name_matches() {
    let listing = names(&["2024-03-02.log", "2024-01-15.log"]);
    assert_eq!(
        collect(&listing, FORMAT, true),
        Ok(vec![entry("2024-03-02.log", 2024, 3, 2), entry("2024-01-15.log", 2024, 1, 15)])
    );
}

#[test]
fn collect_of_an_empty_directory_is_empty() {
    assert_eq!(collect(&Vec::new(), FORMAT, false), Ok(Vec::new()));
    assert_eq!(collect(&Vec::new(), FORMAT, true), Ok(Vec::new()));
}

#[test]
fn lenient_collect_of_undated_names_is_empty() {
    let listing = names(&["a.txt", "b.txt"]);
    assert_eq!(collect(&listing, FORMAT, false), Ok(Vec::new()));
}

#[test]
fn collect_keeps_the_order_of_the_listing_and_names_that_repeat() {
    let listing = names(&["2024-01-05.log", "2023-01-05.log", "2024-01-05.log"]);
    assert_eq!(
        collect(&listing, FORMAT, false),
        Ok(vec![
            entry("2024-01-05.log", 2024, 1, 5),
            entry("2023-01-05.log", 2023, 1, 5),
            entry("2024-01-05.log", 2024, 1, 5),
        ])
    );
}

#[test]
fn collect_goes_by_the_format() {
    let listing = names(&["2024-01-05.log", "05.01.2024", "06.01.2024"]);
    assert_eq!(
        collect(&listing, "%d.%m.%Y", false),
        Ok(vec![entry("05.01.2024", 2024, 1, 5), entry("06.01.2024", 2024, 1, 6)])
    );
}

#[test]
fn record_appends_a_dated_name() {
    let mut entries = vec![entry("a", 2024, 1, 1)];
    let date = CalendarDate { year: 2024, month: 1, day: 2 };
    assert_eq!(record(&mut entries, "b", Some(date), false), Ok(()));
    assert_eq!(record(&mut entries, "c", Some(date), true), Ok(()));
    assert_eq!(
        entries,
        vec![entry("a", 2024, 1, 1), entry("b", 2024, 1, 2), entry("c", 2024, 1, 2)]
    );
}

#[test]
fn record_passes_over_an_undated_name_when_lenient() {
    let mut entries = vec![entry("a", 2024, 1, 1)];
    assert_eq!(record(&mut entries, "b", None, false), Ok(()));
    assert_eq!(entries, vec![entry("a", 2024, 1, 1)]);
}

#[test]
fn record_refuses_an_undated_name_when_strict() {
    let mut entries = vec![entry("a", 2024, 1, 1)];
    assert_eq!(
        record(&mut entries, "b", None, true),
        Err(Failure::UnparseableFilename { name: "b".to_string() })
    );
    assert_eq!(entries, vec![entry("a", 2024, 1, 1)]);
}

#[test]
fn collect_takes_a_name_that_cannot_be_parsed_for_one_without_a_date() {
    let listing = names(&["2015-01-1", "-2147483648-01-1", "2016-01-1"]);
    assert_eq!(
        collect(&listing, "%G-%V-%u", false),
        Ok(vec![entry("2015-01-1", 2014, 12, 29), entry("2016-01-1", 2016, 1, 4)])
    );
    assert_eq!(
        collect(&listing, "%G-%V-%u", true),
        Err(Failure::UnparseableFilename { name: "-2147483648-01-1".to_string() })
    );
}
