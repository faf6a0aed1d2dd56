use log_archiver::classify::{classify, date_from_parts, is_safe_to_parse};
use log_archiver::date::CalendarDate;

const FORMAT: &str = "%Y-%m-%d.log";

#[test]
fn classify_reads_the_date_in_a_name() {
    assert_eq!(
        classify("2024-01-05.log", FORMAT),
        Some(CalendarDate { year: 2024, month: 1, day: 5 })
    );
    assert_eq!(
        classify("1999-12-31.log", FORMAT),
        Some(CalendarDate { year: 1999, month: 12, day: 31 })
    );
}

#[test]
fn classify_goes_by_the_format() {
    assert_eq!(
        classify("log_05_01_2024", "log_%d_%m_%Y"),
        Some(CalendarDate { year: 2024, month: 1, day: 5 })
    );
    assert_eq!(
        classify("5sep2015", "%d%b%Y"),
        Some(CalendarDate { year: 2015, month: 9, day: 5 })
    );
    assert_eq!(classify("2024-01-05.log", "log_%d_%m_%Y"), None);
}

#[test]
fn classify_refuses_a_name_that_matches_in_part() {
    assert_eq!(classify("2024-01-05.log.bak", FORMAT), None);
    assert_eq!(classify("2024-01-05.logs", FORMAT), None);
    assert_eq!(classify("2024-01-05", FORMAT), None);
    assert_eq!(classify("2024-01-05.lo", FORMAT), None);
    assert_eq!(classify("x2024-01-05.log", FORMAT), None);
}

#[test]
fn classify_refuses_a_name_without_a_date() {
    assert_eq!(classify("notes.txt", FORMAT), None);
    assert_eq!(classify("", FORMAT), None);
    assert_eq!(classify("all_logs.zip", FORMAT), None);
    assert_eq!(classify("журнал.log", FORMAT), None);
}

#[test]
fn classify_refuses_a_day_that_is_not_on_the_calendar() {
    assert_eq!(classify("2024-02-30.log", FORMAT), None);
    assert_eq!(classify("2024-13-01.log", FORMAT), None);
    assert_eq!(classify("2023-02-29.log", FORMAT), None);
    assert_eq!(
        classify("2024-02-29.log", FORMAT),
        Some(CalendarDate { year: 2024, month: 2, day: 29 })
    );
}

#[test]
fn classify_refuses_a_format_that_gives_no_whole_date() {
    assert_eq!(classify("2024-01", "%Y-%m"), None);
    assert_eq!(classify("2024-01-05.log", "%Y-%m-%d.log%"), None);
}

#[test]
fn classify_is_the_same_on_the_same_texts() {
    assert_eq!(classify("2024-01-05.log", FORMAT), classify("2024-01-05.log", FORMAT));
    assert_eq!(classify("nope", FORMAT), classify("nope", FORMAT));
}

#[test]
fn date_from_parts_keeps_fields_in_range() {
    assert_eq!(
        date_from_parts(Some((2024, 1, 5))),
        Some(CalendarDate { year: 2024, month: 1, day: 5 })
    );
    assert_eq!(date_from_parts(Some((2024, 0, 5))), None);
    assert_eq!(date_from_parts(Some((2024, 13, 5))), None);
    assert_eq!(date_from_parts(Some((2024, 1, 0))), None);
    assert_eq!(date_from_parts(Some((2024, 1, 32))), None);
    assert_eq!(date_from_parts(None), None);
}

#[test]
fn classify_reads_an_iso_week_date() {
    assert_eq!(
        classify("2015-01-1", "%G-%V-%u"),
        Some(CalendarDate { year: 2014, month: 12, day: 29 })
    );
    assert_eq!(
        classify("2016-01-1", "%G-%V-%u"),
        Some(CalendarDate { year: 2016, month: 1, day: 4 })
    );
    assert_eq!(classify("2015-54-1", "%G-%V-%u"), None);
}

#[test]
fn classify_refuses_the_least_iso_year() {
    assert_eq!(classify("-2147483648-01-1", "%G-%V-%u"), None);
    assert_eq!(classify("-002147483648-01-1", "%G-%V-%u"), None);
    assert_eq!(classify("-2147483648-01-1.log", "%G-%V-%u.log"), None);
    assert_eq!(classify("-2147483648-1-1", "%-G-%-V-%u"), None);
}

#[test]
fn classify_refuses_iso_years_at_the_ends_of_the_range() {
    assert_eq!(classify("+2147483647-52-7", "%G-%V-%u"), None);
    assert_eq!(classify("+2147483647-01-1", "%G-%V-%u"), None);
    assert_eq!(classify("-2147483647-01-1", "%G-%V-%u"), None);
    assert_eq!(classify("-2147483647-52-7", "%G-%V-%u"), None);
    assert_eq!(classify("+2147483648-01-1", "%G-%V-%u"), None);
    assert_eq!(classify("-2147483649-01-1", "%G-%V-%u"), None);
    assert_eq!(classify("-262144-01-1", "%G-%V-%u"), None);
    assert_eq!(classify("+262143-52-7", "%G-%V-%u"), None);
}

#[test]
fn classify_refuses_the_least_year_digits_wherever_the_format_holds_a_g() {
    assert_eq!(classify("2015-01-1_2147483648", "%G-%V-%u_2147483648"), None);
    assert_eq!(classify("LOG2147483648_2024-01-05", "LOG2147483648_%Y-%m-%d"), None);
    assert_eq!(
        classify("2015-01-1_2147483647", "%G-%V-%u_2147483647"),
        Some(CalendarDate { year: 2014, month: 12, day: 29 })
    );
}

#[test]
fn classify_reads_the_least_year_digits_where_the_format_holds_no_g() {
    assert_eq!(
        classify("2147483648_2024-01-05", "2147483648_%Y-%m-%d"),
        Some(CalendarDate { year: 2024, month: 1, day: 5 })
    );
    assert_eq!(classify("-2147483648-01-01", "%Y-%m-%d"), None);
    assert_eq!(classify("+2147483647-12-31", "%Y-%m-%d"), None);
    assert_eq!(classify("-2147483648", "%g"), None);
}

#[test]
fn safe_to_parse_without_a_g_in_the_format() {
    assert!(is_safe_to_parse("-2147483648-01-1", "%Y-%m-%d"));
    assert!(is_safe_to_parse("2147483648", ""));
    assert!(is_safe_to_parse("", ""));
    assert!(is_safe_to_parse("2147483648", "%g"));
}

#[test]
fn safe_to_parse_without_the_digits_in_the_name() {
    assert!(is_safe_to_parse("", "%G"));
    assert!(is_safe_to_parse("2015-01-1", "%G-%V-%u"));
    assert!(is_safe_to_parse("214748364", "%G"));
    assert!(is_safe_to_parse("147483648", "%G"));
    assert!(is_safe_to_parse("2147483647", "%G"));
    assert!(is_safe_to_parse("21474836 48", "%G"));
    assert!(is_safe_to_parse("21474-83648", "G"));
    assert!(is_safe_to_parse("8463847412", "%G"));
}

#[test]
fn not_safe_to_parse_with_both() {
    assert!(!is_safe_to_parse("2147483648", "%G"));
    assert!(!is_safe_to_parse("2147483648", "G"));
    assert!(!is_safe_to_parse("-2147483648-01-1", "%G-%V-%u"));
    assert!(!is_safe_to_parse("x2147483648", "%Y G"));
    assert!(!is_safe_to_parse("2147483648x", "LOG-%Y"));
    assert!(!is_safe_to_parse("00002147483648", "%G"));
    assert!(!is_safe_to_parse("21474836482147483648", "%G"));
    assert!(!is_safe_to_parse("2147482147483648", "%G"));
    assert!(!is_safe_to_parse("21474836421474836482", "%G"));
    assert!(!is_safe_to_parse("журнал2147483648", "%G"));
}

#[test]
fn classify_returns_on_extreme_fields() {
    let year_letters = ["Y", "G", "C", "y", "g", "-Y", "_G", "0G", "s"];
    let middle_letters = ["m", "j", "U", "W", "V", "b", "B", "q"];
    let day_letters = ["d", "e", "a", "A", "w", "u"];
    let years = [
        "-2147483648",
        "+2147483647",
        "-2147483647",
        "+2147483646",
        "-262145",
        "-262144",
        "-262143",
        "+262142",
        "+262143",
        "+262144",
        "0",
        "00",
        "99",
        "1970",
        "-1",
        "+10000",
        "21474836",
        "21474837",
        "9223372036854775807",
        "-9223372036854775808",
        "99999999999999999999",
    ];
    let middles = ["0", "1", "4", "5", "12", "13", "52", "53", "54", "366", "367", "Jan", "December"];
    let days = ["0", "1", "6", "7", "8", "31", "32", "Mon", "Sunday"];
    let mut parsed = 0;
    for year_letter in year_letters {
        for middle_letter in middle_letters {
            for day_letter in day_letters {
                let format = format!("%{}-%{}-%{}", year_letter, middle_letter, day_letter);
                for year in years {
                    for middle in middles {
                        for day in days {
                            let name = format!("{}-{}-{}", year, middle, day);
                            if let Some(date) = classify(&name, &format) {
                                assert!(1 <= date.month && date.month <= 12);
                                assert!(1 <= date.day && date.day <= 31);
                                assert!(-262143 <= date.year && date.year <= 262142);
                                parsed += 1;
                            }
                        }
                    }
                }
            }
        }
    }
    assert!(parsed > 0);
}

#[test]
fn classify_returns_on_every_single_specifier() {
    let modifiers = ["", "-", "_", "0", ":", "::", ":::", "#", ".", ".3", ".6", ".9", "3", "6", "9"];
    let names = [
        "",
        " ",
        "0",
        "-2147483648",
        "+2147483647",
        "9223372036854775807",
        "-9223372036854775808",
        "2024-01-05",
        "2024-01-05T12:34:56+09:30",
        "Fri, 05 Jan 2024 12:34:56 +0000",
        "Fri, 05 Jan 2024 12:34:56 (a(b)\\\\) GMT",
        "Mon",
        "Monday",
        "Jan",
        "January",
        "am",
        "PM",
        "+09:30",
        "-0000",
        "\u{2212}09:30",
        "é",
        "é1",
        "1é",
        "\u{661}\u{662}\u{663}",
        "%",
        ".123456789",
        ".",
        "12:34:56.7",
        "UTC",
        "Z",
    ];
    for code in 0x20u8..0x7f {
        for modifier in modifiers {
            let format = format!("%{}{}", modifier, code as char);
            for name in names {
                let alone = classify(name, &format);
                assert_eq!(alone, classify(name, &format));
                let dated = classify(&format!("2024-01-05{}", name), &format!("%Y-%m-%d{}", format));
                if let Some(date) = dated {
                    assert_eq!(date, CalendarDate { year: 2024, month: 1, day: 5 });
                }
            }
        }
    }
}
