use chrono::NaiveDate;
use log_archiver::date::CalendarDate;

fn date(year: i32, month: u32, day: u32) -> CalendarDate {
    CalendarDate::new(year, month, day).unwrap()
}

#[test]
fn new_takes_fields_in_range() {
    assert_eq!(CalendarDate::new(2024, 1, 5), Some(CalendarDate { year: 2024, month: 1, day: 5 }));
    assert_eq!(
        CalendarDate::new(-44, 12, 31),
        Some(CalendarDate { year: -44, month: 12, day: 31 })
    );
}

#[test]
fn new_refuses_fields_out_of_range() {
    assert_eq!(CalendarDate::new(2024, 0, 5), None);
    assert_eq!(CalendarDate::new(2024, 13, 5), None);
    assert_eq!(CalendarDate::new(2024, 1, 0), None);
    assert_eq!(CalendarDate::new(2024, 1, 32), None);
    assert_eq!(CalendarDate::new(2024, u32::MAX, u32::MAX), None);
}

#[test]
fn dates_are_ordered_by_year_then_month_then_day() {
    let a = date(2023, 12, 31);
    let b = date(2024, 1, 1);
    let c = date(2024, 1, 2);
    let d = date(2024, 2, 1);
    assert!(a.lt(&b) && b.lt(&c) && c.lt(&d));
    assert!(a.lt(&d));
    assert!(!b.lt(&a) && !c.lt(&b) && !d.lt(&c));
    assert!(!a.lt(&a));
    assert!(a.le(&a) && a.le(&b) && !b.le(&a));
    assert!(date(-1, 12, 31).lt(&date(0, 1, 1)));
}

#[test]
fn order_agrees_with_chrono() {
    let fields = [
        (2023, 12, 31),
        (2024, 1, 1),
        (2024, 1, 31),
        (2024, 2, 1),
        (2024, 2, 29),
        (1999, 6, 15),
        (-5, 3, 3),
        (10000, 1, 1),
    ];
    for &(y1, m1, d1) in fields.iter() {
        for &(y2, m2, d2) in fields.iter() {
            let ours = date(y1, m1, d1).lt(&date(y2, m2, d2));
            let theirs =
                NaiveDate::from_ymd_opt(y1, m1, d1).unwrap() < NaiveDate::from_ymd_opt(y2, m2, d2).unwrap();
            assert_eq!(ours, theirs);
            let ours_le = date(y1, m1, d1).le(&date(y2, m2, d2));
            let theirs_le =
                NaiveDate::from_ymd_opt(y1, m1, d1).unwrap() <= NaiveDate::from_ymd_opt(y2, m2, d2).unwrap();
            assert_eq!(ours_le, theirs_le);
        }
    }
}

#[test]
fn text_is_year_month_day() {
    assert_eq!(date(2024, 1, 5).to_text(), "2024-01-05");
    assert_eq!(date(2015, 9, 5).to_text(), "2015-09-05");
    assert_eq!(date(0, 1, 1).to_text(), "0000-01-01");
    assert_eq!(date(9999, 12, 31).to_text(), "9999-12-31");
    assert_eq!(date(987, 10, 30).to_text(), "0987-10-30");
}

#[test]
fn text_signs_years_out_of_four_digits() {
    assert_eq!(date(-1, 1, 1).to_text(), "-0001-01-01");
    assert_eq!(date(10000, 12, 31).to_text(), "+10000-12-31");
    assert_eq!(date(-12345, 2, 3).to_text(), "-12345-02-03");
}

#[test]
fn text_agrees_with_chrono() {
    let fields = [
        (2024, 1, 5),
        (0, 1, 1),
        (1, 2, 3),
        (99, 12, 31),
        (9999, 12, 31),
        (10000, 1, 1),
        (262142, 12, 31),
        (-1, 1, 1),
        (-999, 7, 7),
        (-1000, 7, 7),
        (-9999, 7, 7),
        (-262143, 1, 1),
    ];
    for &(y, m, d) in fields.iter() {
        assert_eq!(date(y, m, d).to_text(), NaiveDate::from_ymd_opt(y, m, d).unwrap().to_string());
    }
}
