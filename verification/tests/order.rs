use log_archiver::collect::DatedEntry;
use log_archiver::date::CalendarDate;
use log_archiver::order::sort_by_date;

fn entry(name: &str, year: i32, month: u32, day: u32) -> DatedEntry {
    DatedEntry { name: name.to_string(), date: CalendarDate { year, month, day } }
}

#[test]
fn sort_puts_dates_in_ascending_order() {
    let sorted = sort_by_date(vec![
        entry("c", 2024, 3, 2),
        entry("a", 2023, 12, 31),
        entry("d", 2024, 3, 10),
        entry("b", 2024, 1, 15),
    ]);
    assert_eq!(
        sorted,
        vec![
            entry("a", 2023, 12, 31),
            entry("b", 2024, 1, 15),
            entry("c", 2024, 3, 2),
            entry("d", 2024, 3, 10),
        ]
    );
}

#[test]
fn sort_keeps_entries_of_one_date_in_the_given_order() {
    let sorted = sort_by_date(vec![
        entry("late-1", 2024, 1, 9),
        entry("early-1", 2024, 1, 5),
        entry("late-2", 2024, 1, 9),
        entry("early-2", 2024, 1, 5),
        entry("late-3", 2024, 1, 9),
        entry("early-3", 2024, 1, 5),
    ]);
    assert_eq!(
        sorted,
        vec![
            entry("early-1", 2024, 1, 5),
            entry("early-2", 2024, 1, 5),
            entry("early-3", 2024, 1, 5),
            entry("late-1", 2024, 1, 9),
            entry("late-2", 2024, 1, 9),
            entry("late-3", 2024, 1, 9),
        ]
    );
}

#[test]
fn sort_of_nothing_and_of_one() {
    assert_eq!(sort_by_date(Vec::new()), Vec::new());
    assert_eq!(sort_by_date(vec![entry("a", 2024, 1, 1)]), vec![entry("a", 2024, 1, 1)]);
}

#[test]
fn sort_leaves_a_sorted_listing_as_it_is() {
    let listing =
        vec![entry("a", 2024, 1, 1), entry("b", 2024, 1, 1), entry("c", 2024, 1, 2)];
    assert_eq!(sort_by_date(listing.clone()), listing);
}

#[test]
fn sort_reverses_a_descending_listing() {
    let sorted = sort_by_date(vec![
        entry("c", 2024, 1, 3),
        entry("b", 2024, 1, 2),
        entry("a", 2024, 1, 1),
    ]);
    assert_eq!(
        sorted,
        vec![entry("a", 2024, 1, 1), entry("b", 2024, 1, 2), entry("c", 2024, 1, 3)]
    );
}

#[test]
fn sort_agrees_with_the_stable_sort_of_std() {
    let mut listing = Vec::new();
    let mut seed: u32 = 12345;
    for i in 0..200 {
        seed = seed.wrapping_mul(1103515245).wrapping_add(12345);
        let year = 2020 + ((seed >> 16) % 3) as i32;
        let month = 1 + (seed >> 8) % 3;
        let day = 1 + (seed >> 4) % 4;
        listing.push(entry(&format!("file-{}", i), year, month, day));
    }
    let mut expected = listing.clone();
    expected.sort_by_key(|e| (e.date.year, e.date.month, e.date.day));
    assert_eq!(sort_by_date(listing), expected);
}
