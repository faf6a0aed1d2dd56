//! What the archive is called and which entries go into it.

use crate::collect::{entry_views, DatedEntry, DatedEntryView};
use crate::date::date_text;
use crate::label::{range_label, smart_range_name};
use crate::order::{is_stable_sort_of, sort_by_date};
use vstd::prelude::*;

verus! {

/// The text of an optional string.
pub open spec fn text_of(s: Option<String>) -> Option<Seq<char>> {
    match s {
        Some(t) => Some(t@),
        None => None,
    }
}

/// The name that the entries themselves give to their archive.
///
/// Two entries or more give the range label of the first and the last date,
/// followed by `.zip`. A single entry gives its date in brackets, with no
/// suffix. No entry at all gives the fixed name `all_logs.zip`.
pub open spec fn derived_name(sorted: Seq<DatedEntryView>) -> Seq<char> {
    if sorted.len() >= 2 {
        range_label(sorted.first().date, sorted.last().date) + ".zip"@
    } else if sorted.len() == 1 {
        seq!['['] + date_text(sorted[0].date) + seq![']']
    } else {
        "all_logs.zip"@
    }
}

/// The name of the archive: the one that was asked for, to the letter, and
/// else the one derived from the entries.
pub open spec fn archive_name_of(sorted: Seq<DatedEntryView>, zip_name: Option<Seq<char>>) -> Seq<
    char,
> {
    match zip_name {
        Some(name) => name,
        None => derived_name(sorted),
    }
}

/// The entries that are stored in the archive: all but the last one.
pub open spec fn stored(sorted: Seq<DatedEntryView>) -> Seq<DatedEntryView> {
    if sorted.len() == 0 {
        sorted
    } else {
        sorted.drop_last()
    }
}

/// Names the archive of entries that are sorted by date.
pub fn archive_name(sorted: &Vec<DatedEntry>, zip_name: &Option<String>) -> (name: String)
    ensures
        name@ == archive_name_of(entry_views(sorted@), text_of(*zip_name)),
{
    match zip_name {
        Some(name) => name.clone(),
        None => {
            let len = sorted.len();
            if len >= 2 {
                let mut name = smart_range_name(&sorted[0].date, &sorted[len - 1].date);
                name.append(".zip");
                name
            } else if len == 1 {
                proof {
                    reveal_strlit("[");
                    reveal_strlit("]");
                }
                let mut name = String::from_str("[");
                name.append(sorted[0].date.to_text().as_str());
                name.append("]");
                assert(name@ =~= seq!['['] + date_text(sorted[0].date) + seq![']']);
                name
            } else {
                String::from_str("all_logs.zip")
            }
        },
    }
}

/// An archive that is decided on: its name and its entries in the order in
/// which they are stored.
#[derive(Debug, PartialEq, Eq)]
pub struct ArchivePlan {
    /// The name of the archive.
    pub name: String,
    /// All entries, sorted by date. The last one is not stored.
    pub entries: Vec<DatedEntry>,
}

impl ArchivePlan {
    /// How many entries are stored: all but one, and none of none.
    pub fn stored_count(&self) -> (n: usize)
        ensures
            n == stored(entry_views(self.entries@)).len(),
    {
        if self.entries.len() == 0 {
            0
        } else {
            self.entries.len() - 1
        }
    }
}

/// Decides on the archive of the collected entries: sorts them by date and
/// names the archive after `zip_name` or, without one, after their span.
pub fn plan(entries: Vec<DatedEntry>, zip_name: &Option<String>) -> (p: ArchivePlan)
    ensures
        is_stable_sort_of(entry_views(p.entries@), entry_views(entries@)),
        p.entries@.len() == entries@.len(),
        p.name@ == archive_name_of(entry_views(p.entries@), text_of(*zip_name)),
{
    let sorted = sort_by_date(entries);
    let name = archive_name(&sorted, zip_name);
    ArchivePlan { name, entries: sorted }
}

} // verus!
