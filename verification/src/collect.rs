//! The file collector: keeps the names of a directory listing that encode a
//! date, each with its date, in the order of the listing.

use crate::classify::{classified, classify};
use crate::date::CalendarDate;
use crate::failure::{Failure, FailureView};
use vstd::prelude::*;

verus! {

/// A file of the directory whose name encodes a date.
#[derive(Clone, Debug, PartialEq, Eq)]
pub struct DatedEntry {
    /// The file's name, without its directory.
    pub name: String,
    /// The date that the name encodes.
    pub date: CalendarDate,
}

/// A dated entry with its name as a sequence of characters.
pub struct DatedEntryView {
    pub name: Seq<char>,
    pub date: CalendarDate,
}

impl View for DatedEntry {
    type V = DatedEntryView;

    open spec fn view(&self) -> DatedEntryView {
        DatedEntryView { name: self.name@, date: self.date }
    }
}

/// The entries of `s`, each by its view.
pub open spec fn entry_views(s: Seq<DatedEntry>) -> Seq<DatedEntryView> {
    s.map_values(|e: DatedEntry| e@)
}

/// The names of `s`, each as a sequence of characters.
pub open spec fn name_views(s: Seq<String>) -> Seq<Seq<char>> {
    s.map_values(|n: String| n@)
}

/// The outcome of classifying each name of a listing under `format`.
pub open spec fn outcomes_of(names: Seq<Seq<char>>, format: Seq<char>) -> Seq<
    Option<CalendarDate>,
> {
    Seq::new(names.len(), |i: int| classified(names[i], format))
}

/// The dated entries among the first `n` names of a listing: each name that
/// was given a date, with that date, in the order of the listing.
pub open spec fn dated_prefix(
    names: Seq<Seq<char>>,
    outcomes: Seq<Option<CalendarDate>>,
    n: nat,
) -> Seq<DatedEntryView>
    decreases n,
{
    if n == 0 {
        Seq::empty()
    } else {
        let before = dated_prefix(names, outcomes, (n - 1) as nat);
        match outcomes[n - 1] {
            Some(date) => before.push(DatedEntryView { name: names[n - 1], date }),
            None => before,
        }
    }
}

/// The dated entries of a whole listing.
pub open spec fn dated(names: Seq<Seq<char>>, outcomes: Seq<Option<CalendarDate>>) -> Seq<
    DatedEntryView,
> {
    dated_prefix(names, outcomes, names.len())
}

/// Whether `i` is the place of the first name that was given no date.
pub open spec fn is_first_undated(outcomes: Seq<Option<CalendarDate>>, i: int) -> bool {
    &&& 0 <= i < outcomes.len()
    &&& outcomes[i] is None
    &&& forall|j: int| 0 <= j < i ==> outcomes[j] is Some
}

/// Whether every name was given a date.
pub open spec fn all_dated(outcomes: Seq<Option<CalendarDate>>) -> bool {
    forall|j: int| 0 <= j < outcomes.len() ==> outcomes[j] is Some
}

/// As many entries are collected as names were given a date, and each one
/// bears a name of the listing with the date that this name was given.
pub proof fn lemma_dated_holds_the_dated(
    names: Seq<Seq<char>>,
    outcomes: Seq<Option<CalendarDate>>,
    n: nat,
)
    requires
        n <= names.len(),
        names.len() == outcomes.len(),
    ensures
        dated_prefix(names, outcomes, n).len() == outcomes.take(n as int).filter(
            |o: Option<CalendarDate>| o is Some,
        ).len(),
        dated_prefix(names, outcomes, n).len() <= n,
        forall|k: int|
            0 <= k < dated_prefix(names, outcomes, n).len() ==> exists|i: int|
                0 <= i < n && outcomes[i] == Some(
                    (#[trigger] dated_prefix(names, outcomes, n)[k]).date,
                ) && names[i] == dated_prefix(names, outcomes, n)[k].name,
    decreases n,
{
    let is_some = |o: Option<CalendarDate>| o is Some;
    if n == 0 {
        assert(outcomes.take(0) =~= Seq::<Option<CalendarDate>>::empty());
        Seq::<Option<CalendarDate>>::empty().lemma_filter_len(is_some);
    } else {
        let m = (n - 1) as nat;
        lemma_dated_holds_the_dated(names, outcomes, m);
        let before = dated_prefix(names, outcomes, m);
        let now = dated_prefix(names, outcomes, n);
        assert(outcomes.take(n as int) =~= outcomes.take(m as int).push(outcomes[m as int]));
        outcomes.take(m as int).lemma_filter_push(outcomes[m as int], is_some);
        assert forall|k: int| 0 <= k < now.len() implies exists|i: int|
            0 <= i < n && outcomes[i] == Some((#[trigger] now[k]).date) && names[i]
                == now[k].name by {
            if k < before.len() {
                assert(now[k] == before[k]);
                let i = choose|i: int|
                    0 <= i < m && outcomes[i] == Some(before[k].date) && names[i]
                        == before[k].name;
                assert(0 <= i < n && outcomes[i] == Some(now[k].date) && names[i] == now[k].name);
            } else {
                assert(outcomes[m as int] == Some(now[k].date) && names[m as int] == now[k].name);
            }
        }
    }
}

/// Every entry that is collected from a listing bears a date whose month
/// and day are in range.
pub proof fn lemma_dated_are_well_formed(names: Seq<Seq<char>>, format: Seq<char>)
    ensures
        forall|k: int|
            0 <= k < dated(names, outcomes_of(names, format)).len() ==> (#[trigger] dated(
                names,
                outcomes_of(names, format),
            )[k]).date.wf(),
{
    let outcomes = outcomes_of(names, format);
    lemma_dated_holds_the_dated(names, outcomes, names.len());
    assert forall|k: int| 0 <= k < dated(names, outcomes).len() implies (#[trigger] dated(
        names,
        outcomes,
    )[k]).date.wf() by {
        let entry = dated(names, outcomes)[k];
        let i = choose|i: int|
            0 <= i < names.len() && outcomes[i] == Some(entry.date) && names[i] == entry.name;
        assert(classified(names[i], format) == Some(entry.date));
    }
}

/// Takes one classified name into the collection.
///
/// A name with a date is appended with it. A name without one is passed over,
/// or under strict parsing refused, which ends the collection.
pub fn record(
    entries: &mut Vec<DatedEntry>,
    name: &str,
    outcome: Option<CalendarDate>,
    strict: bool,
) -> (r: Result<(), Failure>)
    ensures
        match outcome {
            Some(date) => r is Ok && entry_views(final(entries)@) == entry_views(
                old(entries)@,
            ).push(DatedEntryView { name: name@, date }),
            None => final(entries)@ == old(entries)@ && (if strict {
                r matches Err(f) && f@ == (FailureView::UnparseableFilename { name: name@ })
            } else {
                r is Ok
            }),
        },
{
    match outcome {
        Some(date) => {
            entries.push(DatedEntry { name: String::from_str(name), date });
            assert(entry_views(entries@) =~= entry_views(old(entries)@).push(
                DatedEntryView { name: name@, date },
            ));
            Ok(())
        },
        None => {
            if strict {
                Err(Failure::UnparseableFilename { name: String::from_str(name) })
            } else {
                Ok(())
            }
        },
    }
}

/// What collecting the listing `names` comes to, given the outcome of
/// classifying each name.
///
/// Under strict parsing, a name without a date fails the collection, and the
/// failure tells the first such name. Otherwise the collection succeeds with
/// the dated entries, in the order of the listing.
pub open spec fn collect_ok(
    names: Seq<Seq<char>>,
    outcomes: Seq<Option<CalendarDate>>,
    strict: bool,
    r: Result<Vec<DatedEntry>, Failure>,
) -> bool {
    if strict && !all_dated(outcomes) {
        &&& r matches Err(f)
        &&& exists|i: int|
            #![auto]
            is_first_undated(outcomes, i) && f@ == (FailureView::UnparseableFilename {
                name: names[i],
            })
    } else {
        &&& r matches Ok(entries)
        &&& entry_views(entries@) == dated(names, outcomes)
    }
}

/// Collects the dated entries of a directory listing.
///
/// Without strict parsing every name that encodes no date is passed over in
/// silence. With it, the first such name fails the whole collection.
pub fn collect(names: &Vec<String>, format: &str, strict: bool) -> (r: Result<
    Vec<DatedEntry>,
    Failure,
>)
    ensures
        collect_ok(name_views(names@), outcomes_of(name_views(names@), format@), strict, r),
{
    let ghost texts = name_views(names@);
    let ghost outcomes = outcomes_of(texts, format@);
    let mut entries: Vec<DatedEntry> = Vec::new();
    let mut i: usize = 0;
    while i < names.len()
        invariant
            i <= names.len(),
            texts == name_views(names@),
            outcomes == outcomes_of(texts, format@),
            entry_views(entries@) == dated_prefix(texts, outcomes, i as nat),
            strict ==> forall|j: int| 0 <= j < i ==> outcomes[j] is Some,
        decreases names.len() - i,
    {
        let name = names[i].as_str();
        let outcome = classify(name, format);
        assert(texts[i as int] == name@);
        assert(outcome == outcomes[i as int]);
        match record(&mut entries, name, outcome, strict) {
            Ok(()) => {},
            Err(f) => {
                assert(is_first_undated(outcomes, i as int));
                assert(!all_dated(outcomes));
                return Err(f);
            },
        }
        i = i + 1;
    }
    assert(strict ==> all_dated(outcomes));
    Ok(entries)
}

} // verus!
