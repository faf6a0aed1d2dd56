//! Putting dated entries in calendar order, entries of one date staying in
//! the order in which they were listed.

use crate::collect::{entry_views, DatedEntry, DatedEntryView};
use crate::date::{date_le, date_lt, CalendarDate};
use vstd::prelude::*;

verus! {

/// Whether the dates of `s` never go back.
pub open spec fn ascending(s: Seq<DatedEntryView>) -> bool {
    forall|i: int, j: int| 0 <= i <= j < s.len() ==> date_le(s[i].date, s[j].date)
}

/// The entries of `s` that bear the date `d`, in the order of `s`.
pub open spec fn on_date(s: Seq<DatedEntryView>, d: CalendarDate) -> Seq<DatedEntryView> {
    s.filter(|e: DatedEntryView| e.date == d)
}

/// Whether `sorted` holds the entries of `listed` in ascending order of
/// date, those of one date in the order in which `listed` has them.
pub open spec fn is_stable_sort_of(sorted: Seq<DatedEntryView>, listed: Seq<DatedEntryView>) -> bool {
    &&& ascending(sorted)
    &&& forall|d: CalendarDate| #[trigger] on_date(sorted, d) == on_date(listed, d)
}

/// The entries of one date among `a` followed by `b` are those among `a`
/// followed by those among `b`.
proof fn lemma_on_date_join(a: Seq<DatedEntryView>, b: Seq<DatedEntryView>, d: CalendarDate)
    ensures
        on_date(a + b, d) == on_date(a, d) + on_date(b, d),
{
    Seq::filter_distributes_over_add(a, b, |e: DatedEntryView| e.date == d);
}

/// A single entry is kept whole on its own date and dropped on any other.
proof fn lemma_on_date_single(x: DatedEntryView, d: CalendarDate)
    ensures
        on_date(seq![x], d) == (if x.date == d {
            seq![x]
        } else {
            Seq::empty()
        }),
{
    reveal_with_fuel(Seq::filter, 2);
    assert(seq![x].drop_last() =~= Seq::<DatedEntryView>::empty());
    assert(on_date(seq![x], d) =~= (if x.date == d {
        seq![x]
    } else {
        Seq::empty()
    }));
}

/// Entries that all come before `d` hold none of the date `d`.
proof fn lemma_on_date_none(a: Seq<DatedEntryView>, d: CalendarDate)
    requires
        forall|j: int| 0 <= j < a.len() ==> date_lt(#[trigger] a[j].date, d),
    ensures
        on_date(a, d) == Seq::<DatedEntryView>::empty(),
{
    let pred = |e: DatedEntryView| e.date == d;
    assert(a.all(|e: DatedEntryView| !pred(e)));
    a.lemma_all_neg_filter_empty(pred);
    assert(on_date(a, d) =~= Seq::<DatedEntryView>::empty());
}

/// Placing `x` behind the entries that come before its date, and before all
/// others, leaves the entries of each date in the order that they have when
/// `x` stands in front.
proof fn lemma_place_keeps_dates(out: Seq<DatedEntryView>, k: int, x: DatedEntryView, d: CalendarDate)
    requires
        0 <= k <= out.len(),
        forall|j: int| 0 <= j < k ==> date_lt(#[trigger] out[j].date, x.date),
    ensures
        on_date(out.insert(k, x), d) == on_date(seq![x] + out, d),
{
    let a = out.subrange(0, k);
    let b = out.subrange(k, out.len() as int);
    assert(out =~= a + b);
    assert(out.insert(k, x) =~= (a + seq![x]) + b);
    lemma_on_date_join(a + seq![x], b, d);
    lemma_on_date_join(a, seq![x], d);
    lemma_on_date_join(seq![x], out, d);
    lemma_on_date_join(a, b, d);
    lemma_on_date_single(x, d);
    if x.date == d {
        assert forall|j: int| 0 <= j < a.len() implies date_lt(#[trigger] a[j].date, d) by {
            assert(a[j] == out[j]);
        }
        lemma_on_date_none(a, d);
    }
    assert(on_date(out.insert(k, x), d) =~= on_date(seq![x] + out, d));
}

/// Sorts the entries by date, earliest first. Entries of one date keep the
/// order in which they were given.
pub fn sort_by_date(entries: Vec<DatedEntry>) -> (sorted: Vec<DatedEntry>)
    ensures
        is_stable_sort_of(entry_views(sorted@), entry_views(entries@)),
        sorted@.len() == entries@.len(),
{
    let ghost listed = entries@;
    let ghost views = entry_views(listed);
    let mut rest = entries;
    let mut out: Vec<DatedEntry> = Vec::new();
    proof {
        assert(entry_views(out@) =~= views.subrange(rest@.len() as int, views.len() as int));
    }
    while rest.len() > 0
        invariant
            views == entry_views(listed),
            rest@.len() <= listed.len(),
            rest@ == listed.subrange(0, rest@.len() as int),
            out@.len() + rest@.len() == listed.len(),
            ascending(entry_views(out@)),
            forall|d: CalendarDate| #[trigger]
                on_date(entry_views(out@), d) == on_date(
                    views.subrange(rest@.len() as int, views.len() as int),
                    d,
                ),
        decreases rest@.len(),
    {
        let ghost n = rest@.len() as int;
        let ghost before = entry_views(out@);
        let x = rest.pop().unwrap();
        assert(x == listed[n - 1]);
        let mut k: usize = 0;
        while k < out.len() && out[k].date.lt(&x.date)
            invariant
                k <= out@.len(),
                entry_views(out@) == before,
                forall|j: int| 0 <= j < k ==> date_lt(#[trigger] before[j].date, x.date),
            decreases out@.len() - k,
        {
            assert(before[k as int].date == out@[k as int].date);
            k = k + 1;
        }
        assert(k < out@.len() ==> !date_lt(before[k as int].date, x.date)) by {
            if k < out@.len() {
                assert(before[k as int].date == out@[k as int].date);
            }
        }
        out.insert(k, x);
        proof {
            let after = entry_views(out@);
            assert(after =~= before.insert(k as int, x@));
            before.insert_ensures(k as int, x@);
            assert(ascending(after)) by {
                assert forall|i: int, j: int| 0 <= i <= j < after.len() implies date_le(
                    after[i].date,
                    after[j].date,
                ) by {
                    if i < k && j > k {
                        assert(after[j] == before[j - 1]);
                    } else if i < k && j < k {
                    } else if i < k && j == k {
                    } else if i == k && j > k {
                        assert(after[j] == before[j - 1]);
                        assert(date_le(before[k as int].date, before[j - 1].date));
                    } else if i > k {
                        assert(after[i] == before[i - 1]);
                        assert(after[j] == before[j - 1]);
                    }
                }
            }
            assert forall|d: CalendarDate| #[trigger]
                on_date(after, d) == on_date(views.subrange(n - 1, views.len() as int), d) by {
                lemma_place_keeps_dates(before, k as int, x@, d);
                lemma_on_date_join(seq![x@], before, d);
                lemma_on_date_join(seq![x@], views.subrange(n, views.len() as int), d);
                assert(on_date(before, d) == on_date(views.subrange(n, views.len() as int), d));
                assert(views.subrange(n - 1, views.len() as int) =~= seq![x@] + views.subrange(
                    n,
                    views.len() as int,
                ));
            }
            assert(rest@ =~= listed.subrange(0, n - 1));
        }
    }
    proof {
        assert(views.subrange(0, views.len() as int) =~= views);
    }
    out
}

/// The entries of one date hold each of them as often as the whole does.
proof fn lemma_on_date_count(s: Seq<DatedEntryView>, e: DatedEntryView)
    ensures
        on_date(s, e.date).to_multiset().count(e) == s.to_multiset().count(e),
    decreases s.len(),
{
    if s.len() == 0 {
        lemma_on_date_none(s, e.date);
        assert(s =~= Seq::<DatedEntryView>::empty());
    } else {
        let rest = s.drop_last();
        let x = s.last();
        lemma_on_date_count(rest, e);
        assert(s =~= rest.push(x));
        rest.lemma_filter_push(x, |y: DatedEntryView| y.date == e.date);
        rest.to_multiset_ensures();
        on_date(rest, e.date).to_multiset_ensures();
    }
}

/// An entry that is listed is found again, on its date, after sorting.
proof fn lemma_sort_keeps(sorted: Seq<DatedEntryView>, listed: Seq<DatedEntryView>, i: int)
    requires
        forall|d: CalendarDate| #[trigger] on_date(sorted, d) == on_date(listed, d),
        0 <= i < listed.len(),
    ensures
        sorted.contains(listed[i]),
{
    let d = listed[i].date;
    let pred = |e: DatedEntryView| e.date == d;
    listed.lemma_filter_contains(pred, i);
    assert(on_date(sorted, d) == on_date(listed, d));
    sorted.lemma_filter_contains_rev(pred, listed[i]);
}

/// Sorting neither drops nor adds nor copies an entry: what comes out is
/// what went in, each entry as often as before.
pub proof fn lemma_sort_permutes(sorted: Seq<DatedEntryView>, listed: Seq<DatedEntryView>)
    requires
        is_stable_sort_of(sorted, listed),
    ensures
        sorted.to_multiset() == listed.to_multiset(),
        sorted.len() == listed.len(),
{
    assert forall|e: DatedEntryView|
        sorted.to_multiset().count(e) == listed.to_multiset().count(e) by {
        lemma_on_date_count(sorted, e);
        lemma_on_date_count(listed, e);
        assert(on_date(sorted, e.date) == on_date(listed, e.date));
    }
    assert(sorted.to_multiset() =~= listed.to_multiset());
    sorted.to_multiset_ensures();
    listed.to_multiset_ensures();
}

/// After sorting, the first entry bears the earliest date that was listed
/// and the last entry the latest.
pub proof fn lemma_sort_extremes(sorted: Seq<DatedEntryView>, listed: Seq<DatedEntryView>, i: int)
    requires
        is_stable_sort_of(sorted, listed),
        0 <= i < listed.len(),
    ensures
        sorted.len() > 0,
        date_le(sorted.first().date, listed[i].date),
        date_le(listed[i].date, sorted.last().date),
{
    lemma_sort_keeps(sorted, listed, i);
    let j = choose|j: int| 0 <= j < sorted.len() && sorted[j] == listed[i];
    assert(date_le(sorted[0].date, sorted[j].date));
    assert(date_le(sorted[j].date, sorted[sorted.len() - 1].date));
}

/// Two sequences in ascending order that agree, date by date, on their
/// entries and the order of these are the same sequence.
proof fn lemma_ascending_determined(a: Seq<DatedEntryView>, b: Seq<DatedEntryView>)
    requires
        ascending(a),
        ascending(b),
        forall|d: CalendarDate| #[trigger] on_date(a, d) == on_date(b, d),
    ensures
        a == b,
    decreases a.len(),
{
    if a.len() == 0 {
        if b.len() > 0 {
            lemma_sort_keeps(a, b, 0);
        }
        assert(a =~= b);
    } else {
        if b.len() == 0 {
            lemma_sort_keeps(b, a, 0);
        }
        let x = a.last();
        let y = b.last();
        let a1 = a.drop_last();
        let b1 = b.drop_last();
        assert(a =~= a1.push(x));
        assert(b =~= b1.push(y));
        lemma_sort_keeps(b, a, a.len() - 1);
        let j = choose|j: int| 0 <= j < b.len() && b[j] == x;
        assert(date_le(b[j].date, b[b.len() - 1].date));
        lemma_sort_keeps(a, b, b.len() - 1);
        let k = choose|k: int| 0 <= k < a.len() && a[k] == y;
        assert(date_le(a[k].date, a[a.len() - 1].date));
        assert(x.date == y.date);
        let top = x.date;
        a1.lemma_filter_push(x, |e: DatedEntryView| e.date == top);
        b1.lemma_filter_push(y, |e: DatedEntryView| e.date == top);
        assert(on_date(a, top) == on_date(b, top));
        assert(on_date(a, top).last() == x);
        assert(on_date(b, top).last() == y);
        assert(x == y);
        assert forall|d: CalendarDate| #[trigger] on_date(a1, d) == on_date(b1, d) by {
            a1.lemma_filter_push(x, |e: DatedEntryView| e.date == d);
            b1.lemma_filter_push(y, |e: DatedEntryView| e.date == d);
            assert(on_date(a, d) == on_date(b, d));
            if d == top {
                assert(on_date(a1, d) =~= on_date(a, d).drop_last());
                assert(on_date(b1, d) =~= on_date(b, d).drop_last());
            }
        }
        assert(ascending(a1)) by {
            assert forall|i: int, j: int| 0 <= i <= j < a1.len() implies date_le(
                a1[i].date,
                a1[j].date,
            ) by {
                assert(a1[i] == a[i] && a1[j] == a[j]);
            }
        }
        assert(ascending(b1)) by {
            assert forall|i: int, j: int| 0 <= i <= j < b1.len() implies date_le(
                b1[i].date,
                b1[j].date,
            ) by {
                assert(b1[i] == b[i] && b1[j] == b[j]);
            }
        }
        lemma_ascending_determined(a1, b1);
    }
}

/// There is one way only to sort a listing: any two sequences that are
/// sorted from it, in the sense of `is_stable_sort_of`, are equal.
pub proof fn lemma_sort_unique(a: Seq<DatedEntryView>, b: Seq<DatedEntryView>, listed: Seq<DatedEntryView>)
    requires
        is_stable_sort_of(a, listed),
        is_stable_sort_of(b, listed),
    ensures
        a == b,
{
    assert forall|d: CalendarDate| #[trigger] on_date(a, d) == on_date(b, d) by {
        assert(on_date(a, d) == on_date(listed, d));
        assert(on_date(b, d) == on_date(listed, d));
    }
    lemma_ascending_determined(a, b);
}

/// A listing that is in ascending order already is its own sorting.
pub proof fn lemma_sorted_stays(listed: Seq<DatedEntryView>)
    requires
        ascending(listed),
    ensures
        is_stable_sort_of(listed, listed),
{
}

} // verus!
