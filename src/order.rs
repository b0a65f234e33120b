use vstd::prelude::*;
use core::cmp::Ordering;
use crate::date::{date_before, date_less, parse_calendar_date, parse_calendar_date_spec};
use crate::record::DayMetrics;
use crate::text::{lex_less, text_less};

verus! {

/// How two day records compare by date: parsed dates ascending, records whose
/// date does not parse after those whose date does, and two such records by
/// their raw date text.
#[verifier::opaque]
pub open spec fn compare_spec(a: DayMetrics, b: DayMetrics) -> Ordering {
    match (parse_calendar_date_spec(a.calendar_date@), parse_calendar_date_spec(b.calendar_date@)) {
        (Some(x), Some(y)) => {
            if date_less(x, y) {
                Ordering::Less
            } else if date_less(y, x) {
                Ordering::Greater
            } else {
                Ordering::Equal
            }
        },
        (Some(_), None) => Ordering::Less,
        (None, Some(_)) => Ordering::Greater,
        (None, None) => {
            if lex_less(a.calendar_date@, b.calendar_date@) {
                Ordering::Less
            } else if lex_less(b.calendar_date@, a.calendar_date@) {
                Ordering::Greater
            } else {
                Ordering::Equal
            }
        },
    }
}

pub fn compare_metrics(a: &DayMetrics, b: &DayMetrics) -> (r: Ordering)
    ensures
        r == compare_spec(*a, *b),
{
    reveal(compare_spec);
    let a_date = parse_calendar_date(a.calendar_date.as_str());
    let b_date = parse_calendar_date(b.calendar_date.as_str());
    match (a_date, b_date) {
        (Some(left), Some(right)) => {
            if date_before(left, right) {
                Ordering::Less
            } else if date_before(right, left) {
                Ordering::Greater
            } else {
                Ordering::Equal
            }
        },
        (Some(_), None) => Ordering::Less,
        (None, Some(_)) => Ordering::Greater,
        (None, None) => {
            if text_less(a.calendar_date.as_str(), b.calendar_date.as_str()) {
                Ordering::Less
            } else if text_less(b.calendar_date.as_str(), a.calendar_date.as_str()) {
                Ordering::Greater
            } else {
                Ordering::Equal
            }
        },
    }
}

/// Whether `a` sorts strictly after `b`.
pub fn sorts_after(a: &DayMetrics, b: &DayMetrics) -> (r: bool)
    ensures
        r == (compare_spec(*a, *b) == Ordering::Greater),
{
    match compare_metrics(a, b) {
        Ordering::Greater => true,
        _ => false,
    }
}

/// Places `x` into `t` after every trailing record that does not sort after it.
pub open spec fn insert_day(x: DayMetrics, t: Seq<DayMetrics>) -> Seq<DayMetrics>
    decreases t.len(),
{
    if t.len() == 0 {
        seq![x]
    } else if compare_spec(t.last(), x) == Ordering::Greater {
        insert_day(x, t.drop_last()).push(t.last())
    } else {
        t.push(x)
    }
}

/// Stable ascending sort of day records by `compare_spec`.
pub open spec fn sort_days(s: Seq<DayMetrics>) -> Seq<DayMetrics>
    decreases s.len(),
{
    if s.len() == 0 {
        Seq::empty()
    } else {
        insert_day(s.last(), sort_days(s.drop_last()))
    }
}

/// Neighbours in `s` are in date order.
pub open spec fn in_date_order(s: Seq<DayMetrics>) -> bool {
    forall|i: int|
        0 <= i < s.len() - 1 ==> #[trigger] compare_spec(s[i], s[i + 1]) != Ordering::Greater
}

proof fn lemma_compare_antisymmetric(a: DayMetrics, b: DayMetrics)
    requires
        compare_spec(a, b) == Ordering::Greater,
    ensures
        compare_spec(b, a) != Ordering::Greater,
{
    reveal(compare_spec);
}

proof fn lemma_insert_day(x: DayMetrics, t: Seq<DayMetrics>)
    requires
        in_date_order(t),
    ensures
        in_date_order(insert_day(x, t)),
        insert_day(x, t).len() == t.len() + 1,
        insert_day(x, t).last() == x || (t.len() > 0 && insert_day(x, t).last() == t.last()),
    decreases t.len(),
{
    if t.len() > 0 {
        let init = t.drop_last();
        if compare_spec(t.last(), x) == Ordering::Greater {
            assert(in_date_order(init)) by {
                assert forall|i: int| 0 <= i < init.len() - 1 implies #[trigger] compare_spec(
                    init[i],
                    init[i + 1],
                ) != Ordering::Greater by {
                    assert(init[i] == t[i] && init[i + 1] == t[i + 1]);
                    assert(compare_spec(t[i], t[i + 1]) != Ordering::Greater);
                }
            }
            lemma_insert_day(x, init);
            let r = insert_day(x, init);
            let full = r.push(t.last());
            assert forall|i: int| 0 <= i < full.len() - 1 implies #[trigger] compare_spec(
                full[i],
                full[i + 1],
            ) != Ordering::Greater by {
                if i < r.len() - 1 {
                    assert(full[i] == r[i] && full[i + 1] == r[i + 1]);
                    assert(compare_spec(r[i], r[i + 1]) != Ordering::Greater);
                } else {
                    assert(full[i] == r.last());
                    assert(full[i + 1] == t.last());
                    if r.last() == x {
                        lemma_compare_antisymmetric(t.last(), x);
                    } else {
                        assert(t[t.len() - 2] == init.last());
                        assert(compare_spec(t[t.len() - 2], t[t.len() - 2 + 1])
                            != Ordering::Greater);
                    }
                }
            }
        } else {
            let full = t.push(x);
            assert forall|i: int| 0 <= i < full.len() - 1 implies #[trigger] compare_spec(
                full[i],
                full[i + 1],
            ) != Ordering::Greater by {
                if i < t.len() - 1 {
                    assert(full[i] == t[i] && full[i + 1] == t[i + 1]);
                    assert(compare_spec(t[i], t[i + 1]) != Ordering::Greater);
                }
            }
        }
    }
}

/// Sorting by date leaves every record in order with its neighbour, and
/// loses or adds none.
pub proof fn lemma_sort_days_ordered(s: Seq<DayMetrics>)
    ensures
        in_date_order(sort_days(s)),
        sort_days(s).len() == s.len(),
    decreases s.len(),
{
    if s.len() > 0 {
        lemma_sort_days_ordered(s.drop_last());
        lemma_insert_day(s.last(), sort_days(s.drop_last()));
    }
}

pub open spec fn pick(days: Seq<DayMetrics>, order: Seq<usize>) -> Seq<DayMetrics> {
    order.map_values(|k: usize| days[k as int])
}

/// The positions of `days` in date order: the records at these positions, in
/// this order, are `days` sorted by date.
pub fn sorted_order(days: &Vec<DayMetrics>) -> (r: Vec<usize>)
    ensures
        r@.len() == days@.len(),
        forall|k: int| 0 <= k < r@.len() ==> r@[k] < days@.len(),
        pick(days@, r@) == sort_days(days@),
{
    let n = days.len();
    let mut order: Vec<usize> = Vec::new();
    let mut i: usize = 0;
    assert(days@.take(0) =~= Seq::<DayMetrics>::empty());
    assert(pick(days@, order@) =~= Seq::<DayMetrics>::empty());
    while i < n
        invariant
            n == days@.len(),
            i <= n,
            order@.len() == i,
            forall|k: int| 0 <= k < order@.len() ==> order@[k] < n,
            pick(days@, order@) == sort_days(days@.take(i as int)),
        decreases n - i,
    {
        let ghost t = pick(days@, order@);
        let ghost x = days@[i as int];
        let mut j: usize = order.len();
        assert(t.take(j as int) =~= t);
        assert(t.skip(j as int) =~= Seq::<DayMetrics>::empty());
        while j > 0 && sorts_after(&days[order[j - 1]], &days[i])
            invariant
                n == days@.len(),
                i < n,
                j <= order@.len(),
                order@.len() == i,
                t == pick(days@, order@),
                x == days@[i as int],
                forall|k: int| 0 <= k < order@.len() ==> order@[k] < n,
                insert_day(x, t) == insert_day(x, t.take(j as int)) + t.skip(j as int),
            decreases j,
        {
            proof {
                let tj = t.take(j as int);
                assert(tj.drop_last() =~= t.take(j - 1));
                assert(tj.last() == t[j - 1]);
                assert(t.skip(j - 1) =~= seq![t[j - 1]] + t.skip(j as int));
                assert(insert_day(x, tj) == insert_day(x, t.take(j - 1)).push(t[j - 1]));
                assert(insert_day(x, t.take(j - 1)).push(t[j - 1]) + t.skip(j as int)
                    =~= insert_day(x, t.take(j - 1)) + t.skip(j - 1));
            }
            j = j - 1;
        }
        proof {
            let tj = t.take(j as int);
            if j > 0 {
                assert(tj.last() == t[j - 1]);
            }
            assert(insert_day(x, tj) == tj.push(x));
        }
        order.insert(j, i);
        proof {
            assert(pick(days@, order@) =~= t.take(j as int).push(x) + t.skip(j as int));
            let s = days@.take(i + 1);
            assert(s.drop_last() =~= days@.take(i as int));
            assert(s.last() == x);
        }
        i = i + 1;
    }
    assert(days@.take(n as int) =~= days@);
    order
}

/// A field-for-field copy of a day record.
pub fn copy_day(d: &DayMetrics) -> (r: DayMetrics)
    ensures
        r == *d,
{
    DayMetrics {
        id: d.id.clone(),
        calendar_date: d.calendar_date.clone(),
        weekday: d.weekday.clone(),
        total_in_min: d.total_in_min,
        total_lig_min: d.total_lig_min,
        total_mod_min: d.total_mod_min,
        total_vig_min: d.total_vig_min,
        sleep_minutes: d.sleep_minutes,
    }
}

/// Sorts day records by date, keeping records that compare equal in the
/// order they came in.
pub fn sort_metrics_by_date(records: &mut Vec<DayMetrics>)
    ensures
        final(records)@ == sort_days(old(records)@),
        in_date_order(final(records)@),
        final(records)@.len() == old(records)@.len(),
{
    proof {
        lemma_sort_days_ordered(records@);
    }
    let order = sorted_order(records);
    let mut sorted: Vec<DayMetrics> = Vec::new();
    let mut i: usize = 0;
    while i < order.len()
        invariant
            i <= order@.len(),
            order@.len() == records@.len(),
            forall|k: int| 0 <= k < order@.len() ==> order@[k] < records@.len(),
            sorted@ == pick(records@, order@).take(i as int),
        decreases order@.len() - i,
    {
        let d = copy_day(&records[order[i]]);
        sorted.push(d);
        assert(sorted@ =~= pick(records@, order@).take(i + 1));
        i = i + 1;
    }
    assert(pick(records@, order@).take(i as int) =~= pick(records@, order@));
    *records = sorted;
}

} // verus!
