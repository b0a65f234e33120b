use vstd::prelude::*;
use crate::columns::{texts, ColumnLookup};
use crate::record::{extract_metrics_from_record, first_problem, row_gives, DayMetrics, RowSkip};
use crate::summary::ParticipantDays;
use crate::text::same_text;

verus! {

/// Each participant as (id, days).
pub open spec fn groups_model(g: Seq<ParticipantDays>) -> Seq<(Seq<char>, Seq<DayMetrics>)> {
    g.map_values(|p: ParticipantDays| (p.id@, p.days@))
}

/// No two participants share an id, and each day sits with its own id.
pub open spec fn groups_wf(m: Seq<(Seq<char>, Seq<DayMetrics>)>) -> bool {
    &&& forall|a: int, b: int| 0 <= a < b < m.len() ==> m[a].0 != m[b].0
    &&& forall|a: int, k: int|
        0 <= a < m.len() && 0 <= k < m[a].1.len() ==> (#[trigger] m[a].1[k]).id@ == m[a].0
}

/// The grouping after one more day: appended to the days of its participant,
/// or to a new participant at the end on its first occurrence.
pub open spec fn add_day_spec(m: Seq<(Seq<char>, Seq<DayMetrics>)>, d: DayMetrics) -> Seq<
    (Seq<char>, Seq<DayMetrics>),
> {
    if exists|i: int| 0 <= i < m.len() && m[i].0 == d.id@ {
        let i = choose|i: int| 0 <= i < m.len() && m[i].0 == d.id@;
        m.update(i, (m[i].0, m[i].1.push(d)))
    } else {
        m.push((d.id@, seq![d]))
    }
}

/// Files a day record under its participant.
pub fn add_day(groups: &mut Vec<ParticipantDays>, day: DayMetrics)
    requires
        groups_wf(groups_model(old(groups)@)),
    ensures
        groups_model(final(groups)@) == add_day_spec(groups_model(old(groups)@), day),
        groups_wf(groups_model(final(groups)@)),
{
    let ghost m = groups_model(groups@);
    let mut i: usize = 0;
    while i < groups.len()
        invariant
            i <= groups@.len(),
            m == groups_model(groups@),
            m == groups_model(old(groups)@),
            groups_wf(m),
                forall|k: int| 0 <= k < i ==> m[k].0 != day.id@,
        decreases groups@.len() - i,
    {
        if same_text(groups[i].id.as_str(), day.id.as_str()) {
            let mut days = Vec::new();
            std::mem::swap(&mut days, &mut groups[i].days);
            let ghost old_days = days@;
            days.push(day);
            let id = groups[i].id.clone();
            groups.set(i, ParticipantDays { id, days });
            proof {
                assert(m[i as int].0 == day.id@);
                assert(exists|j: int| 0 <= j < m.len() && m[j].0 == day.id@);
                let j = choose|j: int| 0 <= j < m.len() && m[j].0 == day.id@;
                assert(m[i as int].0 == day.id@);
                assert(j == i);
                assert(old_days == m[i as int].1);
                assert(groups_model(groups@) =~= m.update(
                    i as int,
                    (m[i as int].0, m[i as int].1.push(day)),
                ));
                let m2 = groups_model(groups@);
                assert forall|a: int, k: int|
                    0 <= a < m2.len() && 0 <= k < m2[a].1.len() implies (#[trigger] m2[a].1[k]).id@
                    == m2[a].0 by {
                    if a == i {
                        assert(m2[a].1 == m[a].1.push(day));
                        assert(m2[a].0 == m[a].0);
                        if k < m[a].1.len() {
                            assert(m2[a].1[k] == m[a].1[k]);
                            assert(m[a].1[k].id@ == m[a].0);
                        } else {
                            assert(m2[a].1[k] == day);
                            assert(day.id@ == m[a].0);
                        }
                    } else {
                        assert(m2[a] == m[a]);
                        assert(m[a].1[k].id@ == m[a].0);
                    }
                }
            }
            return;
        }
        i = i + 1;
    }
    let id = day.id.clone();
    let mut days = Vec::new();
    days.push(day);
    groups.push(ParticipantDays { id, days });
    assert(groups_model(groups@) =~= m.push((day.id@, seq![day])));
}

pub open spec fn rows_view(rows: Seq<Vec<String>>) -> Seq<Seq<Seq<char>>> {
    rows.map_values(|r: Vec<String>| texts(r@))
}

/// `ds` are the day records that the rows without problems give, in order.
pub open spec fn rows_yield(rows: Seq<Seq<Seq<char>>>, c: ColumnLookup, ds: Seq<DayMetrics>) -> bool
    decreases rows.len(),
{
    if rows.len() == 0 {
        ds.len() == 0
    } else if first_problem(rows.last(), c) is None {
        &&& ds.len() > 0
        &&& row_gives(rows.last(), c, ds.last())
        &&& rows_yield(rows.drop_last(), c, ds.drop_last())
    } else {
        rows_yield(rows.drop_last(), c, ds)
    }
}

/// The grouping after filing each of `ds` in turn.
pub open spec fn add_days_spec(m: Seq<(Seq<char>, Seq<DayMetrics>)>, ds: Seq<DayMetrics>) -> Seq<
    (Seq<char>, Seq<DayMetrics>),
>
    decreases ds.len(),
{
    if ds.len() == 0 {
        m
    } else {
        add_day_spec(add_days_spec(m, ds.drop_last()), ds.last())
    }
}

/// The rows left out, by position, with the column and whether its value
/// was missing.
pub open spec fn skips_of(rows: Seq<Seq<Seq<char>>>, c: ColumnLookup) -> Seq<
    (int, (Seq<char>, bool)),
>
    decreases rows.len(),
{
    if rows.len() == 0 {
        Seq::empty()
    } else {
        let prev = skips_of(rows.drop_last(), c);
        match first_problem(rows.last(), c) {
            Some(p) => prev.push((rows.len() - 1, p)),
            None => prev,
        }
    }
}

pub open spec fn skips_view(v: Seq<(usize, RowSkip)>) -> Seq<(int, (Seq<char>, bool))> {
    v.map_values(|x: (usize, RowSkip)| (x.0 as int, x.1.view()))
}

/// Files the day record of every row of one table under its participant, and
/// returns the rows left out with the reason for each.
pub fn collect_rows(
    groups: &mut Vec<ParticipantDays>,
    columns: &ColumnLookup,
    rows: &Vec<Vec<String>>,
) -> (skips: Vec<(usize, RowSkip)>)
    requires
        groups_wf(groups_model(old(groups)@)),
    ensures
        groups_wf(groups_model(final(groups)@)),
        exists|ds: Seq<DayMetrics>|
            rows_yield(rows_view(rows@), *columns, ds) && groups_model(final(groups)@)
                == add_days_spec(groups_model(old(groups)@), ds),
        skips_view(skips@) == skips_of(rows_view(rows@), *columns),
{
    let ghost m0 = groups_model(groups@);
    let ghost rv = rows_view(rows@);
    let ghost mut ds: Seq<DayMetrics> = Seq::empty();
    let mut skips: Vec<(usize, RowSkip)> = Vec::new();
    let mut i: usize = 0;
    assert(rv.take(0) =~= Seq::<Seq<Seq<char>>>::empty());
    assert(skips_view(skips@) =~= Seq::<(int, (Seq<char>, bool))>::empty());
    while i < rows.len()
        invariant
            i <= rows@.len(),
            rv == rows_view(rows@),
            m0 == groups_model(old(groups)@),
            groups_wf(groups_model(groups@)),
            rows_yield(rv.take(i as int), *columns, ds),
            groups_model(groups@) == add_days_spec(m0, ds),
            skips_view(skips@) == skips_of(rv.take(i as int), *columns),
        decreases rows@.len() - i,
    {
        let ghost t = rv.take(i + 1);
        proof {
            assert(t.drop_last() =~= rv.take(i as int));
            assert(t.last() == texts(rows@[i as int]@));
        }
        match extract_metrics_from_record(&rows[i], columns) {
            Ok(day) => {
                let ghost before = ds;
                proof {
                    ds = ds.push(day);
                    assert(ds.drop_last() =~= before);
                    assert(ds.last() == day);
                }
                add_day(groups, day);
            },
            Err(e) => {
                skips.push((i, e));
                assert(skips_view(skips@) =~= skips_of(rv.take(i as int), *columns).push(
                    (i as int, e.view()),
                ));
            },
        }
        i = i + 1;
    }
    assert(rv.take(rows@.len() as int) =~= rv);
    skips
}

} // verus!
