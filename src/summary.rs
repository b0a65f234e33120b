use vstd::prelude::*;
use crate::date::{determine_weekday, determine_weekday_spec};
use crate::order::{pick, sort_days, sorted_order};
use crate::record::DayMetrics;
use crate::weekday::{weekday_at, weekday_from_index, weekday_index, weekday_position, Weekday};

verus! {

/// The day records of one participant, in the order they were read.
pub struct ParticipantDays {
    pub id: String,
    pub days: Vec<DayMetrics>,
}

/// The most participants a summary takes: a `Vec` of `ParticipantDays`
/// (48 bytes each) cannot be longer on a machine whose address space is at
/// most 2^57 bytes.
pub const MAX_PARTICIPANTS: u64 = 0x200_0000_0000_0000;

/// An exact quotient `numerator / denominator`, left unreduced.
#[derive(Clone, Copy, Debug, PartialEq, Eq, Structural)]
pub struct Ratio {
    pub numerator: i128,
    pub denominator: i128,
}

impl Ratio {
    pub open spec fn is(self, num: int, den: int) -> bool {
        self.numerator == num && self.denominator == den
    }
}

/// Weekly and daily figures of a set of participants. Durations are ratios
/// of hours (or of minutes, for the MVPA figures); the arrays hold sleep,
/// inactive, light, moderate and vigorous time in that order.
pub struct WeeklySummary {
    pub days_to_use: usize,
    pub participant_count: usize,
    pub average_hours: [Ratio; 5],
    pub weekly_mvpa_minutes: Ratio,
    pub daily_average_hours: [Ratio; 5],
    pub daily_mvpa_minutes: Ratio,
    pub daily_sedentary_hours: Ratio,
    pub average_sleep_by_weekday: Vec<(Weekday, Ratio)>,
}


/// How many participants have at least one day record.
pub open spec fn nonempty_count(data: Seq<ParticipantDays>) -> int
    decreases data.len(),
{
    if data.len() == 0 {
        0
    } else {
        nonempty_count(data.drop_last()) + if data.last().days@.len() > 0 {
            1int
        } else {
            0int
        }
    }
}

/// The common window: the fewest days any participant with data has, capped
/// at seven.
pub open spec fn window_len(data: Seq<ParticipantDays>) -> int
    decreases data.len(),
{
    if data.len() == 0 {
        7
    } else {
        let r = window_len(data.drop_last());
        let m = data.last().days@.len() as int;
        if 0 < m && m < r {
            m
        } else {
            r
        }
    }
}

/// The days of a participant that enter the summary: the first `n` after
/// sorting by date.
pub open spec fn retained(g: Seq<DayMetrics>, n: int) -> Seq<DayMetrics> {
    if g.len() == 0 {
        Seq::empty()
    } else {
        sort_days(g).take(n)
    }
}

/// Sum of duration `f` over some days.
pub open spec fn day_sum(days: Seq<DayMetrics>, f: int) -> int
    decreases days.len(),
{
    if days.len() == 0 {
        0
    } else {
        day_sum(days.drop_last(), f) + days.last().field(f)
    }
}

/// Sum of duration `f` over the retained days of every participant.
pub open spec fn field_total(data: Seq<ParticipantDays>, n: int, f: int) -> int
    decreases data.len(),
{
    if data.len() == 0 {
        0
    } else {
        field_total(data.drop_last(), n, f) + day_sum(retained(data.last().days@, n), f)
    }
}

pub open spec fn on_weekday(d: DayMetrics, w: Weekday) -> bool {
    determine_weekday_spec(d.calendar_date@, d.weekday@) == Some(w)
}

/// Sleep over the days that fall on weekday `w`.
pub open spec fn weekday_sleep(days: Seq<DayMetrics>, w: Weekday) -> int
    decreases days.len(),
{
    if days.len() == 0 {
        0
    } else {
        weekday_sleep(days.drop_last(), w) + if on_weekday(days.last(), w) {
            days.last().sleep_minutes as int
        } else {
            0
        }
    }
}

/// How many of the days fall on weekday `w`.
pub open spec fn weekday_count(days: Seq<DayMetrics>, w: Weekday) -> int
    decreases days.len(),
{
    if days.len() == 0 {
        0
    } else {
        weekday_count(days.drop_last(), w) + if on_weekday(days.last(), w) {
            1int
        } else {
            0int
        }
    }
}

pub open spec fn weekday_sleep_total(data: Seq<ParticipantDays>, n: int, w: Weekday) -> int
    decreases data.len(),
{
    if data.len() == 0 {
        0
    } else {
        weekday_sleep_total(data.drop_last(), n, w) + weekday_sleep(
            retained(data.last().days@, n),
            w,
        )
    }
}

pub open spec fn weekday_count_total(data: Seq<ParticipantDays>, n: int, w: Weekday) -> int
    decreases data.len(),
{
    if data.len() == 0 {
        0
    } else {
        weekday_count_total(data.drop_last(), n, w) + weekday_count(
            retained(data.last().days@, n),
            w,
        )
    }
}

/// The average sleep rows of the first `k` weekdays from Monday, as
/// (weekday, numerator, denominator) in hours; weekdays without any
/// observation are left out.
pub open spec fn weekday_rows(data: Seq<ParticipantDays>, n: int, k: int) -> Seq<
    (Weekday, int, int),
>
    decreases k,
{
    if k <= 0 {
        Seq::empty()
    } else {
        let prev = weekday_rows(data, n, k - 1);
        let w = weekday_at(k - 1);
        let c = weekday_count_total(data, n, w);
        if c > 0 {
            prev.push((w, weekday_sleep_total(data, n, w), 60_000_000 * c))
        } else {
            prev
        }
    }
}

pub open spec fn rows_view(rows: Seq<(Weekday, Ratio)>) -> Seq<(Weekday, int, int)> {
    rows.map_values(|r: (Weekday, Ratio)| (r.0, r.1.numerator as int, r.1.denominator as int))
}

/// Denominator of the hour figures: minutes to hours, millionths of a
/// minute, participants and days.
pub open spec fn hour_denominator(data: Seq<ParticipantDays>) -> int {
    60_000_000 * (nonempty_count(data) * window_len(data))
}

pub open spec fn minute_denominator(data: Seq<ParticipantDays>) -> int {
    1_000_000 * (nonempty_count(data) * window_len(data))
}

/// What the summary of `data` is: none where no participant has a day
/// record; otherwise each figure exactly.
pub open spec fn summary_matches(data: Seq<ParticipantDays>, r: Option<WeeklySummary>) -> bool {
    match r {
        None => nonempty_count(data) == 0,
        Some(s) => {
            let p = nonempty_count(data);
            let n = window_len(data);
            let mvpa = field_total(data, n, 3) + field_total(data, n, 4);
            let sedentary = field_total(data, n, 1) - field_total(data, n, 0);
            &&& p > 0
            &&& s.participant_count == p
            &&& s.days_to_use == n
            &&& forall|f: int|
                0 <= f < 5 ==> (#[trigger] s.average_hours@[f]).is(
                    7 * field_total(data, n, f),
                    hour_denominator(data),
                )
            &&& forall|f: int|
                0 <= f < 5 ==> (#[trigger] s.daily_average_hours@[f]).is(
                    field_total(data, n, f),
                    hour_denominator(data),
                )
            &&& s.weekly_mvpa_minutes.is(7 * mvpa, minute_denominator(data))
            &&& s.daily_mvpa_minutes.is(mvpa, minute_denominator(data))
            &&& s.daily_sedentary_hours.is(
                if sedentary > 0 {
                    sedentary
                } else {
                    0
                },
                hour_denominator(data),
            )
            &&& rows_view(s.average_sleep_by_weekday@) == weekday_rows(data, n, 7)
        },
    }
}

proof fn lemma_weekday_at_injective(a: int, b: int)
    requires
        0 <= a < 7,
        0 <= b < 7,
        weekday_at(a) == weekday_at(b),
    ensures
        a == b,
{
}

/// How many participants have data, and the common window.
fn common_window(data: &Vec<ParticipantDays>) -> (r: (usize, usize))
    ensures
        r.0 as int == nonempty_count(data@),
        r.1 as int == window_len(data@),
        r.0 <= data@.len(),
        1 <= r.1 <= 7,
        forall|k: int|
            0 <= k < data@.len() && (#[trigger] data@[k]).days@.len() > 0 ==> r.1
                <= data@[k].days@.len(),
{
    let n = data.len();
    let mut count: usize = 0;
    let mut cap: usize = 7;
    let mut i: usize = 0;
    assert(data@.take(0) =~= Seq::<ParticipantDays>::empty());
    while i < n
        invariant
            n == data@.len(),
            i <= n,
            count <= i,
            count as int == nonempty_count(data@.take(i as int)),
            cap as int == window_len(data@.take(i as int)),
            1 <= cap <= 7,
            forall|k: int|
                0 <= k < i && (#[trigger] data@[k]).days@.len() > 0 ==> cap
                    <= data@[k].days@.len(),
        decreases n - i,
    {
        proof {
            let s = data@.take(i + 1);
            assert(s.drop_last() =~= data@.take(i as int));
            assert(s.last() == data@[i as int]);
        }
        let len = data[i].days.len();
        if len > 0 {
            count = count + 1;
            if len < cap {
                cap = len;
            }
        }
        i = i + 1;
    }
    assert(data@.take(n as int) =~= data@);
    (count, cap)
}

/// Adds the retained days of one participant to the running sums.
fn accumulate_participant(
    g: &Vec<DayMetrics>,
    cap: usize,
    totals: &mut Vec<i128>,
    wsum: &mut Vec<i128>,
    wcnt: &mut Vec<i128>,
    Ghost(done): Ghost<int>,
)
    requires
        1 <= cap <= 7,
        g@.len() > 0 ==> cap <= g@.len(),
        0 <= done < 0x200_0000_0000_0000,
        old(totals)@.len() == 5,
        old(wsum)@.len() == 7,
        old(wcnt)@.len() == 7,
        forall|f: int|
            0 <= f < 5 ==> -7 * done * 0x8000_0000_0000_0000 <= #[trigger] old(totals)@[f] <= 7
                * done * 0x8000_0000_0000_0000,
        forall|w: int|
            0 <= w < 7 ==> -7 * done * 0x8000_0000_0000_0000 <= #[trigger] old(wsum)@[w] <= 7
                * done * 0x8000_0000_0000_0000,
        forall|w: int| 0 <= w < 7 ==> 0 <= #[trigger] old(wcnt)@[w] <= 7 * done,
    ensures
        final(totals)@.len() == 5,
        final(wsum)@.len() == 7,
        final(wcnt)@.len() == 7,
        forall|f: int|
            0 <= f < 5 ==> #[trigger] final(totals)@[f] == old(totals)@[f] + day_sum(
                retained(g@, cap as int),
                f,
            ),
        forall|w: int|
            0 <= w < 7 ==> #[trigger] final(wsum)@[w] == old(wsum)@[w] + weekday_sleep(
                retained(g@, cap as int),
                weekday_at(w),
            ),
        forall|w: int|
            0 <= w < 7 ==> #[trigger] final(wcnt)@[w] == old(wcnt)@[w] + weekday_count(
                retained(g@, cap as int),
                weekday_at(w),
            ),
        forall|f: int|
            0 <= f < 5 ==> -7 * (done + 1) * 0x8000_0000_0000_0000 <= #[trigger] final(totals)@[f]
                <= 7 * (done + 1) * 0x8000_0000_0000_0000,
        forall|w: int|
            0 <= w < 7 ==> -7 * (done + 1) * 0x8000_0000_0000_0000 <= #[trigger] final(wsum)@[w]
                <= 7 * (done + 1) * 0x8000_0000_0000_0000,
        forall|w: int| 0 <= w < 7 ==> 0 <= #[trigger] final(wcnt)@[w] <= 7 * (done + 1),
{
    let ghost r = retained(g@, cap as int);
    if g.len() == 0 {
        assert(r.len() == 0);
        return;
    }
    let order = sorted_order(g);
    let ghost t0 = totals@;
    let ghost s0 = wsum@;
    let ghost c0 = wcnt@;
    assert(r =~= pick(g@, order@).take(cap as int));
    assert(r.take(0) =~= Seq::<DayMetrics>::empty());
    let mut j: usize = 0;
    while j < cap
        invariant
            1 <= cap <= 7,
            cap <= g@.len(),
            j <= cap,
            order@.len() == g@.len(),
            forall|k: int| 0 <= k < order@.len() ==> order@[k] < g@.len(),
                r == pick(g@, order@).take(cap as int),
            0 <= done < 0x200_0000_0000_0000,
            totals@.len() == 5,
            wsum@.len() == 7,
            wcnt@.len() == 7,
            forall|f: int|
                0 <= f < 5 ==> #[trigger] totals@[f] == t0[f] + day_sum(r.take(j as int), f),
            forall|w: int|
                0 <= w < 7 ==> #[trigger] wsum@[w] == s0[w] + weekday_sleep(
                    r.take(j as int),
                    weekday_at(w),
                ),
            forall|w: int|
                0 <= w < 7 ==> #[trigger] wcnt@[w] == c0[w] + weekday_count(
                    r.take(j as int),
                    weekday_at(w),
                ),
            forall|f: int|
                0 <= f < 5 ==> -7 * done * 0x8000_0000_0000_0000 <= #[trigger] t0[f] <= 7 * done
                    * 0x8000_0000_0000_0000,
            forall|w: int|
                0 <= w < 7 ==> -7 * done * 0x8000_0000_0000_0000 <= #[trigger] s0[w] <= 7 * done
                    * 0x8000_0000_0000_0000,
            forall|w: int| 0 <= w < 7 ==> 0 <= #[trigger] c0[w] <= 7 * done,
            forall|f: int|
                0 <= f < 5 ==> -(7 * done + j) * 0x8000_0000_0000_0000 <= #[trigger] totals@[f]
                    <= (7 * done + j) * 0x8000_0000_0000_0000,
            forall|w: int|
                0 <= w < 7 ==> -(7 * done + j) * 0x8000_0000_0000_0000 <= #[trigger] wsum@[w]
                    <= (7 * done + j) * 0x8000_0000_0000_0000,
            forall|w: int| 0 <= w < 7 ==> 0 <= #[trigger] wcnt@[w] <= 7 * done + j,
        decreases cap - j,
    {
        let d = &g[order[j]];
        let ghost prev = r.take(j as int);
        proof {
            let next = r.take(j + 1);
            assert(next.drop_last() =~= prev);
            assert(next.last() == *d);
        }
        let t = totals[0] + d.sleep_minutes as i128;
        totals.set(0, t);
        let t = totals[1] + d.total_in_min as i128;
        totals.set(1, t);
        let t = totals[2] + d.total_lig_min as i128;
        totals.set(2, t);
        let t = totals[3] + d.total_mod_min as i128;
        totals.set(3, t);
        let t = totals[4] + d.total_vig_min as i128;
        totals.set(4, t);
        let ghost before_s = wsum@;
        let ghost before_c = wcnt@;
        match determine_weekday(d) {
            Some(w) => {
                let k = weekday_position(w);
                let s = wsum[k] + d.sleep_minutes as i128;
                wsum.set(k, s);
                let c = wcnt[k] + 1;
                wcnt.set(k, c);
                proof {
                    assert forall|x: int| 0 <= x < 7 && x != k implies on_weekday(*d, weekday_at(x))
                        == false by {
                        if on_weekday(*d, weekday_at(x)) {
                            lemma_weekday_at_injective(x, k as int);
                        }
                    }
                }
            },
            None => {},
        }
        j = j + 1;
    }
    assert(r.take(cap as int) =~= r);
}

fn zeros(n: usize) -> (r: Vec<i128>)
    ensures
        r@.len() == n,
        forall|k: int| 0 <= k < n ==> #[trigger] r@[k] == 0,
{
    let mut v: Vec<i128> = Vec::new();
    let mut i: usize = 0;
    while i < n
        invariant
            i <= n,
            v@.len() == i,
            forall|k: int| 0 <= k < i ==> #[trigger] v@[k] == 0,
        decreases n - i,
    {
        v.push(0);
        i = i + 1;
    }
    v
}

/// Weekly and daily averages over all participants with data: each
/// participant contributes the first `days_to_use` of its days in date order,
/// where `days_to_use` is the fewest days any of them has, capped at seven.
pub fn compute_weekly_summary(data: &Vec<ParticipantDays>) -> (r: Option<WeeklySummary>)
    requires
        data@.len() <= MAX_PARTICIPANTS,
    ensures
        summary_matches(data@, r),
{
    let (count, cap) = common_window(data);
    if count == 0 {
        return None;
    }
    let mut totals = zeros(5);
    let mut wsum = zeros(7);
    let mut wcnt = zeros(7);
    let n = data.len();
    let mut i: usize = 0;
    assert(data@.take(0) =~= Seq::<ParticipantDays>::empty());
    while i < n
        invariant
            n == data@.len(),
            i <= n,
            data@.len() <= MAX_PARTICIPANTS,
            1 <= cap <= 7,
            cap as int == window_len(data@),
            forall|k: int|
                0 <= k < data@.len() && (#[trigger] data@[k]).days@.len() > 0 ==> cap
                    <= data@[k].days@.len(),
            totals@.len() == 5,
            wsum@.len() == 7,
            wcnt@.len() == 7,
            forall|f: int|
                0 <= f < 5 ==> #[trigger] totals@[f] == field_total(
                    data@.take(i as int),
                    cap as int,
                    f,
                ),
            forall|w: int|
                0 <= w < 7 ==> #[trigger] wsum@[w] == weekday_sleep_total(
                    data@.take(i as int),
                    cap as int,
                    weekday_at(w),
                ),
            forall|w: int|
                0 <= w < 7 ==> #[trigger] wcnt@[w] == weekday_count_total(
                    data@.take(i as int),
                    cap as int,
                    weekday_at(w),
                ),
            forall|f: int|
                0 <= f < 5 ==> -7 * i * 0x8000_0000_0000_0000 <= #[trigger] totals@[f] <= 7 * i
                    * 0x8000_0000_0000_0000,
            forall|w: int|
                0 <= w < 7 ==> -7 * i * 0x8000_0000_0000_0000 <= #[trigger] wsum@[w] <= 7 * i
                    * 0x8000_0000_0000_0000,
            forall|w: int| 0 <= w < 7 ==> 0 <= #[trigger] wcnt@[w] <= 7 * i,
        decreases n - i,
    {
        proof {
            let s = data@.take(i + 1);
            assert(s.drop_last() =~= data@.take(i as int));
            assert(s.last() == data@[i as int]);
        }
        accumulate_participant(
            &data[i].days,
            cap,
            &mut totals,
            &mut wsum,
            &mut wcnt,
            Ghost(i as int),
        );
        i = i + 1;
    }
    assert(data@.take(n as int) =~= data@);
    assert((count as int) * (cap as int) <= 7 * (count as int)) by (nonlinear_arith)
        requires
            cap <= 7,
            count >= 0,
    ;
    let pn: i128 = count as i128 * cap as i128;
    let hour_den: i128 = 60_000_000 * pn;
    let minute_den: i128 = 1_000_000 * pn;
    let mvpa: i128 = totals[3] + totals[4];
    let sedentary: i128 = totals[1] - totals[0];
    let average_hours = [
        Ratio { numerator: 7 * totals[0], denominator: hour_den },
        Ratio { numerator: 7 * totals[1], denominator: hour_den },
        Ratio { numerator: 7 * totals[2], denominator: hour_den },
        Ratio { numerator: 7 * totals[3], denominator: hour_den },
        Ratio { numerator: 7 * totals[4], denominator: hour_den },
    ];
    let daily_average_hours = [
        Ratio { numerator: totals[0], denominator: hour_den },
        Ratio { numerator: totals[1], denominator: hour_den },
        Ratio { numerator: totals[2], denominator: hour_den },
        Ratio { numerator: totals[3], denominator: hour_den },
        Ratio { numerator: totals[4], denominator: hour_den },
    ];
    let mut rows: Vec<(Weekday, Ratio)> = Vec::new();
    let mut k: u32 = 0;
    while k < 7
        invariant
            k <= 7,
            cap as int == window_len(data@),
            wsum@.len() == 7,
            wcnt@.len() == 7,
            forall|w: int|
                0 <= w < 7 ==> #[trigger] wsum@[w] == weekday_sleep_total(
                    data@,
                    cap as int,
                    weekday_at(w),
                ),
            forall|w: int|
                0 <= w < 7 ==> #[trigger] wcnt@[w] == weekday_count_total(
                    data@,
                    cap as int,
                    weekday_at(w),
                ),
            forall|w: int| 0 <= w < 7 ==> 0 <= #[trigger] wcnt@[w] <= 7 * n,
            n <= usize::MAX,
            rows_view(rows@) == weekday_rows(data@, cap as int, k as int),
        decreases 7 - k,
    {
        let w = weekday_from_index(k);
        let c = wcnt[k as usize];
        if c > 0 {
            let row = (w, Ratio { numerator: wsum[k as usize], denominator: 60_000_000 * c });
            rows.push(row);
            assert(rows_view(rows@) =~= weekday_rows(data@, cap as int, k as int).push(
                (w, row.1.numerator as int, row.1.denominator as int),
            ));
        }
        k = k + 1;
    }
    Some(
        WeeklySummary {
            days_to_use: cap,
            participant_count: count,
            average_hours,
            weekly_mvpa_minutes: Ratio { numerator: 7 * mvpa, denominator: minute_den },
            daily_average_hours,
            daily_mvpa_minutes: Ratio { numerator: mvpa, denominator: minute_den },
            daily_sedentary_hours: Ratio {
                numerator: if sedentary > 0 {
                    sedentary
                } else {
                    0
                },
                denominator: hour_den,
            },
            average_sleep_by_weekday: rows,
        },
    )
}

/// The common window is at most seven days, no participant with data has
/// fewer days, and unless it is seven it is the day count of one of them.
pub proof fn lemma_window_is_min_days(data: Seq<ParticipantDays>)
    ensures
        1 <= window_len(data) <= 7,
        forall|k: int|
            0 <= k < data.len() && (#[trigger] data[k]).days@.len() > 0 ==> window_len(data)
                <= data[k].days@.len(),
        window_len(data) == 7 || exists|k: int|
            0 <= k < data.len() && (#[trigger] data[k]).days@.len() == window_len(data),
    decreases data.len(),
{
    if data.len() > 0 {
        let init = data.drop_last();
        lemma_window_is_min_days(init);
        assert forall|k: int|
            0 <= k < data.len() && (#[trigger] data[k]).days@.len() > 0 implies window_len(data)
            <= data[k].days@.len() by {
            if k < init.len() {
                assert(init[k] == data[k]);
            }
        }
        if window_len(data) != 7 {
            if window_len(data) == window_len(init) {
                let k = choose|k: int|
                    0 <= k < init.len() && (#[trigger] init[k]).days@.len() == window_len(init);
                assert(data[k] == init[k]);
            } else {
                assert(data[data.len() - 1].days@.len() == window_len(data));
            }
        }
    }
}

/// The summary of `data` with a participant without day records added at
/// position `i` is the summary of `data`: such a participant is left out.
pub proof fn lemma_empty_participant_ignored(data: Seq<ParticipantDays>, e: ParticipantDays, i: int)
    requires
        0 <= i <= data.len(),
        e.days@.len() == 0,
    ensures
        nonempty_count(data.insert(i, e)) == nonempty_count(data),
        window_len(data.insert(i, e)) == window_len(data),
        forall|r: Option<WeeklySummary>|
            #[trigger] summary_matches(data.insert(i, e), r) == summary_matches(data, r),
{
    lemma_empty_sums(data, e, i);
    let d2 = data.insert(i, e);
    let n = window_len(data);
    assert forall|k: int| 0 <= k <= 7 implies #[trigger] weekday_rows(d2, n, k) == weekday_rows(
        data,
        n,
        k,
    ) by {
        lemma_rows_agree(d2, data, n, k);
    }
}

proof fn lemma_rows_agree(a: Seq<ParticipantDays>, b: Seq<ParticipantDays>, n: int, k: int)
    requires
        forall|w: Weekday|
            #[trigger] weekday_sleep_total(a, n, w) == weekday_sleep_total(b, n, w)
                && weekday_count_total(a, n, w) == weekday_count_total(b, n, w),
    ensures
        weekday_rows(a, n, k) == weekday_rows(b, n, k),
    decreases k,
{
    if k > 0 {
        lemma_rows_agree(a, b, n, k - 1);
        let w = weekday_at(k - 1);
        assert(weekday_sleep_total(a, n, w) == weekday_sleep_total(b, n, w));
    }
}

proof fn lemma_empty_sums(data: Seq<ParticipantDays>, e: ParticipantDays, i: int)
    requires
        0 <= i <= data.len(),
        e.days@.len() == 0,
    ensures
        nonempty_count(data.insert(i, e)) == nonempty_count(data),
        window_len(data.insert(i, e)) == window_len(data),
        forall|n: int, f: int| #[trigger]
            field_total(data.insert(i, e), n, f) == field_total(data, n, f),
        forall|n: int, w: Weekday|
            #[trigger] weekday_sleep_total(data.insert(i, e), n, w) == weekday_sleep_total(
                data,
                n,
                w,
            ) && weekday_count_total(data.insert(i, e), n, w) == weekday_count_total(data, n, w),
    decreases data.len(),
{
    let d2 = data.insert(i, e);
    assert(retained(e.days@, 0) == Seq::<DayMetrics>::empty());
    if i == data.len() {
        assert(d2.drop_last() =~= data);
        assert(d2.last() == e);
        assert forall|n: int, f: int| #[trigger] field_total(d2, n, f) == field_total(data, n, f) by {
            assert(retained(e.days@, n) =~= Seq::<DayMetrics>::empty());
        }
        assert forall|n: int, w: Weekday|
            #[trigger] weekday_sleep_total(d2, n, w) == weekday_sleep_total(data, n, w)
                && weekday_count_total(d2, n, w) == weekday_count_total(data, n, w) by {
            assert(retained(e.days@, n) =~= Seq::<DayMetrics>::empty());
        }
    } else {
        let init = data.drop_last();
        lemma_empty_sums(init, e, i);
        assert(d2.drop_last() =~= init.insert(i, e));
        assert(d2.last() == data.last());
        assert forall|n: int, f: int| #[trigger] field_total(d2, n, f) == field_total(data, n, f) by {
            assert(field_total(init.insert(i, e), n, f) == field_total(init, n, f));
        }
        assert forall|n: int, w: Weekday|
            #[trigger] weekday_sleep_total(d2, n, w) == weekday_sleep_total(data, n, w)
                && weekday_count_total(d2, n, w) == weekday_count_total(data, n, w) by {
            assert(weekday_sleep_total(init.insert(i, e), n, w) == weekday_sleep_total(init, n, w));
            assert(weekday_count_total(init.insert(i, e), n, w) == weekday_count_total(init, n, w));
        }
    }
}

/// The weekday rows carry only weekdays with at least one observation, in
/// order from Monday, each at most once.
pub proof fn lemma_weekday_rows_ordered(data: Seq<ParticipantDays>, n: int, k: int)
    requires
        0 <= k <= 7,
    ensures
        forall|j: int|
            0 <= j < weekday_rows(data, n, k).len() ==> weekday_count_total(
                data,
                n,
                (#[trigger] weekday_rows(data, n, k)[j]).0,
            ) > 0 && 0 <= weekday_index(weekday_rows(data, n, k)[j].0) < k,
        forall|a: int, b: int|
            0 <= a < b < weekday_rows(data, n, k).len() ==> weekday_index(
                (#[trigger] weekday_rows(data, n, k)[a]).0,
            ) < weekday_index((#[trigger] weekday_rows(data, n, k)[b]).0),
    decreases k,
{
    if k > 0 {
        lemma_weekday_rows_ordered(data, n, k - 1);
        let prev = weekday_rows(data, n, k - 1);
        let w = weekday_at(k - 1);
        assert(weekday_index(w) == k - 1);
        let rows = weekday_rows(data, n, k);
        assert forall|j: int| 0 <= j < prev.len() implies rows[j] == prev[j] by {}
    }
}

/// The figures of a summary, as plain values.
pub open spec fn summary_view(r: Option<WeeklySummary>) -> Option<
    (
        usize,
        usize,
        Seq<Ratio>,
        Ratio,
        Seq<Ratio>,
        Ratio,
        Ratio,
        Seq<(Weekday, int, int)>,
    ),
> {
    match r {
        None => None,
        Some(s) => Some(
            (
                s.days_to_use,
                s.participant_count,
                s.average_hours@,
                s.weekly_mvpa_minutes,
                s.daily_average_hours@,
                s.daily_mvpa_minutes,
                s.daily_sedentary_hours,
                rows_view(s.average_sleep_by_weekday@),
            ),
        ),
    }
}

/// The summary is a function of its input: any two results that meet the
/// contract of `compute_weekly_summary` on the same data agree in every
/// figure, so running it twice gives the same figures.
pub proof fn lemma_summary_deterministic(
    data: Seq<ParticipantDays>,
    a: Option<WeeklySummary>,
    b: Option<WeeklySummary>,
)
    requires
        summary_matches(data, a),
        summary_matches(data, b),
    ensures
        summary_view(a) == summary_view(b),
{
    if a is Some && b is Some {
        let x = a->0;
        let y = b->0;
        assert(x.average_hours@ =~= y.average_hours@);
        assert(x.daily_average_hours@ =~= y.daily_average_hours@);
    }
}

} // verus!
