use vstd::prelude::*;
use crate::text::same_text;

verus! {

/// Where each required field stands in a header row.
#[derive(Clone, Copy, Debug)]
pub struct ColumnLookup {
    pub id: usize,
    pub calendar_date: usize,
    pub weekday: usize,
    /// Inactive, light, moderate and vigorous minutes, in that order.
    pub total_durations: [usize; 4],
    pub sleep_minutes: usize,
}

pub open spec fn texts(v: Seq<String>) -> Seq<Seq<char>> {
    v.map_values(|s: String| s@)
}

/// `i` is the first position of `name` in `hs`.
pub open spec fn first_position(hs: Seq<Seq<char>>, name: Seq<char>, i: int) -> bool {
    &&& 0 <= i < hs.len()
    &&& hs[i] == name
    &&& forall|k: int| 0 <= k < i ==> hs[k] != name
}

pub open spec fn has_column(hs: Seq<Seq<char>>, name: Seq<char>) -> bool {
    exists|k: int| 0 <= k < hs.len() && hs[k] == name
}

/// The names of the required columns, in byte order.
pub open spec fn required_names() -> Seq<Seq<char>> {
    seq![
        "ID"@,
        "calendar_date"@,
        "dur_day_total_IN_min"@,
        "dur_day_total_LIG_min"@,
        "dur_day_total_MOD_min"@,
        "dur_day_total_VIG_min"@,
        "dur_spt_min"@,
        "weekday"@,
    ]
}

/// The names among `names` that `hs` lacks, in the order of `names`.
pub open spec fn missing_among(hs: Seq<Seq<char>>, names: Seq<Seq<char>>) -> Seq<Seq<char>>
    decreases names.len(),
{
    if names.len() == 0 {
        Seq::empty()
    } else {
        let prev = missing_among(hs, names.drop_last());
        if has_column(hs, names.last()) {
            prev
        } else {
            prev.push(names.last())
        }
    }
}

/// Every position in `c` is the first column of its field.
pub open spec fn lookup_matches(hs: Seq<Seq<char>>, c: ColumnLookup) -> bool {
    &&& first_position(hs, "ID"@, c.id as int)
    &&& first_position(hs, "calendar_date"@, c.calendar_date as int)
    &&& first_position(hs, "weekday"@, c.weekday as int)
    &&& first_position(hs, "dur_spt_min"@, c.sleep_minutes as int)
    &&& first_position(hs, "dur_day_total_IN_min"@, c.total_durations[0] as int)
    &&& first_position(hs, "dur_day_total_LIG_min"@, c.total_durations[1] as int)
    &&& first_position(hs, "dur_day_total_MOD_min"@, c.total_durations[2] as int)
    &&& first_position(hs, "dur_day_total_VIG_min"@, c.total_durations[3] as int)
}

/// The first position of `name` among the headers; where there is none, the
/// name is added to `missing` and 0 is returned.
pub fn find_index(headers: &Vec<String>, name: &str, missing: &mut Vec<String>) -> (r: usize)
    ensures
        has_column(texts(headers@), name@) ==> first_position(texts(headers@), name@, r as int)
            && final(missing)@ == old(missing)@,
        !has_column(texts(headers@), name@) ==> r == 0 && texts(final(missing)@) == texts(
            old(missing)@,
        ).push(name@),
{
    let ghost hs = texts(headers@);
    let mut i: usize = 0;
    while i < headers.len()
        invariant
            i <= headers@.len(),
            hs == texts(headers@),
            forall|k: int| 0 <= k < i ==> hs[k] != name@,
        decreases headers@.len() - i,
    {
        if same_text(headers[i].as_str(), name) {
            assert(hs[i as int] == name@);
            return i;
        }
        i = i + 1;
    }
    missing.push(String::from_str(name));
    assert(texts(missing@) =~= texts(old(missing)@).push(name@));
    0
}

proof fn lemma_missing_step(hs: Seq<Seq<char>>, k: int)
    requires
        0 <= k < 8,
    ensures
        missing_among(hs, required_names().take(k + 1)) == if has_column(
            hs,
            required_names()[k],
        ) {
            missing_among(hs, required_names().take(k))
        } else {
            missing_among(hs, required_names().take(k)).push(required_names()[k])
        },
{
    assert(required_names().take(k + 1).drop_last() =~= required_names().take(k));
}

/// Finds the required columns in a header row, or lists every one that is
/// absent, each once and in byte order.
pub fn locate_required_columns(headers: &Vec<String>) -> (r: Result<ColumnLookup, Vec<String>>)
    ensures
        match r {
            Ok(c) => missing_among(texts(headers@), required_names()).len() == 0
                && lookup_matches(texts(headers@), c),
            Err(m) => texts(m@) == missing_among(texts(headers@), required_names()) && m@.len()
                > 0,
        },
{
    let ghost hs = texts(headers@);
    let mut missing: Vec<String> = Vec::new();
    assert(required_names().take(0) =~= Seq::<Seq<char>>::empty());
    assert(texts(missing@) =~= Seq::<Seq<char>>::empty());
    let id = find_index(headers, "ID", &mut missing);
    proof {
        lemma_missing_step(hs, 0);
    }
    let calendar_date = find_index(headers, "calendar_date", &mut missing);
    proof {
        lemma_missing_step(hs, 1);
    }
    let t0 = find_index(headers, "dur_day_total_IN_min", &mut missing);
    proof {
        lemma_missing_step(hs, 2);
    }
    let t1 = find_index(headers, "dur_day_total_LIG_min", &mut missing);
    proof {
        lemma_missing_step(hs, 3);
    }
    let t2 = find_index(headers, "dur_day_total_MOD_min", &mut missing);
    proof {
        lemma_missing_step(hs, 4);
    }
    let t3 = find_index(headers, "dur_day_total_VIG_min", &mut missing);
    proof {
        lemma_missing_step(hs, 5);
    }
    let sleep_minutes = find_index(headers, "dur_spt_min", &mut missing);
    proof {
        lemma_missing_step(hs, 6);
    }
    let weekday = find_index(headers, "weekday", &mut missing);
    proof {
        lemma_missing_step(hs, 7);
    }
    assert(required_names().take(8) =~= required_names());
    if missing.len() == 0 {
        Ok(
            ColumnLookup {
                id,
                calendar_date,
                weekday,
                total_durations: [t0, t1, t2, t3],
                sleep_minutes,
            },
        )
    } else {
        Err(missing)
    }
}

proof fn lemma_missing_among(hs: Seq<Seq<char>>, names: Seq<Seq<char>>)
    requires
        names.no_duplicates(),
    ensures
        forall|n: Seq<char>|
            #[trigger] missing_among(hs, names).contains(n) <==> (names.contains(n) && !has_column(
                hs,
                n,
            )),
        missing_among(hs, names).no_duplicates(),
    decreases names.len(),
{
    if names.len() > 0 {
        let init = names.drop_last();
        assert(init.no_duplicates());
        lemma_missing_among(hs, init);
        assert forall|n: Seq<char>| #[trigger] names.contains(n) <==> (init.contains(n) || n
            == names.last()) by {
            if names.contains(n) {
                let k = choose|k: int| 0 <= k < names.len() && names[k] == n;
                if k < names.len() - 1 {
                    assert(init[k] == n);
                }
            }
            if init.contains(n) {
                let k = choose|k: int| 0 <= k < init.len() && init[k] == n;
                assert(names[k] == n);
            }
            if n == names.last() {
                assert(names[names.len() - 1] == n);
            }
        }
        assert(!init.contains(names.last())) by {
            if init.contains(names.last()) {
                let k = choose|k: int| 0 <= k < init.len() && init[k] == names.last();
                assert(names[k] == names[names.len() - 1]);
            }
        }
        let prev = missing_among(hs, init);
        if !has_column(hs, names.last()) {
            let cur = prev.push(names.last());
            assert forall|n: Seq<char>| #[trigger] cur.contains(n) <==> (prev.contains(n) || n
                == names.last()) by {
                if cur.contains(n) {
                    let k = choose|k: int| 0 <= k < cur.len() && cur[k] == n;
                    if k < prev.len() {
                        assert(prev[k] == n);
                    }
                }
                if prev.contains(n) {
                    let k = choose|k: int| 0 <= k < prev.len() && prev[k] == n;
                    assert(cur[k] == n);
                }
                if n == names.last() {
                    assert(cur[prev.len() as int] == n);
                }
            }
            assert forall|a: int, b: int|
                0 <= a < cur.len() && 0 <= b < cur.len() && a != b implies cur[a] != cur[b] by {
                if a < prev.len() && b == prev.len() {
                    assert(prev.contains(prev[a]));
                }
                if b < prev.len() && a == prev.len() {
                    assert(prev.contains(prev[b]));
                }
            }
        }
    }
}

/// The column check reports each required column that the header lacks,
/// exactly once, and nothing else.
pub proof fn lemma_missing_columns_exact(hs: Seq<Seq<char>>)
    ensures
        forall|n: Seq<char>|
            #[trigger] missing_among(hs, required_names()).contains(n) <==> (
            required_names().contains(n) && !has_column(hs, n)),
        missing_among(hs, required_names()).no_duplicates(),
{
    reveal_strlit("ID");
    reveal_strlit("calendar_date");
    reveal_strlit("dur_day_total_IN_min");
    reveal_strlit("dur_day_total_LIG_min");
    reveal_strlit("dur_day_total_MOD_min");
    reveal_strlit("dur_day_total_VIG_min");
    reveal_strlit("dur_spt_min");
    reveal_strlit("weekday");
    let r = required_names();
    assert forall|a: int, b: int| 0 <= a < r.len() && 0 <= b < r.len() && a != b implies r[a]
        != r[b] by {
        if r[a] == r[b] {
            assert(r[a].len() == r[b].len());
            assert(r[a][0] == r[b][0]);
            if r[a].len() > 14 {
                assert(r[a][14] == r[b][14]);
            }
        }
    }
    lemma_missing_among(hs, r);
}

} // verus!
