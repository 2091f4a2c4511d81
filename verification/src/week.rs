//! Staffing schedule rules: assignments read back from the schedule store,
//! days and weeks assembled from shift rows, which shifts take
//! assignments, and weekend attendance counts.
use vstd::prelude::*;
use crate::structs::{DaySchedule, SaturdayCount, ShiftAssignment, ShiftSlot, WeekSchedule};
use crate::text::str_eq;

verus! {

/// Smallest of six lengths.
pub open spec fn min6(a: nat, b: nat, c: nat, d: nat, e: nat, f: nat) -> nat {
    let ab = if a <= b { a } else { b };
    let cd = if c <= d { c } else { d };
    let ef = if e <= f { e } else { f };
    let abcd = if ab <= cd { ab } else { cd };
    if abcd <= ef { abcd } else { ef }
}

/// The assignments of a shift from the parallel columns the schedule store
/// returns: the `i`-th of each column makes the `i`-th assignment, and the
/// shortest column decides how many there are.
pub fn zip_assignments(
    names: &Vec<String>,
    full_names: &Vec<String>,
    roles: &Vec<String>,
    positions: &Vec<String>,
    tasks: &Vec<String>,
    task_types: &Vec<String>,
) -> (r: Vec<ShiftAssignment>)
    ensures
        r@.len() == min6(
            names@.len(),
            full_names@.len(),
            roles@.len(),
            positions@.len(),
            tasks@.len(),
            task_types@.len(),
        ),
        forall|i: int|
            0 <= i < r@.len() ==> #[trigger] r@[i] == (ShiftAssignment {
                user_name: names@[i],
                role: roles@[i],
                position: positions@[i],
                task: tasks@[i],
                task_type: task_types@[i],
                full_name: full_names@[i],
            }),
{
    let mut n = names.len();
    if full_names.len() < n {
        n = full_names.len();
    }
    if roles.len() < n {
        n = roles.len();
    }
    if positions.len() < n {
        n = positions.len();
    }
    if tasks.len() < n {
        n = tasks.len();
    }
    if task_types.len() < n {
        n = task_types.len();
    }
    let mut r: Vec<ShiftAssignment> = Vec::new();
    let mut i: usize = 0;
    while i < n
        invariant
            n == min6(
                names@.len(),
                full_names@.len(),
                roles@.len(),
                positions@.len(),
                tasks@.len(),
                task_types@.len(),
            ),
            n <= names.len() && n <= full_names.len() && n <= roles.len() && n <= positions.len()
                && n <= tasks.len() && n <= task_types.len(),
            i <= n,
            r@.len() == i,
            forall|k: int|
                0 <= k < i ==> #[trigger] r@[k] == (ShiftAssignment {
                    user_name: names@[k],
                    role: roles@[k],
                    position: positions@[k],
                    task: tasks@[k],
                    task_type: task_types@[k],
                    full_name: full_names@[k],
                }),
        decreases n - i,
    {
        r.push(
            ShiftAssignment {
                user_name: names[i].clone(),
                role: roles[i].clone(),
                position: positions[i].clone(),
                task: tasks[i].clone(),
                task_type: task_types[i].clone(),
                full_name: full_names[i].clone(),
            },
        );
        i += 1;
    }
    r
}

/// Whether a shift with stored status `status` (`None` when the shift was
/// not found) takes assignments: holiday and closed shifts do not.
pub fn shift_assignable(status: Option<&str>) -> (r: Result<(), &'static str>)
    ensures
        match status {
            Some(s) => if s@ == "holiday"@ || s@ == "closed"@ {
                r matches Err(m) && m@ == "Cannot assign to a holiday or closed shift"@
            } else {
                r is Ok
            },
            None => r is Ok,
        },
{
    match status {
        Some(s) => if str_eq(s, "holiday") || str_eq(s, "closed") {
            Err("Cannot assign to a holiday or closed shift")
        } else {
            Ok(())
        },
        None => Ok(()),
    }
}

/// One shift row of a day read from the schedule store.
pub struct DayRow {
    pub day_name: String,
    pub offset: u64,
    pub slot: ShiftSlot,
}

pub open spec fn day_slots(rows: Seq<DayRow>) -> Seq<ShiftSlot> {
    rows.map_values(|r: DayRow| r.slot)
}

/// The day an assignment was made to, as read back: its shifts in row
/// order, and the name and offset of the last row (empty and 0 without rows).
pub fn assemble_day(date: String, rows: Vec<DayRow>) -> (d: DaySchedule)
    ensures
        d.date == date,
        d.shifts@ == day_slots(rows@),
        rows@.len() == 0 ==> d.name@ == Seq::<char>::empty() && d.offset == 0,
        rows@.len() > 0 ==> d.name == rows@.last().day_name && d.offset == rows@.last().offset,
{
    let ghost orig = rows@;
    let mut rest = rows;
    let mut shifts: Vec<ShiftSlot> = Vec::new();
    let mut name = String::new();
    let mut offset: u64 = 0;
    let ghost mut k: int = 0;
    while rest.len() > 0
        invariant
            0 <= k <= orig.len(),
            rest@ == orig.skip(k),
            shifts@ == day_slots(orig.take(k)),
            k == 0 ==> name@ == Seq::<char>::empty() && offset == 0,
            k > 0 ==> name == orig[k - 1].day_name && offset == orig[k - 1].offset,
        decreases rest.len(),
    {
        let row = rest.remove(0);
        proof {
            assert(row == orig[k]);
            assert(rest@ =~= orig.skip(k + 1));
            assert(day_slots(orig.take(k + 1)) =~= day_slots(orig.take(k)).push(row.slot));
            k = k + 1;
        }
        shifts.push(row.slot);
        name = row.day_name;
        offset = row.offset;
    }
    assert(orig.take(k) =~= orig);
    DaySchedule { date, name, shifts, offset }
}

/// One shift row of a week read from the schedule store.
pub struct WeekRow {
    pub date: String,
    pub day_name: String,
    pub offset: u64,
    pub slot: ShiftSlot,
}

/// Whether a row belongs to day offset `off`.
pub open spec fn at_offset(off: u64) -> spec_fn(WeekRow) -> bool {
    |r: WeekRow| r.offset == off
}

/// The shifts of the rows of day offset `off`, in row order.
pub open spec fn slots_at(rows: Seq<WeekRow>, off: u64) -> Seq<ShiftSlot> {
    rows.filter(at_offset(off)).map_values(|r: WeekRow| r.slot)
}

/// Whether some row has day offset `off`.
pub open spec fn has_offset(rows: Seq<WeekRow>, off: u64) -> bool {
    exists|i: int| 0 <= i < rows.len() && (#[trigger] rows[i]).offset == off
}

/// A week assembled from its rows: one day per offset seen, in increasing
/// offset order; each day takes its date and name from the first row of its
/// offset and holds the shifts of all its rows in row order.
pub open spec fn week_ok(days: Seq<DaySchedule>, rows: Seq<WeekRow>) -> bool {
    &&& forall|a: int, b: int| 0 <= a < b < days.len() ==> days[a].offset < days[b].offset
    &&& forall|off: u64|
        has_offset(rows, off) <==> exists|j: int| 0 <= j < days.len() && (#[trigger] days[j]).offset == off
    &&& forall|j: int|
        0 <= j < days.len() ==> {
            let d = #[trigger] days[j];
            let first = rows.filter(at_offset(d.offset))[0];
            &&& d.shifts@ == slots_at(rows, d.offset)
            &&& d.date == first.date
            &&& d.name == first.day_name
        }
}

proof fn lemma_filter_empty_without(rows: Seq<WeekRow>, off: u64)
    requires
        !has_offset(rows, off),
    ensures
        rows.filter(at_offset(off)).len() == 0,
{
    assert(rows.all(|r: WeekRow| !at_offset(off)(r))) by {
        assert forall|i: int| 0 <= i < rows.len() implies !at_offset(off)(rows[i]) by {
            if rows[i].offset == off {
                assert(has_offset(rows, off));
            }
        }
    }
    rows.lemma_all_neg_filter_empty(at_offset(off));
}

/// The week read back from the schedule store, days ordered by offset.
pub fn assemble_week(start_date: String, rows: Vec<WeekRow>) -> (w: WeekSchedule)
    ensures
        w.start_date == start_date,
        week_ok(w.days@, rows@),
{
    let ghost orig = rows@;
    let mut rest = rows;
    let mut days: Vec<DaySchedule> = Vec::new();
    let ghost mut k: int = 0;
    while rest.len() > 0
        invariant
            0 <= k <= orig.len(),
            rest@ == orig.skip(k),
            week_ok(days@, orig.take(k)),
        decreases rest.len(),
    {
        let row = rest.remove(0);
        let ghost pre = orig.take(k);
        let ghost post = orig.take(k + 1);
        proof {
            assert(row == orig[k]);
            assert(rest@ =~= orig.skip(k + 1));
            assert(post =~= pre.push(row));
        }
        let mut p: usize = 0;
        while p < days.len() && days[p].offset < row.offset
            invariant
                p <= days.len(),
                forall|j: int| 0 <= j < p ==> (#[trigger] days@[j]).offset < row.offset,
            decreases days.len() - p,
        {
            p += 1;
        }
        let ghost before = days@;
        if p < days.len() && days[p].offset == row.offset {
            let mut d = days.remove(p);
            let ghost dold = d;
            d.shifts.push(row.slot);
            days.insert(p, d);
            proof {
                assert(days@ =~= before.update(p as int, d));
                assert forall|off: u64| #[trigger] post.filter(at_offset(off)) == (if off == row.offset {
                    pre.filter(at_offset(off)).push(row)
                } else {
                    pre.filter(at_offset(off))
                }) by {
                    pre.lemma_filter_push(row, at_offset(off));
                }
                assert forall|off: u64| has_offset(post, off) <==> has_offset(pre, off) by {
                    if has_offset(post, off) {
                        let i = choose|i: int| 0 <= i < post.len() && (#[trigger] post[i]).offset == off;
                        if i < pre.len() {
                            assert(pre[i] == post[i]);
                        } else {
                            assert(before[p as int].offset == off);
                        }
                    }
                    if has_offset(pre, off) {
                        let i = choose|i: int| 0 <= i < pre.len() && (#[trigger] pre[i]).offset == off;
                        assert(post[i] == pre[i]);
                    }
                }
                assert forall|j: int| 0 <= j < days@.len() implies ({
                    let d = #[trigger] days@[j];
                    let first = post.filter(at_offset(d.offset))[0];
                    &&& d.shifts@ == slots_at(post, d.offset)
                    &&& d.date == first.date
                    &&& d.name == first.day_name
                }) by {
                    let dj = days@[j];
                    if j == p {
                        assert(has_offset(pre, dold.offset));
                        assert(pre.filter(at_offset(dold.offset)).len() > 0) by {
                            if pre.filter(at_offset(dold.offset)).len() == 0 {
                                let i = choose|i: int| 0 <= i < pre.len() && (#[trigger] pre[i]).offset == dold.offset;
                                pre.lemma_filter_contains(at_offset(dold.offset), i);
                            }
                        }
                        assert(slots_at(post, dj.offset) =~= slots_at(pre, dj.offset).push(row.slot));
                    } else {
                        assert(dj == before[j]);
                        assert(dj.offset != row.offset);
                    }
                }
                assert forall|off: u64|
                    has_offset(post, off) <==> exists|j: int| 0 <= j < days@.len() && (#[trigger] days@[j]).offset == off by {
                    if exists|j: int| 0 <= j < days@.len() && (#[trigger] days@[j]).offset == off {
                        let j = choose|j: int| 0 <= j < days@.len() && (#[trigger] days@[j]).offset == off;
                        if j != p {
                            assert(days@[j] == before[j]);
                        }
                        assert(before[j].offset == off);
                    }
                    if has_offset(pre, off) {
                        let j = choose|j: int| 0 <= j < before.len() && (#[trigger] before[j]).offset == off;
                        if j != p {
                            assert(days@[j] == before[j]);
                        } else {
                            assert(days@[j].offset == off);
                        }
                    }
                }
            }
        } else {
            let ghost row0 = row;
            let d = DaySchedule { date: row.date, name: row.day_name, shifts: vec![row.slot], offset: row.offset };
            days.insert(p, d);
            proof {
                assert(!has_offset(pre, row0.offset)) by {
                    if has_offset(pre, row0.offset) {
                        let j = choose|j: int| 0 <= j < before.len() && (#[trigger] before[j]).offset == row0.offset;
                        if j < p {
                            assert(before[j].offset < row0.offset);
                        } else {
                            assert(before[p as int].offset <= before[j].offset);
                            assert(before[p as int].offset != row0.offset);
                        }
                    }
                }
                lemma_filter_empty_without(pre, row0.offset);
                assert forall|off: u64| #[trigger] post.filter(at_offset(off)) == (if off == row0.offset {
                    pre.filter(at_offset(off)).push(row0)
                } else {
                    pre.filter(at_offset(off))
                }) by {
                    pre.lemma_filter_push(row0, at_offset(off));
                }
                assert(post.filter(at_offset(row0.offset)) =~= seq![row0]);
                assert forall|a: int, b: int| 0 <= a < b < days@.len() implies days@[a].offset < days@[b].offset by {
                    if b < p {
                        assert(days@[a] == before[a] && days@[b] == before[b]);
                    } else if b == p {
                        assert(days@[a] == before[a]);
                    } else if a == p {
                        assert(days@[b] == before[b - 1]);
                        assert(before[p as int].offset <= before[b - 1].offset);
                        assert(before[p as int].offset != row0.offset);
                    } else if a < p {
                        assert(days@[a] == before[a] && days@[b] == before[b - 1]);
                    } else {
                        assert(days@[a] == before[a - 1] && days@[b] == before[b - 1]);
                    }
                }
                assert forall|j: int| 0 <= j < days@.len() implies ({
                    let d = #[trigger] days@[j];
                    let first = post.filter(at_offset(d.offset))[0];
                    &&& d.shifts@ == slots_at(post, d.offset)
                    &&& d.date == first.date
                    &&& d.name == first.day_name
                }) by {
                    if j == p {
                        assert(slots_at(post, row0.offset) =~= seq![row0.slot]);
                    } else {
                        let bj = if j < p { j } else { j - 1 };
                        assert(days@[j] == before[bj]);
                        assert(before[bj].offset != row0.offset);
                    }
                }
                assert forall|off: u64|
                    has_offset(post, off) <==> exists|j: int| 0 <= j < days@.len() && (#[trigger] days@[j]).offset == off by {
                    if has_offset(post, off) {
                        let i = choose|i: int| 0 <= i < post.len() && (#[trigger] post[i]).offset == off;
                        if i < pre.len() {
                            assert(pre[i] == post[i]);
                            assert(has_offset(pre, off));
                            let j = choose|j: int| 0 <= j < before.len() && (#[trigger] before[j]).offset == off;
                            if j < p {
                                assert(days@[j] == before[j]);
                            } else {
                                assert(days@[j + 1] == before[j]);
                            }
                        } else {
                            assert(days@[p as int].offset == off);
                        }
                    }
                    if exists|j: int| 0 <= j < days@.len() && (#[trigger] days@[j]).offset == off {
                        let j = choose|j: int| 0 <= j < days@.len() && (#[trigger] days@[j]).offset == off;
                        if j == p {
                            assert(post[k] == row0);
                        } else {
                            let bj = if j < p { j } else { j - 1 };
                            assert(days@[j] == before[bj]);
                            assert(has_offset(pre, off));
                            let i = choose|i: int| 0 <= i < pre.len() && (#[trigger] pre[i]).offset == off;
                            assert(post[i] == pre[i]);
                        }
                    }
                }
            }
        }
        proof {
            k = k + 1;
        }
    }
    assert(orig.take(k) =~= orig);
    WeekSchedule { start_date, days }
}

/// Days off among the five weeks asked about, for `worked` days worked
/// (none below zero).
pub open spec fn days_off(worked: u64) -> u64 {
    if worked >= 5 {
        0
    } else {
        (5 - worked) as u64
    }
}

/// Worked days and days off make up the five weeks whenever no more than
/// five were worked; days off never exceed five.
pub proof fn lemma_days_off_complement(worked: u64)
    ensures
        days_off(worked) <= 5,
        worked <= 5 ==> days_off(worked) + worked == 5,
        worked >= 5 ==> days_off(worked) == 0,
{
}

/// Weekend attendance of a person over the five weeks asked about: the
/// days off are those of the five not worked (none below zero).
pub fn saturday_count(
    user_name: String,
    full_name: String,
    position: String,
    shift: String,
    saturdays_worked: u64,
    mondays_worked: u64,
) -> (r: SaturdayCount)
    ensures
        r.user_name == user_name,
        r.full_name == full_name,
        r.position == position,
        r.shift == shift,
        r.saturdays_worked == saturdays_worked,
        r.mondays_worked == mondays_worked,
        r.saturdays_off == days_off(saturdays_worked),
        r.mondays_off == days_off(mondays_worked),
{
    let saturdays_off = if saturdays_worked >= 5 { 0 } else { 5 - saturdays_worked };
    let mondays_off = if mondays_worked >= 5 { 0 } else { 5 - mondays_worked };
    SaturdayCount {
        user_name,
        full_name,
        position,
        shift,
        saturdays_worked,
        saturdays_off,
        mondays_worked,
        mondays_off,
    }
}

} // verus!
