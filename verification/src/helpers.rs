//! Shift, date and dock rules of the board.
use vstd::prelude::*;
use crate::dates::{
    display_date, displayed_date, format_date, formatted_date, hm_format, parse_date,
    parse_rfc3339_utc, parse_time, parsed_date, parsed_time, rfc3339_utc, ymd_format,
};
use crate::text::{concat2, push_char, str_eq};

verus! {

/// The shift of an hour of the day: 06-13 first, 14-21 second, else third.
pub open spec fn shift_of(hour: u32) -> Seq<char> {
    if 6 <= hour && hour <= 13 {
        "1st"@
    } else if 14 <= hour && hour <= 21 {
        "2nd"@
    } else {
        "3rd"@
    }
}

/// The shift an hour of the day belongs to.
pub fn get_shift(hour: u32) -> (r: &'static str)
    ensures
        r@ == shift_of(hour),
{
    if 6 <= hour && hour <= 13 {
        "1st"
    } else if 14 <= hour && hour <= 21 {
        "2nd"
    } else {
        "3rd"
    }
}

/// The dock label of an accounting id and a location: `id-location`.
pub fn get_dock(acctor_id: &str, location: &str) -> (r: String)
    ensures
        r@ == acctor_id@ + "-"@ + location@,
{
    concat2(concat2(acctor_id, "-").as_str(), location)
}

/// Text of a day number as `YYYY-MM-DD`, `"Invalid Date"` when it has none.
pub open spec fn ymd_text(days: i32) -> Seq<char> {
    match formatted_date(days, ymd_format()) {
        Some(t) => t,
        None => "Invalid Date"@,
    }
}

/// The operational date of a scheduled arrival: its UTC date, moved to the
/// next day from 22:00 on (the third shift belongs to the next day).
pub open spec fn op_date_spec(sched_arrival: Seq<char>) -> Seq<char> {
    match rfc3339_utc(sched_arrival) {
        None => "Invalid Date"@,
        Some(t) => if t.1 >= 22 && t.0 < i32::MAX && formatted_date(
            (t.0 + 1) as i32,
            ymd_format(),
        ) is Some {
            ymd_text((t.0 + 1) as i32)
        } else {
            ymd_text(t.0)
        },
    }
}

/// The operational date (`YYYY-MM-DD`) of an RFC 3339 arrival time, or
/// `"Invalid Date"` when the time does not parse.
pub fn get_op_date(sched_arrival: &str) -> (r: String)
    ensures
        r@ == op_date_spec(sched_arrival@),
{
    match parse_rfc3339_utc(sched_arrival) {
        None => "Invalid Date".to_string(),
        Some(t) => {
            let (d, h, _) = t;
            if h >= 22 && d < i32::MAX {
                if let Some(next) = format_date(d + 1, "%Y-%m-%d") {
                    return next;
                }
            }
            match format_date(d, "%Y-%m-%d") {
                Some(s) => s,
                None => "Invalid Date".to_string(),
            }
        },
    }
}

/// A naive date-time (`day * 86400 + seconds`) from a `YYYY-MM-DD` date and an
/// `HH:MM` time; `None` when either is empty or does not parse.
pub open spec fn asn_arrival_spec(eda: Seq<char>, eta: Seq<char>) -> Option<i64> {
    if eda.len() == 0 || eta.len() == 0 {
        None
    } else {
        match (parsed_date(eda, ymd_format()), parsed_time(eta, hm_format())) {
            (Some(d), Some(t)) => Some((d * 86400 + t) as i64),
            _ => None,
        }
    }
}

/// Arrival of an advance shipping notice from its expected date and time.
pub fn parse_asn_arrival(eda: &str, eta: &str) -> (r: Option<i64>)
    ensures
        r == asn_arrival_spec(eda@, eta@),
{
    if eda.is_empty() || eta.is_empty() {
        return None;
    }
    let d = match parse_date(eda, "%Y-%m-%d") {
        Some(d) => d,
        None => return None,
    };
    let t = match parse_time(eta, "%H:%M") {
        Some(t) => t,
        None => return None,
    };
    assert(-2147483648 * 86400 <= d * 86400 <= 2147483647 * 86400) by (nonlinear_arith)
        requires
            -2147483648 <= d <= 2147483647,
    ;
    Some((d as i64) * 86400 + (t as i64))
}

/// Start of the day holding a naive date-time.
pub open spec fn day_start(stamp: int) -> int {
    (stamp / 86400) * 86400
}

/// The first moment at an `HH:MM` time that is not before `window_start`.
pub open spec fn eta_spec(eta: Seq<char>, window_start: i64) -> Option<i64> {
    if eta.len() == 0 {
        None
    } else {
        match parsed_time(eta, hm_format()) {
            None => None,
            Some(t) => {
                let c = day_start(window_start as int) + t;
                if c >= window_start {
                    Some(c as i64)
                } else {
                    Some((c + 86400) as i64)
                }
            },
        }
    }
}

/// Places an `HH:MM` time in the window starting at `window_start`: on the
/// window's first day when that is not earlier, else on the next day.
pub fn parse_eta(eta: &str, window_start: i64) -> (r: Option<i64>)
    requires
        i64::MIN + 86400 <= window_start <= i64::MAX - 2 * 86400,
    ensures
        r == eta_spec(eta@, window_start),
{
    if eta.is_empty() {
        return None;
    }
    let t = match parse_time(eta, "%H:%M") {
        Some(t) => t,
        None => return None,
    };
    let q = window_start / 86400;
    let rem = window_start % 86400;
    let day = if rem < 0 { q - 1 } else { q };
    assert(day as int == window_start as int / 86400);
    let c = day * 86400 + (t as i64);
    if c >= window_start {
        Some(c)
    } else {
        Some(c + 86400)
    }
}

} // verus!

verus! {

/// Two-digit, zero-padded rendering of `h < 100`.
pub open spec fn two_digits(h: u32) -> Seq<char> {
    seq![crate::text::digit_char((h / 10) as nat), crate::text::digit_char((h % 10) as nat)]
}

/// The hours `start..=end` as two-digit strings.
pub open spec fn hour_range_spec(start: u32, end: u32) -> Seq<Seq<char>> {
    Seq::new(
        if end >= start {
            (end - start + 1) as nat
        } else {
            0
        },
        |i: int| two_digits((start + i) as u32),
    )
}

pub(crate) fn two_digit_string(h: u32) -> (s: String)
    requires
        h < 100,
    ensures
        s@ == two_digits(h),
{
    let mut s = String::new();
    push_char(&mut s, ((48 + h / 10) as u8) as char);
    push_char(&mut s, ((48 + h % 10) as u8) as char);
    assert(s@ =~= two_digits(h));
    s
}

fn hour_range(start: u32, end: u32) -> (v: Vec<String>)
    requires
        start <= end < 100,
    ensures
        v@.map_values(|s: String| s@) == hour_range_spec(start, end),
{
    let mut v: Vec<String> = Vec::new();
    let mut h = start;
    while h <= end
        invariant
            start <= h <= end + 1,
            end < 100,
            v@.map_values(|s: String| s@) == hour_range_spec(start, end).take(h - start),
        decreases end + 1 - h,
    {
        let ghost before = v@;
        let x = two_digit_string(h);
        assert(hour_range_spec(start, end)[h - start] == two_digits(h));
        v.push(x);
        assert(v@.map_values(|s: String| s@) =~= before.map_values(|s: String| s@).push(x@));
        assert(v@.map_values(|s: String| s@) =~= hour_range_spec(start, end).take(h + 1 - start));
        h += 1;
    }
    assert(hour_range_spec(start, end).take(end + 1 - start) =~= hour_range_spec(start, end));
    v
}

/// The dates and hours that make up the shift holding `hour` on `date`.
pub struct ShiftWindow {
    pub date1: String,
    pub hours1: Vec<String>,
    pub date2: String,
    pub hours2: Vec<String>,
}

/// `date` moved by `days`; `date` itself when it does not read as a date or
/// the result lies outside chrono's dates.
pub open spec fn offset_date_spec(date: Seq<char>, days: i32) -> Seq<char> {
    match parsed_date(date, ymd_format()) {
        None => date,
        Some(n) => if i32::MIN <= n + days <= i32::MAX && formatted_date(
            (n + days) as i32,
            ymd_format(),
        ) is Some {
            ymd_text((n + days) as i32)
        } else {
            date
        },
    }
}

/// `date` (`YYYY-MM-DD`) moved by `days` days (see [`offset_date_spec`]).
pub fn offset_date(date: &str, days: i32) -> (r: String)
    ensures
        r@ == offset_date_spec(date@, days),
{
    match parse_date(date, "%Y-%m-%d") {
        None => date.to_string(),
        Some(n) => {
            let m = n as i64 + days as i64;
            if i32::MIN as i64 <= m && m <= i32::MAX as i64 {
                match format_date(m as i32, "%Y-%m-%d") {
                    Some(s) => s,
                    None => date.to_string(),
                }
            } else {
                date.to_string()
            }
        },
    }
}

/// Character views of a list of strings.
pub open spec fn views(v: Seq<String>) -> Seq<Seq<char>> {
    v.map_values(|s: String| s@)
}

/// The window of the shift holding `hour` on `date`: first and second shift
/// lie within `date`; the third shift runs 22-23 on one day and 00-05 on the
/// next, so from 22:00 it reaches into the next day and before 06:00 it began
/// the day before.
pub open spec fn shift_window_ok(w: ShiftWindow, date: Seq<char>, hour: u32) -> bool {
    let e = Seq::<Seq<char>>::empty();
    if 6 <= hour && hour <= 13 {
        w.date1@ == date && views(w.hours1@) == hour_range_spec(6, 13) && w.date2@ == date
            && views(w.hours2@) == e
    } else if 14 <= hour && hour <= 21 {
        w.date1@ == date && views(w.hours1@) == hour_range_spec(14, 21) && w.date2@ == date
            && views(w.hours2@) == e
    } else if hour == 22 || hour == 23 {
        w.date1@ == date && views(w.hours1@) == hour_range_spec(22, 23) && w.date2@
            == offset_date_spec(date, 1i32) && views(w.hours2@) == hour_range_spec(0, 5)
    } else if hour <= 5 {
        w.date1@ == offset_date_spec(date, -1i32) && views(w.hours1@) == hour_range_spec(22, 23)
            && w.date2@ == date && views(w.hours2@) == hour_range_spec(0, 5)
    } else {
        w.date1@ == date && views(w.hours1@) == e && w.date2@ == date && views(w.hours2@) == e
    }
}

/// The dates and hours of the shift that holds `hour` on `date`.
pub fn get_shift_window(date: &str, hour: u32) -> (w: ShiftWindow)
    ensures
        shift_window_ok(w, date@, hour),
{
    let none: Vec<String> = Vec::new();
    assert(views(none@) =~= Seq::<Seq<char>>::empty());
    if 6 <= hour && hour <= 13 {
        ShiftWindow {
            date1: date.to_string(),
            hours1: hour_range(6, 13),
            date2: date.to_string(),
            hours2: none,
        }
    } else if 14 <= hour && hour <= 21 {
        ShiftWindow {
            date1: date.to_string(),
            hours1: hour_range(14, 21),
            date2: date.to_string(),
            hours2: none,
        }
    } else if hour == 22 || hour == 23 {
        ShiftWindow {
            date1: date.to_string(),
            hours1: hour_range(22, 23),
            date2: offset_date(date, 1),
            hours2: hour_range(0, 5),
        }
    } else if hour <= 5 {
        ShiftWindow {
            date1: offset_date(date, -1),
            hours1: hour_range(22, 23),
            date2: date.to_string(),
            hours2: hour_range(0, 5),
        }
    } else {
        let none2: Vec<String> = Vec::new();
        assert(views(none2@) =~= Seq::<Seq<char>>::empty());
        ShiftWindow { date1: date.to_string(), hours1: none, date2: date.to_string(), hours2: none2 }
    }
}

/// Each hour of a shift window paired with its date: the first day's hours,
/// then the second day's.
pub open spec fn hour_dates_spec(w: ShiftWindow) -> Seq<(Seq<char>, Seq<char>)> {
    views(w.hours1@).map_values(|h: Seq<char>| (h, w.date1@)) + views(w.hours2@).map_values(
        |h: Seq<char>| (h, w.date2@),
    )
}

/// The `(hour, date)` pairs a per-hour dock count walks through.
pub fn window_hour_dates(w: &ShiftWindow) -> (r: Vec<(String, String)>)
    ensures
        r@.map_values(|p: (String, String)| (p.0@, p.1@)) == hour_dates_spec(*w),
{
    let ghost target = hour_dates_spec(*w);
    let mut r: Vec<(String, String)> = Vec::new();
    let mut i: usize = 0;
    while i < w.hours1.len()
        invariant
            i <= w.hours1.len(),
            target == hour_dates_spec(*w),
            r@.map_values(|p: (String, String)| (p.0@, p.1@)) == target.take(i as int),
        decreases w.hours1.len() - i,
    {
        let ghost before = r@;
        assert(target[i as int] == (w.hours1@[i as int]@, w.date1@));
        r.push((w.hours1[i].clone(), w.date1.clone()));
        assert(r@.map_values(|p: (String, String)| (p.0@, p.1@)) =~= before.map_values(
            |p: (String, String)| (p.0@, p.1@),
        ).push(target[i as int]));
        assert(r@.map_values(|p: (String, String)| (p.0@, p.1@)) =~= target.take(i + 1));
        i += 1;
    }
    let n1 = w.hours1.len();
    let mut j: usize = 0;
    while j < w.hours2.len()
        invariant
            j <= w.hours2.len(),
            n1 == w.hours1.len(),
            target == hour_dates_spec(*w),
            r@.map_values(|p: (String, String)| (p.0@, p.1@)) == target.take(n1 + j),
        decreases w.hours2.len() - j,
    {
        let ghost before = r@;
        assert(target[n1 + j] == (w.hours2@[j as int]@, w.date2@));
        r.push((w.hours2[j].clone(), w.date2.clone()));
        assert(r@.map_values(|p: (String, String)| (p.0@, p.1@)) =~= before.map_values(
            |p: (String, String)| (p.0@, p.1@),
        ).push(target[n1 + j]));
        assert(r@.map_values(|p: (String, String)| (p.0@, p.1@)) =~= target.take(n1 + j + 1));
        j += 1;
    }
    assert(target.take(n1 + w.hours2.len()) =~= target);
    r
}

proof fn lemma_two_digits_injective(a: u32, b: u32)
    requires
        a < 100,
        b < 100,
        two_digits(a) == two_digits(b),
    ensures
        a == b,
{
    let x = two_digits(a);
    let y = two_digits(b);
    assert(x[0] == y[0] && x[1] == y[1]);
    assert(((48 + a / 10) as char) as u32 == 48 + a / 10);
    assert(((48 + b / 10) as char) as u32 == 48 + b / 10);
    assert(((48 + a % 10) as char) as u32 == 48 + a % 10);
    assert(((48 + b % 10) as char) as u32 == 48 + b % 10);
}

proof fn lemma_in_hour_range(start: u32, end: u32, h: u32)
    requires
        start <= end < 100,
        h < 100,
    ensures
        hour_range_spec(start, end).contains(two_digits(h)) <==> start <= h <= end,
{
    let r = hour_range_spec(start, end);
    if r.contains(two_digits(h)) {
        let i = choose|i: int| 0 <= i < r.len() && r[i] == two_digits(h);
        lemma_two_digits_injective((start + i) as u32, h);
    }
    if start <= h <= end {
        assert(r[h - start] == two_digits(h));
    }
}

/// The shift window of an hour is that hour's shift: for any hour of the
/// day, its label lies in the window exactly when it belongs to the same
/// shift, and the window holds the hour itself on the date asked about.
pub proof fn lemma_window_is_the_shift(w: ShiftWindow, date: Seq<char>, hour: u32, h: u32)
    requires
        shift_window_ok(w, date, hour),
        hour < 24,
        h < 24,
    ensures
        (views(w.hours1@) + views(w.hours2@)).contains(two_digits(h)) <==> shift_of(h) == shift_of(
            hour,
        ),
        hour_dates_spec(w).contains((two_digits(hour), date)),
{
    reveal_strlit("1st");
    reveal_strlit("2nd");
    reveal_strlit("3rd");
    assert("1st"@[0] != "2nd"@[0] && "1st"@[0] != "3rd"@[0] && "2nd"@[0] != "3rd"@[0]);
    assert("1st"@ != "2nd"@ && "1st"@ != "3rd"@ && "2nd"@ != "3rd"@);
    let all = views(w.hours1@) + views(w.hours2@);
    let e = Seq::<Seq<char>>::empty();
    if 6 <= hour <= 13 {
        lemma_in_hour_range(6, 13, h);
        assert(all =~= hour_range_spec(6, 13));
        assert(all.contains(two_digits(h)) <==> shift_of(h) == shift_of(hour));
    } else if 14 <= hour <= 21 {
        lemma_in_hour_range(14, 21, h);
        assert(all =~= hour_range_spec(14, 21));
        assert(all.contains(two_digits(h)) <==> shift_of(h) == shift_of(hour));
    } else {
        lemma_in_hour_range(22, 23, h);
        lemma_in_hour_range(0, 5, h);
        assert(all =~= hour_range_spec(22, 23) + hour_range_spec(0, 5));
        if all.contains(two_digits(h)) {
            let i = choose|i: int| 0 <= i < all.len() && all[i] == two_digits(h);
            if i < 2 {
                assert(hour_range_spec(22, 23)[i] == two_digits(h));
            } else {
                assert(hour_range_spec(0, 5)[i - 2] == two_digits(h));
            }
        }
        if 22 <= h <= 23 {
            assert(all[h - 22] == two_digits(h));
        }
        if h <= 5 {
            assert(all[2 + h] == two_digits(h));
        }
        assert(all.contains(two_digits(h)) <==> shift_of(h) == shift_of(hour));
    }
    let hd = hour_dates_spec(w);
    let n1 = views(w.hours1@).len();
    if 6 <= hour <= 13 {
        assert(hd[hour - 6] == (two_digits(hour), date));
    } else if 14 <= hour <= 21 {
        assert(hd[hour - 14] == (two_digits(hour), date));
    } else if hour >= 22 {
        assert(hd[hour - 22] == (two_digits(hour), date));
    } else {
        assert(hd[n1 + hour] == (two_digits(hour), date));
    }
}

} // verus!

verus! {

/// Field names whose audit events are trailer updates.
pub open spec fn trailer_update_names() -> Seq<Seq<char>> {
    seq![
        "hour"@, "dockCode"@, "scac"@, "trailer1"@, "trailer2"@, "adjustedStartTime"@,
        "scheduleEndDate"@, "scheduleEndTime"@, "gateArrivalTime"@, "actualStartTime"@,
        "actualEndTime"@, "statusOX"@, "ryderComments"@, "gmComments"@, "lateComments"@,
        "door"@, "doorArrivalTime"@, "LiveAdd"@,
    ]
}

/// The category an audited field change is reported under.
pub open spec fn event_type_spec(field: Seq<char>) -> Seq<char> {
    if trailer_update_names().contains(field) {
        "Trailer Updates"@
    } else if field == "shift_rolled"@ {
        "Shift Roll"@
    } else if field == "hot_part_created"@ || field == "hot_part_closed"@ {
        "Hot Parts"@
    } else if field == "exception_uploaded"@ || field == "dycomm_uploaded"@ {
        "Uploads"@
    } else {
        "Other"@
    }
}

fn trailer_update_list() -> (v: Vec<&'static str>)
    ensures
        v@.map_values(|s: &str| s@) == trailer_update_names(),
{
    let v: Vec<&'static str> = vec![
        "hour",
        "dockCode",
        "scac",
        "trailer1",
        "trailer2",
        "adjustedStartTime",
        "scheduleEndDate",
        "scheduleEndTime",
        "gateArrivalTime",
        "actualStartTime",
        "actualEndTime",
        "statusOX",
        "ryderComments",
        "gmComments",
        "lateComments",
        "door",
        "doorArrivalTime",
        "LiveAdd",
    ];
    assert(v@.map_values(|s: &str| s@) =~= trailer_update_names());
    v
}

/// The category of an audited field change.
pub fn get_event_type(field: &str) -> (r: &'static str)
    ensures
        r@ == event_type_spec(field@),
{
    let names = trailer_update_list();
    if crate::permissions::strs_contain(&names, field) {
        "Trailer Updates"
    } else if str_eq(field, "shift_rolled") {
        "Shift Roll"
    } else if str_eq(field, "hot_part_created") || str_eq(field, "hot_part_closed") {
        "Hot Parts"
    } else if str_eq(field, "exception_uploaded") || str_eq(field, "dycomm_uploaded") {
        "Uploads"
    } else {
        "Other"
    }
}

/// Key of the `offset`-th day of the week starting `start_date`.
pub open spec fn day_key_spec(start_date: Seq<char>, offset: u64) -> Seq<char> {
    start_date + "_"@ + crate::text::decimal(offset as nat)
}

/// Key of the `offset`-th day of the week starting `start_date`:
/// `start_date_offset`.
pub fn day_key(start_date: &str, offset: u64) -> (r: String)
    ensures
        r@ == day_key_spec(start_date@, offset),
{
    let n = crate::text::u64_to_decimal(offset);
    concat2(concat2(start_date, "_").as_str(), n.as_str())
}

/// An operational date with shift, `YYYY-MM-DD-shift`, split into the date
/// (the first three dash-separated pieces) and the shift (the fourth); `None`
/// when there are fewer than four pieces.
pub open spec fn date_shift_spec(s: Seq<char>) -> Option<(Seq<char>, Seq<char>)> {
    let p = crate::text::split_char(s, '-');
    if p.len() < 4 {
        None
    } else {
        Some((crate::text::join(p.take(3), "-"@), p[3]))
    }
}

/// Splits an operational date with shift (see [`date_shift_spec`]).
pub fn split_date_shift(op: &str) -> (r: Option<(String, String)>)
    ensures
        match r {
            Some(x) => date_shift_spec(op@) == Some((x.0@, x.1@)),
            None => date_shift_spec(op@) is None,
        },
{
    let parts = crate::text::split_chars(op, '-');
    let ghost pv = parts@.map_values(|p: String| p@);
    if parts.len() < 4 {
        return None;
    }
    let mut first: Vec<String> = Vec::new();
    first.push(parts[0].clone());
    first.push(parts[1].clone());
    first.push(parts[2].clone());
    assert(first@.map_values(|p: String| p@) =~= pv.take(3));
    let date = crate::text::join_strings(&first, "-");
    Some((date, parts[3].clone()))
}

/// Start dates of the five weeks ending with the week of `start_date`,
/// newest first: `start_date` and each of the four weeks before it.
pub open spec fn week_starts_spec(start_date: Seq<char>) -> Option<Seq<Seq<char>>> {
    match parsed_date(start_date, ymd_format()) {
        None => None,
        Some(n) => if forall|i: int|
            0 <= i < 5 ==> n - 7 * i >= i32::MIN && #[trigger] displayed_date((n - 7 * i) as i32)
                is Some {
            Some(Seq::new(5, |i: int| displayed_date((n - 7 * i) as i32)->0))
        } else {
            None
        },
    }
}

/// The five week start dates a Saturday count covers; `None` when
/// `start_date` is not a `YYYY-MM-DD` date or a week lies outside chrono's
/// dates.
pub fn week_starts(start_date: &str) -> (r: Option<Vec<String>>)
    ensures
        match r {
            Some(v) => week_starts_spec(start_date@) == Some(v@.map_values(|s: String| s@)),
            None => week_starts_spec(start_date@) is None,
        },
{
    let n = match parse_date(start_date, "%Y-%m-%d") {
        Some(n) => n,
        None => return None,
    };
    let mut v: Vec<String> = Vec::new();
    let mut i: i64 = 0;
    while i < 5
        invariant
            0 <= i <= 5,
            parsed_date(start_date@, ymd_format()) == Some(n),
            v@.len() == i,
            forall|k: int|
                0 <= k < i ==> n - 7 * k >= i32::MIN && displayed_date((n - 7 * k) as i32)
                    == Some(#[trigger] v@[k]@),
        decreases 5 - i,
    {
        let m = n as i64 - 7 * i;
        if m < i32::MIN as i64 {
            assert(!(n - 7 * i >= i32::MIN && displayed_date((n - 7 * i) as i32) is Some));
            return None;
        }
        assert(m as i32 == (n - 7 * i) as i32);
        match display_date(m as i32) {
            Some(s) => {
                let ghost before = v@;
                v.push(s);
                assert(v@[i as int] == s);
            },
            None => {
                assert(!(n - 7 * i >= i32::MIN && displayed_date((n - 7 * i) as i32) is Some));
                return None;
            },
        }
        i += 1;
    }
    assert(forall|k: int|
        0 <= k < 5 ==> n - 7 * k >= i32::MIN && #[trigger] displayed_date((n - 7 * k) as i32)
            is Some) by {
        assert forall|k: int| 0 <= k < 5 implies n - 7 * k >= i32::MIN && #[trigger] displayed_date(
            (n - 7 * k) as i32,
        ) is Some by {
            assert(v@[k]@ == v@[k]@);
        }
    }
    assert(v@.map_values(|s: String| s@) =~= Seq::new(
        5,
        |i: int| displayed_date((n - 7 * i) as i32)->0,
    ));
    Some(v)
}

} // verus!
