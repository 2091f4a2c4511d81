//! Alert rules of the late-trailer and part-shortage monitors: urgency
//! levels, when a text message is due, the monitoring window and the search
//! for the shipment that saves a part.
use vstd::prelude::*;
use crate::dates::{format_date, formatted_date, ymd_format};
use crate::helpers::{asn_arrival_spec, parse_asn_arrival, two_digit_string, two_digits};
use crate::structs::{LateNotifyRequest, TrailerRecord};
use crate::text::{concat2, str_eq};

verus! {

/// Character view of an optional static text.
pub open spec fn level_view(l: Option<&'static str>) -> Option<Seq<char>> {
    match l {
        Some(s) => Some(s@),
        None => None,
    }
}

/// Urgency rank of an alert level: shut down 0, emerging issue 1, hot 2,
/// anything else (or no level) 3. Lower is more urgent.
pub open spec fn rank_of(l: Option<Seq<char>>) -> u8 {
    match l {
        Some(s) => if s == "Shut Down"@ {
            0
        } else if s == "Emerging Issue"@ {
            1
        } else if s == "Hot"@ {
            2
        } else {
            3
        },
        None => 3,
    }
}

/// The urgency rank of an alert level.
pub fn level_rank(level: Option<&'static str>) -> (r: u8)
    ensures
        r == rank_of(level_view(level)),
{
    match level {
        Some(s) => if str_eq(s, "Shut Down") {
            0
        } else if str_eq(s, "Emerging Issue") {
            1
        } else if str_eq(s, "Hot") {
            2
        } else {
            3
        },
        None => 3,
    }
}

/// The more urgent of two alert levels (the first one on a tie): the result
/// is one of the two, and its rank is the smaller of their ranks.
pub fn worse_level(a: Option<&'static str>, b: Option<&'static str>) -> (r: Option<&'static str>)
    ensures
        r == (if rank_of(level_view(a)) <= rank_of(level_view(b)) {
            a
        } else {
            b
        }),
        r == a || r == b,
        rank_of(level_view(r)) == (if rank_of(level_view(a)) <= rank_of(level_view(b)) {
            rank_of(level_view(a))
        } else {
            rank_of(level_view(b))
        }),
{
    if level_rank(a) <= level_rank(b) {
        a
    } else {
        b
    }
}

/// Level for a margin in minutes: none left is a shut down, up to two hours
/// an emerging issue, up to six hours hot, beyond that no alert.
pub open spec fn minutes_level(m: int) -> Option<Seq<char>> {
    if m <= 0 {
        Some("Shut Down"@)
    } else if m <= 120 {
        Some("Emerging Issue"@)
    } else if m <= 360 {
        Some("Hot"@)
    } else {
        None
    }
}

/// Classifies a margin given in whole minutes.
pub fn classify_minutes(m: i64) -> (r: Option<&'static str>)
    ensures
        level_view(r) == minutes_level(m as int),
{
    if m <= 0 {
        Some("Shut Down")
    } else if m <= 120 {
        Some("Emerging Issue")
    } else if m <= 360 {
        Some("Hot")
    } else {
        None
    }
}

/// Classifies a margin given in whole hours.
pub fn classify_hours(h: i64) -> (r: Option<&'static str>)
    ensures
        level_view(r) == minutes_level(h * 60),
{
    if h <= 0 {
        Some("Shut Down")
    } else if h <= 2 {
        Some("Emerging Issue")
    } else if h <= 6 {
        Some("Hot")
    } else {
        None
    }
}

/// The alert level of a part: the worse of the level of the hours left until
/// the projected outage and the level of the rescue margin of the shipment
/// that saved it, if one did.
pub fn alert_level(hours_to_out: i64, rescue_minutes: Option<i64>) -> (r: Option<&'static str>)
    ensures
        ({
            let a = minutes_level(hours_to_out * 60);
            let b = match rescue_minutes {
                Some(m) => minutes_level(m as int),
                None => None,
            };
            level_view(r) == if rank_of(a) <= rank_of(b) {
                a
            } else {
                b
            }
        }),
{
    let a = classify_hours(hours_to_out);
    let b = match rescue_minutes {
        Some(m) => classify_minutes(m),
        None => None,
    };
    worse_level(a, b)
}

/// Levels that warrant a text message.
pub open spec fn sms_level(level: Seq<char>) -> bool {
    level == "Emerging Issue"@ || level == "Shut Down"@
}

/// Whether a level warrants a text message.
pub fn sms_eligible(level: &str) -> (r: bool)
    ensures
        r == sms_level(level@),
{
    str_eq(level, "Emerging Issue") || str_eq(level, "Shut Down")
}

/// Whether a text message is due for a part: its level warrants one and the
/// part was never texted, or was texted more than thirty minutes ago.
pub fn sms_due(level: &str, minutes_since_last: Option<i64>) -> (r: bool)
    ensures
        r == (sms_level(level@) && match minutes_since_last {
            Some(m) => m > 30,
            None => true,
        }),
{
    if !sms_eligible(level) {
        return false;
    }
    match minutes_since_last {
        Some(m) => m > 30,
        None => true,
    }
}

/// Whole units of `d` seconds, truncated toward zero as chrono's
/// `num_minutes` / `num_hours` do.
pub open spec fn trunc_div(d: int, unit: int) -> int {
    if d >= 0 {
        d / unit
    } else {
        -((-d) / unit)
    }
}

/// Whole minutes from `from` to `to` (naive date-times in seconds).
pub fn minutes_between(to: i64, from: i64) -> (r: i64)
    ensures
        r == trunc_div(to - from, 60),
{
    let d: i128 = (to as i128) - (from as i128);
    let m: i128 = if d >= 0 {
        d / 60
    } else {
        -((-d) / 60)
    };
    m as i64
}

/// The start of the monitoring window holding `now`: 22:00 of the same day
/// from 22:00 on, else 22:00 of the day before.
pub open spec fn window_start_spec(now: int) -> int {
    let today = (now / 86400) * 86400 + 22 * 3600;
    if now >= today {
        today
    } else {
        today - 86400
    }
}

/// The monitoring window of `now` (a naive date-time in seconds): its start
/// and the whole hours elapsed since then, clamped to 0..=47.
pub fn monitoring_window(now: i64) -> (r: (i64, u64))
    requires
        i64::MIN + 2 * 86400 <= now <= i64::MAX - 86400,
    ensures
        r.0 == window_start_spec(now as int),
        r.1 == (now - window_start_spec(now as int)) / 3600,
        r.1 <= 47,
{
    let q = now / 86400;
    let rem = now % 86400;
    let day = if rem < 0 { q - 1 } else { q };
    assert(day as int == now as int / 86400);
    assert(now - 86400 < day * 86400 <= now) by (nonlinear_arith)
        requires
            day == now / 86400,
    ;
    let today = day * 86400 + 22 * 3600;
    let start = if now >= today { today } else { today - 86400 };
    let hours = (now - start) / 3600;
    (start, hours as u64)
}

/// The hour slot of the window in which a shipment arrives: whole hours
/// from the window start, 0 when it arrives before.
pub open spec fn window_slot(arrival: int, window_start: int) -> int {
    let h = trunc_div(arrival - window_start, 3600);
    if h > 0 {
        h
    } else {
        0
    }
}

/// The hour slot of the window in which a shipment arrives.
pub fn asn_window_index(arrival: i64, window_start: i64) -> (r: u64)
    ensures
        r == window_slot(arrival as int, window_start as int),
{
    let d: i128 = (arrival as i128) - (window_start as i128);
    if d >= 3600 {
        (d / 3600) as u64
    } else {
        0
    }
}

/// The projected outage moment of hour slot `idx` of the window.
pub fn outage_at(window_start: i64, idx: u64) -> (r: i64)
    requires
        window_start + idx * 3600 <= i64::MAX,
    ensures
        r == window_start + idx * 3600,
{
    let t: i128 = (window_start as i128) + (idx as i128) * 3600;
    t as i64
}

/// Hours from now to the outage in hour slot `idx` of the window.
pub fn hours_to_out(idx: u64, current_hour: u64) -> (r: i64)
    requires
        idx <= i64::MAX,
        current_hour <= i64::MAX,
    ensures
        r == idx - current_hour,
{
    (idx as i64) - (current_hour as i64)
}

/// An advance shipping notice of a part: expected date and time, trailer, and
/// the position of its row among the rows read (which carries its quantity).
#[derive(Clone, Debug)]
pub struct AsnRef {
    pub eda: String,
    pub eta: String,
    pub trailer: String,
    pub row: u64,
}

/// Sort key of a notice: its arrival, where no arrival sorts first.
pub open spec fn asn_key(a: AsnRef) -> Option<i64> {
    asn_arrival_spec(a.eda@, a.eta@)
}

/// `a` sorts no later than `b`: `None` before any arrival, arrivals by time.
pub open spec fn key_le(a: Option<i64>, b: Option<i64>) -> bool {
    match (a, b) {
        (None, _) => true,
        (Some(_), None) => false,
        (Some(x), Some(y)) => x <= y,
    }
}

/// Notices with the same sort key `k`.
pub open spec fn with_key(k: Option<i64>) -> spec_fn(AsnRef) -> bool {
    |a: AsnRef| asn_key(a) == k
}

/// `r` is `s` sorted by arrival, equal keys keeping their order.
pub open spec fn stable_key_sort_of(r: Seq<AsnRef>, s: Seq<AsnRef>) -> bool {
    &&& forall|i: int, j: int| 0 <= i < j < r.len() ==> key_le(asn_key(r[i]), asn_key(r[j]))
    &&& forall|k: Option<i64>| #[trigger] r.filter(with_key(k)) == s.filter(with_key(k))
}

proof fn lemma_filter_single(x: AsnRef, pred: spec_fn(AsnRef) -> bool)
    ensures
        seq![x].filter(pred) == (if pred(x) { seq![x] } else { Seq::<AsnRef>::empty() }),
{
    let e = Seq::<AsnRef>::empty();
    e.lemma_filter_len(pred);
    e.lemma_filter_push(x, pred);
    assert(e.push(x) =~= seq![x]);
    assert(e.filter(pred) =~= e);
}

proof fn lemma_insert_keeps_keys(out: Seq<AsnRef>, p: int, x: AsnRef, k: Option<i64>)
    requires
        0 <= p <= out.len(),
        forall|j: int| 0 <= j < p ==> key_le(asn_key(#[trigger] out[j]), asn_key(x)),
        forall|j: int| p <= j < out.len() ==> !key_le(asn_key(#[trigger] out[j]), asn_key(x)),
    ensures
        out.insert(p, x).filter(with_key(k)) == (if asn_key(x) == k {
            out.filter(with_key(k)).push(x)
        } else {
            out.filter(with_key(k))
        }),
{
    let pred = with_key(k);
    let a = out.take(p);
    let b = out.skip(p);
    assert(out.insert(p, x) =~= a + seq![x] + b);
    assert(out =~= a + b);
    Seq::filter_distributes_over_add(a + seq![x], b, pred);
    Seq::filter_distributes_over_add(a, seq![x], pred);
    Seq::filter_distributes_over_add(a, b, pred);
    lemma_filter_single(x, pred);
    if asn_key(x) == k {
        assert(b.all(|y: AsnRef| !pred(y))) by {
            assert forall|i: int| 0 <= i < b.len() implies !pred(b[i]) by {
                assert(b[i] == out[p + i]);
                match k {
                    Some(_) => {},
                    None => {},
                }
            }
        }
        b.lemma_all_neg_filter_empty(pred);
        assert(b.filter(pred) =~= Seq::<AsnRef>::empty());
        assert(a.filter(pred) + seq![x] =~= a.filter(pred).push(x));
    } else {
        assert(a.filter(pred) + Seq::<AsnRef>::empty() =~= a.filter(pred));
    }
}

fn copy_asn(a: &AsnRef) -> (r: AsnRef)
    ensures
        r == *a,
{
    AsnRef { eda: a.eda.clone(), eta: a.eta.clone(), trailer: a.trailer.clone(), row: a.row }
}

fn option_key_le(a: Option<i64>, b: Option<i64>) -> (r: bool)
    ensures
        r == key_le(a, b),
{
    match (a, b) {
        (None, _) => true,
        (Some(_), None) => false,
        (Some(x), Some(y)) => x <= y,
    }
}

/// Orders the notices of a part by arrival, those without a readable arrival
/// first; notices with equal arrivals keep their order.
pub fn order_asns(asns: Vec<AsnRef>) -> (r: Vec<AsnRef>)
    ensures
        stable_key_sort_of(r@, asns@),
{
    let ghost orig = asns@;
    let mut out: Vec<AsnRef> = Vec::new();
    let mut keys: Vec<Option<i64>> = Vec::new();
    let mut i: usize = 0;
    proof {
        let e0 = orig.take(0);
        assert forall|k: Option<i64>| #[trigger] out@.filter(with_key(k)) == e0.filter(
            with_key(k),
        ) by {
            out@.lemma_filter_len(with_key(k));
            e0.lemma_filter_len(with_key(k));
            assert(out@.filter(with_key(k)) =~= e0.filter(with_key(k)));
        }
    }
    while i < asns.len()
        invariant
            orig == asns@,
            i <= asns.len(),
            out.len() == keys.len(),
            forall|j: int| 0 <= j < keys.len() ==> keys@[j] == asn_key(#[trigger] out@[j]),
            stable_key_sort_of(out@, orig.take(i as int)),
        decreases asns.len() - i,
    {
        let x = copy_asn(&asns[i]);
        let kx = parse_asn_arrival(x.eda.as_str(), x.eta.as_str());
        let mut p: usize = 0;
        while p < keys.len() && option_key_le(keys[p], kx)
            invariant
                p <= keys.len(),
                forall|j: int| 0 <= j < p ==> key_le(#[trigger] keys@[j], kx),
            decreases keys.len() - p,
        {
            p += 1;
        }
        let ghost before = out@;
        proof {
            assert(orig.take(i + 1) =~= orig.take(i as int).push(x));
            assert forall|j: int| 0 <= j < p implies key_le(asn_key(#[trigger] before[j]), asn_key(x)) by {
                assert(key_le(keys@[j], kx));
            }
            assert forall|j: int| p <= j < before.len() implies !key_le(
                asn_key(#[trigger] before[j]),
                asn_key(x),
            ) by {
                assert(!key_le(keys@[p as int], kx));
                assert(key_le(asn_key(before[p as int]), asn_key(before[j])));
            }
            assert forall|k: Option<i64>| #[trigger] before.insert(p as int, x).filter(with_key(k))
                == orig.take(i + 1).filter(with_key(k)) by {
                lemma_insert_keeps_keys(before, p as int, x, k);
                orig.take(i as int).lemma_filter_push(x, with_key(k));
            }
        }
        out.insert(p, x);
        keys.insert(p, kx);
        proof {
            assert forall|a: int, b: int| 0 <= a < b < out@.len() implies key_le(
                asn_key(out@[a]),
                asn_key(out@[b]),
            ) by {
                if b < p {
                    assert(out@[a] == before[a] && out@[b] == before[b]);
                } else if b == p {
                    assert(out@[a] == before[a]);
                } else if a == p {
                    assert(out@[b] == before[b - 1]);
                } else if a < p {
                    assert(out@[a] == before[a] && out@[b] == before[b - 1]);
                } else {
                    assert(out@[a] == before[a - 1] && out@[b] == before[b - 1]);
                }
            }
            assert forall|j: int| 0 <= j < keys.len() implies keys@[j] == asn_key(
                #[trigger] out@[j],
            ) by {
                if j < p {
                    assert(out@[j] == before[j]);
                } else if j > p {
                    assert(out@[j] == before[j - 1]);
                }
            }
        }
        i += 1;
    }
    assert(orig.take(i as int) =~= orig);
    out
}

/// Whether a notice arrives before the projected outage `downtime`.
pub open spec fn saves(a: AsnRef, downtime: i64) -> bool {
    match asn_key(a) {
        Some(t) => t < downtime,
        None => false,
    }
}

/// The first notice at or after `from` that arrives before `downtime`.
pub fn next_saving_asn(asns: &Vec<AsnRef>, from: usize, downtime: i64) -> (r: Option<usize>)
    ensures
        match r {
            Some(j) => from <= j < asns@.len() && saves(asns@[j as int], downtime) && forall|k: int|
                from <= k < j ==> !saves(#[trigger] asns@[k], downtime),
            None => forall|k: int| from <= k < asns@.len() ==> !saves(#[trigger] asns@[k], downtime),
        },
{
    let mut j = from;
    while j < asns.len()
        invariant
            from <= j,
            forall|k: int| from <= k < j && k < asns@.len() ==> !saves(#[trigger] asns@[k], downtime),
        decreases asns.len() - j,
    {
        match parse_asn_arrival(asns[j].eda.as_str(), asns[j].eta.as_str()) {
            Some(t) => {
                if t < downtime {
                    return Some(j);
                }
            },
            None => {},
        }
        j += 1;
    }
    None
}

/// How the next notice is shown: `"N/A"` without an expected date, else the
/// date and the time.
pub open spec fn asn_display_spec(eda: Seq<char>, eta: Seq<char>) -> Seq<char> {
    if eda.len() == 0 {
        "N/A"@
    } else {
        eda + " "@ + eta
    }
}

/// How the next notice is shown.
pub fn asn_display(eda: &str, eta: &str) -> (r: String)
    ensures
        r@ == asn_display_spec(eda@, eta@),
{
    if eda.is_empty() {
        "N/A".to_string()
    } else {
        concat2(concat2(eda, " ").as_str(), eta)
    }
}

/// Subject of the late-trailer mail.
pub fn late_trailer_subject(route_id: &str) -> (r: String)
    ensures
        r@ == "Late Trailer - Route "@ + route_id@,
{
    concat2("Late Trailer - Route ", route_id)
}

/// Body of the late-trailer mail.
pub open spec fn late_trailer_body_spec(t: TrailerRecord) -> Seq<char> {
    "Trailer "@ + t.trailer1@ + " on route "@ + t.routeId@ + " has been flagged as late.\n\nDock: "@
        + t.dockCode@ + "\nSCAC: "@ + t.scac@ + "\nScheduled: "@ + t.scheduleStartDate@ + " at "@
        + t.adjustedStartTime@ + "\n"@
}

/// Body of the late-trailer mail: trailer, route, dock, carrier and schedule.
pub fn late_trailer_body(t: &TrailerRecord) -> (r: String)
    ensures
        r@ == late_trailer_body_spec(*t),
{
    let mut s = concat2("Trailer ", t.trailer1.as_str());
    s = concat2(s.as_str(), " on route ");
    s = concat2(s.as_str(), t.routeId.as_str());
    s = concat2(s.as_str(), " has been flagged as late.\n\nDock: ");
    s = concat2(s.as_str(), t.dockCode.as_str());
    s = concat2(s.as_str(), "\nSCAC: ");
    s = concat2(s.as_str(), t.scac.as_str());
    s = concat2(s.as_str(), "\nScheduled: ");
    s = concat2(s.as_str(), t.scheduleStartDate.as_str());
    s = concat2(s.as_str(), " at ");
    s = concat2(s.as_str(), t.adjustedStartTime.as_str());
    s = concat2(s.as_str(), "\n");
    s
}

/// The cutoff of the late-trailer check as `YYYY-MM-DDTHH:MM`: fifteen
/// minutes before `now` (a naive date-time in seconds); `None` when that
/// day lies outside chrono's calendar.
pub open spec fn late_cutoff_spec(now: int) -> Option<Seq<char>> {
    let c = now - 900;
    let day = c / 86400;
    let secs = c % 86400;
    if i32::MIN <= day <= i32::MAX {
        match formatted_date(day as i32, ymd_format()) {
            Some(d) => Some(d + "T"@ + two_digits((secs / 3600) as u32) + ":"@ + two_digits(
                ((secs % 3600) / 60) as u32,
            )),
            None => None,
        }
    } else {
        None
    }
}

/// The cutoff of the late-trailer check: fifteen minutes before `now`.
pub fn late_cutoff(now: i64) -> (r: Option<String>)
    ensures
        match r {
            Some(s) => late_cutoff_spec(now as int) == Some(s@),
            None => late_cutoff_spec(now as int) is None,
        },
{
    let c: i128 = (now as i128) - 900;
    let q = c / 86400;
    let rem = c % 86400;
    let day: i128 = if rem < 0 { q - 1 } else { q };
    let secs: i128 = if rem < 0 { rem + 86400 } else { rem };
    assert(day == c as int / 86400 && secs == c as int % 86400);
    if day < i32::MIN as i128 || day > i32::MAX as i128 {
        return None;
    }
    let d = match format_date(day as i32, "%Y-%m-%d") {
        Some(d) => d,
        None => return None,
    };
    let h = (secs / 3600) as u32;
    let m = ((secs % 3600) / 60) as u32;
    let mut s = concat2(d.as_str(), "T");
    s = concat2(s.as_str(), two_digit_string(h).as_str());
    s = concat2(s.as_str(), ":");
    s = concat2(s.as_str(), two_digit_string(m).as_str());
    Some(s)
}

/// Subject of the mail that tells a carrier its trailer is late.
pub open spec fn carrier_late_subject_spec(r: LateNotifyRequest) -> Seq<char> {
    "Late Trailer Notification — Load "@ + r.load_no@ + " | Route "@ + r.route_id@ + " | Dock "@
        + r.dock@
}

/// Body of the mail that tells a carrier its trailer is late.
pub open spec fn carrier_late_body_spec(r: LateNotifyRequest) -> Seq<char> {
    "This is an automated notification from GM MGO.\n\nLoad "@ + r.load_no@ + " (Route: "@
        + r.route_id@ + ", Dock: "@ + r.dock@ + ") was scheduled for "@ + r.scheduled_time@
        + " on "@ + r.scheduled_date@
        + " and has been confirmed late.\n\nPlease contact the facility if you have questions."@
}

/// Subject of the mail that tells a carrier its trailer is late: load,
/// route and dock.
pub fn carrier_late_subject(r: &LateNotifyRequest) -> (s: String)
    ensures
        s@ == carrier_late_subject_spec(*r),
{
    let mut s = concat2("Late Trailer Notification — Load ", r.load_no.as_str());
    s = concat2(s.as_str(), " | Route ");
    s = concat2(s.as_str(), r.route_id.as_str());
    s = concat2(s.as_str(), " | Dock ");
    concat2(s.as_str(), r.dock.as_str())
}

/// Body of the mail that tells a carrier its trailer is late: load, route,
/// dock and the schedule it missed.
pub fn carrier_late_body(r: &LateNotifyRequest) -> (s: String)
    ensures
        s@ == carrier_late_body_spec(*r),
{
    let mut s = concat2("This is an automated notification from GM MGO.\n\nLoad ", r.load_no.as_str());
    s = concat2(s.as_str(), " (Route: ");
    s = concat2(s.as_str(), r.route_id.as_str());
    s = concat2(s.as_str(), ", Dock: ");
    s = concat2(s.as_str(), r.dock.as_str());
    s = concat2(s.as_str(), ") was scheduled for ");
    s = concat2(s.as_str(), r.scheduled_time.as_str());
    s = concat2(s.as_str(), " on ");
    s = concat2(s.as_str(), r.scheduled_date.as_str());
    concat2(
        s.as_str(),
        " and has been confirmed late.\n\nPlease contact the facility if you have questions.",
    )
}

/// Address of the text-message service's message list for an account.
pub fn sms_endpoint(account_sid: &str) -> (r: String)
    ensures
        r@ == "https://api.twilio.com/2010-04-01/Accounts/"@ + account_sid@ + "/Messages.json"@,
{
    concat2(
        concat2("https://api.twilio.com/2010-04-01/Accounts/", account_sid).as_str(),
        "/Messages.json",
    )
}

/// The form of a text message: recipient, sender and text, in that order.
pub fn sms_form(to: &str, from: &str, body: &str) -> (r: Vec<(String, String)>)
    ensures
        crate::permissions::pairs_view(r@) == seq![("To"@, to@), ("From"@, from@), ("Body"@, body@)],
{
    let r = vec![
        ("To".to_string(), to.to_string()),
        ("From".to_string(), from.to_string()),
        ("Body".to_string(), body.to_string()),
    ];
    assert(crate::permissions::pairs_view(r@) =~= seq![("To"@, to@), ("From"@, from@), ("Body"@, body@)]);
    r
}

} // verus!
