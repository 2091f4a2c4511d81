//! The grouped arrivals board: scheduled trailers grouped by operational
//! date, shift and dock, each level in board order.
use vstd::prelude::*;
use crate::dates::{formatted_date, parse_rfc3339_utc, rfc3339_utc};
use crate::helpers::{get_dock, get_op_date, get_shift, op_date_spec, shift_of, views};
use crate::structs::TrailerEntry;
use crate::text::{concat2, lemma_lex_asym, lemma_lex_total, lemma_lex_transitive, lex_lt, str_eq, str_lt};

verus! {

/// Operational date an arrival is grouped under.
pub open spec fn entry_date(e: TrailerEntry) -> Seq<char> {
    op_date_spec(e.schedArrival@)
}

/// Shift an arrival is grouped under (`"Unknown"` for an unreadable time).
pub open spec fn entry_shift(e: TrailerEntry) -> Seq<char> {
    match rfc3339_utc(e.schedArrival@) {
        Some(t) => shift_of(t.1),
        None => "Unknown"@,
    }
}

/// Dock an arrival is grouped under.
pub open spec fn entry_dock(e: TrailerEntry) -> Seq<char> {
    e.acctorId@ + "-"@ + e.location@
}

/// Sort time of an arrival: its Unix time, 0 when unreadable.
pub open spec fn entry_time(e: TrailerEntry) -> i64 {
    match rfc3339_utc(e.schedArrival@) {
        Some(t) => t.2,
        None => 0,
    }
}

/// The grouping keys of one arrival.
pub struct EntryKeys {
    pub date: String,
    pub shift: String,
    pub dock: String,
    pub time: i64,
}

pub open spec fn keys_ok(k: EntryKeys, e: TrailerEntry) -> bool {
    k.date@ == entry_date(e) && k.shift@ == entry_shift(e) && k.dock@ == entry_dock(e) && k.time
        == entry_time(e)
}

/// Grouping keys of an arrival.
pub fn entry_keys(e: &TrailerEntry) -> (k: EntryKeys)
    ensures
        keys_ok(k, *e),
{
    let date = get_op_date(e.schedArrival.as_str());
    let dock = get_dock(e.acctorId.as_str(), e.location.as_str());
    match parse_rfc3339_utc(e.schedArrival.as_str()) {
        Some(t) => EntryKeys { date, shift: get_shift(t.1).to_string(), dock, time: t.2 },
        None => EntryKeys { date, shift: "Unknown".to_string(), dock, time: 0 },
    }
}

/// A copy of an arrival, field by field.
pub fn copy_entry(e: &TrailerEntry) -> (r: TrailerEntry)
    ensures
        r == *e,
{
    TrailerEntry {
        loadNo: e.loadNo.clone(),
        routePrefix: e.routePrefix.clone(),
        routeId: e.routeId.clone(),
        status: e.status.clone(),
        stat2: e.stat2.clone(),
        scac: e.scac.clone(),
        trailer: e.trailer.clone(),
        rNote: e.rNote.clone(),
        schedArrival: e.schedArrival.clone(),
        schedDepart: e.schedDepart.clone(),
        location: e.location.clone(),
        acctorId: e.acctorId.clone(),
    }
}

/// A date key that sorts last: `"Unknown"` or `"Invalid Date"`.
pub open spec fn bad_date(d: Seq<char>) -> bool {
    d == "Unknown"@ || d == "Invalid Date"@
}

/// Midnight UTC of a `YYYY-MM-DD` date as Unix time, 0 when unreadable.
pub open spec fn date_time(d: Seq<char>) -> i64 {
    match rfc3339_utc(d + "T00:00:00Z"@) {
        Some(t) => t.2,
        None => 0,
    }
}

/// Board order of dates: readable dates newest first, then the unreadable.
pub open spec fn date_le(a: Seq<char>, b: Seq<char>) -> bool {
    if bad_date(b) {
        true
    } else if bad_date(a) {
        false
    } else {
        date_time(a) >= date_time(b)
    }
}

/// Board rank of a shift: third, first, second, then anything else.
pub open spec fn shift_rank(s: Seq<char>) -> int {
    if s == "3rd"@ {
        0
    } else if s == "1st"@ {
        1
    } else if s == "2nd"@ {
        2
    } else {
        99
    }
}

/// Sort key of a date: unreadable dates after readable ones; readable ones by
/// descending time.
pub open spec fn date_key(d: Seq<char>) -> (int, int) {
    if bad_date(d) {
        (1, 0)
    } else {
        (0, date_time(d) as int)
    }
}

fn date_sort_key(d: &String) -> (k: (u8, i64))
    ensures
        (k.0 as int, k.1 as int) == date_key(d@),
{
    if str_eq(d.as_str(), "Unknown") || str_eq(d.as_str(), "Invalid Date") {
        (1, 0)
    } else {
        let s = concat2(d.as_str(), "T00:00:00Z");
        match parse_rfc3339_utc(s.as_str()) {
            Some(t) => (0, t.2),
            None => (0, 0),
        }
    }
}

fn shift_sort_key(s: &String) -> (k: (u8, i64))
    ensures
        k.0 as int == shift_rank(s@),
        k.1 == 0,
{
    if str_eq(s.as_str(), "3rd") {
        (0, 0)
    } else if str_eq(s.as_str(), "1st") {
        (1, 0)
    } else if str_eq(s.as_str(), "2nd") {
        (2, 0)
    } else {
        (99, 0)
    }
}

} // verus!

verus! {

/// Order of sort keys: by the first part ascending, then the second descending.
pub open spec fn kle(a: (u8, i64), b: (u8, i64)) -> bool {
    a.0 < b.0 || (a.0 == b.0 && a.1 >= b.1)
}

pub open spec fn key_of(x: (String, u8, i64)) -> (u8, i64) {
    (x.1, x.2)
}

/// Keyed items in key order.
pub open spec fn sorted_keyed(s: Seq<(String, u8, i64)>) -> bool {
    forall|i: int, j: int| 0 <= i < j < s.len() ==> kle(key_of(s[i]), key_of(s[j]))
}

fn key_le(a0: u8, a1: i64, b0: u8, b1: i64) -> (r: bool)
    ensures
        r == kle((a0, a1), (b0, b1)),
{
    a0 < b0 || (a0 == b0 && a1 >= b1)
}

/// Sorts keyed items by [`kle`] (insertion after equal keys).
fn sort_keyed(items: Vec<(String, u8, i64)>) -> (r: Vec<(String, u8, i64)>)
    ensures
        sorted_keyed(r@),
        r@.len() == items@.len(),
        forall|x: (String, u8, i64)| r@.contains(x) <==> items@.contains(x),
        keyed_names(items@).no_duplicates() ==> keyed_names(r@).no_duplicates(),
        forall|x: Seq<char>| keyed_names(r@).contains(x) <==> keyed_names(items@).contains(x),
{
    let ghost orig = items@;
    let mut rest = items;
    let mut out: Vec<(String, u8, i64)> = Vec::new();
    let ghost mut k: int = 0;
    while rest.len() > 0
        invariant
            0 <= k <= orig.len(),
            rest@ == orig.skip(k),
            sorted_keyed(out@),
            out@.len() == k,
            forall|x: (String, u8, i64)| out@.contains(x) <==> orig.take(k).contains(x),
            keyed_names(orig).no_duplicates() ==> keyed_names(out@).no_duplicates(),
        decreases rest.len(),
    {
        let x = rest.remove(0);
        let mut p: usize = 0;
        while p < out.len() && key_le(out[p].1, out[p].2, x.1, x.2)
            invariant
                p <= out.len(),
                forall|i: int| 0 <= i < p ==> kle(key_of(#[trigger] out@[i]), key_of(x)),
            decreases out.len() - p,
        {
            p += 1;
        }
        let ghost before = out@;
        out.insert(p, x);
        proof {
            assert(x == orig[k]);
            assert(rest@ =~= orig.skip(k + 1));
            assert forall|i: int, j: int| 0 <= i < j < out@.len() implies kle(
                key_of(out@[i]),
                key_of(out@[j]),
            ) by {
                if j < p {
                    assert(out@[i] == before[i] && out@[j] == before[j]);
                } else if j == p {
                    assert(out@[i] == before[i]);
                } else if i == p {
                    assert(out@[j] == before[j - 1]);
                    assert(!kle(key_of(before[p as int]), key_of(x)));
                    assert(kle(key_of(before[p as int]), key_of(before[j - 1])));
                } else if i < p {
                    assert(out@[i] == before[i] && out@[j] == before[j - 1]);
                } else {
                    assert(out@[i] == before[i - 1] && out@[j] == before[j - 1]);
                }
            }
            assert(orig.take(k + 1) =~= orig.take(k).push(x));
            if keyed_names(orig).no_duplicates() {
                assert forall|i: int, j: int|
                    0 <= i < out@.len() && 0 <= j < out@.len() && i != j implies keyed_names(
                    out@,
                )[i] != keyed_names(out@)[j] by {
                    if i != p && j != p {
                        let bi = if i < p { i } else { i - 1 };
                        let bj = if j < p { j } else { j - 1 };
                        assert(out@[i] == before[bi] && out@[j] == before[bj]);
                        assert(keyed_names(before)[bi] != keyed_names(before)[bj]);
                    } else {
                        let o = if i == p { j } else { i };
                        let bo = if o < p { o } else { o - 1 };
                        assert(out@[o] == before[bo]);
                        assert(before.contains(before[bo]));
                        assert(orig.take(k).contains(before[bo]));
                        let t = choose|t: int| 0 <= t < orig.take(k).len() && orig.take(k)[t] == before[bo];
                        assert(orig[t] == before[bo]);
                        assert(keyed_names(orig)[t] != keyed_names(orig)[k]);
                    }
                }
            }
            assert forall|y: (String, u8, i64)| out@.contains(y) <==> orig.take(k + 1).contains(
                y,
            ) by {
                if out@.contains(y) {
                    let i = choose|i: int| 0 <= i < out@.len() && out@[i] == y;
                    if i < p {
                        assert(before[i] == y);
                    } else if i > p {
                        assert(before[i - 1] == y);
                    }
                    if y != x {
                        assert(before.contains(y));
                        assert(orig.take(k).contains(y));
                        let t = choose|t: int| 0 <= t < orig.take(k).len() && orig.take(k)[t] == y;
                        assert(orig.take(k + 1)[t] == y);
                    } else {
                        assert(orig.take(k + 1)[k] == y);
                    }
                }
                if orig.take(k + 1).contains(y) {
                    let tk = orig.take(k + 1);
                    let t = choose|t: int| 0 <= t < tk.len() && tk[t] == y;
                    if t == k {
                        assert(out@[p as int] == y);
                    } else {
                        assert(orig.take(k)[t] == tk[t]);
                        assert(before.contains(y));
                        let i = choose|i: int| 0 <= i < before.len() && before[i] == y;
                        if i < p {
                            assert(out@[i] == y);
                        } else {
                            assert(out@[i + 1] == y);
                        }
                    }
                }
            }
            k = k + 1;
        }
    }
    assert(orig.take(k) =~= orig);
    proof {
        lemma_same_members_names(out@, orig);
    }
    out
}

/// Names of keyed items.
pub open spec fn keyed_names(s: Seq<(String, u8, i64)>) -> Seq<Seq<char>> {
    s.map_values(|t: (String, u8, i64)| t.0@)
}

proof fn lemma_same_members_names(a: Seq<(String, u8, i64)>, b: Seq<(String, u8, i64)>)
    requires
        a.len() == b.len(),
        forall|x: (String, u8, i64)| a.contains(x) <==> b.contains(x),
    ensures
        forall|x: Seq<char>| keyed_names(a).contains(x) <==> keyed_names(b).contains(x),
{
    assert forall|x: Seq<char>| keyed_names(a).contains(x) implies keyed_names(b).contains(x) by {
        let i = choose|i: int| 0 <= i < keyed_names(a).len() && keyed_names(a)[i] == x;
        assert(a.contains(a[i]));
        let j = choose|j: int| 0 <= j < b.len() && b[j] == a[i];
        assert(keyed_names(b)[j] == x);
    }
    assert forall|x: Seq<char>| keyed_names(b).contains(x) implies keyed_names(a).contains(x) by {
        let i = choose|i: int| 0 <= i < keyed_names(b).len() && keyed_names(b)[i] == x;
        assert(b.contains(b[i]));
        let j = choose|j: int| 0 <= j < a.len() && a[j] == b[i];
        assert(keyed_names(a)[j] == x);
    }
}

} // verus!

verus! {

/// The value an arrival contributes at a grouping level: its date (level 0),
/// its shift (level 1) or its dock (level 2).
pub open spec fn level_value(e: TrailerEntry, level: u8) -> Seq<char> {
    if level == 0 {
        entry_date(e)
    } else if level == 1 {
        entry_shift(e)
    } else {
        entry_dock(e)
    }
}

/// Whether an arrival lies under the date (and, from level 2, the shift)
/// being grouped.
pub open spec fn level_selected(e: TrailerEntry, level: u8, date: Seq<char>, shift: Seq<char>) -> bool {
    (level >= 1 ==> entry_date(e) == date) && (level >= 2 ==> entry_shift(e) == shift)
}

/// Whether some selected arrival has value `v` at `level`.
pub open spec fn has_value(
    es: Seq<TrailerEntry>,
    level: u8,
    date: Seq<char>,
    shift: Seq<char>,
    v: Seq<char>,
) -> bool {
    exists|i: int|
        0 <= i < es.len() && level_selected(#[trigger] es[i], level, date, shift) && level_value(
            es[i],
            level,
        ) == v
}

pub open spec fn keys_agree(keys: Seq<EntryKeys>, es: Seq<TrailerEntry>) -> bool {
    keys.len() == es.len() && forall|i: int| 0 <= i < keys.len() ==> keys_ok(#[trigger] keys[i], es[i])
}

fn key_value(k: &EntryKeys, level: u8) -> (r: &String)
    ensures
        level == 0 ==> r == k.date,
        level == 1 ==> r == k.shift,
        level >= 2 ==> r == k.dock,
{
    if level == 0 {
        &k.date
    } else if level == 1 {
        &k.shift
    } else {
        &k.dock
    }
}

fn strings_contain(v: &Vec<String>, s: &str) -> (r: bool)
    ensures
        r == views(v@).contains(s@),
{
    let mut i: usize = 0;
    while i < v.len()
        invariant
            i <= v.len(),
            forall|j: int| 0 <= j < i ==> v@[j]@ != s@,
        decreases v.len() - i,
    {
        if str_eq(v[i].as_str(), s) {
            assert(views(v@)[i as int] == s@);
            return true;
        }
        i += 1;
    }
    proof {
        if views(v@).contains(s@) {
            let j = choose|j: int| 0 <= j < views(v@).len() && views(v@)[j] == s@;
            assert(v@[j]@ == s@);
        }
    }
    false
}

/// The distinct values at `level` of the arrivals selected by `date` and
/// `shift`, in order of first appearance.
fn distinct_values(
    entries: &Vec<TrailerEntry>,
    keys: &Vec<EntryKeys>,
    level: u8,
    date: &str,
    shift: &str,
) -> (r: Vec<String>)
    requires
        keys_agree(keys@, entries@),
    ensures
        views(r@).no_duplicates(),
        forall|v: Seq<char>| views(r@).contains(v) <==> has_value(entries@, level, date@, shift@, v),
{
    let mut r: Vec<String> = Vec::new();
    let mut i: usize = 0;
    while i < keys.len()
        invariant
            keys_agree(keys@, entries@),
            i <= keys.len(),
            views(r@).no_duplicates(),
            forall|v: Seq<char>|
                views(r@).contains(v) <==> has_value(entries@.take(i as int), level, date@, shift@, v),
        decreases keys.len() - i,
    {
        let k = &keys[i];
        proof {
            assert(keys_ok(keys@[i as int], entries@[i as int]));
        }
        let selected = (level < 1 || str_eq(k.date.as_str(), date)) && (level < 2 || str_eq(
            k.shift.as_str(),
            shift,
        ));
        let ghost before = r@;
        let ghost e = entries@[i as int];
        assert(entries@.take(i + 1) =~= entries@.take(i as int).push(e));
        if selected {
            let val = key_value(k, level);
            assert(val@ == level_value(e, level));
            if !strings_contain(&r, val.as_str()) {
                r.push(val.clone());
                assert(views(r@) =~= views(before).push(val@));
            }
        }
        proof {
            assert forall|v: Seq<char>|
                has_value(entries@.take(i + 1), level, date@, shift@, v) implies views(r@).contains(v) by {
                if has_value(entries@.take(i + 1), level, date@, shift@, v) {
                    let j = choose|j: int|
                        0 <= j < entries@.take(i + 1).len() && level_selected(
                            #[trigger] entries@.take(i + 1)[j],
                            level,
                            date@,
                            shift@,
                        ) && level_value(entries@.take(i + 1)[j], level) == v;
                    if j < i {
                        assert(entries@.take(i as int)[j] == entries@.take(i + 1)[j]);
                        assert(has_value(entries@.take(i as int), level, date@, shift@, v));
                        assert(views(before).contains(v));
                        let q = choose|q: int| 0 <= q < views(before).len() && views(before)[q] == v;
                        assert(views(r@)[q] == v);
                    } else {
                        assert(entries@.take(i + 1)[j] == e);
                        if views(before).contains(v) {
                            let q = choose|q: int| 0 <= q < views(before).len() && views(before)[q] == v;
                            assert(views(r@)[q] == v);
                        } else {
                            assert(views(r@)[views(r@).len() - 1] == v);
                        }
                    }
                }
            }
            assert forall|v: Seq<char>|
                views(r@).contains(v) implies has_value(entries@.take(i + 1), level, date@, shift@, v) by {
                let q = choose|q: int| 0 <= q < views(r@).len() && views(r@)[q] == v;
                if q < before.len() {
                    assert(views(before)[q] == v);
                    assert(views(before).contains(v));
                    let j = choose|j: int|
                        0 <= j < entries@.take(i as int).len() && level_selected(
                            #[trigger] entries@.take(i as int)[j],
                            level,
                            date@,
                            shift@,
                        ) && level_value(entries@.take(i as int)[j], level) == v;
                    assert(entries@.take(i + 1)[j] == entries@.take(i as int)[j]);
                } else {
                    assert(entries@.take(i + 1)[i as int] == e);
                }
            }
        }
        i += 1;
    }
    assert(entries@.take(i as int) =~= entries@);
    r
}

} // verus!

verus! {

/// Strings in strictly increasing lexicographic order.
pub open spec fn lex_sorted(s: Seq<Seq<char>>) -> bool {
    forall|i: int, j: int| 0 <= i < j < s.len() ==> lex_lt(s[i], s[j])
}

/// Sorts distinct strings lexicographically.
fn sort_lex(v: Vec<String>) -> (r: Vec<String>)
    requires
        views(v@).no_duplicates(),
    ensures
        lex_sorted(views(r@)),
        r.len() == v.len(),
        forall|x: Seq<char>| views(r@).contains(x) <==> views(v@).contains(x),
{
    let ghost origv = v@;
    let ghost orig = views(v@);
    let mut rest = v;
    let mut out: Vec<String> = Vec::new();
    let ghost mut k: int = 0;
    while rest.len() > 0
        invariant
            0 <= k <= orig.len(),
            orig == views(origv),
            orig.no_duplicates(),
            rest@ == origv.skip(k),
            lex_sorted(views(out@)),
            out@.len() == k,
            forall|x: Seq<char>| views(out@).contains(x) <==> orig.take(k).contains(x),
        decreases rest.len(),
    {
        let x = rest.remove(0);
        proof {
            assert(x == origv[k]);
            assert(rest@ =~= origv.skip(k + 1));
        }
        let mut p: usize = 0;
        while p < out.len() && str_lt(out[p].as_str(), x.as_str())
            invariant
                p <= out.len(),
                forall|i: int| 0 <= i < p ==> lex_lt(#[trigger] views(out@)[i], x@),
            decreases out.len() - p,
        {
            p += 1;
        }
        let ghost before = views(out@);
        proof {
            assert(x@ == orig[k]);
            assert(!orig.take(k).contains(x@)) by {
                if orig.take(k).contains(x@) {
                    let t = choose|t: int| 0 <= t < orig.take(k).len() && orig.take(k)[t] == x@;
                    assert(orig[t] == orig[k]);
                }
            }
            if p < out.len() {
                assert(before.contains(before[p as int]));
                lemma_lex_total(before[p as int], x@);
            }
        }
        out.insert(p, x);
        proof {
            let now = views(out@);
            assert(now =~= before.take(p as int).push(x@) + before.skip(p as int));
            assert forall|i: int, j: int| 0 <= i < j < now.len() implies lex_lt(now[i], now[j]) by {
                if j < p {
                    assert(now[i] == before[i] && now[j] == before[j]);
                } else if j == p {
                    assert(now[i] == before[i]);
                } else if i == p {
                    assert(now[j] == before[j - 1]);
                    if j - 1 > p {
                        lemma_lex_transitive(x@, before[p as int], before[j - 1]);
                    }
                } else if i < p {
                    assert(now[i] == before[i] && now[j] == before[j - 1]);
                } else {
                    assert(now[i] == before[i - 1] && now[j] == before[j - 1]);
                }
            }
            assert(orig.take(k + 1) =~= orig.take(k).push(x@));
            assert forall|y: Seq<char>| now.contains(y) <==> orig.take(k + 1).contains(y) by {
                if now.contains(y) {
                    let i = choose|i: int| 0 <= i < now.len() && now[i] == y;
                    if i != p {
                        let bi = if i < p { i } else { i - 1 };
                        assert(before[bi] == y);
                        assert(before.contains(y));
                        let t = choose|t: int| 0 <= t < orig.take(k).len() && orig.take(k)[t] == y;
                        assert(orig.take(k + 1)[t] == y);
                    } else {
                        assert(orig.take(k + 1)[k] == y);
                    }
                }
                if orig.take(k + 1).contains(y) {
                    let tk = orig.take(k + 1);
                    let t = choose|t: int| 0 <= t < tk.len() && tk[t] == y;
                    if t == k {
                        assert(now[p as int] == y);
                    } else {
                        assert(orig.take(k)[t] == y);
                        assert(before.contains(y));
                        let i = choose|i: int| 0 <= i < before.len() && before[i] == y;
                        if i < p {
                            assert(now[i] == y);
                        } else {
                            assert(now[i + 1] == y);
                        }
                    }
                }
            }
            k = k + 1;
        }
    }
    assert(orig.take(k) =~= orig);
    out
}

} // verus!

verus! {

/// Whether an arrival belongs to the slot `date` / `shift` / `dock`.
pub open spec fn in_slot(date: Seq<char>, shift: Seq<char>, dock: Seq<char>) -> spec_fn(
    TrailerEntry,
) -> bool {
    |e: TrailerEntry| entry_date(e) == date && entry_shift(e) == shift && entry_dock(e) == dock
}

/// Whether an arrival's sort time is `t`.
pub open spec fn at_time(t: i64) -> spec_fn(TrailerEntry) -> bool {
    |e: TrailerEntry| entry_time(e) == t
}

/// Arrivals in nondecreasing sort time.
pub open spec fn time_sorted(s: Seq<TrailerEntry>) -> bool {
    forall|i: int, j: int| 0 <= i < j < s.len() ==> entry_time(s[i]) <= entry_time(s[j])
}

/// `r` is `s` sorted by time, arrivals with equal times keeping their order.
pub open spec fn stable_time_sort_of(r: Seq<TrailerEntry>, s: Seq<TrailerEntry>) -> bool {
    time_sorted(r) && forall|t: i64| #[trigger] r.filter(at_time(t)) == s.filter(at_time(t))
}

proof fn lemma_filter_single(x: TrailerEntry, pred: spec_fn(TrailerEntry) -> bool)
    ensures
        seq![x].filter(pred) == (if pred(x) { seq![x] } else { Seq::<TrailerEntry>::empty() }),
{
    let e = Seq::<TrailerEntry>::empty();
    e.lemma_filter_len(pred);
    e.lemma_filter_push(x, pred);
    assert(e.push(x) =~= seq![x]);
    assert(e.filter(pred) =~= e);
}

proof fn lemma_insert_keeps_classes(out: Seq<TrailerEntry>, p: int, x: TrailerEntry, t: i64)
    requires
        0 <= p <= out.len(),
        forall|j: int| 0 <= j < p ==> entry_time(#[trigger] out[j]) <= entry_time(x),
        forall|j: int| p <= j < out.len() ==> entry_time(#[trigger] out[j]) > entry_time(x),
    ensures
        out.insert(p, x).filter(at_time(t)) == (if entry_time(x) == t {
            out.filter(at_time(t)).push(x)
        } else {
            out.filter(at_time(t))
        }),
{
    let pred = at_time(t);
    let a = out.take(p);
    let b = out.skip(p);
    assert(out.insert(p, x) =~= a + seq![x] + b);
    assert(out =~= a + b);
    Seq::filter_distributes_over_add(a + seq![x], b, pred);
    Seq::filter_distributes_over_add(a, seq![x], pred);
    Seq::filter_distributes_over_add(a, b, pred);
    lemma_filter_single(x, pred);
    if entry_time(x) == t {
        assert(b.all(|y: TrailerEntry| !pred(y))) by {
            assert forall|i: int| 0 <= i < b.len() implies !pred(b[i]) by {
                assert(b[i] == out[p + i]);
            }
        }
        b.lemma_all_neg_filter_empty(pred);
        assert(b.filter(pred) =~= Seq::<TrailerEntry>::empty());
        assert(a.filter(pred) + seq![x] =~= a.filter(pred).push(x));
    } else {
        assert(a.filter(pred) + Seq::<TrailerEntry>::empty() =~= a.filter(pred));
    }
}

/// The arrivals of one slot, sorted by time; arrivals with equal times keep
/// their order.
fn slot_trailers(
    entries: &Vec<TrailerEntry>,
    keys: &Vec<EntryKeys>,
    date: &str,
    shift: &str,
    dock: &str,
) -> (r: Vec<TrailerEntry>)
    requires
        keys_agree(keys@, entries@),
    ensures
        stable_time_sort_of(r@, entries@.filter(in_slot(date@, shift@, dock@))),
{
    let ghost pred = in_slot(date@, shift@, dock@);
    let mut out: Vec<TrailerEntry> = Vec::new();
    let mut times: Vec<i64> = Vec::new();
    let mut i: usize = 0;
    proof {
        let e0 = entries@.take(0);
        e0.lemma_filter_len(pred);
        assert forall|t: i64| #[trigger] out@.filter(at_time(t)) == e0.filter(pred).filter(
            at_time(t),
        ) by {
            out@.lemma_filter_len(at_time(t));
            e0.filter(pred).lemma_filter_len(at_time(t));
            assert(out@.filter(at_time(t)) =~= e0.filter(pred).filter(at_time(t)));
        }
    }
    while i < keys.len()
        invariant
            keys_agree(keys@, entries@),
            pred == in_slot(date@, shift@, dock@),
            i <= keys.len(),
            out.len() == times.len(),
            forall|j: int| 0 <= j < times.len() ==> times@[j] == entry_time(#[trigger] out@[j]),
            stable_time_sort_of(out@, entries@.take(i as int).filter(pred)),
        decreases keys.len() - i,
    {
        let k = &keys[i];
        let ghost e = entries@[i as int];
        proof {
            assert(keys_ok(keys@[i as int], e));
            assert(entries@.take(i + 1) =~= entries@.take(i as int).push(e));
            entries@.take(i as int).lemma_filter_push(e, pred);
        }
        if str_eq(k.date.as_str(), date) && str_eq(k.shift.as_str(), shift) && str_eq(
            k.dock.as_str(),
            dock,
        ) {
            let x = copy_entry(&entries[i]);
            let tx = k.time;
            let mut p: usize = 0;
            while p < times.len() && times[p] <= tx
                invariant
                    p <= times.len(),
                    forall|j: int| 0 <= j < p ==> #[trigger] times@[j] <= tx,
                decreases times.len() - p,
            {
                p += 1;
            }
            let ghost before = out@;
            proof {
                assert forall|j: int| p <= j < before.len() implies entry_time(
                    #[trigger] before[j],
                ) > entry_time(x) by {
                    assert(times@[p as int] > tx);
                    assert(entry_time(before[p as int]) <= entry_time(before[j]));
                }
                assert forall|j: int| 0 <= j < p implies entry_time(#[trigger] before[j])
                    <= entry_time(x) by {
                    assert(times@[j] <= tx);
                }
                assert forall|t: i64| #[trigger] before.insert(p as int, x).filter(at_time(t))
                    == entries@.take(i + 1).filter(pred).filter(at_time(t)) by {
                    lemma_insert_keeps_classes(before, p as int, x, t);
                    entries@.take(i as int).filter(pred).lemma_filter_push(x, at_time(t));
                }
            }
            out.insert(p, x);
            times.insert(p, tx);
            proof {
                assert(out@ == before.insert(p as int, x));
                assert forall|a: int, b: int| 0 <= a < b < out@.len() implies entry_time(out@[a])
                    <= entry_time(out@[b]) by {
                    if b < p {
                        assert(out@[a] == before[a] && out@[b] == before[b]);
                    } else if b == p {
                        assert(out@[a] == before[a]);
                    } else if a == p {
                        assert(out@[b] == before[b - 1]);
                    } else if a < p {
                        assert(out@[a] == before[a] && out@[b] == before[b - 1]);
                    } else {
                        assert(out@[a] == before[a - 1] && out@[b] == before[b - 1]);
                    }
                }
                assert forall|j: int| 0 <= j < times.len() implies times@[j] == entry_time(
                    #[trigger] out@[j],
                ) by {
                    if j < p {
                        assert(out@[j] == before[j]);
                    } else if j > p {
                        assert(out@[j] == before[j - 1]);
                    }
                }
            }
        }
        i += 1;
    }
    assert(entries@.take(i as int) =~= entries@);
    out
}

} // verus!

verus! {

/// Sort key of a date (level 0) or shift (level 1) on the board.
pub open spec fn name_key(s: Seq<char>, level: u8) -> (int, int) {
    if level == 0 {
        date_key(s)
    } else {
        (shift_rank(s), 0)
    }
}

/// Order of sort keys: by the first part ascending, then the second descending.
pub open spec fn key_order(a: (int, int), b: (int, int)) -> bool {
    a.0 < b.0 || (a.0 == b.0 && a.1 >= b.1)
}

fn board_key(s: &String, level: u8) -> (k: (u8, i64))
    ensures
        (k.0 as int, k.1 as int) == name_key(s@, level),
{
    if level == 0 {
        date_sort_key(s)
    } else {
        shift_sort_key(s)
    }
}

/// Sorts distinct dates (level 0) or shifts (level 1) into board order.
fn sort_names(v: Vec<String>, level: u8) -> (r: Vec<String>)
    requires
        views(v@).no_duplicates(),
    ensures
        views(r@).no_duplicates(),
        forall|x: Seq<char>| views(r@).contains(x) <==> views(v@).contains(x),
        forall|i: int, j: int|
            0 <= i < j < r@.len() ==> key_order(
                name_key(#[trigger] r@[i]@, level),
                name_key(#[trigger] r@[j]@, level),
            ),
{
    let mut keyed: Vec<(String, u8, i64)> = Vec::new();
    let mut i: usize = 0;
    while i < v.len()
        invariant
            i <= v.len(),
            keyed@.len() == i,
            forall|j: int|
                0 <= j < i ==> (#[trigger] keyed@[j]).0@ == v@[j]@ && (keyed@[j].1 as int, keyed@[j].2 as int)
                    == name_key(keyed@[j].0@, level),
        decreases v.len() - i,
    {
        let k = board_key(&v[i], level);
        keyed.push((v[i].clone(), k.0, k.1));
        i += 1;
    }
    assert(keyed_names(keyed@) =~= views(v@));
    let sorted = sort_keyed(keyed);
    let mut r: Vec<String> = Vec::new();
    let mut j: usize = 0;
    while j < sorted.len()
        invariant
            j <= sorted.len(),
            r@.len() == j,
            forall|q: int| 0 <= q < j ==> (#[trigger] r@[q])@ == sorted@[q].0@,
        decreases sorted.len() - j,
    {
        r.push(sorted[j].0.clone());
        j += 1;
    }
    assert(views(r@) =~= keyed_names(sorted@));
    proof {
        assert forall|a: int, b: int| 0 <= a < b < r@.len() implies key_order(
            name_key(#[trigger] r@[a]@, level),
            name_key(#[trigger] r@[b]@, level),
        ) by {
            assert(sorted@.contains(sorted@[a]) && sorted@.contains(sorted@[b]));
            let ia = choose|q: int| 0 <= q < keyed@.len() && keyed@[q] == sorted@[a];
            let ib = choose|q: int| 0 <= q < keyed@.len() && keyed@[q] == sorted@[b];
            assert(kle(key_of(sorted@[a]), key_of(sorted@[b])));
        }
    }
    r
}

} // verus!

verus! {

/// The arrivals of one dock, in time order.
pub struct DockGroup {
    pub dock: String,
    pub trailers: Vec<TrailerEntry>,
}

/// The docks of one shift, in name order.
pub struct ShiftGroup {
    pub shift: String,
    pub docks: Vec<DockGroup>,
}

/// The shifts of one operational date, in board order.
pub struct DateGroup {
    pub date: String,
    pub shifts: Vec<ShiftGroup>,
}

pub open spec fn dock_names(v: Seq<DockGroup>) -> Seq<Seq<char>> {
    v.map_values(|g: DockGroup| g.dock@)
}

pub open spec fn shift_names(v: Seq<ShiftGroup>) -> Seq<Seq<char>> {
    v.map_values(|g: ShiftGroup| g.shift@)
}

pub open spec fn date_names(v: Seq<DateGroup>) -> Seq<Seq<char>> {
    v.map_values(|g: DateGroup| g.date@)
}

/// A dock group holds that slot's arrivals, stably sorted by time.
pub open spec fn dock_group_ok(g: DockGroup, es: Seq<TrailerEntry>, date: Seq<char>, shift: Seq<char>) -> bool {
    stable_time_sort_of(g.trailers@, es.filter(in_slot(date, shift, g.dock@)))
}

/// A shift group holds exactly the docks seen under its date and shift, in
/// strictly increasing name order, each with its arrivals.
pub open spec fn shift_group_ok(g: ShiftGroup, es: Seq<TrailerEntry>, date: Seq<char>) -> bool {
    &&& lex_sorted(dock_names(g.docks@))
    &&& forall|k: Seq<char>|
        dock_names(g.docks@).contains(k) <==> has_value(es, 2, date, g.shift@, k)
    &&& forall|i: int|
        0 <= i < g.docks@.len() ==> dock_group_ok(#[trigger] g.docks@[i], es, date, g.shift@)
}

/// A date group holds exactly the shifts seen under its date, each once, in
/// board order (third, first, second, then the rest).
pub open spec fn date_group_ok(g: DateGroup, es: Seq<TrailerEntry>) -> bool {
    &&& shift_names(g.shifts@).no_duplicates()
    &&& forall|i: int, j: int|
        0 <= i < j < g.shifts@.len() ==> shift_rank(#[trigger] g.shifts@[i].shift@) <= shift_rank(
            #[trigger] g.shifts@[j].shift@,
        )
    &&& forall|s: Seq<char>|
        shift_names(g.shifts@).contains(s) <==> has_value(es, 1, g.date@, Seq::empty(), s)
    &&& forall|i: int|
        0 <= i < g.shifts@.len() ==> shift_group_ok(#[trigger] g.shifts@[i], es, g.date@)
}

/// The board: exactly the operational dates seen, each once, readable dates
/// newest first and unreadable ones last, each with its shifts.
pub open spec fn grouped_ok(r: Seq<DateGroup>, es: Seq<TrailerEntry>) -> bool {
    &&& date_names(r).no_duplicates()
    &&& forall|i: int, j: int|
        0 <= i < j < r.len() ==> date_le(#[trigger] r[i].date@, #[trigger] r[j].date@)
    &&& forall|d: Seq<char>|
        date_names(r).contains(d) <==> has_value(es, 0, Seq::empty(), Seq::empty(), d)
    &&& forall|i: int| 0 <= i < r.len() ==> date_group_ok(#[trigger] r[i], es)
}

fn build_shift_group(
    entries: &Vec<TrailerEntry>,
    keys: &Vec<EntryKeys>,
    date: &str,
    shift: String,
) -> (g: ShiftGroup)
    requires
        keys_agree(keys@, entries@),
    ensures
        g.shift@ == shift@,
        shift_group_ok(g, entries@, date@),
{
    let docks = sort_lex(distinct_values(entries, keys, 2, date, shift.as_str()));
    let mut groups: Vec<DockGroup> = Vec::new();
    let mut j: usize = 0;
    while j < docks.len()
        invariant
            keys_agree(keys@, entries@),
            j <= docks.len(),
            groups@.len() == j,
            forall|q: int|
                0 <= q < j ==> (#[trigger] groups@[q]).dock@ == docks@[q]@ && dock_group_ok(
                    groups@[q],
                    entries@,
                    date@,
                    shift@,
                ),
        decreases docks.len() - j,
    {
        let trailers = slot_trailers(entries, keys, date, shift.as_str(), docks[j].as_str());
        groups.push(DockGroup { dock: docks[j].clone(), trailers });
        j += 1;
    }
    assert(dock_names(groups@) =~= views(docks@));
    ShiftGroup { shift, docks: groups }
}

fn build_date_group(entries: &Vec<TrailerEntry>, keys: &Vec<EntryKeys>, date: String) -> (g: DateGroup)
    requires
        keys_agree(keys@, entries@),
    ensures
        g.date@ == date@,
        date_group_ok(g, entries@),
{
    let shifts = sort_names(distinct_values(entries, keys, 1, date.as_str(), ""), 1);
    let mut groups: Vec<ShiftGroup> = Vec::new();
    let mut j: usize = 0;
    while j < shifts.len()
        invariant
            keys_agree(keys@, entries@),
            j <= shifts.len(),
            groups@.len() == j,
            forall|q: int|
                0 <= q < j ==> (#[trigger] groups@[q]).shift@ == shifts@[q]@ && shift_group_ok(
                    groups@[q],
                    entries@,
                    date@,
                ),
        decreases shifts.len() - j,
    {
        let g = build_shift_group(entries, keys, date.as_str(), shifts[j].clone());
        groups.push(g);
        j += 1;
    }
    assert(shift_names(groups@) =~= views(shifts@));
    proof {
        assert forall|s: Seq<char>|
            shift_names(groups@).contains(s) <==> has_value(entries@, 1, date@, Seq::empty(), s) by {
            assert(forall|v: Seq<char>| has_value(entries@, 1, date@, Seq::empty(), v) == has_value(entries@, 1, date@, ""@, v));
        }
        assert forall|a: int, b: int| 0 <= a < b < groups@.len() implies shift_rank(
            #[trigger] groups@[a].shift@,
        ) <= shift_rank(#[trigger] groups@[b].shift@) by {
            assert(key_order(name_key(shifts@[a]@, 1), name_key(shifts@[b]@, 1)));
        }
    }
    DateGroup { date, shifts: groups }
}

/// The arrivals board: arrivals grouped by operational date, shift and dock.
/// Dates run newest first with `"Unknown"` and `"Invalid Date"` last,
/// shifts run third, first, second, docks run in name order, and the arrivals
/// of a dock run by scheduled time, equal times in their original order.
pub fn group_trailers(entries: &Vec<TrailerEntry>) -> (r: Vec<DateGroup>)
    ensures
        grouped_ok(r@, entries@),
{
    let mut keys: Vec<EntryKeys> = Vec::new();
    let mut i: usize = 0;
    while i < entries.len()
        invariant
            i <= entries.len(),
            keys@.len() == i,
            forall|j: int| 0 <= j < i ==> keys_ok(#[trigger] keys@[j], entries@[j]),
        decreases entries.len() - i,
    {
        keys.push(entry_keys(&entries[i]));
        i += 1;
    }
    let dates = sort_names(distinct_values(entries, &keys, 0, "", ""), 0);
    let mut groups: Vec<DateGroup> = Vec::new();
    let mut j: usize = 0;
    while j < dates.len()
        invariant
            keys_agree(keys@, entries@),
            j <= dates.len(),
            groups@.len() == j,
            forall|q: int|
                0 <= q < j ==> (#[trigger] groups@[q]).date@ == dates@[q]@ && date_group_ok(
                    groups@[q],
                    entries@,
                ),
        decreases dates.len() - j,
    {
        let g = build_date_group(entries, &keys, dates[j].clone());
        groups.push(g);
        j += 1;
    }
    assert(date_names(groups@) =~= views(dates@));
    proof {
        assert forall|d: Seq<char>|
            date_names(groups@).contains(d) <==> has_value(entries@, 0, Seq::empty(), Seq::empty(), d) by {
            assert(forall|v: Seq<char>| has_value(entries@, 0, Seq::empty(), Seq::empty(), v) == has_value(entries@, 0, ""@, ""@, v));
        }
        assert forall|a: int, b: int| 0 <= a < b < groups@.len() implies date_le(
            #[trigger] groups@[a].date@,
            #[trigger] groups@[b].date@,
        ) by {
            assert(key_order(name_key(dates@[a]@, 0), name_key(dates@[b]@, 0)));
        }
    }
    groups
}

} // verus!

verus! {

/// Every arrival is on the board: under its operational date, its shift and
/// its dock, in that dock's list.
pub proof fn lemma_every_arrival_on_board(r: Seq<DateGroup>, es: Seq<TrailerEntry>, i: int)
    requires
        grouped_ok(r, es),
        0 <= i < es.len(),
    ensures
        exists|a: int, b: int, c: int|
            0 <= a < r.len() && 0 <= b < r[a].shifts@.len() && 0 <= c
                < r[a].shifts@[b].docks@.len() && r[a].date@ == entry_date(es[i])
                && r[a].shifts@[b].shift@ == entry_shift(es[i])
                && r[a].shifts@[b].docks@[c].dock@ == entry_dock(es[i])
                && (#[trigger] r[a].shifts@[b].docks@[c]).trailers@.contains(es[i]),
{
    let e = es[i];
    assert(level_selected(es[i], 0, Seq::empty(), Seq::empty()));
    assert(has_value(es, 0, Seq::empty(), Seq::empty(), entry_date(e)));
    assert(date_names(r).contains(entry_date(e)));
    let a = choose|a: int| 0 <= a < date_names(r).len() && date_names(r)[a] == entry_date(e);
    let g = r[a];
    assert(date_group_ok(g, es));
    assert(level_selected(es[i], 1, g.date@, Seq::empty()));
    assert(has_value(es, 1, g.date@, Seq::empty(), entry_shift(e)));
    assert(shift_names(g.shifts@).contains(entry_shift(e)));
    let b = choose|b: int| 0 <= b < shift_names(g.shifts@).len() && shift_names(g.shifts@)[b] == entry_shift(e);
    let sg = g.shifts@[b];
    assert(shift_group_ok(sg, es, g.date@));
    assert(level_selected(es[i], 2, g.date@, sg.shift@));
    assert(has_value(es, 2, g.date@, sg.shift@, entry_dock(e)));
    assert(dock_names(sg.docks@).contains(entry_dock(e)));
    let c = choose|c: int| 0 <= c < dock_names(sg.docks@).len() && dock_names(sg.docks@)[c] == entry_dock(e);
    let dg = sg.docks@[c];
    assert(dock_group_ok(dg, es, g.date@, sg.shift@));
    let slot = es.filter(in_slot(g.date@, sg.shift@, dg.dock@));
    es.lemma_filter_contains(in_slot(g.date@, sg.shift@, dg.dock@), i);
    assert(slot.contains(e));
    let j = choose|j: int| 0 <= j < slot.len() && slot[j] == e;
    slot.lemma_filter_contains(at_time(entry_time(e)), j);
    assert(dg.trailers@.filter(at_time(entry_time(e))) == slot.filter(at_time(entry_time(e))));
    dg.trailers@.lemma_filter_contains_rev(at_time(entry_time(e)), e);
    assert(r[a].shifts@[b].docks@[c].trailers@.contains(es[i]));
}

} // verus!

verus! {

/// The board holds nothing else: each arrival listed under a date, shift
/// and dock is one of the arrivals given, with that date, shift and dock.
pub proof fn lemma_board_lists_only_arrivals(r: Seq<DateGroup>, es: Seq<TrailerEntry>, a: int, b: int, c: int, k: int)
    requires
        grouped_ok(r, es),
        0 <= a < r.len(),
        0 <= b < r[a].shifts@.len(),
        0 <= c < r[a].shifts@[b].docks@.len(),
        0 <= k < r[a].shifts@[b].docks@[c].trailers@.len(),
    ensures
        ({
            let x = r[a].shifts@[b].docks@[c].trailers@[k];
            &&& es.contains(x)
            &&& entry_date(x) == r[a].date@
            &&& entry_shift(x) == r[a].shifts@[b].shift@
            &&& entry_dock(x) == r[a].shifts@[b].docks@[c].dock@
        }),
{
    let g = r[a];
    assert(date_group_ok(g, es));
    let sg = g.shifts@[b];
    assert(shift_group_ok(sg, es, g.date@));
    let dg = sg.docks@[c];
    assert(dock_group_ok(dg, es, g.date@, sg.shift@));
    let x = dg.trailers@[k];
    let t = at_time(entry_time(x));
    let p = in_slot(g.date@, sg.shift@, dg.dock@);
    dg.trailers@.lemma_filter_contains(t, k);
    assert(dg.trailers@.filter(t) == es.filter(p).filter(t));
    es.filter(p).lemma_filter_contains_rev(t, x);
    es.lemma_filter_contains_rev(p, x);
    let j = choose|j: int| 0 <= j < es.filter(p).len() && es.filter(p)[j] == x;
    es.lemma_filter_pred(p, j);
}

} // verus!

verus! {

/// Within a dock, arrivals run by their full scheduled instant: an arrival
/// listed before another never has a later RFC 3339 Unix time (an unreadable
/// time counting as 0).
pub proof fn lemma_dock_runs_by_instant(
    r: Seq<DateGroup>,
    es: Seq<TrailerEntry>,
    a: int,
    b: int,
    c: int,
    i: int,
    j: int,
)
    requires
        grouped_ok(r, es),
        0 <= a < r.len(),
        0 <= b < r[a].shifts@.len(),
        0 <= c < r[a].shifts@[b].docks@.len(),
        0 <= i < j < r[a].shifts@[b].docks@[c].trailers@.len(),
    ensures
        ({
            let ts = r[a].shifts@[b].docks@[c].trailers@;
            (match rfc3339_utc(ts[i].schedArrival@) {
                Some(t) => t.2,
                None => 0i64,
            }) <= (match rfc3339_utc(ts[j].schedArrival@) {
                Some(t) => t.2,
                None => 0i64,
            })
        }),
{
    let g = r[a];
    assert(date_group_ok(g, es));
    let sg = g.shifts@[b];
    assert(shift_group_ok(sg, es, g.date@));
    let dg = sg.docks@[c];
    assert(dock_group_ok(dg, es, g.date@, sg.shift@));
    assert(time_sorted(dg.trailers@));
    assert(entry_time(dg.trailers@[i]) <= entry_time(dg.trailers@[j]));
}

} // verus!

verus! {

/// Midnight UTC of a date text, read as RFC 3339.
pub open spec fn midnight_of(d: Seq<char>) -> Option<(i32, u32, i64)> {
    rfc3339_utc(d + "T00:00:00Z"@)
}

/// Board order across levels: a date listed before another is no older
/// (by its UTC midnight) unless the later one is `"Unknown"` or
/// `"Invalid Date"`, and such a date is never listed before a readable one;
/// within a date the third shift comes before the first and the first before
/// the second.
pub proof fn lemma_board_order(r: Seq<DateGroup>, es: Seq<TrailerEntry>)
    requires
        grouped_ok(r, es),
    ensures
        forall|i: int, j: int|
            0 <= i < j < r.len() && r[j].date@ != "Unknown"@ && r[j].date@ != "Invalid Date"@ ==> {
                &&& r[i].date@ != "Unknown"@
                &&& r[i].date@ != "Invalid Date"@
                &&& (match (midnight_of(#[trigger] r[i].date@), midnight_of(#[trigger] r[j].date@)) {
                    (Some(x), Some(y)) => x.2 >= y.2,
                    (Some(x), None) => x.2 >= 0,
                    (None, Some(y)) => 0 >= y.2,
                    (None, None) => true,
                })
            },
        forall|a: int, i: int, j: int|
            0 <= a < r.len() && 0 <= i < j < r[a].shifts@.len() ==> {
                let si = #[trigger] r[a].shifts@[i].shift@;
                let sj = #[trigger] r[a].shifts@[j].shift@;
                &&& sj == "3rd"@ ==> si == "3rd"@
                &&& sj == "1st"@ ==> si == "3rd"@ || si == "1st"@
            },
{
    reveal_strlit("3rd");
    reveal_strlit("1st");
    reveal_strlit("2nd");
    assert forall|i: int, j: int|
        0 <= i < j < r.len() && r[j].date@ != "Unknown"@ && r[j].date@ != "Invalid Date"@ implies {
            &&& r[i].date@ != "Unknown"@
            &&& r[i].date@ != "Invalid Date"@
            &&& (match (midnight_of(#[trigger] r[i].date@), midnight_of(#[trigger] r[j].date@)) {
                (Some(x), Some(y)) => x.2 >= y.2,
                (Some(x), None) => x.2 >= 0,
                (None, Some(y)) => 0 >= y.2,
                (None, None) => true,
            })
        } by {
        assert(date_le(r[i].date@, r[j].date@));
    }
    assert forall|a: int, i: int, j: int| 0 <= a < r.len() && 0 <= i < j < r[a].shifts@.len() implies {
        let si = #[trigger] r[a].shifts@[i].shift@;
        let sj = #[trigger] r[a].shifts@[j].shift@;
        &&& sj == "3rd"@ ==> si == "3rd"@
        &&& sj == "1st"@ ==> si == "3rd"@ || si == "1st"@
    } by {
        assert(date_group_ok(r[a], es));
        assert(shift_rank(r[a].shifts@[i].shift@) <= shift_rank(r[a].shifts@[j].shift@));
    }
}

} // verus!

verus! {

/// Where an arrival on the board is listed, in terms of its own fields: its
/// dock label is `acctorId-location`; its shift is the first for UTC hours
/// 6 to 13, the second for 14 to 21 and the third otherwise; its operational
/// date is its UTC date, the next day from 22:00 UTC on; an unreadable
/// arrival time is listed under `"Invalid Date"` and shift `"Unknown"`.
pub proof fn lemma_board_slot_of_arrival(
    r: Seq<DateGroup>,
    es: Seq<TrailerEntry>,
    a: int,
    b: int,
    c: int,
    k: int,
)
    requires
        grouped_ok(r, es),
        0 <= a < r.len(),
        0 <= b < r[a].shifts@.len(),
        0 <= c < r[a].shifts@[b].docks@.len(),
        0 <= k < r[a].shifts@[b].docks@[c].trailers@.len(),
    ensures
        ({
            let x = r[a].shifts@[b].docks@[c].trailers@[k];
            let date = r[a].date@;
            let shift = r[a].shifts@[b].shift@;
            &&& r[a].shifts@[b].docks@[c].dock@ == x.acctorId@ + "-"@ + x.location@
            &&& match rfc3339_utc(x.schedArrival@) {
                None => shift == "Unknown"@ && date == "Invalid Date"@,
                Some(t) => {
                    &&& 6 <= t.1 <= 13 ==> shift == "1st"@
                    &&& 14 <= t.1 <= 21 ==> shift == "2nd"@
                    &&& (t.1 < 6 || t.1 > 21) ==> shift == "3rd"@
                    &&& t.1 < 22 ==> date == (match formatted_date(t.0, "%Y-%m-%d"@) {
                        Some(s) => s,
                        None => "Invalid Date"@,
                    })
                    &&& t.1 >= 22 && t.0 < i32::MAX && formatted_date(
                        (t.0 + 1) as i32,
                        "%Y-%m-%d"@,
                    ) is Some ==> Some(date) == formatted_date((t.0 + 1) as i32, "%Y-%m-%d"@)
                },
            }
        }),
{
    lemma_board_lists_only_arrivals(r, es, a, b, c, k);
}

} // verus!
