//! Rules of the trailer uploads and lists: which staged rows archive a
//! source entry, one schedule per in-transit trailer, per-user edit
//! references, and the dock counts of a shift.
use vstd::prelude::*;
use crate::structs::{DockCountResponse, HourCount, InTransit, TrailerRecord};
use crate::text::str_eq;

verus! {

/// Where a staged row came from, when that entry is archived on staging.
#[derive(PartialEq, Eq, Structural, Debug, Clone, Copy)]
pub enum ArchiveSource {
    DropYard,
    Exception,
}

/// An entry to archive: from `source`, keyed by load, dock and trailer.
pub struct ArchiveStep {
    pub source: ArchiveSource,
    pub load_num: String,
    pub dock: String,
    pub trailer: String,
}

/// The archive step a staged row calls for, if any: drop-yard and
/// exception rows archive their source entry, keyed by the row's load,
/// dock and first trailer.
pub open spec fn archive_source(t: TrailerRecord) -> Option<ArchiveSource> {
    if t.origin@ == "DropYard"@ {
        Some(ArchiveSource::DropYard)
    } else if t.origin@ == "Exception"@ {
        Some(ArchiveSource::Exception)
    } else {
        None
    }
}

/// Whether a staged row calls for an archive step.
pub open spec fn archives(t: TrailerRecord) -> bool {
    archive_source(t) is Some
}

/// The archive step of a row that calls for one.
pub open spec fn step_of(s: ArchiveStep, t: TrailerRecord) -> bool {
    archive_source(t) == Some(s.source) && s.load_num@ == t.lmsAccent@ && s.dock@ == t.dockCode@
        && s.trailer@ == t.trailer1@
}

/// The archive steps of staging `lines`: one per drop-yard or exception
/// row, in row order.
pub fn archive_plan(lines: &Vec<TrailerRecord>) -> (r: Vec<ArchiveStep>)
    ensures
        r@.len() == lines@.filter(|t: TrailerRecord| archives(t)).len(),
        forall|i: int|
            0 <= i < r@.len() ==> step_of(
                #[trigger] r@[i],
                lines@.filter(|t: TrailerRecord| archives(t))[i],
            ),
{
    let ghost p = |t: TrailerRecord| archives(t);
    let mut r: Vec<ArchiveStep> = Vec::new();
    let mut i: usize = 0;
    proof {
        lines@.take(0).lemma_filter_len(p);
    }
    while i < lines.len()
        invariant
            i <= lines.len(),
            p == (|t: TrailerRecord| archives(t)),
            r@.len() == lines@.take(i as int).filter(p).len(),
            forall|j: int|
                0 <= j < r@.len() ==> step_of(#[trigger] r@[j], lines@.take(i as int).filter(p)[j]),
        decreases lines.len() - i,
    {
        let t = &lines[i];
        proof {
            assert(lines@.take(i + 1) =~= lines@.take(i as int).push(lines@[i as int]));
            lines@.take(i as int).lemma_filter_push(lines@[i as int], p);
        }
        let source = if str_eq(t.origin.as_str(), "DropYard") {
            Some(ArchiveSource::DropYard)
        } else if str_eq(t.origin.as_str(), "Exception") {
            Some(ArchiveSource::Exception)
        } else {
            None
        };
        match source {
            Some(s) => {
                r.push(
                    ArchiveStep {
                        source: s,
                        load_num: t.lmsAccent.clone(),
                        dock: t.dockCode.clone(),
                        trailer: t.trailer1.clone(),
                    },
                );
            },
            None => {},
        }
        i += 1;
    }
    assert(lines@.take(i as int) =~= lines@);
    r
}

/// The schedule an in-transit trailer gets: its destination, supplier and
/// location, taken from its first line.
pub struct TrailerDestination {
    pub trailer: String,
    pub destination: String,
    pub supplier: String,
    pub location: String,
}

/// Whether some of the first `n` lines are for `trailer`.
pub open spec fn seen_before(lines: Seq<InTransit>, n: int, trailer: Seq<char>) -> bool {
    exists|k: int| 0 <= k < n && (#[trigger] lines[k]).trailer@ == trailer
}

/// Whether line `k` is the first line of its trailer.
pub open spec fn is_first(lines: Seq<InTransit>, k: int) -> bool {
    !seen_before(lines, k, lines[k].trailer@)
}

/// Whether `d` carries the trailer, destination, supplier and location of
/// line `l`.
pub open spec fn from_line(d: TrailerDestination, l: InTransit) -> bool {
    d.trailer@ == l.trailer@ && d.destination@ == l.destination@ && d.supplier@ == l.supplier@
        && d.location@ == l.location@
}

/// Whether `d` comes from the first line of its trailer among the first `n`.
pub open spec fn from_first_line(lines: Seq<InTransit>, n: int, d: TrailerDestination) -> bool {
    exists|k: int| 0 <= k < n && is_first(lines, k) && #[trigger] from_line(d, lines[k])
}

/// Whether `r` lists trailer `t`.
pub open spec fn lists_trailer(r: Seq<TrailerDestination>, t: Seq<char>) -> bool {
    exists|j: int| 0 <= j < r.len() && (#[trigger] r[j]).trailer@ == t
}

/// The schedules of an in-transit upload: each trailer once, exactly the
/// trailers of the lines, each with the destination, supplier and location
/// of its first line.
pub open spec fn destinations_ok(r: Seq<TrailerDestination>, lines: Seq<InTransit>) -> bool {
    &&& forall|a: int, b: int| 0 <= a < b < r.len() ==> r[a].trailer@ != r[b].trailer@
    &&& forall|t: Seq<char>|
        #![trigger lists_trailer(r, t)]
        seen_before(lines, lines.len() as int, t) <==> lists_trailer(r, t)
    &&& forall|j: int| 0 <= j < r.len() ==> from_first_line(lines, lines.len() as int, #[trigger] r[j])
}

/// The schedules come in order of their trailers' first lines: a trailer
/// listed earlier has a line before the first line of any trailer listed
/// later.
pub open spec fn in_first_appearance_order(r: Seq<TrailerDestination>, lines: Seq<InTransit>) -> bool {
    forall|a: int, b: int, k: int|
        #![trigger r[a], r[b], lines[k]]
        0 <= a < b < r.len() && 0 <= k < lines.len() && is_first(lines, k) && lines[k].trailer@
            == r[b].trailer@ ==> seen_before(lines, k, r[a].trailer@)
}

/// One schedule per trailer of an in-transit upload, from its first line, in
/// order of first appearance.
pub fn trailer_destinations(lines: &Vec<InTransit>) -> (r: Vec<TrailerDestination>)
    ensures
        destinations_ok(r@, lines@),
        in_first_appearance_order(r@, lines@),
{
    let mut r: Vec<TrailerDestination> = Vec::new();
    let mut i: usize = 0;
    while i < lines.len()
        invariant
            i <= lines.len(),
            forall|a: int, b: int| 0 <= a < b < r@.len() ==> r@[a].trailer@ != r@[b].trailer@,
            forall|t: Seq<char>|
                #![trigger lists_trailer(r@, t)]
                seen_before(lines@, i as int, t) <==> lists_trailer(r@, t),
            forall|j: int| 0 <= j < r@.len() ==> from_first_line(lines@, i as int, #[trigger] r@[j]),
            in_first_appearance_order(r@, lines@),
        decreases lines.len() - i,
    {
        let line = &lines[i];
        let mut found = false;
        let mut j: usize = 0;
        while j < r.len()
            invariant
                j <= r.len(),
                found ==> lists_trailer(r@, line.trailer@),
                !found ==> forall|q: int| 0 <= q < j ==> (#[trigger] r@[q]).trailer@ != line.trailer@,
            decreases r.len() - j,
        {
            if !found && str_eq(r[j].trailer.as_str(), line.trailer.as_str()) {
                found = true;
            }
            j += 1;
        }
        let ghost before = r@;
        let ghost n = i as int;
        proof {
            assert(lines@[n] == *line);
            assert forall|t: Seq<char>| #[trigger] seen_before(lines@, n + 1, t) == (seen_before(lines@, n, t) || line.trailer@ == t) by {
                if seen_before(lines@, n + 1, t) {
                    let k = choose|k: int| 0 <= k < n + 1 && (#[trigger] lines@[k]).trailer@ == t;
                    if k < n {
                        assert(seen_before(lines@, n, t));
                    }
                }
                if seen_before(lines@, n, t) {
                    let k = choose|k: int| 0 <= k < n && (#[trigger] lines@[k]).trailer@ == t;
                    assert(seen_before(lines@, n + 1, t));
                }
                if line.trailer@ == t {
                    assert(lines@[n].trailer@ == t);
                    assert(seen_before(lines@, n + 1, t));
                }
            }
            assert forall|q: int| 0 <= q < before.len() implies from_first_line(lines@, n + 1, #[trigger] before[q]) by {
                assert(from_first_line(lines@, n, before[q]));
                let k = choose|k: int| 0 <= k < n && is_first(lines@, k) && #[trigger] from_line(before[q], lines@[k]);
                assert(from_line(before[q], lines@[k]));
            }
        }
        if !found {
            let d = TrailerDestination {
                trailer: line.trailer.clone(),
                destination: line.destination.clone(),
                supplier: line.supplier.clone(),
                location: line.location.clone(),
            };
            r.push(d);
            proof {
                assert(!lists_trailer(before, line.trailer@));
                assert(!seen_before(lines@, n, line.trailer@));
                assert(is_first(lines@, n));
                assert(from_line(d, lines@[n]));
                assert forall|q: int| 0 <= q < r@.len() implies from_first_line(lines@, n + 1, #[trigger] r@[q]) by {
                    if q < before.len() {
                        assert(r@[q] == before[q]);
                    } else {
                        assert(r@[q] == d);
                        assert(from_line(r@[q], lines@[n]));
                    }
                }
                assert forall|t: Seq<char>| #[trigger] lists_trailer(r@, t) == (lists_trailer(before, t) || line.trailer@ == t) by {
                    if lists_trailer(before, t) {
                        let j = choose|j: int| 0 <= j < before.len() && (#[trigger] before[j]).trailer@ == t;
                        assert(r@[j] == before[j]);
                    }
                    if line.trailer@ == t {
                        assert(r@[before.len() as int].trailer@ == t);
                    }
                    if lists_trailer(r@, t) {
                        let j = choose|j: int| 0 <= j < r@.len() && (#[trigger] r@[j]).trailer@ == t;
                        if j < before.len() {
                            assert(r@[j] == before[j]);
                        }
                    }
                }
                assert forall|a: int, b: int| 0 <= a < b < r@.len() implies r@[a].trailer@ != r@[b].trailer@ by {
                    assert(r@[a] == before[a]);
                    if b == before.len() {
                        if r@[a].trailer@ == line.trailer@ {
                            assert(lists_trailer(before, line.trailer@));
                        }
                    } else {
                        assert(r@[b] == before[b]);
                    }
                }
                assert forall|a: int, b: int, k: int|
                    #![trigger r@[a], r@[b], lines@[k]]
                    0 <= a < b < r@.len() && 0 <= k < lines@.len() && is_first(lines@, k)
                        && lines@[k].trailer@ == r@[b].trailer@ implies seen_before(
                        lines@,
                        k,
                        r@[a].trailer@,
                    ) by {
                    assert(r@[a] == before[a]);
                    if b == before.len() {
                        assert(r@[b] == d);
                        if k < n {
                            assert(seen_before(lines@, n, line.trailer@));
                        } else if k > n {
                            assert(lines@[n].trailer@ == lines@[k].trailer@);
                            assert(seen_before(lines@, k, lines@[k].trailer@));
                        }
                        assert(k == n);
                        assert(lists_trailer(before, before[a].trailer@));
                    } else {
                        assert(r@[b] == before[b]);
                        assert(before[a] == r@[a] && before[b] == r@[b]);
                    }
                }
            }
        }
        i += 1;
    }
    r
}

/// A lowercase hexadecimal digit.
pub open spec fn is_lower_hex(c: char) -> bool {
    ('0' <= c && c <= '9') || ('a' <= c && c <= 'f')
}

/// The hyphenated lowercase text of a random (version 4, RFC 9562 variant)
/// UUID: 36 characters, hyphens at 8, 13, 18 and 23, lowercase hexadecimal
/// digits elsewhere, the version digit `4` at 14 and a variant digit among
/// `8`, `9`, `a`, `b` at 19.
pub open spec fn is_v4_uuid_text(s: Seq<char>) -> bool {
    &&& s.len() == 36
    &&& forall|i: int|
        0 <= i < 36 ==> if i == 8 || i == 13 || i == 18 || i == 23 {
            #[trigger] s[i] == '-'
        } else {
            is_lower_hex(s[i])
        }
    &&& s[14] == '4'
    &&& (s[19] == '8' || s[19] == '9' || s[19] == 'a' || s[19] == 'b')
}

/// uuid: a fresh random id as its text (`Uuid::new_v4().to_string()`).
/// `new_v4` masks random bits so that the version is 4 and the variant is
/// RFC 9562's, and `to_string` writes the hyphenated lowercase form; which
/// id comes out is left open.
#[verifier::external_body]
fn new_edit_ref() -> (r: String)
    ensures
        is_v4_uuid_text(r@),
{
    uuid::Uuid::new_v4().to_string()
}

/// `b` is `a` with only its edit reference changed.
pub open spec fn same_but_edit_ref(a: TrailerRecord, b: TrailerRecord) -> bool {
    b == (TrailerRecord { editRef: b.editRef, ..a })
}

/// Gives each listed trailer a fresh edit reference for the requesting
/// user, and returns the pairs (reference, trailer id) the user's map is
/// rebuilt from: the `i`-th pair holds the `i`-th record's new reference and
/// its id; nothing else in a record changes.
pub fn issue_edit_refs(records: Vec<TrailerRecord>) -> (r: (Vec<TrailerRecord>, Vec<(String, String)>))
    ensures
        r.0@.len() == records@.len(),
        r.1@.len() == records@.len(),
        forall|i: int|
            0 <= i < records@.len() ==> same_but_edit_ref(records@[i], #[trigger] r.0@[i])
                && r.1@[i].0@ == r.0@[i].editRef@ && r.1@[i].1@ == records@[i].uuid@
                && is_v4_uuid_text(r.0@[i].editRef@),
{
    let ghost orig = records@;
    let mut rest = records;
    let mut out: Vec<TrailerRecord> = Vec::new();
    let mut refs: Vec<(String, String)> = Vec::new();
    let ghost mut k: int = 0;
    while rest.len() > 0
        invariant
            0 <= k <= orig.len(),
            rest@ == orig.skip(k),
            out@.len() == k,
            refs@.len() == k,
            forall|i: int|
                0 <= i < k ==> same_but_edit_ref(orig[i], #[trigger] out@[i]) && refs@[i].0@
                    == out@[i].editRef@ && refs@[i].1@ == orig[i].uuid@ && is_v4_uuid_text(out@[i].editRef@),
        decreases rest.len(),
    {
        let mut rec = rest.remove(0);
        proof {
            assert(rec == orig[k]);
            assert(rest@ =~= orig.skip(k + 1));
        }
        let e = new_edit_ref();
        refs.push((e.clone(), rec.uuid.clone()));
        rec.editRef = e;
        out.push(rec);
        proof {
            k = k + 1;
        }
    }
    (out, refs)
}

/// Decimal value of a string of digits.
pub open spec fn digits_value(d: Seq<char>) -> int
    decreases d.len(),
{
    if d.len() == 0 {
        0
    } else {
        digits_value(d.drop_last()) * 10 + (d.last() as int - '0' as int)
    }
}

pub open spec fn all_digits(d: Seq<char>) -> bool {
    forall|i: int| 0 <= i < d.len() ==> '0' <= #[trigger] d[i] && d[i] <= '9'
}

/// std `u32::from_str`: an optional `+`, then one or more decimal digits,
/// whose value must fit in 32 bits.
pub open spec fn parse_u32_spec(s: Seq<char>) -> Option<u32> {
    let d = unsigned_digits(s);
    if d.len() == 0 || !all_digits(d) || digits_value(d) > u32::MAX {
        None
    } else {
        Some(digits_value(d) as u32)
    }
}

proof fn lemma_digits_value_nonneg(d: Seq<char>)
    requires
        all_digits(d),
    ensures
        digits_value(d) >= 0,
    decreases d.len(),
{
    if d.len() > 0 {
        lemma_digits_value_nonneg(d.drop_last());
    }
}

proof fn lemma_digit_step(d: Seq<char>, j: int)
    requires
        0 <= j < d.len(),
        all_digits(d.take(j)),
        '0' <= d[j] <= '9',
    ensures
        all_digits(d.take(j + 1)),
        digits_value(d.take(j + 1)) == digits_value(d.take(j)) * 10 + (d[j] as int - '0' as int),
{
    assert(d.take(j + 1).drop_last() =~= d.take(j));
    assert(d.take(j + 1).last() == d[j]);
    assert forall|q: int| 0 <= q < d.take(j + 1).len() implies '0' <= #[trigger] d.take(j + 1)[q]
        && d.take(j + 1)[q] <= '9' by {
        if q < j {
            assert(d.take(j + 1)[q] == d.take(j)[q]);
        }
    }
}

/// The decimal digits of `s` after an optional leading `+`.
pub open spec fn unsigned_digits(s: Seq<char>) -> Seq<char> {
    if s.len() > 0 && s[0] == '+' {
        s.skip(1)
    } else {
        s
    }
}

/// Whether a search text is blank (empty once trimmed); a blank load number
/// finds nothing.
pub fn is_blank(s: &str) -> (r: bool)
    ensures
        r == (crate::text::trim_spec(s@).len() == 0),
{
    crate::text::trim(s).as_str().is_empty()
}

/// Reads a decimal `u32` as std's `u32::from_str` does.
pub fn parse_u32(s: &str) -> (r: Option<u32>)
    ensures
        r == parse_u32_spec(s@),
{
    let cs = crate::text::chars_of(s);
    let start: usize = if cs.len() > 0 && cs[0] == '+' { 1 } else { 0 };
    let mut ds: Vec<char> = Vec::new();
    let mut k: usize = start;
    while k < cs.len()
        invariant
            start <= k <= cs.len(),
            ds@ == cs@.subrange(start as int, k as int),
        decreases cs.len() - k,
    {
        ds.push(cs[k]);
        assert(ds@ =~= cs@.subrange(start as int, k + 1));
        k += 1;
    }
    assert(ds@ =~= unsigned_digits(s@));
    if ds.len() == 0 {
        return None;
    }
    let mut v: u64 = 0;
    let mut i: usize = 0;
    assert(ds@.take(0) =~= Seq::<char>::empty());
    while i < ds.len()
        invariant
            ds@ == unsigned_digits(s@),
            i <= ds.len(),
            all_digits(ds@.take(i as int)),
            v as int == digits_value(ds@.take(i as int)),
            v <= u32::MAX,
        decreases ds.len() - i,
    {
        let c = ds[i];
        if c < '0' || c > '9' {
            assert(!all_digits(ds@)) by {
                assert(!('0' <= ds@[i as int] && ds@[i as int] <= '9'));
            }
            return None;
        }
        proof {
            lemma_digit_step(ds@, i as int);
        }
        let digit = (c as u32 - '0' as u32) as u64;
        let nv = v * 10 + digit;
        if nv > 4294967295 {
            proof {
                if all_digits(ds@) {
                    assert(ds@ =~= ds@.take(i + 1) + ds@.skip(i + 1));
                    lemma_prefix_value_bound(ds@.take(i + 1), ds@.skip(i + 1));
                }
            }
            return None;
        }
        v = nv;
        i += 1;
    }
    assert(ds@.take(ds.len() as int) =~= ds@);
    Some(v as u32)
}

/// The hour asked for by the dock count: the text read as a `u32`, 0 when it
/// does not read as one.
pub fn parse_hour(s: &str) -> (r: u32)
    ensures
        r == match parse_u32_spec(s@) {
            Some(v) => v,
            None => 0u32,
        },
{
    match parse_u32(s) {
        Some(v) => v,
        None => 0,
    }
}

/// The SMTP port: the `SMTP_PORT` setting read as a `u16` (std
/// `u16::from_str`), 25 when it is absent or does not read as one.
pub fn smtp_port(setting: Option<&str>) -> (r: u16)
    ensures
        r == match setting {
            Some(s) => match parse_u32_spec(s@) {
                Some(v) => if v <= 65535 {
                    v as u16
                } else {
                    25u16
                },
                None => 25u16,
            },
            None => 25u16,
        },
{
    match setting {
        Some(s) => match parse_u32(s) {
            Some(v) => if v <= 65535 {
                v as u16
            } else {
                25
            },
            None => 25,
        },
        None => 25,
    }
}

proof fn lemma_prefix_value_bound(a: Seq<char>, b: Seq<char>)
    requires
        all_digits(a + b),
    ensures
        digits_value(a + b) >= digits_value(a),
    decreases b.len(),
{
    if b.len() > 0 {
        assert((a + b).drop_last() =~= a + b.drop_last());
        assert(all_digits(a + b.drop_last())) by {
            assert forall|i: int| 0 <= i < (a + b.drop_last()).len() implies '0' <= #[trigger] (a
                + b.drop_last())[i] && (a + b.drop_last())[i] <= '9' by {
                assert((a + b.drop_last())[i] == (a + b)[i]);
            }
        }
        lemma_prefix_value_bound(a, b.drop_last());
        lemma_digits_value_nonneg(a + b.drop_last());
        assert((a + b).last() == (a + b)[(a + b).len() - 1]);
    }
}

/// The low 32 bits of a count, as `i64 as u32` keeps them.
pub open spec fn low32(c: i64) -> int {
    (c as int) % 0x1_0000_0000
}

/// Sum of the low 32 bits of the counts that came back (a missing count is 0).
pub open spec fn count_sum(counts: Seq<Option<i64>>) -> int
    decreases counts.len(),
{
    if counts.len() == 0 {
        0
    } else {
        count_sum(counts.drop_last()) + match counts.last() {
            Some(c) => low32(c),
            None => 0,
        }
    }
}

proof fn lemma_count_sum_nonneg(counts: Seq<Option<i64>>)
    ensures
        count_sum(counts) >= 0,
    decreases counts.len(),
{
    if counts.len() > 0 {
        lemma_count_sum_nonneg(counts.drop_last());
    }
}

fn low_bits(c: i64) -> (r: u32)
    ensures
        r == low32(c),
{
    let m: i128 = (c as i128) % 4294967296;
    let n: i128 = if m < 0 { m + 4294967296 } else { m };
    assert(n == (c as int) % 4294967296);
    n as u32
}

/// Adds up the counts of one hour or of the whole shift, each taken as
/// `i64 as u32`; a count that did not come back adds nothing.
pub fn sum_counts(counts: &Vec<Option<i64>>) -> (r: u32)
    requires
        count_sum(counts@) <= u32::MAX,
    ensures
        r == count_sum(counts@),
{
    let mut total: u32 = 0;
    let mut i: usize = 0;
    while i < counts.len()
        invariant
            i <= counts.len(),
            count_sum(counts@) <= u32::MAX,
            total == count_sum(counts@.take(i as int)),
        decreases counts.len() - i,
    {
        proof {
            assert(counts@.take(i + 1).drop_last() =~= counts@.take(i as int));
            lemma_sum_prefix(counts@, i + 1);
        }
        match counts[i] {
            Some(c) => {
                total = total + low_bits(c);
            },
            None => {},
        }
        i += 1;
    }
    assert(counts@.take(i as int) =~= counts@);
    total
}

proof fn lemma_sum_prefix(counts: Seq<Option<i64>>, n: int)
    requires
        0 <= n <= counts.len(),
    ensures
        count_sum(counts.take(n)) <= count_sum(counts),
    decreases counts.len() - n,
{
    if n < counts.len() {
        lemma_sum_prefix(counts, n + 1);
        assert(counts.take(n + 1).drop_last() =~= counts.take(n));
        assert(counts.take(n + 1).last() == counts[n]);
    } else {
        assert(counts.take(n) =~= counts);
    }
}

/// The dock count of a shift: for each hour of the window, its label and
/// the sum of its counts; and the sum of the window-wide counts.
pub fn dock_count_response(
    hours: &Vec<String>,
    per_hour: &Vec<Vec<Option<i64>>>,
    shift_counts: &Vec<Option<i64>>,
) -> (r: DockCountResponse)
    requires
        per_hour@.len() == hours@.len(),
        forall|i: int| 0 <= i < per_hour@.len() ==> count_sum(#[trigger] per_hour@[i]@) <= u32::MAX,
        count_sum(shift_counts@) <= u32::MAX,
    ensures
        r.hourly@.len() == hours@.len(),
        forall|i: int|
            0 <= i < hours@.len() ==> (#[trigger] r.hourly@[i]).hour@ == hours@[i]@ && r.hourly@[i].count
                == count_sum(per_hour@[i]@),
        r.shift_total == count_sum(shift_counts@),
{
    let mut hourly: Vec<HourCount> = Vec::new();
    let mut i: usize = 0;
    while i < hours.len()
        invariant
            i <= hours.len(),
            per_hour@.len() == hours@.len(),
            forall|k: int| 0 <= k < per_hour@.len() ==> count_sum(#[trigger] per_hour@[k]@) <= u32::MAX,
            hourly@.len() == i,
            forall|k: int|
                0 <= k < i ==> (#[trigger] hourly@[k]).hour@ == hours@[k]@ && hourly@[k].count
                    == count_sum(per_hour@[k]@),
        decreases hours.len() - i,
    {
        let count = sum_counts(&per_hour[i]);
        hourly.push(HourCount { hour: hours[i].clone(), count });
        i += 1;
    }
    DockCountResponse { hourly, shift_total: sum_counts(shift_counts) }
}

} // verus!
