//! Who may change which trailer field: the role table, the field check,
//! the fields a request touches, and the update statement built from them.
use vstd::prelude::*;
use crate::structs::TrailerRecord;
use crate::text::{concat2, contains_str, join, join_strings, seq_contains, str_eq};

verus! {

/// Character views of a list of string slices.
pub open spec fn strs_view(v: Seq<&str>) -> Seq<Seq<char>> {
    v.map_values(|s: &str| s@)
}

/// Character views of a list of strings.
pub open spec fn strings_view(v: Seq<String>) -> Seq<Seq<char>> {
    v.map_values(|s: String| s@)
}

/// The fields each role may edit; `"*"` stands for every field.
pub open spec fn allowed_fields_spec(role: Seq<char>) -> Option<Seq<Seq<char>>> {
    if role == "admin"@ {
        Some(seq!["*"@])
    } else if role == "supervisor"@ {
        Some(
            seq![
                "hour"@, "dockCode"@, "adjustedStartTime"@, "scheduleEndDate"@,
                "scheduleEndTime"@, "scac"@, "statusOX"@, "trailer1"@, "trailer2"@,
                "gateArrivalTime"@, "actualStartTime"@, "actualEndTime"@, "door"@,
                "doorArrivalTime"@,
            ],
        )
    } else if role == "clerk"@ {
        Some(
            seq![
                "gateArrivalTime"@, "actualStartTime"@, "actualEndTime"@, "door"@,
                "doorArrivalTime"@, "dockComments"@,
            ],
        )
    } else if role == "receiving"@ {
        Some(seq!["statusOX"@])
    } else if role == "mfu"@ {
        Some(seq!["ryderComments"@])
    } else if role == "security"@ {
        Some(seq!["gateArrivalTime"@, "gmComments"@])
    } else {
        None
    }
}

/// The editable fields of a role, empty for an unknown role.
pub open spec fn field_list(role: Seq<char>) -> Seq<Seq<char>> {
    match allowed_fields_spec(role) {
        Some(v) => v,
        None => Seq::empty(),
    }
}

/// The role may edit every field.
pub open spec fn is_wildcard(role: Seq<char>) -> bool {
    field_list(role).contains("*"@)
}

/// Returns the fields `role` may edit, or `None` for a role without edit rights.
pub fn get_allowed_fields(role: &str) -> (r: Option<Vec<&'static str>>)
    ensures
        match r {
            Some(v) => allowed_fields_spec(role@) == Some(strs_view(v@)),
            None => allowed_fields_spec(role@) is None,
        },
{
    let r = if str_eq(role, "admin") {
        Some(vec!["*"])
    } else if str_eq(role, "supervisor") {
        Some(
            vec![
                "hour",
                "dockCode",
                "adjustedStartTime",
                "scheduleEndDate",
                "scheduleEndTime",
                "scac",
                "statusOX",
                "trailer1",
                "trailer2",
                "gateArrivalTime",
                "actualStartTime",
                "actualEndTime",
                "door",
                "doorArrivalTime",
            ],
        )
    } else if str_eq(role, "clerk") {
        Some(
            vec![
                "gateArrivalTime",
                "actualStartTime",
                "actualEndTime",
                "door",
                "doorArrivalTime",
                "dockComments",
            ],
        )
    } else if str_eq(role, "receiving") {
        Some(vec!["statusOX"])
    } else if str_eq(role, "mfu") {
        Some(vec!["ryderComments"])
    } else if str_eq(role, "security") {
        Some(vec!["gateArrivalTime", "gmComments"])
    } else {
        None
    };
    proof {
        if r is Some {
            assert(strs_view(r->0@) =~= allowed_fields_spec(role@)->0);
        }
    }
    r
}

/// Whether `v` holds a slice equal to `s`.
pub fn strs_contain(v: &Vec<&str>, s: &str) -> (r: bool)
    ensures
        r == strs_view(v@).contains(s@),
{
    let mut i: usize = 0;
    while i < v.len()
        invariant
            i <= v.len(),
            forall|k: int| 0 <= k < i ==> v@[k]@ != s@,
        decreases v.len() - i,
    {
        if str_eq(v[i], s) {
            assert(strs_view(v@)[i as int] == s@);
            return true;
        }
        i += 1;
    }
    proof {
        if strs_view(v@).contains(s@) {
            let k = choose|k: int| 0 <= k < strs_view(v@).len() && strs_view(v@)[k] == s@;
            assert(v@[k]@ == s@);
        }
    }
    false
}

/// The allowed fields of a role as an owned list (empty for an unknown role).
fn allowed_or_empty(role: &str) -> (v: Vec<&'static str>)
    ensures
        strs_view(v@) == field_list(role@),
{
    match get_allowed_fields(role) {
        Some(v) => v,
        None => {
            let v: Vec<&'static str> = Vec::new();
            assert(strs_view(v@) =~= Seq::<Seq<char>>::empty());
            v
        },
    }
}

/// Fields of `fields` that `role` may not edit, in their given order.
pub open spec fn denied_fields(role: Seq<char>, fields: Seq<Seq<char>>) -> Seq<Seq<char>> {
    fields.filter(|f: Seq<char>| !field_list(role).contains(f))
}

/// Outcome of checking `fields` against the rights of `role`.
pub open spec fn check_fields_spec(role: Seq<char>, fields: Seq<Seq<char>>) -> Result<
    (),
    Seq<Seq<char>>,
> {
    if is_wildcard(role) {
        Ok(())
    } else if denied_fields(role, fields).len() == 0 {
        Ok(())
    } else {
        Err(denied_fields(role, fields))
    }
}

/// Accepts when `role` may edit every one of `fields`; otherwise lists the
/// fields it may not edit, in order.
pub fn check_fields(role: &str, fields: &[&str]) -> (r: Result<(), Vec<String>>)
    ensures
        match r {
            Ok(()) => check_fields_spec(role@, strs_view(fields@)) == Ok::<(), Seq<Seq<char>>>(()),
            Err(d) => check_fields_spec(role@, strs_view(fields@)) == Err::<(), Seq<Seq<char>>>(
                strings_view(d@),
            ),
        },
{
    let allowed = allowed_or_empty(role);
    if strs_contain(&allowed, "*") {
        return Ok(());
    }
    let ghost fv = strs_view(fields@);
    let ghost pred = |f: Seq<char>| !field_list(role@).contains(f);
    let mut denied: Vec<String> = Vec::new();
    let mut i: usize = 0;
    while i < fields.len()
        invariant
            i <= fields.len(),
            fv == strs_view(fields@),
            pred == (|f: Seq<char>| !field_list(role@).contains(f)),
            strs_view(allowed@) == field_list(role@),
            strings_view(denied@) == fv.take(i as int).filter(pred),
        decreases fields.len() - i,
    {
        let f = fields[i];
        let ok = strs_contain(&allowed, f);
        proof {
            fv.take(i as int).lemma_filter_push(fv[i as int], pred);
            assert(fv.take(i + 1) =~= fv.take(i as int).push(fv[i as int]));
        }
        if !ok {
            let ghost before = denied@;
            denied.push(f.to_string());
            assert(strings_view(denied@) =~= strings_view(before).push(f@));
        }
        i += 1;
    }
    assert(fv.take(fields.len() as int) =~= fv);
    if denied.len() == 0 {
        Ok(())
    } else {
        Err(denied)
    }
}

/// One-element list when `b` holds, else empty.
pub open spec fn when(b: bool, s: Seq<char>) -> Seq<Seq<char>> {
    if b {
        seq![s]
    } else {
        Seq::empty()
    }
}

/// Keeps `names[i]` exactly where `conds[i]` holds, in order.
#[verifier::opaque]
pub open spec fn select(conds: Seq<bool>, names: Seq<Seq<char>>) -> Seq<Seq<char>>
    decreases conds.len(),
{
    if conds.len() == 0 || names.len() == 0 {
        Seq::empty()
    } else {
        select(conds.drop_last(), names.drop_last()) + when(conds.last(), names.last())
    }
}

/// The field names a trailer update may carry, in request order.
pub open spec fn request_field_names() -> Seq<Seq<char>> {
    seq![
        "hour"@, "dockCode"@, "scac"@, "trailer1"@, "trailer2"@, "adjustedStartTime"@,
        "scheduleEndDate"@, "scheduleEndTime"@, "gateArrivalTime"@, "actualStartTime"@,
        "actualEndTime"@, "statusOX"@, "ryderComments"@, "gmComments"@, "lateComments"@,
    ]
}

/// Which of [`request_field_names`] a trailer carries: non-empty text, or a
/// present comment.
pub open spec fn request_presence(t: TrailerRecord) -> Seq<bool> {
    seq![
        t.hour@.len() > 0, t.dockCode@.len() > 0, t.scac@.len() > 0, t.trailer1@.len() > 0,
        t.trailer2@.len() > 0, t.adjustedStartTime@.len() > 0, t.scheduleEndDate@.len() > 0,
        t.scheduleEndTime@.len() > 0, t.gateArrivalTime@.len() > 0, t.actualStartTime@.len()
            > 0, t.actualEndTime@.len() > 0, t.statusOX@.len() > 0, t.ryderComments@.len() > 0,
        t.gmComments is Some, t.lateComments is Some,
    ]
}

/// The fields a trailer update actually carries, in a fixed order.
pub open spec fn requested_fields_spec(t: TrailerRecord) -> Seq<Seq<char>> {
    select(request_presence(t), request_field_names())
}

proof fn lemma_select_step(conds: Seq<bool>, names: Seq<Seq<char>>, k: int)
    requires
        0 <= k < conds.len(),
        conds.len() == names.len(),
    ensures
        select(conds.take(k + 1), names.take(k + 1)) == select(conds.take(k), names.take(k))
            + when(conds[k], names[k]),
{
    reveal(select);
    assert(conds.take(k + 1).drop_last() =~= conds.take(k));
    assert(names.take(k + 1).drop_last() =~= names.take(k));
}

proof fn lemma_select_empty(conds: Seq<bool>, names: Seq<Seq<char>>)
    ensures
        select(conds.take(0), names.take(0)) == Seq::<Seq<char>>::empty(),
{
    reveal(select);
}

fn request_presence_of(trailer: &TrailerRecord) -> (v: Vec<bool>)
    ensures
        v@ == request_presence(*trailer),
{
    let conds: Vec<bool> = vec![
        !trailer.hour.as_str().is_empty(),
        !trailer.dockCode.as_str().is_empty(),
        !trailer.scac.as_str().is_empty(),
        !trailer.trailer1.as_str().is_empty(),
        !trailer.trailer2.as_str().is_empty(),
        !trailer.adjustedStartTime.as_str().is_empty(),
        !trailer.scheduleEndDate.as_str().is_empty(),
        !trailer.scheduleEndTime.as_str().is_empty(),
        !trailer.gateArrivalTime.as_str().is_empty(),
        !trailer.actualStartTime.as_str().is_empty(),
        !trailer.actualEndTime.as_str().is_empty(),
        !trailer.statusOX.as_str().is_empty(),
        !trailer.ryderComments.as_str().is_empty(),
        trailer.gmComments.is_some(),
        trailer.lateComments.is_some(),
    ];
    assert(conds@ =~= request_presence(*trailer));
    conds
}

fn request_names() -> (v: Vec<&'static str>)
    ensures
        strs_view(v@) == request_field_names(),
{
    let names: Vec<&'static str> = vec![
        "hour",
        "dockCode",
        "scac",
        "trailer1",
        "trailer2",
        "adjustedStartTime",
        "scheduleEndDate",
        "scheduleEndTime",
        "gateArrivalTime",
        "actualStartTime",
        "actualEndTime",
        "statusOX",
        "ryderComments",
        "gmComments",
        "lateComments",
    ];
    assert(strs_view(names@) =~= request_field_names());
    names
}

/// The fields a trailer update carries (see [`requested_fields_spec`]).
pub fn get_requested_fields(trailer: &TrailerRecord) -> (r: Vec<&'static str>)
    ensures
        strs_view(r@) == requested_fields_spec(*trailer),
{
    let conds = request_presence_of(trailer);
    let names = request_names();
    let ghost c = request_presence(*trailer);
    let ghost n = request_field_names();
    assert(names@.len() == strs_view(names@).len());
    assert(conds@.len() == 15);
    let mut f: Vec<&'static str> = Vec::new();
    let mut i: usize = 0;
    proof {
        lemma_select_empty(c, n);
    }
    assert(strs_view(f@) =~= select(c.take(0), n.take(0)));
    while i < conds.len()
        invariant
            conds@ == c,
            strs_view(names@) == n,
            c.len() == 15,
            n.len() == 15,
            names.len() == 15,
            i <= 15,
            strs_view(f@) == select(c.take(i as int), n.take(i as int)),
        decreases 15 - i,
    {
        proof {
            lemma_select_step(c, n, i as int);
        }
        let ghost before = f@;
        if conds[i] {
            f.push(names[i]);
        }
        assert(strs_view(f@) =~= strs_view(before) + when(c[i as int], n[i as int]));
        i += 1;
    }
    assert(c.take(15) =~= c);
    assert(n.take(15) =~= n);
    f
}

} // verus!

verus! {

/// A parameterised graph statement: its text and its named string parameters.
#[derive(Clone, Debug)]
pub struct CypherQuery {
    pub text: String,
    pub params: Vec<(String, String)>,
}

/// Character views of key/value parameter pairs.
pub open spec fn pairs_view(v: Seq<(String, String)>) -> Seq<(Seq<char>, Seq<char>)> {
    v.map_values(|p: (String, String)| (p.0@, p.1@))
}

/// Every field a live-trailer update statement can set, in statement order.
pub open spec fn updatable_fields() -> Seq<Seq<char>> {
    seq![
        "hour"@, "dockCode"@, "scac"@, "trailer1"@, "trailer2"@, "adjustedStartTime"@,
        "scheduleEndDate"@, "scheduleEndTime"@, "gateArrivalTime"@, "actualStartTime"@,
        "actualEndTime"@, "statusOX"@, "ryderComments"@, "gmComments"@, "lateComments"@,
        "door"@, "doorArrivalTime"@,
    ]
}

/// `role` may set field `f`.
pub open spec fn may_update(role: Seq<char>, f: Seq<char>) -> bool {
    is_wildcard(role) || field_list(role).contains(f)
}

/// The fields an update statement for `role` sets, in statement order.
pub open spec fn updated_fields(role: Seq<char>) -> Seq<Seq<char>> {
    updatable_fields().filter(|f: Seq<char>| may_update(role, f))
}

/// The assignment `t.f = $f`.
pub open spec fn set_clause(f: Seq<char>) -> Seq<char> {
    "t."@ + f + " = $"@ + f
}

/// Text of the live-trailer update statement for `role`.
pub open spec fn update_text(role: Seq<char>) -> Seq<char> {
    "MATCH (t:LiveTrailer {uuid: $uuid}) SET "@ + join(
        updated_fields(role).map_values(|f: Seq<char>| set_clause(f)),
        ", "@,
    ) + " RETURN t"@
}

/// A present comment, or the empty text.
pub open spec fn text_or_empty(o: Option<String>) -> Seq<char> {
    match o {
        Some(s) => s@,
        None => Seq::empty(),
    }
}

/// The parameters bound by the update statement, from the submitted trailer.
pub open spec fn update_params(t: TrailerRecord) -> Seq<(Seq<char>, Seq<char>)> {
    seq![
        ("uuid"@, t.uuid@), ("hour"@, t.hour@), ("dockCode"@, t.dockCode@), ("scac"@, t.scac@),
        ("trailer1"@, t.trailer1@), ("trailer2"@, t.trailer2@), ("adjustedStartTime"@,
        t.adjustedStartTime@), ("scheduleEndDate"@, t.scheduleEndDate@), ("scheduleEndTime"@,
        t.scheduleEndTime@), ("gateArrivalTime"@, t.gateArrivalTime@), ("actualStartTime"@,
        t.actualStartTime@), ("actualEndTime"@, t.actualEndTime@), ("statusOX"@, t.statusOX@),
        ("ryderComments"@, t.ryderComments@), ("gmComments"@, text_or_empty(t.gmComments)), (
        "lateComments"@, text_or_empty(t.lateComments)), ("door"@, t.door@), (
        "doorArrivalTime"@, t.doorArrivalTime@),
    ]
}

fn updatable_names() -> (v: Vec<&'static str>)
    ensures
        strs_view(v@) == updatable_fields(),
{
    let v: Vec<&'static str> = vec![
        "hour",
        "dockCode",
        "scac",
        "trailer1",
        "trailer2",
        "adjustedStartTime",
        "scheduleEndDate",
        "scheduleEndTime",
        "gateArrivalTime",
        "actualStartTime",
        "actualEndTime",
        "statusOX",
        "ryderComments",
        "gmComments",
        "lateComments",
        "door",
        "doorArrivalTime",
    ];
    assert(strs_view(v@) =~= updatable_fields());
    v
}

fn owned_or_empty(o: &Option<String>) -> (s: String)
    ensures
        s@ == text_or_empty(*o),
{
    match o {
        Some(s) => s.clone(),
        None => String::new(),
    }
}

fn pair(k: &str, v: &String) -> (p: (String, String))
    ensures
        p.0@ == k@,
        p.1@ == v@,
{
    (k.to_string(), v.clone())
}

fn update_param_list(t: &TrailerRecord) -> (v: Vec<(String, String)>)
    ensures
        pairs_view(v@) == update_params(*t),
{
    let gm = owned_or_empty(&t.gmComments);
    let late = owned_or_empty(&t.lateComments);
    let v = vec![
        pair("uuid", &t.uuid),
        pair("hour", &t.hour),
        pair("dockCode", &t.dockCode),
        pair("scac", &t.scac),
        pair("trailer1", &t.trailer1),
        pair("trailer2", &t.trailer2),
        pair("adjustedStartTime", &t.adjustedStartTime),
        pair("scheduleEndDate", &t.scheduleEndDate),
        pair("scheduleEndTime", &t.scheduleEndTime),
        pair("gateArrivalTime", &t.gateArrivalTime),
        pair("actualStartTime", &t.actualStartTime),
        pair("actualEndTime", &t.actualEndTime),
        pair("statusOX", &t.statusOX),
        pair("ryderComments", &t.ryderComments),
        pair("gmComments", &gm),
        pair("lateComments", &late),
        pair("door", &t.door),
        pair("doorArrivalTime", &t.doorArrivalTime),
    ];
    assert(pairs_view(v@) =~= update_params(*t));
    v
}

/// Builds the statement that writes a submitted trailer onto the live board,
/// setting only the fields the submitter's role may change.
pub fn build_update_query(role: &str, trailer: &TrailerRecord) -> (q: CypherQuery)
    ensures
        q.text@ == update_text(role@),
        pairs_view(q.params@) == update_params(*trailer),
{
    let allowed = allowed_or_empty(role);
    let is_admin = strs_contain(&allowed, "*");
    let names = updatable_names();
    let ghost u = updatable_fields();
    let ghost pred = |f: Seq<char>| may_update(role@, f);
    let ghost clause = |f: Seq<char>| set_clause(f);
    let mut sets: Vec<String> = Vec::new();
    let mut i: usize = 0;
    while i < names.len()
        invariant
            i <= names.len(),
            strs_view(names@) == u,
            u == updatable_fields(),
            strs_view(allowed@) == field_list(role@),
            is_admin == is_wildcard(role@),
            pred == (|f: Seq<char>| may_update(role@, f)),
            clause == (|f: Seq<char>| set_clause(f)),
            sets@.map_values(|p: String| p@) == u.take(i as int).filter(pred).map_values(clause),
        decreases names.len() - i,
    {
        let f = names[i];
        proof {
            u.take(i as int).lemma_filter_push(u[i as int], pred);
            assert(u.take(i + 1) =~= u.take(i as int).push(u[i as int]));
        }
        if is_admin || strs_contain(&allowed, f) {
            let ghost before = sets@;
            let c = concat2(concat2(concat2("t.", f).as_str(), " = $").as_str(), f);
            sets.push(c);
            assert(sets@.map_values(|p: String| p@) =~= before.map_values(|p: String| p@).push(
                clause(f@),
            ));
        }
        i += 1;
    }
    assert(u.take(names.len() as int) =~= u);
    let body = join_strings(&sets, ", ");
    let text = concat2(
        concat2("MATCH (t:LiveTrailer {uuid: $uuid}) SET ", body.as_str()).as_str(),
        " RETURN t",
    );
    assert(updated_fields(role@).map_values(|f: Seq<char>| set_clause(f)) =~= u.filter(
        pred,
    ).map_values(clause));
    CypherQuery { text, params: update_param_list(trailer) }
}

} // verus!

verus! {

proof fn lemma_filter_member(s: Seq<Seq<char>>, p: spec_fn(Seq<char>) -> bool, x: Seq<char>)
    ensures
        s.filter(p).contains(x) <==> (s.contains(x) && p(x)),
{
    broadcast use vstd::seq_lib::group_filter_ensures;

    if s.filter(p).contains(x) {
        let i = choose|i: int| 0 <= i < s.filter(p).len() && s.filter(p)[i] == x;
        s.lemma_filter_pred(p, i);
        s.lemma_filter_contains_rev(p, x);
    }
    if s.contains(x) && p(x) {
        let i = choose|i: int| 0 <= i < s.len() && s[i] == x;
        s.lemma_filter_contains(p, i);
    }
}

proof fn lemma_filter_all(s: Seq<Seq<char>>, p: spec_fn(Seq<char>) -> bool)
    requires
        forall|i: int| 0 <= i < s.len() ==> p(#[trigger] s[i]),
    ensures
        s.filter(p) == s,
    decreases s.len(),
{
    reveal(Seq::filter);
    if s.len() > 0 {
        lemma_filter_all(s.drop_last(), p);
        assert(s.drop_last().push(s.last()) =~= s);
    }
}

proof fn lemma_select_subset(conds: Seq<bool>, names: Seq<Seq<char>>, x: Seq<char>)
    requires
        select(conds, names).contains(x),
    ensures
        names.contains(x),
    decreases conds.len(),
{
    reveal(select);
    if conds.len() == 0 || names.len() == 0 {
    } else {
        let rest = select(conds.drop_last(), names.drop_last());
        let w = when(conds.last(), names.last());
        let i = choose|i: int| 0 <= i < (rest + w).len() && (rest + w)[i] == x;
        if i < rest.len() {
            assert(rest[i] == x);
            lemma_select_subset(conds.drop_last(), names.drop_last(), x);
            let j = choose|j: int| 0 <= j < names.drop_last().len() && names.drop_last()[j] == x;
            assert(names[j] == x);
        } else {
            assert(names[names.len() - 1] == x);
        }
    }
}

/// The update statement sets a field exactly when the field check accepts
/// that field alone for the same role.
pub proof fn lemma_update_agrees_with_check(role: Seq<char>, f: Seq<char>)
    requires
        updatable_fields().contains(f),
    ensures
        updated_fields(role).contains(f) <==> check_fields_spec(role, seq![f]) == Ok::<
            (),
            Seq<Seq<char>>,
        >(()),
{
    let p = |g: Seq<char>| may_update(role, g);
    lemma_filter_member(updatable_fields(), p, f);
    let q = |g: Seq<char>| !field_list(role).contains(g);
    let one = seq![f];
    lemma_filter_member(one, q, f);
    assert(one.contains(f)) by {
        assert(one[0] == f);
    }
    if !is_wildcard(role) && !field_list(role).contains(f) {
        assert(denied_fields(role, one).contains(f));
        assert(denied_fields(role, one).len() > 0);
    }
    if !is_wildcard(role) && field_list(role).contains(f) {
        if denied_fields(role, one).len() > 0 {
            let g = denied_fields(role, one)[0];
            assert(denied_fields(role, one).contains(g));
            lemma_filter_member(one, q, g);
            let i = choose|i: int| 0 <= i < one.len() && one[i] == g;
            assert(g == f);
        }
    }
}

/// A trailer update whose requested fields pass the field check has every
/// requested field written by the update statement built for that role.
pub proof fn lemma_checked_request_is_written(role: Seq<char>, t: TrailerRecord)
    requires
        check_fields_spec(role, requested_fields_spec(t)) == Ok::<(), Seq<Seq<char>>>(()),
    ensures
        forall|f: Seq<char>| #[trigger]
            requested_fields_spec(t).contains(f) ==> updated_fields(role).contains(f),
{
    assert forall|f: Seq<char>| #[trigger]
        requested_fields_spec(t).contains(f) implies updated_fields(role).contains(f) by {
        lemma_select_subset(request_presence(t), request_field_names(), f);
        let i = choose|i: int|
            0 <= i < request_field_names().len() && request_field_names()[i] == f;
        assert(updatable_fields()[i] == f);
        let q = |g: Seq<char>| !field_list(role).contains(g);
        if !is_wildcard(role) && !field_list(role).contains(f) {
            lemma_filter_member(requested_fields_spec(t), q, f);
            assert(denied_fields(role, requested_fields_spec(t)).contains(f));
        }
        lemma_filter_member(updatable_fields(), |g: Seq<char>| may_update(role, g), f);
    }
}

/// A role without edit rights is refused every field it asks for, and the
/// refusal lists them all in order.
pub proof fn lemma_unknown_role_refused(role: Seq<char>, fields: Seq<Seq<char>>)
    requires
        allowed_fields_spec(role) is None,
        fields.len() > 0,
    ensures
        check_fields_spec(role, fields) == Err::<(), Seq<Seq<char>>>(fields),
{
    let q = |g: Seq<char>| !field_list(role).contains(g);
    assert(field_list(role) =~= Seq::<Seq<char>>::empty());
    lemma_filter_all(fields, q);
}

/// An administrator's field check always passes.
pub proof fn lemma_admin_unrestricted(fields: Seq<Seq<char>>)
    ensures
        check_fields_spec("admin"@, fields) == Ok::<(), Seq<Seq<char>>>(()),
        updated_fields("admin"@) == updatable_fields(),
{
    assert(field_list("admin"@)[0] == "*"@);
    lemma_filter_all(updatable_fields(), |g: Seq<char>| may_update("admin"@, g));
}

} // verus!

verus! {

/// A dock-limited role: its name mentions `vaa` or `univ`.
pub open spec fn dock_restricted(role: Seq<char>) -> bool {
    seq_contains(role, "vaa"@) || seq_contains(role, "univ"@)
}

/// Whether `role` is limited to one dock's trailers; such roles are refused
/// the board-wide lists and reports.
pub fn is_dock_restricted(role: &str) -> (r: bool)
    ensures
        r == dock_restricted(role@),
{
    contains_str(role, "vaa") || contains_str(role, "univ")
}

/// The dock code a role sees on the live board, if it is limited to one.
pub open spec fn dock_scope_spec(role: Seq<char>) -> Option<Seq<char>> {
    if seq_contains(role, "vaa"@) {
        Some("V"@)
    } else if seq_contains(role, "univ"@) {
        Some("U"@)
    } else {
        None
    }
}

/// The dock code the live board is limited to for `role`: `V` for a `vaa`
/// role, else `U` for a `univ` role, else none.
pub fn dock_scope(role: &str) -> (r: Option<&'static str>)
    ensures
        match r {
            Some(d) => dock_scope_spec(role@) == Some(d@),
            None => dock_scope_spec(role@) is None,
        },
{
    if contains_str(role, "vaa") {
        Some("V")
    } else if contains_str(role, "univ") {
        Some("U")
    } else {
        None
    }
}

/// A record survives the role filter of past and staged shifts.
pub open spec fn visible_to(role: Seq<char>, r: TrailerRecord) -> bool {
    (seq_contains(role, "univ"@) ==> r.dockCode@ == "U"@) && (seq_contains(role, "vaa"@)
        ==> r.dockCode@ == "V"@)
}

/// Keeps the records a role may see: a `univ` role keeps dock `U`, a `vaa`
/// role keeps dock `V`, in their given order.
pub fn filter_records_for_role(role: &str, records: Vec<TrailerRecord>) -> (out: Vec<
    TrailerRecord,
>)
    ensures
        out@ == records@.filter(|r: TrailerRecord| visible_to(role@, r)),
{
    let univ = contains_str(role, "univ");
    let vaa = contains_str(role, "vaa");
    let ghost orig = records@;
    let ghost p = |r: TrailerRecord| visible_to(role@, r);
    let mut rest = records;
    let mut out: Vec<TrailerRecord> = Vec::new();
    let ghost mut k: int = 0;
    while rest.len() > 0
        invariant
            0 <= k <= orig.len(),
            rest@ == orig.skip(k),
            out@ == orig.take(k).filter(p),
            univ == seq_contains(role@, "univ"@),
            vaa == seq_contains(role@, "vaa"@),
            p == (|r: TrailerRecord| visible_to(role@, r)),
        decreases rest.len(),
    {
        let r = rest.remove(0);
        proof {
            assert(r == orig[k]);
            orig.take(k).lemma_filter_push(orig[k], p);
            assert(orig.take(k + 1) =~= orig.take(k).push(orig[k]));
            assert(rest@ =~= orig.skip(k + 1));
        }
        let keep_u = !univ || str_eq(r.dockCode.as_str(), "U");
        let keep_v = !vaa || str_eq(r.dockCode.as_str(), "V");
        if keep_u && keep_v {
            out.push(r);
        }
        proof {
            k = k + 1;
        }
    }
    assert(orig.take(k) =~= orig);
    out
}

/// Role may roll the shift, edit users and similar: `admin` or `manager`.
pub fn is_admin_or_manager(role: &str) -> (r: bool)
    ensures
        r == (role@ == "admin"@ || role@ == "manager"@),
{
    str_eq(role, "admin") || str_eq(role, "manager")
}

/// Role may stage trailers and push reschedules: `admin` or `supervisor`.
pub fn is_admin_or_supervisor(role: &str) -> (r: bool)
    ensures
        r == (role@ == "admin"@ || role@ == "supervisor"@),
{
    str_eq(role, "admin") || str_eq(role, "supervisor")
}

/// Role may delete users: exactly `admin`.
pub fn is_admin(role: &str) -> (r: bool)
    ensures
        r == (role@ == "admin"@),
{
    str_eq(role, "admin")
}

/// The user-administration list is open to a role that is not dock-limited
/// and whose name mentions `manager`.
pub fn may_list_users_admin(role: &str) -> (r: bool)
    ensures
        r == (!dock_restricted(role@) && seq_contains(role@, "manager"@)),
{
    !is_dock_restricted(role) && contains_str(role, "manager")
}

} // verus!

verus! {

/// The parameter names of the update statement, in binding order.
spec fn param_keys() -> Seq<Seq<char>> {
    seq![
        "uuid"@, "hour"@, "dockCode"@, "scac"@, "trailer1"@, "trailer2"@, "adjustedStartTime"@,
        "scheduleEndDate"@, "scheduleEndTime"@, "gateArrivalTime"@, "actualStartTime"@,
        "actualEndTime"@, "statusOX"@, "ryderComments"@, "gmComments"@, "lateComments"@,
        "door"@, "doorArrivalTime"@,
    ]
}

/// Position of a parameter name, told apart by its length and three of its
/// characters.
spec fn key_index(s: Seq<char>) -> int {
    if s.len() == 4 && s[0] == 'u' && s[s.len() - 1] == 'd' && s[s.len() - 4] == 'u' {
        0
    } else     if s.len() == 4 && s[0] == 'h' && s[s.len() - 1] == 'r' && s[s.len() - 4] == 'h' {
        1
    } else     if s.len() == 8 && s[0] == 'd' && s[s.len() - 1] == 'e' && s[s.len() - 4] == 'C' {
        2
    } else     if s.len() == 4 && s[0] == 's' && s[s.len() - 1] == 'c' && s[s.len() - 4] == 's' {
        3
    } else     if s.len() == 8 && s[0] == 't' && s[s.len() - 1] == '1' && s[s.len() - 4] == 'l' {
        4
    } else     if s.len() == 8 && s[0] == 't' && s[s.len() - 1] == '2' && s[s.len() - 4] == 'l' {
        5
    } else     if s.len() == 17 && s[0] == 'a' && s[s.len() - 1] == 'e' && s[s.len() - 4] == 'T' {
        6
    } else     if s.len() == 15 && s[0] == 's' && s[s.len() - 1] == 'e' && s[s.len() - 4] == 'D' {
        7
    } else     if s.len() == 15 && s[0] == 's' && s[s.len() - 1] == 'e' && s[s.len() - 4] == 'T' {
        8
    } else     if s.len() == 15 && s[0] == 'g' && s[s.len() - 1] == 'e' && s[s.len() - 4] == 'T' {
        9
    } else     if s.len() == 15 && s[0] == 'a' && s[s.len() - 1] == 'e' && s[s.len() - 4] == 'T' {
        10
    } else     if s.len() == 13 && s[0] == 'a' && s[s.len() - 1] == 'e' && s[s.len() - 4] == 'T' {
        11
    } else     if s.len() == 8 && s[0] == 's' && s[s.len() - 1] == 'X' && s[s.len() - 4] == 'u' {
        12
    } else     if s.len() == 13 && s[0] == 'r' && s[s.len() - 1] == 's' && s[s.len() - 4] == 'e' {
        13
    } else     if s.len() == 10 && s[0] == 'g' && s[s.len() - 1] == 's' && s[s.len() - 4] == 'e' {
        14
    } else     if s.len() == 12 && s[0] == 'l' && s[s.len() - 1] == 's' && s[s.len() - 4] == 'e' {
        15
    } else     if s.len() == 4 && s[0] == 'd' && s[s.len() - 1] == 'r' && s[s.len() - 4] == 'd' {
        16
    } else     if s.len() == 15 && s[0] == 'd' && s[s.len() - 1] == 'e' && s[s.len() - 4] == 'T' {
        17
    } else {
        -1
    }
}

proof fn lemma_param_keys_distinct()
    ensures
        forall|i: int, j: int| 0 <= i < j < 18 ==> param_keys()[i] != param_keys()[j],
{
    reveal_strlit("uuid");
    reveal_strlit("hour");
    reveal_strlit("dockCode");
    reveal_strlit("scac");
    reveal_strlit("trailer1");
    reveal_strlit("trailer2");
    reveal_strlit("adjustedStartTime");
    reveal_strlit("scheduleEndDate");
    reveal_strlit("scheduleEndTime");
    reveal_strlit("gateArrivalTime");
    reveal_strlit("actualStartTime");
    reveal_strlit("actualEndTime");
    reveal_strlit("statusOX");
    reveal_strlit("ryderComments");
    reveal_strlit("gmComments");
    reveal_strlit("lateComments");
    reveal_strlit("door");
    reveal_strlit("doorArrivalTime");
    let k = param_keys();
    assert(key_index(k[0]) == 0);
    assert(key_index(k[1]) == 1);
    assert(key_index(k[2]) == 2);
    assert(key_index(k[3]) == 3);
    assert(key_index(k[4]) == 4);
    assert(key_index(k[5]) == 5);
    assert(key_index(k[6]) == 6);
    assert(key_index(k[7]) == 7);
    assert(key_index(k[8]) == 8);
    assert(key_index(k[9]) == 9);
    assert(key_index(k[10]) == 10);
    assert(key_index(k[11]) == 11);
    assert(key_index(k[12]) == 12);
    assert(key_index(k[13]) == 13);
    assert(key_index(k[14]) == 14);
    assert(key_index(k[15]) == 15);
    assert(key_index(k[16]) == 16);
    assert(key_index(k[17]) == 17);
    assert forall|i: int| 0 <= i < 18 implies key_index(#[trigger] k[i]) == i by {
        if i == 0 {
        } else if i == 1 {
        } else if i == 2 {
        } else if i == 3 {
        } else if i == 4 {
        } else if i == 5 {
        } else if i == 6 {
        } else if i == 7 {
        } else if i == 8 {
        } else if i == 9 {
        } else if i == 10 {
        } else if i == 11 {
        } else if i == 12 {
        } else if i == 13 {
        } else if i == 14 {
        } else if i == 15 {
        } else if i == 16 {
        } else if i == 17 {
        }
    }
    assert forall|i: int, j: int| 0 <= i < j < 18 implies k[i] != k[j] by {
        assert(key_index(k[i]) == i);
        assert(key_index(k[j]) == j);
    }
}


/// Every parameter of the update statement is named after a trailer field
/// and binds that same field of the submitted trailer (an absent comment as
/// the empty text); each name is bound once, and every field the statement
/// can set has its parameter.
pub proof fn lemma_params_bind_their_fields(t: TrailerRecord)
    ensures
        update_params(t).len() == 18,
        forall|i: int, j: int|
            0 <= i < j < update_params(t).len() ==> update_params(t)[i].0 != update_params(t)[j].0,
        forall|f: Seq<char>|
            updatable_fields().contains(f) ==> exists|i: int|
                0 <= i < update_params(t).len() && (#[trigger] update_params(t)[i]).0 == f,
        forall|i: int|
            0 <= i < update_params(t).len() ==> ({
            let p = #[trigger] update_params(t)[i];
            &&& p.0 == "uuid"@ ==> p.1 == t.uuid@
            &&& p.0 == "hour"@ ==> p.1 == t.hour@
            &&& p.0 == "dockCode"@ ==> p.1 == t.dockCode@
            &&& p.0 == "scac"@ ==> p.1 == t.scac@
            &&& p.0 == "trailer1"@ ==> p.1 == t.trailer1@
            &&& p.0 == "trailer2"@ ==> p.1 == t.trailer2@
            &&& p.0 == "adjustedStartTime"@ ==> p.1 == t.adjustedStartTime@
            &&& p.0 == "scheduleEndDate"@ ==> p.1 == t.scheduleEndDate@
            &&& p.0 == "scheduleEndTime"@ ==> p.1 == t.scheduleEndTime@
            &&& p.0 == "gateArrivalTime"@ ==> p.1 == t.gateArrivalTime@
            &&& p.0 == "actualStartTime"@ ==> p.1 == t.actualStartTime@
            &&& p.0 == "actualEndTime"@ ==> p.1 == t.actualEndTime@
            &&& p.0 == "statusOX"@ ==> p.1 == t.statusOX@
            &&& p.0 == "ryderComments"@ ==> p.1 == t.ryderComments@
            &&& p.0 == "gmComments"@ ==> p.1 == (match t.gmComments { Some(c) => c@, None => Seq::<char>::empty() })
            &&& p.0 == "lateComments"@ ==> p.1 == (match t.lateComments { Some(c) => c@, None => Seq::<char>::empty() })
            &&& p.0 == "door"@ ==> p.1 == t.door@
            &&& p.0 == "doorArrivalTime"@ ==> p.1 == t.doorArrivalTime@
        }),
{
    lemma_param_keys_distinct();
    let ps = update_params(t);
    let k = param_keys();
    assert forall|i: int| 0 <= i < 18 implies (#[trigger] ps[i]).0 == k[i] by {}
    assert forall|f: Seq<char>| updatable_fields().contains(f) implies exists|i: int|
        0 <= i < ps.len() && (#[trigger] ps[i]).0 == f by {
        let j = choose|j: int| 0 <= j < updatable_fields().len() && updatable_fields()[j] == f;
        assert(updatable_fields()[j] == k[j + 1]);
        assert(ps[j + 1].0 == f);
    }
}


/// Keeps `names[k]` exactly when `conds[k]` holds, for distinct names.
proof fn lemma_select_member(conds: Seq<bool>, names: Seq<Seq<char>>, k: int)
    requires
        conds.len() == names.len(),
        0 <= k < names.len(),
        forall|i: int, j: int| 0 <= i < j < names.len() ==> names[i] != names[j],
    ensures
        select(conds, names).contains(names[k]) <==> conds[k],
    decreases conds.len(),
{
    reveal(select);
    let n = names.len() - 1;
    let rest = select(conds.drop_last(), names.drop_last());
    let w = when(conds.last(), names.last());
    assert(select(conds, names) == rest + w);
    if (rest + w).contains(names[k]) {
        let i = choose|i: int| 0 <= i < (rest + w).len() && (rest + w)[i] == names[k];
        if i < rest.len() {
            assert(rest[i] == names[k]);
            assert(rest.contains(names[k]));
            lemma_select_subset(conds.drop_last(), names.drop_last(), names[k]);
            let j = choose|j: int| 0 <= j < names.drop_last().len() && names.drop_last()[j] == names[k];
            assert(names[j] == names[k]);
            if k == n {
                assert(false);
            } else {
                lemma_select_member(conds.drop_last(), names.drop_last(), k);
                assert(names.drop_last()[k] == names[k]);
            }
        } else {
            assert(w[i - rest.len()] == names[k]);
            assert(names.last() == names[k]);
            assert(k == n);
        }
    }
    if conds[k] {
        if k == n {
            assert(w[0] == names[k]);
            assert((rest + w)[rest.len() as int] == names[k]);
        } else {
            lemma_select_member(conds.drop_last(), names.drop_last(), k);
            assert(names.drop_last()[k] == names[k]);
            let i = choose|i: int| 0 <= i < rest.len() && rest[i] == names[k];
            assert((rest + w)[i] == names[k]);
        }
    }
}

/// A request names a text field exactly when the submitted trailer fills that
/// same field, and a comment field exactly when that comment is present; it
/// names nothing else.
pub proof fn lemma_requested_fields_follow_trailer(t: TrailerRecord)
    ensures
        requested_fields_spec(t).contains("hour"@) <==> t.hour@.len() != 0,
        requested_fields_spec(t).contains("dockCode"@) <==> t.dockCode@.len() != 0,
        requested_fields_spec(t).contains("scac"@) <==> t.scac@.len() != 0,
        requested_fields_spec(t).contains("trailer1"@) <==> t.trailer1@.len() != 0,
        requested_fields_spec(t).contains("trailer2"@) <==> t.trailer2@.len() != 0,
        requested_fields_spec(t).contains("adjustedStartTime"@) <==> t.adjustedStartTime@.len() != 0,
        requested_fields_spec(t).contains("scheduleEndDate"@) <==> t.scheduleEndDate@.len() != 0,
        requested_fields_spec(t).contains("scheduleEndTime"@) <==> t.scheduleEndTime@.len() != 0,
        requested_fields_spec(t).contains("gateArrivalTime"@) <==> t.gateArrivalTime@.len() != 0,
        requested_fields_spec(t).contains("actualStartTime"@) <==> t.actualStartTime@.len() != 0,
        requested_fields_spec(t).contains("actualEndTime"@) <==> t.actualEndTime@.len() != 0,
        requested_fields_spec(t).contains("statusOX"@) <==> t.statusOX@.len() != 0,
        requested_fields_spec(t).contains("ryderComments"@) <==> t.ryderComments@.len() != 0,
        requested_fields_spec(t).contains("gmComments"@) <==> t.gmComments is Some,
        requested_fields_spec(t).contains("lateComments"@) <==> t.lateComments is Some,
        forall|f: Seq<char>| #[trigger]
            requested_fields_spec(t).contains(f) ==> request_field_names().contains(f),
{
    lemma_param_keys_distinct();
    let n = request_field_names();
    let c = request_presence(t);
    assert forall|i: int| 0 <= i < 15 implies #[trigger] n[i] == param_keys()[i + 1] by {}
    assert forall|i: int, j: int| 0 <= i < j < n.len() implies n[i] != n[j] by {
        assert(n[i] == param_keys()[i + 1]);
        assert(n[j] == param_keys()[j + 1]);
    }
    assert forall|k: int| 0 <= k < 15 implies (requested_fields_spec(t).contains(#[trigger] n[k]) <==> c[k]) by {
        lemma_select_member(c, n, k);
    }
    assert(n[0] == "hour"@);
    assert(n[1] == "dockCode"@);
    assert(n[2] == "scac"@);
    assert(n[3] == "trailer1"@);
    assert(n[4] == "trailer2"@);
    assert(n[5] == "adjustedStartTime"@);
    assert(n[6] == "scheduleEndDate"@);
    assert(n[7] == "scheduleEndTime"@);
    assert(n[8] == "gateArrivalTime"@);
    assert(n[9] == "actualStartTime"@);
    assert(n[10] == "actualEndTime"@);
    assert(n[11] == "statusOX"@);
    assert(n[12] == "ryderComments"@);
    assert(n[13] == "gmComments"@);
    assert(n[14] == "lateComments"@);
    assert forall|f: Seq<char>| #[trigger]
        requested_fields_spec(t).contains(f) implies n.contains(f) by {
        lemma_select_subset(c, n, f);
    }
}


/// Checking a single field passes exactly when the role may edit every field
/// or lists that one.
proof fn lemma_single_field_check(role: Seq<char>, f: Seq<char>)
    ensures
        (check_fields_spec(role, seq![f]) is Ok) <==> (is_wildcard(role) || field_list(role).contains(f)),
{
    let q = |g: Seq<char>| !field_list(role).contains(g);
    let one = seq![f];
    lemma_filter_member(one, q, f);
    assert(one.contains(f)) by {
        assert(one[0] == f);
    }
    if !is_wildcard(role) && !field_list(role).contains(f) {
        assert(denied_fields(role, one).contains(f));
        assert(denied_fields(role, one).len() > 0);
    }
    if !is_wildcard(role) && field_list(role).contains(f) {
        if denied_fields(role, one).len() > 0 {
            let g = denied_fields(role, one)[0];
            assert(denied_fields(role, one).contains(g));
            lemma_filter_member(one, q, g);
            let i = choose|i: int| 0 <= i < one.len() && one[i] == g;
            assert(g == f);
        }
    }
}

/// The fields a `supervisor` may edit.
proof fn lemma_supervisor_rights(f: Seq<char>)
    ensures
        (check_fields_spec("supervisor"@, seq![f]) is Ok) <==> (f == "hour"@ || f == "dockCode"@ || f == "adjustedStartTime"@ || f == "scheduleEndDate"@ || f == "scheduleEndTime"@ || f == "scac"@ || f == "statusOX"@ || f == "trailer1"@ || f == "trailer2"@ || f == "gateArrivalTime"@ || f == "actualStartTime"@ || f == "actualEndTime"@ || f == "door"@ || f == "doorArrivalTime"@),
{
    reveal_strlit("*");
    reveal_strlit("admin");
    reveal_strlit("supervisor");
    reveal_strlit("hour");
    reveal_strlit("dockCode");
    reveal_strlit("adjustedStartTime");
    reveal_strlit("scheduleEndDate");
    reveal_strlit("scheduleEndTime");
    reveal_strlit("scac");
    reveal_strlit("statusOX");
    reveal_strlit("trailer1");
    reveal_strlit("trailer2");
    reveal_strlit("gateArrivalTime");
    reveal_strlit("actualStartTime");
    reveal_strlit("actualEndTime");
    reveal_strlit("door");
    reveal_strlit("doorArrivalTime");
    reveal_strlit("clerk");
    reveal_strlit("receiving");
    reveal_strlit("mfu");
    reveal_strlit("security");
    assert("admin"@.len() == 5 && "admin"@[0] == 'a');
    assert("supervisor"@.len() == 10 && "supervisor"@[0] == 's');
    assert("supervisor"@ != "admin"@);
    lemma_single_field_check("supervisor"@, f);
    let l = field_list("supervisor"@);
    assert(allowed_fields_spec("supervisor"@) is Some);
    assert(l == allowed_fields_spec("supervisor"@)->0);
    assert(l.len() == 14);
    assert(!l.contains("*"@)) by {
        if l.contains("*"@) {
            let i = choose|i: int| 0 <= i < l.len() && l[i] == "*"@;
            assert(l[i].len() == 1);
            if i == 0 {
            } else if i == 1 {
            } else if i == 2 {
            } else if i == 3 {
            } else if i == 4 {
            } else if i == 5 {
            } else if i == 6 {
            } else if i == 7 {
            } else if i == 8 {
            } else if i == 9 {
            } else if i == 10 {
            } else if i == 11 {
            } else if i == 12 {
            } else if i == 13 {
            }
        }
    }
    if f == "hour"@ || f == "dockCode"@ || f == "adjustedStartTime"@ || f == "scheduleEndDate"@ || f == "scheduleEndTime"@ || f == "scac"@ || f == "statusOX"@ || f == "trailer1"@ || f == "trailer2"@ || f == "gateArrivalTime"@ || f == "actualStartTime"@ || f == "actualEndTime"@ || f == "door"@ || f == "doorArrivalTime"@ {
        if f == "hour"@ {
            assert(l[0] == f);
        }
        if f == "dockCode"@ {
            assert(l[1] == f);
        }
        if f == "adjustedStartTime"@ {
            assert(l[2] == f);
        }
        if f == "scheduleEndDate"@ {
            assert(l[3] == f);
        }
        if f == "scheduleEndTime"@ {
            assert(l[4] == f);
        }
        if f == "scac"@ {
            assert(l[5] == f);
        }
        if f == "statusOX"@ {
            assert(l[6] == f);
        }
        if f == "trailer1"@ {
            assert(l[7] == f);
        }
        if f == "trailer2"@ {
            assert(l[8] == f);
        }
        if f == "gateArrivalTime"@ {
            assert(l[9] == f);
        }
        if f == "actualStartTime"@ {
            assert(l[10] == f);
        }
        if f == "actualEndTime"@ {
            assert(l[11] == f);
        }
        if f == "door"@ {
            assert(l[12] == f);
        }
        if f == "doorArrivalTime"@ {
            assert(l[13] == f);
        }
    }
    if l.contains(f) {
        let i = choose|i: int| 0 <= i < l.len() && l[i] == f;
        if i == 0 {
            } else if i == 1 {
            } else if i == 2 {
            } else if i == 3 {
            } else if i == 4 {
            } else if i == 5 {
            } else if i == 6 {
            } else if i == 7 {
            } else if i == 8 {
            } else if i == 9 {
            } else if i == 10 {
            } else if i == 11 {
            } else if i == 12 {
            } else if i == 13 {
            }
    }
}

/// The fields a `clerk` may edit.
proof fn lemma_clerk_rights(f: Seq<char>)
    ensures
        (check_fields_spec("clerk"@, seq![f]) is Ok) <==> (f == "gateArrivalTime"@ || f == "actualStartTime"@ || f == "actualEndTime"@ || f == "door"@ || f == "doorArrivalTime"@ || f == "dockComments"@),
{
    reveal_strlit("*");
    reveal_strlit("admin");
    reveal_strlit("clerk");
    reveal_strlit("gateArrivalTime");
    reveal_strlit("actualStartTime");
    reveal_strlit("actualEndTime");
    reveal_strlit("door");
    reveal_strlit("doorArrivalTime");
    reveal_strlit("dockComments");
    reveal_strlit("supervisor");
    reveal_strlit("receiving");
    reveal_strlit("mfu");
    reveal_strlit("security");
    assert("admin"@.len() == 5 && "admin"@[0] == 'a');
    assert("supervisor"@.len() == 10 && "supervisor"@[0] == 's');
    assert("clerk"@.len() == 5 && "clerk"@[0] == 'c');
    assert("clerk"@ != "admin"@);
    assert("clerk"@ != "supervisor"@);
    lemma_single_field_check("clerk"@, f);
    let l = field_list("clerk"@);
    assert(allowed_fields_spec("clerk"@) is Some);
    assert(l == allowed_fields_spec("clerk"@)->0);
    assert(l.len() == 6);
    assert(!l.contains("*"@)) by {
        if l.contains("*"@) {
            let i = choose|i: int| 0 <= i < l.len() && l[i] == "*"@;
            assert(l[i].len() == 1);
            if i == 0 {
            } else if i == 1 {
            } else if i == 2 {
            } else if i == 3 {
            } else if i == 4 {
            } else if i == 5 {
            }
        }
    }
    if f == "gateArrivalTime"@ || f == "actualStartTime"@ || f == "actualEndTime"@ || f == "door"@ || f == "doorArrivalTime"@ || f == "dockComments"@ {
        if f == "gateArrivalTime"@ {
            assert(l[0] == f);
        }
        if f == "actualStartTime"@ {
            assert(l[1] == f);
        }
        if f == "actualEndTime"@ {
            assert(l[2] == f);
        }
        if f == "door"@ {
            assert(l[3] == f);
        }
        if f == "doorArrivalTime"@ {
            assert(l[4] == f);
        }
        if f == "dockComments"@ {
            assert(l[5] == f);
        }
    }
    if l.contains(f) {
        let i = choose|i: int| 0 <= i < l.len() && l[i] == f;
        if i == 0 {
            } else if i == 1 {
            } else if i == 2 {
            } else if i == 3 {
            } else if i == 4 {
            } else if i == 5 {
            }
    }
}

/// The fields a `receiving` may edit.
proof fn lemma_receiving_rights(f: Seq<char>)
    ensures
        (check_fields_spec("receiving"@, seq![f]) is Ok) <==> (f == "statusOX"@),
{
    reveal_strlit("*");
    reveal_strlit("admin");
    reveal_strlit("receiving");
    reveal_strlit("statusOX");
    reveal_strlit("supervisor");
    reveal_strlit("clerk");
    reveal_strlit("mfu");
    reveal_strlit("security");
    assert("admin"@.len() == 5 && "admin"@[0] == 'a');
    assert("supervisor"@.len() == 10 && "supervisor"@[0] == 's');
    assert("clerk"@.len() == 5 && "clerk"@[0] == 'c');
    assert("receiving"@.len() == 9 && "receiving"@[0] == 'r');
    assert("receiving"@ != "admin"@);
    assert("receiving"@ != "supervisor"@);
    assert("receiving"@ != "clerk"@);
    lemma_single_field_check("receiving"@, f);
    let l = field_list("receiving"@);
    assert(allowed_fields_spec("receiving"@) is Some);
    assert(l == allowed_fields_spec("receiving"@)->0);
    assert(l.len() == 1);
    assert(!l.contains("*"@)) by {
        if l.contains("*"@) {
            let i = choose|i: int| 0 <= i < l.len() && l[i] == "*"@;
            assert(l[i].len() == 1);
            if i == 0 {
            }
        }
    }
    if f == "statusOX"@ {
        if f == "statusOX"@ {
            assert(l[0] == f);
        }
    }
    if l.contains(f) {
        let i = choose|i: int| 0 <= i < l.len() && l[i] == f;
        if i == 0 {
            }
    }
}

/// The fields a `mfu` may edit.
proof fn lemma_mfu_rights(f: Seq<char>)
    ensures
        (check_fields_spec("mfu"@, seq![f]) is Ok) <==> (f == "ryderComments"@),
{
    reveal_strlit("*");
    reveal_strlit("admin");
    reveal_strlit("mfu");
    reveal_strlit("ryderComments");
    reveal_strlit("supervisor");
    reveal_strlit("clerk");
    reveal_strlit("receiving");
    reveal_strlit("security");
    assert("admin"@.len() == 5 && "admin"@[0] == 'a');
    assert("supervisor"@.len() == 10 && "supervisor"@[0] == 's');
    assert("clerk"@.len() == 5 && "clerk"@[0] == 'c');
    assert("receiving"@.len() == 9 && "receiving"@[0] == 'r');
    assert("mfu"@.len() == 3 && "mfu"@[0] == 'm');
    assert("mfu"@ != "admin"@);
    assert("mfu"@ != "supervisor"@);
    assert("mfu"@ != "clerk"@);
    assert("mfu"@ != "receiving"@);
    lemma_single_field_check("mfu"@, f);
    let l = field_list("mfu"@);
    assert(allowed_fields_spec("mfu"@) is Some);
    assert(l == allowed_fields_spec("mfu"@)->0);
    assert(l.len() == 1);
    assert(!l.contains("*"@)) by {
        if l.contains("*"@) {
            let i = choose|i: int| 0 <= i < l.len() && l[i] == "*"@;
            assert(l[i].len() == 1);
            if i == 0 {
            }
        }
    }
    if f == "ryderComments"@ {
        if f == "ryderComments"@ {
            assert(l[0] == f);
        }
    }
    if l.contains(f) {
        let i = choose|i: int| 0 <= i < l.len() && l[i] == f;
        if i == 0 {
            }
    }
}

/// The fields a `security` may edit.
proof fn lemma_security_rights(f: Seq<char>)
    ensures
        (check_fields_spec("security"@, seq![f]) is Ok) <==> (f == "gateArrivalTime"@ || f == "gmComments"@),
{
    reveal_strlit("*");
    reveal_strlit("admin");
    reveal_strlit("security");
    reveal_strlit("gateArrivalTime");
    reveal_strlit("gmComments");
    reveal_strlit("supervisor");
    reveal_strlit("clerk");
    reveal_strlit("receiving");
    reveal_strlit("mfu");
    assert("admin"@.len() == 5 && "admin"@[0] == 'a');
    assert("supervisor"@.len() == 10 && "supervisor"@[0] == 's');
    assert("clerk"@.len() == 5 && "clerk"@[0] == 'c');
    assert("receiving"@.len() == 9 && "receiving"@[0] == 'r');
    assert("mfu"@.len() == 3 && "mfu"@[0] == 'm');
    assert("security"@.len() == 8 && "security"@[0] == 's');
    assert("security"@ != "admin"@);
    assert("security"@ != "supervisor"@);
    assert("security"@ != "clerk"@);
    assert("security"@ != "receiving"@);
    assert("security"@ != "mfu"@);
    lemma_single_field_check("security"@, f);
    let l = field_list("security"@);
    assert(allowed_fields_spec("security"@) is Some);
    assert(l == allowed_fields_spec("security"@)->0);
    assert(l.len() == 2);
    assert(!l.contains("*"@)) by {
        if l.contains("*"@) {
            let i = choose|i: int| 0 <= i < l.len() && l[i] == "*"@;
            assert(l[i].len() == 1);
            if i == 0 {
            } else if i == 1 {
            }
        }
    }
    if f == "gateArrivalTime"@ || f == "gmComments"@ {
        if f == "gateArrivalTime"@ {
            assert(l[0] == f);
        }
        if f == "gmComments"@ {
            assert(l[1] == f);
        }
    }
    if l.contains(f) {
        let i = choose|i: int| 0 <= i < l.len() && l[i] == f;
        if i == 0 {
            } else if i == 1 {
            }
    }
}

/// The edit rights of each role, field by field: an administrator may edit
/// any field; a supervisor, clerk, receiving, MFU or security user exactly
/// the fields listed for that role; any other role none.
pub proof fn lemma_role_field_rights(role: Seq<char>, f: Seq<char>)
    ensures
        role == "admin"@ ==> (check_fields_spec(role, seq![f]) is Ok),
        role == "supervisor"@ ==> ((check_fields_spec(role, seq![f]) is Ok) <==> (f == "hour"@ || f == "dockCode"@ || f == "adjustedStartTime"@ || f == "scheduleEndDate"@ || f == "scheduleEndTime"@ || f == "scac"@ || f == "statusOX"@ || f == "trailer1"@ || f == "trailer2"@ || f == "gateArrivalTime"@ || f == "actualStartTime"@ || f == "actualEndTime"@ || f == "door"@ || f == "doorArrivalTime"@)),
        role == "clerk"@ ==> ((check_fields_spec(role, seq![f]) is Ok) <==> (f == "gateArrivalTime"@ || f == "actualStartTime"@ || f == "actualEndTime"@ || f == "door"@ || f == "doorArrivalTime"@ || f == "dockComments"@)),
        role == "receiving"@ ==> ((check_fields_spec(role, seq![f]) is Ok) <==> (f == "statusOX"@)),
        role == "mfu"@ ==> ((check_fields_spec(role, seq![f]) is Ok) <==> (f == "ryderComments"@)),
        role == "security"@ ==> ((check_fields_spec(role, seq![f]) is Ok) <==> (f == "gateArrivalTime"@ || f == "gmComments"@)),
        role != "admin"@ && role != "supervisor"@ && role != "clerk"@ && role != "receiving"@
            && role != "mfu"@ && role != "security"@ ==> check_fields_spec(role, seq![f]) is Err,
{
    lemma_single_field_check(role, f);
    if role == "supervisor"@ {
        lemma_supervisor_rights(f);
    }
    if role == "clerk"@ {
        lemma_clerk_rights(f);
    }
    if role == "receiving"@ {
        lemma_receiving_rights(f);
    }
    if role == "mfu"@ {
        lemma_mfu_rights(f);
    }
    if role == "security"@ {
        lemma_security_rights(f);
    }
    if role == "admin"@ {
        reveal_strlit("*");
        assert(field_list(role)[0] == "*"@);
    }
    if role != "admin"@ && role != "supervisor"@ && role != "clerk"@ && role != "receiving"@
        && role != "mfu"@ && role != "security"@ {
        assert(field_list(role).len() == 0);
    }
}

} // verus!
