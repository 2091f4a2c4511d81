use dockboard::permissions::{
    build_update_query, check_fields, dock_scope, filter_records_for_role, get_allowed_fields,
    get_requested_fields, is_admin, is_admin_or_manager, is_admin_or_supervisor, is_dock_restricted,
    may_list_users_admin,
};
use dockboard::structs::TrailerRecord;

fn record(dock: &str, uuid: &str) -> TrailerRecord {
    TrailerRecord { dockCode: dock.to_string(), uuid: uuid.to_string(), ..Default::default() }
}

#[test]
fn allowed_fields_table() {
    assert_eq!(get_allowed_fields("admin"), Some(vec!["*"]));
    assert_eq!(get_allowed_fields("receiving"), Some(vec!["statusOX"]));
    assert_eq!(get_allowed_fields("mfu"), Some(vec!["ryderComments"]));
    assert_eq!(get_allowed_fields("security"), Some(vec!["gateArrivalTime", "gmComments"]));
    assert_eq!(
        get_allowed_fields("clerk"),
        Some(vec![
            "gateArrivalTime",
            "actualStartTime",
            "actualEndTime",
            "door",
            "doorArrivalTime",
            "dockComments"
        ])
    );
    assert_eq!(get_allowed_fields("supervisor").unwrap().len(), 14);
    assert_eq!(get_allowed_fields("manager"), None);
    assert_eq!(get_allowed_fields("Admin"), None);
    assert_eq!(get_allowed_fields(""), None);
}

#[test]
fn admin_may_change_anything() {
    assert_eq!(check_fields("admin", &["hour", "anything", "uuid"]), Ok(()));
}

#[test]
fn denied_fields_listed_in_order() {
    assert_eq!(
        check_fields("receiving", &["hour", "statusOX", "door"]),
        Err(vec!["hour".to_string(), "door".to_string()])
    );
    assert_eq!(check_fields("security", &["gateArrivalTime", "gmComments"]), Ok(()));
    assert_eq!(check_fields("security", &[]), Ok(()));
}

#[test]
fn unknown_role_is_refused_every_field() {
    assert_eq!(
        check_fields("visitor", &["door", "hour"]),
        Err(vec!["door".to_string(), "hour".to_string()])
    );
    assert_eq!(check_fields("visitor", &[]), Ok(()));
}

#[test]
fn requested_fields_follow_filled_values() {
    let mut t = TrailerRecord::default();
    assert!(get_requested_fields(&t).is_empty());
    t.door = "D1".to_string();
    assert!(get_requested_fields(&t).is_empty());
    t.scac = "ABCD".to_string();
    t.hour = "08".to_string();
    t.gmComments = Some(String::new());
    assert_eq!(get_requested_fields(&t), vec!["hour", "scac", "gmComments"]);
    t.lateComments = Some("late".to_string());
    t.ryderComments = "ok".to_string();
    assert_eq!(get_requested_fields(&t), vec!["hour", "scac", "ryderComments", "gmComments", "lateComments"]);
}

#[test]
fn update_query_for_receiving_sets_status_only() {
    let mut t = record("U", "u-1");
    t.statusOX = "P".to_string();
    let q = build_update_query("receiving", &t);
    assert_eq!(q.text, "MATCH (t:LiveTrailer {uuid: $uuid}) SET t.statusOX = $statusOX RETURN t");
    assert_eq!(q.params.len(), 18);
    assert_eq!(q.params[0], ("uuid".to_string(), "u-1".to_string()));
    assert_eq!(q.params[12], ("statusOX".to_string(), "P".to_string()));
}

#[test]
fn update_query_for_security() {
    let t = record("V", "x");
    let q = build_update_query("security", &t);
    assert_eq!(
        q.text,
        "MATCH (t:LiveTrailer {uuid: $uuid}) SET t.gateArrivalTime = $gateArrivalTime, t.gmComments = $gmComments RETURN t"
    );
    assert_eq!(q.params[14], ("gmComments".to_string(), String::new()));
}

#[test]
fn update_query_for_admin_sets_every_field() {
    let t = record("V", "x");
    let q = build_update_query("admin", &t);
    assert!(q.text.starts_with("MATCH (t:LiveTrailer {uuid: $uuid}) SET t.hour = $hour, t.dockCode = $dockCode"));
    assert!(q.text.ends_with("t.door = $door, t.doorArrivalTime = $doorArrivalTime RETURN t"));
    assert_eq!(q.text.matches(" = $").count(), 17);
}

#[test]
fn update_query_for_unknown_role_sets_nothing() {
    let q = build_update_query("visitor", &record("V", "x"));
    assert_eq!(q.text, "MATCH (t:LiveTrailer {uuid: $uuid}) SET  RETURN t");
}

#[test]
fn checked_request_is_written() {
    // What check_fields accepts for a role, the update statement sets.
    let mut t = TrailerRecord::default();
    t.gateArrivalTime = "10:00".to_string();
    t.door = "4".to_string();
    let fields = get_requested_fields(&t);
    assert_eq!(check_fields("clerk", &fields), Ok(()));
    let q = build_update_query("clerk", &t);
    for f in fields {
        assert!(q.text.contains(&format!("t.{f} = ${f}")));
    }
}

#[test]
fn dock_restriction() {
    assert!(is_dock_restricted("vaa"));
    assert!(is_dock_restricted("univ_clerk"));
    assert!(!is_dock_restricted("admin"));
    assert_eq!(dock_scope("vaa"), Some("V"));
    assert_eq!(dock_scope("univ"), Some("U"));
    assert_eq!(dock_scope("vaa-univ"), Some("V"));
    assert_eq!(dock_scope("manager"), None);
}

#[test]
fn records_filtered_by_role() {
    let recs = vec![record("U", "1"), record("V", "2"), record("U", "3"), record("Y", "4")];
    let u = filter_records_for_role("univ", recs.clone());
    assert_eq!(u.iter().map(|r| r.uuid.as_str()).collect::<Vec<_>>(), vec!["1", "3"]);
    let v = filter_records_for_role("vaa", recs.clone());
    assert_eq!(v.iter().map(|r| r.uuid.as_str()).collect::<Vec<_>>(), vec!["2"]);
    assert_eq!(filter_records_for_role("admin", recs.clone()).len(), 4);
    assert!(filter_records_for_role("vaa-univ", recs).is_empty());
}

#[test]
fn role_gates() {
    assert!(is_admin_or_manager("admin") && is_admin_or_manager("manager"));
    assert!(!is_admin_or_manager("supervisor"));
    assert!(is_admin_or_supervisor("supervisor") && !is_admin_or_supervisor("manager"));
    assert!(is_admin("admin") && !is_admin("administrator"));
    assert!(may_list_users_admin("manager"));
    assert!(may_list_users_admin("area_manager"));
    assert!(!may_list_users_admin("admin"));
    assert!(!may_list_users_admin("vaa_manager"));
}
