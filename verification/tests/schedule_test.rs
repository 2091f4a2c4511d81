use dockboard::records::{
    archive_plan, dock_count_response, issue_edit_refs, parse_hour, parse_u32, smtp_port,
    sum_counts, trailer_destinations, ArchiveSource,
};
use dockboard::structs::{InTransit, ShiftSlot, TrailerRecord};
use dockboard::week::{
    assemble_day, assemble_week, saturday_count, shift_assignable, zip_assignments, DayRow, WeekRow,
};

fn s(v: &[&str]) -> Vec<String> {
    v.iter().map(|x| x.to_string()).collect()
}

fn slot(name: &str) -> ShiftSlot {
    ShiftSlot {
        shift: name.to_string(),
        shift_status: "active".to_string(),
        shift_reason: String::new(),
        assigned: vec![],
    }
}

fn week_row(offset: u64, date: &str, day: &str, shift: &str) -> WeekRow {
    WeekRow { date: date.to_string(), day_name: day.to_string(), offset, slot: slot(shift) }
}

#[test]
fn assignments_zip_to_shortest_column() {
    let r = zip_assignments(
        &s(&["ann", "bob", "cy"]),
        &s(&["Ann A", "Bob B"]),
        &s(&["clerk", "mfu", "x"]),
        &s(&["p1", "p2", "p3"]),
        &s(&["t1", "t2", "t3"]),
        &s(&["work", "train", "work"]),
    );
    assert_eq!(r.len(), 2);
    assert_eq!(r[1].user_name, "bob");
    assert_eq!(r[1].full_name, "Bob B");
    assert_eq!(r[1].role, "mfu");
    assert_eq!(r[1].task_type, "train");
    assert!(zip_assignments(&s(&[]), &s(&["a"]), &s(&["a"]), &s(&["a"]), &s(&["a"]), &s(&["a"])).is_empty());
}

#[test]
fn closed_shifts_take_no_assignment() {
    assert_eq!(shift_assignable(Some("holiday")), Err("Cannot assign to a holiday or closed shift"));
    assert_eq!(shift_assignable(Some("closed")), Err("Cannot assign to a holiday or closed shift"));
    assert_eq!(shift_assignable(Some("active")), Ok(()));
    assert_eq!(shift_assignable(Some("Holiday")), Ok(()));
    assert_eq!(shift_assignable(None), Ok(()));
}

#[test]
fn day_takes_last_row_name() {
    let rows = vec![
        DayRow { day_name: "Monday".to_string(), offset: 1, slot: slot("1st") },
        DayRow { day_name: "Mon".to_string(), offset: 2, slot: slot("2nd") },
    ];
    let d = assemble_day("2024-01-15".to_string(), rows);
    assert_eq!(d.date, "2024-01-15");
    assert_eq!(d.name, "Mon");
    assert_eq!(d.offset, 2);
    assert_eq!(d.shifts.iter().map(|x| x.shift.as_str()).collect::<Vec<_>>(), vec!["1st", "2nd"]);
    let empty = assemble_day("d".to_string(), vec![]);
    assert_eq!(empty.name, "");
    assert_eq!(empty.offset, 0);
    assert!(empty.shifts.is_empty());
}

#[test]
fn week_days_by_offset() {
    let rows = vec![
        week_row(2, "w_2", "Tuesday", "1st"),
        week_row(0, "w_0", "Sunday", "1st"),
        week_row(2, "w_2x", "Other", "2nd"),
        week_row(1, "w_1", "Monday", "3rd"),
        week_row(0, "w_0", "Sunday", "2nd"),
    ];
    let w = assemble_week("w".to_string(), rows);
    assert_eq!(w.start_date, "w");
    assert_eq!(w.days.iter().map(|d| d.offset).collect::<Vec<_>>(), vec![0, 1, 2]);
    assert_eq!(w.days[2].date, "w_2");
    assert_eq!(w.days[2].name, "Tuesday");
    assert_eq!(w.days[2].shifts.iter().map(|x| x.shift.as_str()).collect::<Vec<_>>(), vec!["1st", "2nd"]);
    assert_eq!(w.days[0].shifts.len(), 2);
    assert!(assemble_week("w".to_string(), vec![]).days.is_empty());
}

#[test]
fn weekend_counts() {
    let c = saturday_count("u".to_string(), "U".to_string(), "p".to_string(), "1st".to_string(), 2, 7);
    assert_eq!(c.saturdays_off, 3);
    assert_eq!(c.mondays_off, 0);
    assert_eq!(c.saturdays_worked + c.saturdays_off, 5);
    let c = saturday_count("u".to_string(), "U".to_string(), "p".to_string(), "1st".to_string(), 5, 0);
    assert_eq!(c.saturdays_off, 0);
    assert_eq!(c.mondays_off, 5);
}

fn staged(origin: &str, load: &str) -> TrailerRecord {
    TrailerRecord {
        origin: origin.to_string(),
        lmsAccent: load.to_string(),
        dockCode: "V".to_string(),
        trailer1: format!("T-{load}"),
        ..Default::default()
    }
}

#[test]
fn archive_steps_for_drop_yard_and_exceptions() {
    let lines = vec![staged("DropYard", "1"), staged("Manual", "2"), staged("Exception", "3"), staged("dropyard", "4")];
    let plan = archive_plan(&lines);
    assert_eq!(plan.len(), 2);
    assert_eq!(plan[0].source, ArchiveSource::DropYard);
    assert_eq!(plan[0].load_num, "1");
    assert_eq!(plan[0].trailer, "T-1");
    assert_eq!(plan[1].source, ArchiveSource::Exception);
    assert_eq!(plan[1].dock, "V");
}

fn transit(trailer: &str, dest: &str) -> InTransit {
    InTransit {
        trailer: trailer.to_string(),
        destination: dest.to_string(),
        supplier: format!("S-{dest}"),
        location: format!("L-{dest}"),
        ..Default::default()
    }
}

#[test]
fn first_line_of_each_trailer_decides_its_schedule() {
    let lines = vec![transit("A", "d1"), transit("B", "d2"), transit("A", "d3"), transit("C", "d4")];
    let d = trailer_destinations(&lines);
    assert_eq!(d.iter().map(|x| x.trailer.as_str()).collect::<Vec<_>>(), vec!["A", "B", "C"]);
    assert_eq!(d[0].destination, "d1");
    assert_eq!(d[0].supplier, "S-d1");
    assert_eq!(d[0].location, "L-d1");
    assert!(trailer_destinations(&vec![]).is_empty());
}

#[test]
fn edit_refs_are_fresh_and_paired() {
    let recs = vec![
        TrailerRecord { uuid: "u1".to_string(), editRef: "old".to_string(), door: "3".to_string(), ..Default::default() },
        TrailerRecord { uuid: "u2".to_string(), ..Default::default() },
    ];
    let (out, refs) = issue_edit_refs(recs);
    assert_eq!(out.len(), 2);
    assert_eq!(refs.len(), 2);
    assert_eq!(refs[0].1, "u1");
    assert_eq!(refs[1].1, "u2");
    assert_eq!(refs[0].0, out[0].editRef);
    assert_ne!(out[0].editRef, "old");
    assert_eq!(out[0].editRef.len(), 36);
    assert_eq!(out[0].door, "3");
    assert_ne!(out[0].editRef, out[1].editRef);
}

#[test]
fn decimal_parsing() {
    assert_eq!(parse_u32("8"), Some(8));
    assert_eq!(parse_u32("+23"), Some(23));
    assert_eq!(parse_u32("007"), Some(7));
    assert_eq!(parse_u32("4294967295"), Some(4294967295));
    assert_eq!(parse_u32("4294967296"), None);
    assert_eq!(parse_u32(""), None);
    assert_eq!(parse_u32("+"), None);
    assert_eq!(parse_u32("-1"), None);
    assert_eq!(parse_u32(" 8"), None);
    assert_eq!(parse_u32("8a"), None);
    assert_eq!(parse_hour("14"), 14);
    assert_eq!(parse_hour("x"), 0);
    assert_eq!(smtp_port(None), 25);
    assert_eq!(smtp_port(Some("587")), 587);
    assert_eq!(smtp_port(Some("70000")), 25);
    assert_eq!(smtp_port(Some("abc")), 25);
}

#[test]
fn dock_counts() {
    assert_eq!(sum_counts(&vec![Some(2), None, Some(5)]), 7);
    assert_eq!(sum_counts(&vec![]), 0);
    assert_eq!(sum_counts(&vec![Some(4294967296 + 3)]), 3);
    assert_eq!(sum_counts(&vec![Some(-1)]), 4294967295);
    let r = dock_count_response(
        &s(&["22", "23"]),
        &vec![vec![Some(1), Some(2), None], vec![None, None, None]],
        &vec![Some(3), Some(4), Some(0)],
    );
    assert_eq!(r.hourly.len(), 2);
    assert_eq!(r.hourly[0].hour, "22");
    assert_eq!(r.hourly[0].count, 3);
    assert_eq!(r.hourly[1].count, 0);
    assert_eq!(r.shift_total, 7);
}

#[test]
fn destinations_follow_first_appearance() {
    let lines = vec![transit("Z", "d1"), transit("M", "d2"), transit("Z", "d3"), transit("A", "d4"), transit("M", "d5")];
    let d = trailer_destinations(&lines);
    assert_eq!(d.iter().map(|x| x.trailer.as_str()).collect::<Vec<_>>(), vec!["Z", "M", "A"]);
    assert_eq!(d[1].destination, "d2");
}

#[test]
fn edit_refs_are_version_four_uuid_text() {
    let (out, _) = issue_edit_refs(vec![TrailerRecord::default()]);
    let r: Vec<char> = out[0].editRef.chars().collect();
    assert_eq!(r.len(), 36);
    for (i, c) in r.iter().enumerate() {
        if i == 8 || i == 13 || i == 18 || i == 23 {
            assert_eq!(*c, '-');
        } else {
            assert!(c.is_ascii_digit() || ('a'..='f').contains(c));
        }
    }
    assert_eq!(r[14], '4');
    assert!(['8', '9', 'a', 'b'].contains(&r[19]));
}
