use dockboard::helpers::{
    day_key, get_dock, get_event_type, get_op_date, get_shift, get_shift_window, offset_date,
    parse_asn_arrival, parse_eta, split_date_shift, week_starts, window_hour_dates,
};

const DAY_2024_01_15: i64 = 738900 * 86400;

#[test]
fn shift_boundaries() {
    assert_eq!(get_shift(5), "3rd");
    assert_eq!(get_shift(6), "1st");
    assert_eq!(get_shift(13), "1st");
    assert_eq!(get_shift(14), "2nd");
    assert_eq!(get_shift(21), "2nd");
    assert_eq!(get_shift(22), "3rd");
    assert_eq!(get_shift(0), "3rd");
    assert_eq!(get_shift(30), "3rd");
}

#[test]
fn dock_label_joins_id_and_location() {
    assert_eq!(get_dock("GM01", "North"), "GM01-North");
    assert_eq!(get_dock("", ""), "-");
}

#[test]
fn op_date_moves_third_shift_to_next_day() {
    assert_eq!(get_op_date("2024-01-15T21:59:00Z"), "2024-01-15");
    assert_eq!(get_op_date("2024-01-15T22:00:00Z"), "2024-01-16");
    assert_eq!(get_op_date("2024-01-15T03:00:00Z"), "2024-01-15");
    assert_eq!(get_op_date("2024-02-28T23:30:00Z"), "2024-02-29");
}

#[test]
fn op_date_reads_the_time_in_utc() {
    // 17:30 at UTC-05:00 is 22:30 UTC, so it belongs to the next day.
    assert_eq!(get_op_date("2024-01-15T17:30:00-05:00"), "2024-01-16");
}

#[test]
fn op_date_of_garbage_is_invalid() {
    assert_eq!(get_op_date("not a time"), "Invalid Date");
    assert_eq!(get_op_date(""), "Invalid Date");
}

#[test]
fn asn_arrival_combines_date_and_time() {
    assert_eq!(parse_asn_arrival("2024-01-15", "08:30"), Some(DAY_2024_01_15 + 8 * 3600 + 30 * 60));
    assert_eq!(parse_asn_arrival("", "08:30"), None);
    assert_eq!(parse_asn_arrival("2024-01-15", ""), None);
    assert_eq!(parse_asn_arrival("2024-13-40", "08:30"), None);
    assert_eq!(parse_asn_arrival("2024-01-15", "8h"), None);
}

#[test]
fn eta_is_placed_in_the_window() {
    let start = DAY_2024_01_15 + 22 * 3600;
    assert_eq!(parse_eta("23:00", start), Some(DAY_2024_01_15 + 23 * 3600));
    assert_eq!(parse_eta("02:00", start), Some(DAY_2024_01_15 + 86400 + 2 * 3600));
    assert_eq!(parse_eta("22:00", start), Some(start));
    assert_eq!(parse_eta("", start), None);
    assert_eq!(parse_eta("xx", start), None);
}

#[test]
fn window_of_first_shift() {
    let w = get_shift_window("2024-01-15", 8);
    assert_eq!(w.date1, "2024-01-15");
    assert_eq!(w.hours1, vec!["06", "07", "08", "09", "10", "11", "12", "13"]);
    assert_eq!(w.date2, "2024-01-15");
    assert!(w.hours2.is_empty());
}

#[test]
fn window_of_second_shift() {
    let w = get_shift_window("2024-01-15", 21);
    assert_eq!(w.hours1, vec!["14", "15", "16", "17", "18", "19", "20", "21"]);
    assert!(w.hours2.is_empty());
}

#[test]
fn window_of_late_third_shift_reaches_next_day() {
    let w = get_shift_window("2024-01-15", 23);
    assert_eq!(w.date1, "2024-01-15");
    assert_eq!(w.hours1, vec!["22", "23"]);
    assert_eq!(w.date2, "2024-01-16");
    assert_eq!(w.hours2, vec!["00", "01", "02", "03", "04", "05"]);
}

#[test]
fn window_of_early_third_shift_began_the_day_before() {
    let w = get_shift_window("2024-03-01", 2);
    assert_eq!(w.date1, "2024-02-29");
    assert_eq!(w.hours1, vec!["22", "23"]);
    assert_eq!(w.date2, "2024-03-01");
    assert_eq!(w.hours2, vec!["00", "01", "02", "03", "04", "05"]);
}

#[test]
fn window_of_hour_out_of_range_is_empty() {
    let w = get_shift_window("2024-01-15", 24);
    assert!(w.hours1.is_empty());
    assert!(w.hours2.is_empty());
    assert_eq!(w.date1, "2024-01-15");
}

#[test]
fn window_with_unreadable_date_keeps_it() {
    let w = get_shift_window("someday", 23);
    assert_eq!(w.date2, "someday");
}

#[test]
fn window_hours_hold_exactly_the_shift() {
    for hour in 0u32..24 {
        let w = get_shift_window("2024-01-15", hour);
        let mut all = w.hours1.clone();
        all.extend(w.hours2.clone());
        for h in 0u32..24 {
            let label = format!("{:02}", h);
            assert_eq!(all.contains(&label), get_shift(h) == get_shift(hour), "hour {hour} h {h}");
        }
        let pairs = window_hour_dates(&w);
        assert!(pairs.contains(&(format!("{:02}", hour), "2024-01-15".to_string())));
    }
}

#[test]
fn hour_dates_pair_each_hour_with_its_day() {
    let w = get_shift_window("2024-01-15", 22);
    let pairs = window_hour_dates(&w);
    assert_eq!(pairs.len(), 8);
    assert_eq!(pairs[0], ("22".to_string(), "2024-01-15".to_string()));
    assert_eq!(pairs[2], ("00".to_string(), "2024-01-16".to_string()));
    assert_eq!(pairs[7], ("05".to_string(), "2024-01-16".to_string()));
}

#[test]
fn offset_date_moves_days() {
    assert_eq!(offset_date("2024-01-15", 1), "2024-01-16");
    assert_eq!(offset_date("2024-01-01", -1), "2023-12-31");
    assert_eq!(offset_date("junk", 1), "junk");
}

#[test]
fn event_types() {
    assert_eq!(get_event_type("door"), "Trailer Updates");
    assert_eq!(get_event_type("LiveAdd"), "Trailer Updates");
    assert_eq!(get_event_type("shift_rolled"), "Shift Roll");
    assert_eq!(get_event_type("hot_part_created"), "Hot Parts");
    assert_eq!(get_event_type("hot_part_closed"), "Hot Parts");
    assert_eq!(get_event_type("exception_uploaded"), "Uploads");
    assert_eq!(get_event_type("dycomm_uploaded"), "Uploads");
    assert_eq!(get_event_type("whatever"), "Other");
}

#[test]
fn day_keys() {
    assert_eq!(day_key("2024-01-14", 0), "2024-01-14_0");
    assert_eq!(day_key("2024-01-14", 6), "2024-01-14_6");
    assert_eq!(day_key("w", 12345), "w_12345");
}

#[test]
fn date_shift_split() {
    assert_eq!(
        split_date_shift("2024-01-15-1st"),
        Some(("2024-01-15".to_string(), "1st".to_string()))
    );
    assert_eq!(
        split_date_shift("2024-01-15-3rd-extra"),
        Some(("2024-01-15".to_string(), "3rd".to_string()))
    );
    assert_eq!(split_date_shift("2024-01-15"), None);
}

#[test]
fn five_week_starts_newest_first() {
    let v = week_starts("2024-03-03").unwrap();
    assert_eq!(v, vec!["2024-03-03", "2024-02-25", "2024-02-18", "2024-02-11", "2024-02-04"]);
    assert_eq!(week_starts("03/03/2024"), None);
}
