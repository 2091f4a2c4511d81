use dockboard::alerts::{
    alert_level, asn_display, asn_window_index, carrier_late_body, carrier_late_subject,
    classify_hours, classify_minutes, hours_to_out, late_cutoff, late_trailer_body,
    late_trailer_subject, level_rank, minutes_between, monitoring_window, next_saving_asn,
    order_asns, outage_at, sms_due, sms_eligible, sms_endpoint, sms_form, worse_level, AsnRef,
};
use dockboard::structs::{LateNotifyRequest, TrailerRecord};

const DAY: i64 = 738900 * 86400; // 2024-01-15 00:00

fn asn(eda: &str, eta: &str, row: u64) -> AsnRef {
    AsnRef { eda: eda.to_string(), eta: eta.to_string(), trailer: format!("T{row}"), row }
}

#[test]
fn ranks() {
    assert_eq!(level_rank(Some("Shut Down")), 0);
    assert_eq!(level_rank(Some("Emerging Issue")), 1);
    assert_eq!(level_rank(Some("Hot")), 2);
    assert_eq!(level_rank(Some("Warm")), 3);
    assert_eq!(level_rank(None), 3);
}

#[test]
fn worse_level_picks_most_urgent() {
    assert_eq!(worse_level(Some("Hot"), Some("Shut Down")), Some("Shut Down"));
    assert_eq!(worse_level(Some("Emerging Issue"), Some("Hot")), Some("Emerging Issue"));
    assert_eq!(worse_level(None, Some("Hot")), Some("Hot"));
    assert_eq!(worse_level(Some("Hot"), None), Some("Hot"));
    assert_eq!(worse_level(None, None), None);
    // On a tie the first is kept.
    assert_eq!(worse_level(Some("Other"), None), Some("Other"));
    assert_eq!(worse_level(None, Some("Other")), None);
}

#[test]
fn worse_level_rank_is_the_minimum() {
    let levels = [None, Some("Shut Down"), Some("Emerging Issue"), Some("Hot"), Some("x")];
    for a in levels {
        for b in levels {
            let r = worse_level(a, b);
            assert!(r == a || r == b);
            assert_eq!(level_rank(r), level_rank(a).min(level_rank(b)));
        }
    }
}

#[test]
fn classification_thresholds() {
    assert_eq!(classify_hours(-3), Some("Shut Down"));
    assert_eq!(classify_hours(0), Some("Shut Down"));
    assert_eq!(classify_hours(1), Some("Emerging Issue"));
    assert_eq!(classify_hours(2), Some("Emerging Issue"));
    assert_eq!(classify_hours(3), Some("Hot"));
    assert_eq!(classify_hours(6), Some("Hot"));
    assert_eq!(classify_hours(7), None);
    assert_eq!(classify_minutes(0), Some("Shut Down"));
    assert_eq!(classify_minutes(1), Some("Emerging Issue"));
    assert_eq!(classify_minutes(120), Some("Emerging Issue"));
    assert_eq!(classify_minutes(121), Some("Hot"));
    assert_eq!(classify_minutes(360), Some("Hot"));
    assert_eq!(classify_minutes(361), None);
}

#[test]
fn part_alert_level() {
    assert_eq!(alert_level(10, None), None);
    assert_eq!(alert_level(10, Some(30)), Some("Emerging Issue"));
    assert_eq!(alert_level(1, Some(300)), Some("Emerging Issue"));
    assert_eq!(alert_level(5, Some(-10)), Some("Shut Down"));
}

#[test]
fn text_messages() {
    assert!(sms_eligible("Shut Down"));
    assert!(sms_eligible("Emerging Issue"));
    assert!(!sms_eligible("Hot"));
    assert!(sms_due("Shut Down", None));
    assert!(sms_due("Shut Down", Some(31)));
    assert!(!sms_due("Shut Down", Some(30)));
    assert!(!sms_due("Hot", None));
}

#[test]
fn minutes_truncate_toward_zero() {
    assert_eq!(minutes_between(DAY + 150, DAY), 2);
    assert_eq!(minutes_between(DAY, DAY + 150), -2);
    assert_eq!(minutes_between(DAY, DAY), 0);
}

#[test]
fn window_starts_at_ten_pm() {
    let (start, hour) = monitoring_window(DAY + 23 * 3600 + 59 * 60);
    assert_eq!(start, DAY + 22 * 3600);
    assert_eq!(hour, 1);
    let (start, hour) = monitoring_window(DAY + 21 * 3600 + 59 * 60);
    assert_eq!(start, DAY - 2 * 3600);
    assert_eq!(hour, 23);
    let (start, hour) = monitoring_window(DAY + 22 * 3600);
    assert_eq!(start, DAY + 22 * 3600);
    assert_eq!(hour, 0);
}

#[test]
fn window_slots() {
    let start = DAY + 22 * 3600;
    assert_eq!(asn_window_index(start - 10, start), 0);
    assert_eq!(asn_window_index(start - 7200, start), 0);
    assert_eq!(asn_window_index(start + 3599, start), 0);
    assert_eq!(asn_window_index(start + 3600, start), 1);
    assert_eq!(asn_window_index(start + 5 * 3600 + 1, start), 5);
    assert_eq!(outage_at(start, 3), start + 3 * 3600);
    assert_eq!(hours_to_out(5, 2), 3);
    assert_eq!(hours_to_out(1, 4), -3);
}

#[test]
fn notices_in_arrival_order() {
    let v = vec![
        asn("2024-01-16", "08:00", 0),
        asn("", "08:00", 1),
        asn("2024-01-15", "09:00", 2),
        asn("2024-01-16", "08:00", 3),
        asn("bad", "x", 4),
    ];
    let rows: Vec<u64> = order_asns(v).iter().map(|a| a.row).collect();
    assert_eq!(rows, vec![1, 4, 2, 0, 3]);
}

#[test]
fn saving_notice_search() {
    let v = vec![
        asn("2024-01-15", "09:00", 0),
        asn("", "", 1),
        asn("2024-01-15", "05:00", 2),
        asn("2024-01-15", "03:00", 3),
    ];
    let downtime = DAY + 6 * 3600;
    assert_eq!(next_saving_asn(&v, 0, downtime), Some(2));
    assert_eq!(next_saving_asn(&v, 3, downtime), Some(3));
    assert_eq!(next_saving_asn(&v, 4, downtime), None);
    assert_eq!(next_saving_asn(&v, 0, DAY), None);
}

#[test]
fn notice_display() {
    assert_eq!(asn_display("", "08:00"), "N/A");
    assert_eq!(asn_display("2024-01-15", "08:00"), "2024-01-15 08:00");
}

#[test]
fn late_trailer_mail() {
    let t = TrailerRecord {
        trailer1: "TR1".to_string(),
        routeId: "R9".to_string(),
        dockCode: "V".to_string(),
        scac: "ABCD".to_string(),
        scheduleStartDate: "2024-01-15".to_string(),
        adjustedStartTime: "08:30".to_string(),
        ..Default::default()
    };
    assert_eq!(late_trailer_subject(&t.routeId), "Late Trailer - Route R9");
    assert_eq!(
        late_trailer_body(&t),
        "Trailer TR1 on route R9 has been flagged as late.\n\nDock: V\nSCAC: ABCD\nScheduled: 2024-01-15 at 08:30\n"
    );
}

#[test]
fn late_cutoff_is_fifteen_minutes_back() {
    assert_eq!(late_cutoff(DAY + 8 * 3600 + 10 * 60), Some("2024-01-15T07:55".to_string()));
    assert_eq!(late_cutoff(DAY + 5 * 60), Some("2024-01-14T23:50".to_string()));
    assert_eq!(late_cutoff(i64::MAX), None);
}

#[test]
fn carrier_mail() {
    let r = LateNotifyRequest {
        scac: "ABCD".to_string(),
        load_no: "L1".to_string(),
        route_id: "R2".to_string(),
        scheduled_date: "2024-01-15".to_string(),
        scheduled_time: "08:00".to_string(),
        dock: "V".to_string(),
    };
    assert_eq!(carrier_late_subject(&r), "Late Trailer Notification — Load L1 | Route R2 | Dock V");
    assert_eq!(
        carrier_late_body(&r),
        "This is an automated notification from GM MGO.\n\nLoad L1 (Route: R2, Dock: V) was scheduled for 08:00 on 2024-01-15 and has been confirmed late.\n\nPlease contact the facility if you have questions."
    );
}

#[test]
fn sms_request() {
    assert_eq!(sms_endpoint("AC1"), "https://api.twilio.com/2010-04-01/Accounts/AC1/Messages.json");
    assert_eq!(
        sms_form("+1", "+2", "hi"),
        vec![
            ("To".to_string(), "+1".to_string()),
            ("From".to_string(), "+2".to_string()),
            ("Body".to_string(), "hi".to_string())
        ]
    );
}
