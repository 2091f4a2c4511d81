use dockboard::grouping::group_trailers;
use dockboard::structs::TrailerEntry;

fn entry(load: &str, arrival: &str, acctor: &str, location: &str) -> TrailerEntry {
    TrailerEntry {
        loadNo: load.to_string(),
        schedArrival: arrival.to_string(),
        acctorId: acctor.to_string(),
        location: location.to_string(),
        ..Default::default()
    }
}

fn loads(v: &[TrailerEntry]) -> Vec<&str> {
    v.iter().map(|e| e.loadNo.as_str()).collect()
}

#[test]
fn empty_board() {
    assert!(group_trailers(&vec![]).is_empty());
}

#[test]
fn dates_newest_first_unreadable_last() {
    let es = vec![
        entry("a", "2024-01-14T08:00:00Z", "A", "1"),
        entry("b", "garbage", "A", "1"),
        entry("c", "2024-01-16T08:00:00Z", "A", "1"),
        entry("d", "2024-01-15T08:00:00Z", "A", "1"),
    ];
    let board = group_trailers(&es);
    let dates: Vec<&str> = board.iter().map(|g| g.date.as_str()).collect();
    assert_eq!(dates, vec!["2024-01-16", "2024-01-15", "2024-01-14", "Invalid Date"]);
    let bad = &board[3];
    assert_eq!(bad.shifts.len(), 1);
    assert_eq!(bad.shifts[0].shift, "Unknown");
}

#[test]
fn shifts_in_board_order_docks_by_name() {
    let es = vec![
        entry("a", "2024-01-15T15:00:00Z", "B", "2"),
        entry("b", "2024-01-15T08:00:00Z", "B", "1"),
        entry("c", "2024-01-15T03:00:00Z", "A", "9"),
        entry("d", "2024-01-15T09:00:00Z", "A", "1"),
        entry("e", "2024-01-14T23:00:00Z", "C", "1"),
    ];
    let board = group_trailers(&es);
    assert_eq!(board.len(), 1);
    let day = &board[0];
    assert_eq!(day.date, "2024-01-15");
    let shifts: Vec<&str> = day.shifts.iter().map(|s| s.shift.as_str()).collect();
    assert_eq!(shifts, vec!["3rd", "1st", "2nd"]);
    let third: Vec<&str> = day.shifts[0].docks.iter().map(|d| d.dock.as_str()).collect();
    assert_eq!(third, vec!["A-9", "C-1"]);
    let first: Vec<&str> = day.shifts[1].docks.iter().map(|d| d.dock.as_str()).collect();
    assert_eq!(first, vec!["A-1", "B-1"]);
    assert_eq!(loads(&day.shifts[2].docks[0].trailers), vec!["a"]);
}

#[test]
fn trailers_by_time_ties_keep_order() {
    let es = vec![
        entry("late", "2024-01-15T12:00:00Z", "A", "1"),
        entry("tie1", "2024-01-15T09:00:00Z", "A", "1"),
        entry("early", "2024-01-15T07:00:00Z", "A", "1"),
        entry("tie2", "2024-01-15T04:00:00-05:00", "A", "1"),
    ];
    let board = group_trailers(&es);
    let dock = &board[0].shifts[0].docks[0];
    assert_eq!(loads(&dock.trailers), vec!["early", "tie1", "tie2", "late"]);
}

#[test]
fn every_arrival_appears_once() {
    let es = vec![
        entry("a", "2024-01-15T08:00:00Z", "A", "1"),
        entry("b", "2024-01-15T22:30:00Z", "A", "1"),
        entry("c", "bad", "A", "1"),
        entry("d", "2024-01-15T08:00:00Z", "B", "1"),
    ];
    let board = group_trailers(&es);
    let mut seen = Vec::new();
    for g in &board {
        for s in &g.shifts {
            for d in &s.docks {
                for t in &d.trailers {
                    seen.push(t.loadNo.clone());
                }
            }
        }
    }
    seen.sort();
    assert_eq!(seen, vec!["a", "b", "c", "d"]);
    // The 22:30 arrival is on the next operational day, third shift.
    assert_eq!(board[0].date, "2024-01-16");
    assert_eq!(board[0].shifts[0].shift, "3rd");
}
