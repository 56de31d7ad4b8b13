use cube_timer::app::App;
use cube_timer::persist::{parse_line, parse_times};
use cube_timer::stats::Time;

fn fresh_app() -> App {
    App::new(100, String::new())
}

// A file with a malformed line: the good lines load in order, the bad one
// is silently discarded; two records define no ao5 or ao12.
#[test]
fn load_skips_malformed_lines() {
    let mut app = fresh_app();
    app.load_times(b"12.5\nabc\n7.0\n");
    let stored: Vec<u64> = app.times.times.iter().map(|r| r.time).collect();
    assert_eq!(stored, vec![12_500, 7_000]);
    assert_eq!(app.times.times[0].ao5, None);
    assert_eq!(app.times.times[1].ao5, None);
    assert_eq!(app.times.times[1].ao12, None);
}

// Saving and reloading reproduces the same raw times and, re-derived from
// them, the same statistics.
#[test]
fn save_load_round_trip() {
    let mut app = fresh_app();
    for t in [10_000u64, 11_000, 9_000, 12_000, 8_000] {
        app.times.insert(Time::from(t));
    }
    let bytes = app.write_times();
    let mut reloaded = fresh_app();
    reloaded.load_times(&bytes);

    let before: Vec<u64> = app.times.times.iter().map(|r| r.time).collect();
    let after: Vec<u64> = reloaded.times.times.iter().map(|r| r.time).collect();
    assert_eq!(before, after);
    assert_eq!(reloaded.times.pbsingle, app.times.pbsingle);
    assert_eq!(reloaded.times.pbao5, app.times.pbao5);
    assert_eq!(reloaded.times.pbao12, app.times.pbao12);
    assert_eq!(reloaded.times.rollingavg, app.times.rollingavg);
    assert_eq!(reloaded.times.sum, app.times.sum);
    for (a, b) in app.times.times.iter().zip(reloaded.times.times.iter()) {
        assert_eq!(a.ao5, b.ao5);
        assert_eq!(a.ao12, b.ao12);
    }
}

// The written file holds one line per record, three fractional digits,
// newline terminated, in storage order.
#[test]
fn written_bytes_exact() {
    let mut app = fresh_app();
    app.times.insert(Time::from(12_500));
    app.times.insert(Time::from(700));
    assert_eq!(app.write_times(), b"12.500\n0.700\n".to_vec());
}

#[test]
fn parse_line_accepts_plain_forms() {
    assert_eq!(parse_line(b"12.5"), Some(12_500));
    assert_eq!(parse_line(b"7"), Some(7_000));
    assert_eq!(parse_line(b"7."), Some(7_000));
    assert_eq!(parse_line(b"0.125"), Some(125));
    assert_eq!(parse_line(b"12.5\r"), Some(12_500));
}

#[test]
fn parse_line_truncates_extra_digits() {
    assert_eq!(parse_line(b"0.1239"), Some(123));
    assert_eq!(parse_line(b"1.99999"), Some(1_999));
}

#[test]
fn parse_line_rejects_junk() {
    assert_eq!(parse_line(b""), None);
    assert_eq!(parse_line(b"abc"), None);
    assert_eq!(parse_line(b".5"), None);
    assert_eq!(parse_line(b"1.2.3"), None);
    assert_eq!(parse_line(b"12x5"), None);
    assert_eq!(parse_line(b"-3"), None);
    // Fits a u64 in seconds, but not in milliseconds.
    assert_eq!(parse_line(b"18000000000000000000"), None);
}

#[test]
fn parse_times_splits_lines() {
    assert_eq!(parse_times(b"1.0\n2.0"), vec![1_000, 2_000]);
    assert_eq!(parse_times(b"1.0\n\n2.0\n"), vec![1_000, 2_000]);
    assert_eq!(parse_times(b""), Vec::<u64>::new());
    assert_eq!(parse_times(b"\n\n"), Vec::<u64>::new());
}

// Loading replays through insert: statistics come out as if entered live.
#[test]
fn load_recomputes_statistics() {
    let mut app = fresh_app();
    app.load_times(b"10.0\n11.0\n9.0\n12.0\n8.0\n");
    assert_eq!(app.times.times.len(), 5);
    assert_eq!(app.times.times[4].ao5, Some(10_000));
    assert_eq!(app.times.pbsingle, Some(8_000));
    assert_eq!(app.times.rollingavg, Some(10_000));
}
