use cube_timer::stats::{calc_aon, Time, Times};

// Insert 10, 11, 9, 12, 8 seconds one at a time: after the 5th insert the
// average-of-5 drops the minimum (8) and the maximum (12) and averages the
// rest: (9 + 10 + 11) / 3 = 10 seconds.
#[test]
fn ao5_after_five_inserts() {
    let mut h = Times::new();
    for t in [10_000u64, 11_000, 9_000, 12_000, 8_000] {
        h.insert(Time::from(t));
    }
    assert_eq!(h.times.len(), 5);
    assert_eq!(h.times[4].ao5, Some(10_000));
    assert_eq!(h.pbao5, Some(10_000));
    assert_eq!(h.times[3].ao5, None);
    assert_eq!(h.times[4].ao12, None);
}

// First-ever insert of 7.5 seconds: it is the personal best, no ao5 yet,
// and the rolling average is the time itself.
#[test]
fn first_insert_seeds_stats() {
    let mut h = Times::new();
    h.insert(Time::from(7_500));
    assert_eq!(h.pbsingle, Some(7_500));
    assert_eq!(h.times[0].ao5, None);
    assert_eq!(h.rollingavg, Some(7_500));
    assert_eq!(h.sum, 7_500);
    assert_eq!(h.pbao5, None);
    assert_eq!(h.pbao12, None);
    assert_eq!(h.ao100, None);
    assert_eq!(h.ao1k, None);
}

// The trimmed mean of a window equals (sum - min - max) / (n - 2), with
// only one instance each of the extremes excluded.
#[test]
fn trimmed_mean_formula() {
    let set: Vec<Time> = [3_000u64, 1_000, 2_000].iter().map(|&t| Time::from(t)).collect();
    assert_eq!(calc_aon(&set), 2_000);

    // Duplicated extremes: only one instance of each is dropped.
    let set: Vec<Time> = [5_000u64, 5_000, 1_000, 1_000, 3_000]
        .iter()
        .map(|&t| Time::from(t))
        .collect();
    // sum = 15000, min = 1000, max = 5000 -> (15000 - 6000) / 3 = 3000
    assert_eq!(calc_aon(&set), 3_000);

    // All equal: the mean is that value.
    let set: Vec<Time> = [4_000u64, 4_000, 4_000].iter().map(|&t| Time::from(t)).collect();
    assert_eq!(calc_aon(&set), 4_000);
}

// ao5 is defined exactly from the 5th insert on, ao12 from the 12th.
#[test]
fn window_defined_exactly_at_size() {
    let mut h = Times::new();
    for i in 0..12u64 {
        h.insert(Time::from(1_000 + i));
        let rec = h.times[h.times.len() - 1];
        assert_eq!(rec.ao5.is_some(), h.times.len() >= 5);
        assert_eq!(rec.ao12.is_some(), h.times.len() >= 12);
    }
}

// Personal bests never rise and always equal the minimum seen so far.
#[test]
fn personal_bests_non_increasing() {
    let mut h = Times::new();
    let data = [9_000u64, 12_000, 7_000, 7_500, 6_000, 11_000];
    let mut best = u64::MAX;
    let mut last_pb = u64::MAX;
    for t in data {
        h.insert(Time::from(t));
        best = best.min(t);
        let pb = h.pbsingle.unwrap();
        assert_eq!(pb, best);
        assert!(pb <= last_pb);
        last_pb = pb;
    }
}

// The rolling average after k inserts is the integer mean of all k raw
// times.
#[test]
fn rolling_average_is_mean() {
    let mut h = Times::new();
    let data = [2_000u64, 4_000, 5_000];
    let mut sum = 0u64;
    for (k, t) in data.iter().enumerate() {
        h.insert(Time::from(*t));
        sum += t;
        assert_eq!(h.rollingavg, Some(sum / (k as u64 + 1)));
    }
    assert_eq!(h.rollingavg, Some(3_666));
}

// gen_stats computes the averages from the stored history plus the record
// itself, without touching the history.
#[test]
fn gen_stats_uses_pending_record() {
    let mut h = Times::new();
    for t in [10_000u64, 11_000, 9_000, 12_000] {
        h.insert(Time::from(t));
    }
    let mut rec = Time::from(8_000);
    rec.gen_stats(&h.times);
    assert_eq!(rec.ao5, Some(10_000));
    assert_eq!(rec.ao12, None);
    assert_eq!(h.times.len(), 4);
}

// The 100-window average appears exactly once 100 records exist.
#[test]
fn ao100_at_one_hundred() {
    let mut h = Times::new();
    for i in 0..99u64 {
        h.insert(Time::from(1_000 + (i % 7)));
        assert_eq!(h.ao100, None);
    }
    h.insert(Time::from(1_000));
    assert!(h.ao100.is_some());
    assert_eq!(h.ao1k, None);
}
