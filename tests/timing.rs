use zipchord::stream::timing::{KeyTiming, RollScore, TimingAnalyzer, MAX_SAMPLES};

const W: u64 = 150_000;

fn analyzer(threshold: u64) -> TimingAnalyzer {
    TimingAnalyzer::new(W, threshold, 500, 300, 0)
}

fn held(press: u64) -> KeyTiming {
    KeyTiming { press_time: press, release_time: None }
}

fn released(press: u64, release: u64) -> KeyTiming {
    KeyTiming { press_time: press, release_time: Some(release) }
}

#[test]
fn fewer_than_two_timings_score_zero() {
    let a = analyzer(600);
    assert_eq!(a.calculate_roll_score(&[]), RollScore { num: 0, den: 1 });
    assert_eq!(a.calculate_roll_score(&[held(5)]), RollScore { num: 0, den: 1 });
    assert!(a.is_chord(&[held(5)]));
}

#[test]
fn blended_pair_score_is_exact() {
    // interval 10 ms, overlap 50 ms of a 150 ms window:
    // 1 - (50/150) * (1 - 10/150) = 31/45
    let a = analyzer(600);
    let ts = [released(0, 60_000), held(10_000)];
    let s = a.calculate_roll_score(&ts);
    assert_eq!(s.num * 45, s.den * 31);
    assert!(!a.is_chord(&ts));
    assert!(analyzer(700).is_chord(&ts));
}

#[test]
fn slow_pair_scores_one_whatever_the_overlap() {
    let a = analyzer(600);
    for rel in [None, Some(0), Some(1_000_000)] {
        let ts = [KeyTiming { press_time: 0, release_time: rel }, held(200_000)];
        assert_eq!(a.calculate_roll_score(&ts), RollScore { num: 1, den: 1 });
        assert!(!a.is_chord(&ts));
    }
}

#[test]
fn small_overlap_scores_one() {
    // overlap 30 ms is a ratio of 0.2, under the minimum 0.3
    let a = analyzer(600);
    let ts = [released(0, 40_000), held(10_000)];
    assert_eq!(a.calculate_roll_score(&ts), RollScore { num: 1, den: 1 });
}

#[test]
fn unreleased_simultaneous_keys_score_zero() {
    let a = analyzer(600);
    let ts = [held(0), held(0), held(0)];
    assert_eq!(a.calculate_roll_score(&ts), RollScore { num: 0, den: 1 });
    assert!(a.is_chord(&ts));
}

#[test]
fn mean_over_pairs() {
    // a blended pair (0 with full overlap and no gap) and a slow pair (1): mean 1/2
    let a = analyzer(600);
    let ts = [held(0), held(0), held(300_000)];
    let s = a.calculate_roll_score(&ts);
    assert_eq!(s.num * 2, s.den);
    assert!(a.is_chord(&ts));
}

#[test]
fn fast_typist_gets_higher_adjustment() {
    let mut a = analyzer(600);
    a.update_typing_speed(75_000, 100_000);
    assert_eq!(a.average_typing_speed(), 75_000);
    // speed ratio 0.5: adjustment 1 - (0.5 - 1) * 0.5 = 1.25 on a raw 31/45
    let ts = [released(0, 60_000), held(10_000)];
    let s = a.calculate_roll_score(&ts);
    assert_eq!(s.num * 36, s.den * 31);
    // and a slow pair, clamped at one
    let slow = [held(0), held(200_000)];
    assert_eq!(a.calculate_roll_score(&slow), RollScore { num: 1, den: 1 });
}

#[test]
fn burst_keeps_cached_window() {
    let mut a = analyzer(600);
    a.update_typing_speed(10_000, 1_000);
    a.update_typing_speed(20_000, 5_000);
    a.update_typing_speed(30_000, 9_000);
    assert_eq!(a.recent_intervals().len(), 3);
    assert_eq!(a.get_adjusted_chord_window(), W);
    assert_eq!(a.average_typing_speed(), W);
    a.update_typing_speed(40_000, 100_000);
    assert_eq!(a.average_typing_speed(), 25_000);
    assert_eq!(a.get_adjusted_chord_window(), 87_500);
    a.update_typing_speed(50_000, 150_000);
    assert_eq!(a.recent_intervals().len(), 5);
    assert_eq!(a.get_adjusted_chord_window(), 87_500);
}

#[test]
fn window_is_clamped() {
    let mut slow = analyzer(600);
    slow.update_typing_speed(10_000_000, 200_000);
    assert_eq!(slow.get_adjusted_chord_window(), 2 * W);
    let mut fast = TimingAnalyzer::new(W, 600, 2_000, 300, 0);
    fast.update_typing_speed(0, 200_000);
    assert_eq!(fast.get_adjusted_chord_window(), W / 2);
}

#[test]
fn ring_keeps_last_ten() {
    let mut a = analyzer(600);
    for i in 0..12u64 {
        a.update_typing_speed(i, 0);
    }
    let ring = a.recent_intervals();
    assert_eq!(ring.len(), MAX_SAMPLES);
    assert_eq!(ring[0], 2);
    assert_eq!(ring[9], 11);
}

#[test]
fn slow_typist_with_large_factor_clamps_to_zero() {
    // speed ratio 3 with factor 2: adjustment 1 - 2 * 2 = -3, clamped to 0
    let mut a = TimingAnalyzer::new(W, 600, 2_000, 300, 0);
    a.update_typing_speed(450_000, 100_000);
    assert_eq!(a.average_typing_speed(), 450_000);
    let ts = [held(0), held(200_000)];
    assert_eq!(a.calculate_roll_score(&ts), RollScore { num: 0, den: 1 });
    assert!(a.is_chord(&ts));
}
