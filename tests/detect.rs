use zipchord::stream::detect::{ChordConfig, ChordStream, MAX_CHORD_SIZE};

const A: u16 = 30;
const B: u16 = 48;

fn ms(t: u64) -> u64 {
    t * 1000
}

#[test]
fn default_config_values() {
    let c = ChordConfig::default();
    assert_eq!(c.base_chord_window, 150_000);
    assert_eq!(c.roll_threshold, 600);
    assert_eq!(c.typing_speed_factor, 500);
    assert_eq!(c.min_overlap_ratio, 300);
    let s = ChordStream::with_default_config(0);
    assert!(s.held_keys().is_empty());
    assert_eq!(s.timing_analyzer().get_adjusted_chord_window(), 150_000);
}

#[test]
fn lone_key_release_emits_key() {
    for threshold in [0, 600, 1000] {
        let cfg = ChordConfig { roll_threshold: threshold, ..ChordConfig::default() };
        let mut s = ChordStream::new(cfg, 0);
        s.handle_key_press(A, 0);
        assert_eq!(s.handle_key_release(A, ms(400)), Some(vec![A]));
        assert!(s.held_keys().is_empty());
    }
}

#[test]
fn ninth_press_is_dropped() {
    let mut s = ChordStream::with_default_config(0);
    for k in 0..MAX_CHORD_SIZE as u16 {
        s.handle_key_press(10 + k, 0);
    }
    let before = s.held_keys();
    assert_eq!(before.len(), MAX_CHORD_SIZE);
    s.handle_key_press(99, 1);
    assert_eq!(s.held_keys(), before);
}

#[test]
fn repeated_press_is_not_duplicated() {
    let mut s = ChordStream::with_default_config(0);
    s.handle_key_press(A, 0);
    s.handle_key_press(A, ms(5));
    assert_eq!(s.held_keys(), vec![A]);
    assert_eq!(s.timing_analyzer().recent_intervals().len(), 0);
}

#[test]
fn stale_keys_are_dropped() {
    let mut s = ChordStream::with_default_config(0);
    s.handle_key_press(A, 0);
    s.handle_key_press(B, ms(500));
    assert_eq!(s.held_keys(), vec![B]);
    assert_eq!(s.handle_key_release(B, ms(510)), Some(vec![B]));
    assert_eq!(s.handle_key_release(A, ms(520)), None);
}

#[test]
fn overlapping_pair_under_default_threshold() {
    // press A at 0, B at 10 ms, release A at 60 ms, B at 70 ms: the pair
    // scores 31/45, above the 0.6 threshold, so A's release emits nothing
    // and B is emitted alone when it is released.
    let mut s = ChordStream::with_default_config(0);
    assert_eq!(s.process_event(A, true, 0), None);
    assert_eq!(s.process_event(B, true, ms(10)), None);
    assert_eq!(s.process_event(A, false, ms(60)), None);
    assert_eq!(s.process_event(B, false, ms(70)), Some(vec![B]));
}

#[test]
fn overlapping_pair_forms_chord_under_looser_threshold() {
    let cfg = ChordConfig { roll_threshold: 700, ..ChordConfig::default() };
    let mut s = ChordStream::new(cfg, 0);
    s.handle_key_press(A, 0);
    s.handle_key_press(B, ms(10));
    assert_eq!(s.handle_key_release(A, ms(60)), Some(vec![A, B]));
    assert_eq!(s.held_keys(), vec![B]);
    assert_eq!(s.handle_key_release(B, ms(70)), Some(vec![B]));
}

#[test]
fn sequential_keys_emit_separately() {
    let mut s = ChordStream::with_default_config(0);
    assert_eq!(s.process_event(A, true, 0), None);
    assert_eq!(s.process_event(A, false, ms(40)), Some(vec![A]));
    assert_eq!(s.process_event(B, true, ms(45)), None);
    assert_eq!(s.process_event(B, false, ms(90)), Some(vec![B]));
}

#[test]
fn simultaneous_chord_is_emitted_in_press_order() {
    let mut s = ChordStream::with_default_config(0);
    s.handle_key_press(B, 0);
    s.handle_key_press(A, ms(2));
    assert_eq!(s.handle_key_release(A, ms(100)), Some(vec![B, A]));
}

#[test]
fn release_of_unheld_key_is_ignored() {
    let mut s = ChordStream::with_default_config(0);
    s.handle_key_press(A, 0);
    assert_eq!(s.handle_key_release(B, ms(1)), None);
    assert_eq!(s.held_keys(), vec![A]);
}

#[test]
fn press_feeds_interval_to_model() {
    let mut s = ChordStream::with_default_config(0);
    s.handle_key_press(A, 0);
    s.handle_key_press(B, ms(120));
    let a = s.timing_analyzer();
    assert_eq!(a.recent_intervals().as_slice(), &[120_000]);
    assert_eq!(a.average_typing_speed(), 120_000);
    assert_eq!(a.get_adjusted_chord_window(), 135_000);
}
