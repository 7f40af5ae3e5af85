//! The chord orchestrator: owns the held-key set, feeds the timing model and
//! decides on each release whether a chord is finalized.
use vstd::prelude::*;

use super::timing::{
    KeyTiming, TimingAnalyzer, speed_update, MAX_SPEED_FACTOR, MAX_WINDOW_US,
};

verus! {

/// Largest number of keys held at once; further presses are dropped.
pub const MAX_CHORD_SIZE: usize = 8;

/// Timing parameters of the classifier. Times in microseconds, ratios in
/// thousandths.
#[derive(Clone, Copy, Debug)]
pub struct ChordConfig {
    pub base_chord_window: u64,
    pub roll_threshold: u64,
    pub typing_speed_factor: u64,
    pub min_overlap_ratio: u64,
}

impl ChordConfig {
    /// The window is positive and the two ratios lie in [0, 1].
    pub open spec fn wf(&self) -> bool {
        &&& 1 <= self.base_chord_window <= MAX_WINDOW_US
        &&& self.roll_threshold <= 1000
        &&& self.min_overlap_ratio <= 1000
        &&& self.typing_speed_factor <= MAX_SPEED_FACTOR
    }
}

impl Default for ChordConfig {
    /// A 150 ms window, threshold 0.6, speed factor 0.5, minimum overlap 0.3.
    fn default() -> (r: Self)
        ensures
            r.base_chord_window == 150_000,
            r.roll_threshold == 600,
            r.typing_speed_factor == 500,
            r.min_overlap_ratio == 300,
    {
        ChordConfig {
            base_chord_window: 150_000,
            roll_threshold: 600,
            typing_speed_factor: 500,
            min_overlap_ratio: 300,
        }
    }
}

/// A key that is currently held.
#[derive(Clone, Copy, Debug)]
pub struct ActiveKey {
    pub code: u16,
    pub timing: KeyTiming,
}

/// The key codes of `keys`, in order.
pub open spec fn codes_of(keys: Seq<ActiveKey>) -> Seq<u16> {
    keys.map_values(|k: ActiveKey| k.code)
}

/// The timings of `keys`, in order.
pub open spec fn timings_of(keys: Seq<ActiveKey>) -> Seq<KeyTiming> {
    keys.map_values(|k: ActiveKey| k.timing)
}

/// No key code occurs twice.
pub open spec fn distinct_codes(keys: Seq<ActiveKey>) -> bool {
    forall|i: int, j: int|
        0 <= i < keys.len() && 0 <= j < keys.len() && i != j ==> keys[i].code != keys[j].code
}

/// `key` is among `keys`.
pub open spec fn is_held(keys: Seq<ActiveKey>, key: u16) -> bool {
    exists|i: int| 0 <= i < keys.len() && keys[i].code == key
}

/// The oldest held key went down more than `window` before `now`.
pub open spec fn is_stale(keys: Seq<ActiveKey>, window: int, now: u64) -> bool {
    keys.len() > 0 && now - keys[0].timing.press_time > window
}

/// A freshly pressed key.
pub open spec fn pressed(key: u16, now: u64) -> ActiveKey {
    ActiveKey { code: key, timing: KeyTiming { press_time: now, release_time: None } }
}

/// The held-key set after `key` goes down at `now`: a held key is ignored; a
/// stale set is dropped first; the key is added if fewer than
/// `MAX_CHORD_SIZE` keys are held.
pub open spec fn after_press(keys: Seq<ActiveKey>, window: int, key: u16, now: u64) -> Seq<
    ActiveKey,
> {
    if is_held(keys, key) {
        keys
    } else {
        let kept = if is_stale(keys, window, now) {
            Seq::empty()
        } else {
            keys
        };
        if kept.len() < MAX_CHORD_SIZE {
            kept.push(pressed(key, now))
        } else {
            kept
        }
    }
}

/// Position of `key` in `keys`, or -1.
pub open spec fn index_of(keys: Seq<ActiveKey>, key: u16) -> int {
    if is_held(keys, key) {
        choose|i: int| 0 <= i < keys.len() && keys[i].code == key
    } else {
        -1
    }
}

/// `keys` with the key at `i` marked released at `now`.
pub open spec fn mark_released(keys: Seq<ActiveKey>, i: int, now: u64) -> Seq<ActiveKey> {
    keys.update(
        i,
        ActiveKey {
            code: keys[i].code,
            timing: KeyTiming { press_time: keys[i].timing.press_time, release_time: Some(now) },
        },
    )
}

/// What a release of `key` at `now` emits: nothing for a key not held; the
/// key alone when it is the only one held; otherwise every held key, in press
/// order, when the analyzer reads their timings as a chord.
pub open spec fn release_emission(
    keys: Seq<ActiveKey>,
    analyzer: TimingAnalyzer,
    key: u16,
    now: u64,
) -> Option<Seq<u16>> {
    if !is_held(keys, key) {
        None
    } else if keys.len() == 1 {
        Some(seq![key])
    } else {
        let marked = mark_released(keys, index_of(keys, key), now);
        if analyzer.chord_of(timings_of(marked)) {
            Some(codes_of(marked))
        } else {
            None
        }
    }
}

/// The held-key set after `key` is released: the key leaves it.
pub open spec fn after_release(keys: Seq<ActiveKey>, key: u16) -> Seq<ActiveKey> {
    if is_held(keys, key) {
        keys.remove(index_of(keys, key))
    } else {
        keys
    }
}

/// Time from `from` to `to`; zero when `to` is not later.
pub open spec fn elapsed(from: u64, to: u64) -> u64 {
    if to >= from {
        (to - from) as u64
    } else {
        0
    }
}

/// The classifier state: the held keys and the timing model.
#[derive(Debug)]
pub struct ChordStream {
    active_keys: Vec<ActiveKey>,
    timing_analyzer: TimingAnalyzer,
}

impl ChordStream {
    /// The held keys, in press order.
    pub closed spec fn held(&self) -> Seq<ActiveKey> {
        self.active_keys@
    }

    pub closed spec fn analyzer(&self) -> TimingAnalyzer {
        self.timing_analyzer
    }

    pub closed spec fn wf(&self) -> bool {
        &&& self.timing_analyzer.wf()
        &&& self.active_keys@.len() <= MAX_CHORD_SIZE
        &&& distinct_codes(self.active_keys@)
    }

    /// An idle classifier whose timing model starts at `now`.
    pub fn new(config: ChordConfig, now: u64) -> (r: Self)
        requires
            config.wf(),
        ensures
            r.wf(),
            r.held().len() == 0,
            r.analyzer().base_window() == config.base_chord_window,
            r.analyzer().threshold() == config.roll_threshold,
            r.analyzer().speed_factor() == config.typing_speed_factor,
            r.analyzer().min_overlap() == config.min_overlap_ratio,
            r.analyzer().intervals().len() == 0,
            r.analyzer().average() == config.base_chord_window,
            r.analyzer().window() == config.base_chord_window,
            r.analyzer().last_refresh() == now,
    {
        ChordStream {
            active_keys: Vec::with_capacity(MAX_CHORD_SIZE),
            timing_analyzer: TimingAnalyzer::new(
                config.base_chord_window,
                config.roll_threshold,
                config.typing_speed_factor,
                config.min_overlap_ratio,
                now,
            ),
        }
    }

    /// `new` with `ChordConfig::default()`.
    pub fn with_default_config(now: u64) -> (r: Self)
        ensures
            r.wf(),
            r.held().len() == 0,
            r.analyzer().base_window() == 150_000,
            r.analyzer().threshold() == 600,
            r.analyzer().speed_factor() == 500,
            r.analyzer().min_overlap() == 300,
            r.analyzer().intervals().len() == 0,
            r.analyzer().average() == 150_000,
            r.analyzer().window() == 150_000,
            r.analyzer().last_refresh() == now,
    {
        Self::new(ChordConfig::default(), now)
    }
    /// Where `key` stands among the held keys.
    fn position(&self, key: u16) -> (r: Option<usize>)
        requires
            self.wf(),
        ensures
            match r {
                Some(i) => i < self.held().len() && i == index_of(self.held(), key),
                None => !is_held(self.held(), key),
            },
    {
        let mut i: usize = 0;
        while i < self.active_keys.len()
            invariant
                self.wf(),
                i <= self.active_keys@.len(),
                forall|j: int| 0 <= j < i ==> self.active_keys@[j].code != key,
            decreases self.active_keys@.len() - i,
        {
            if self.active_keys[i].code == key {
                assert(is_held(self.held(), key));
                let ghost k = index_of(self.held(), key);
                assert(self.held()[k].code == key);
                assert(k == i);
                return Some(i);
            }
            i = i + 1;
        }
        None
    }

    /// The codes of the held keys, in press order.
    pub fn held_keys(&self) -> (r: Vec<u16>)
        ensures
            r@ == codes_of(self.held()),
    {
        let mut out: Vec<u16> = Vec::with_capacity(self.active_keys.len());
        let mut i: usize = 0;
        while i < self.active_keys.len()
            invariant
                i <= self.active_keys@.len(),
                out@ =~= codes_of(self.active_keys@.subrange(0, i as int)),
            decreases self.active_keys@.len() - i,
        {
            out.push(self.active_keys[i].code);
            i = i + 1;
        }
        assert(self.active_keys@.subrange(0, i as int) =~= self.active_keys@);
        out
    }

    /// The timing model.
    pub fn timing_analyzer(&self) -> (r: &TimingAnalyzer)
        ensures
            *r == self.analyzer(),
    {
        &self.timing_analyzer
    }

    /// The timings of the held keys, in press order.
    fn held_timings(&self) -> (r: Vec<KeyTiming>)
        ensures
            r@ == timings_of(self.held()),
    {
        let mut out: Vec<KeyTiming> = Vec::with_capacity(self.active_keys.len());
        let mut i: usize = 0;
        while i < self.active_keys.len()
            invariant
                i <= self.active_keys@.len(),
                out@ =~= timings_of(self.active_keys@.subrange(0, i as int)),
            decreases self.active_keys@.len() - i,
        {
            out.push(self.active_keys[i].timing);
            i = i + 1;
        }
        assert(self.active_keys@.subrange(0, i as int) =~= self.active_keys@);
        out
    }

    /// Registers a press of `key` at `now`. Unless the key is already held,
    /// the press interval from the last held key is fed to the timing model.
    pub fn handle_key_press(&mut self, key: u16, now: u64)
        requires
            old(self).wf(),
        ensures
            final(self).wf(),
            final(self).held() == after_press(
                old(self).held(),
                old(self).analyzer().window(),
                key,
                now,
            ),
            is_held(old(self).held(), key) || old(self).held().len() == 0 ==> final(self).analyzer()
                == old(self).analyzer(),
            !is_held(old(self).held(), key) && old(self).held().len() > 0 ==> speed_update(
                old(self).analyzer(),
                final(self).analyzer(),
                elapsed(old(self).held().last().timing.press_time, now),
                now,
            ),
    {
        if self.position(key).is_some() {
            return ;
        }
        let ghost keys = self.active_keys@;
        let len = self.active_keys.len();
        let prev: Option<u64> = if len > 0 {
            Some(self.active_keys[len - 1].timing.press_time)
        } else {
            None
        };
        let window = self.timing_analyzer.get_adjusted_chord_window();
        if len > 0 {
            let oldest = self.active_keys[0].timing.press_time;
            if now >= oldest && now - oldest > window {
                self.active_keys.clear();
            }
        }
        if self.active_keys.len() < MAX_CHORD_SIZE {
            self.active_keys.push(
                ActiveKey { code: key, timing: KeyTiming { press_time: now, release_time: None } },
            );
        }
        assert(self.active_keys@ =~= after_press(keys, window as int, key, now));
        if let Some(t) = prev {
            let interval = if now >= t {
                now - t
            } else {
                0
            };
            self.timing_analyzer.update_typing_speed(interval, now);
        }
    }

    /// Registers a release of `key` at `now` and returns the chord it
    /// finalizes, if any. The key leaves the held set in every case.
    pub fn handle_key_release(&mut self, key: u16, now: u64) -> (r: Option<Vec<u16>>)
        requires
            old(self).wf(),
        ensures
            final(self).wf(),
            final(self).held() == after_release(old(self).held(), key),
            final(self).analyzer() == old(self).analyzer(),
            match r {
                Some(v) => release_emission(old(self).held(), old(self).analyzer(), key, now)
                    == Some(v@),
                None => release_emission(old(self).held(), old(self).analyzer(), key, now)
                    is None,
            },
    {
        let pos = match self.position(key) {
            None => return None,
            Some(p) => p,
        };
        let ghost keys = self.active_keys@;
        let held = self.active_keys[pos];
        assert(held.code == key);
        self.active_keys.set(
            pos,
            ActiveKey {
                code: held.code,
                timing: KeyTiming { press_time: held.timing.press_time, release_time: Some(now) },
            },
        );
        assert(self.active_keys@ =~= mark_released(keys, pos as int, now));
        let result = if self.active_keys.len() == 1 {
            let single = vec![key];
            assert(single@ =~= seq![key]);
            Some(single)
        } else {
            let timings = self.held_timings();
            if self.timing_analyzer.is_chord(timings.as_slice()) {
                Some(self.held_keys())
            } else {
                None
            }
        };
        self.active_keys.remove(pos);
        assert(self.active_keys@ =~= keys.remove(pos as int));
        result
    }

    /// Handles one key transition at `now`: a press when `is_press`, else a
    /// release. Returns the chord finalized by it, if any.
    pub fn process_event(&mut self, key: u16, is_press: bool, now: u64) -> (r: Option<Vec<u16>>)
        requires
            old(self).wf(),
        ensures
            final(self).wf(),
            is_press ==> r is None && final(self).held() == after_press(
                old(self).held(),
                old(self).analyzer().window(),
                key,
                now,
            ),
            !is_press ==> final(self).held() == after_release(old(self).held(), key) && match r {
                Some(v) => release_emission(old(self).held(), old(self).analyzer(), key, now)
                    == Some(v@),
                None => release_emission(old(self).held(), old(self).analyzer(), key, now)
                    is None,
            },
    {
        if is_press {
            self.handle_key_press(key, now);
            None
        } else {
            self.handle_key_release(key, now)
        }
    }
}

/// Releasing the only held key emits exactly that key, whatever the state of
/// the timing model.
pub proof fn lemma_lone_key_release(
    keys: Seq<ActiveKey>,
    analyzer: TimingAnalyzer,
    key: u16,
    now: u64,
)
    requires
        keys.len() == 1,
        keys[0].code == key,
    ensures
        release_emission(keys, analyzer, key, now) == Some(seq![key]),
{
    assert(0 <= 0 < keys.len() && keys[0].code == key);
}

/// A press never takes the held-key set past `MAX_CHORD_SIZE`; a press while
/// the set is full and not stale is dropped, leaving the set as it was.
pub proof fn lemma_press_bounded(keys: Seq<ActiveKey>, window: int, key: u16, now: u64)
    requires
        keys.len() <= MAX_CHORD_SIZE,
    ensures
        after_press(keys, window, key, now).len() <= MAX_CHORD_SIZE,
        keys.len() == MAX_CHORD_SIZE && !is_stale(keys, window, now) ==> after_press(
            keys,
            window,
            key,
            now,
        ) == keys,
{
}

/// Pressing a key that is already held leaves the set as it was, and no press
/// makes a key code occur twice.
pub proof fn lemma_press_no_duplicate(keys: Seq<ActiveKey>, window: int, key: u16, now: u64)
    requires
        distinct_codes(keys),
    ensures
        distinct_codes(after_press(keys, window, key, now)),
        is_held(keys, key) ==> after_press(keys, window, key, now) == keys,
{
    let r = after_press(keys, window, key, now);
    if !is_held(keys, key) && !is_stale(keys, window, now) && keys.len() < MAX_CHORD_SIZE {
        assert forall|i: int, j: int|
            0 <= i < r.len() && 0 <= j < r.len() && i != j implies r[i].code != r[j].code by {
            if i == keys.len() {
                assert(!(0 <= j < keys.len() && keys[j].code == key));
            } else if j == keys.len() {
                assert(!(0 <= i < keys.len() && keys[i].code == key));
            }
        }
    }
}

/// A press that comes more than `window` after the oldest held key drops the
/// stale set: the new key is then held alone, and its release emits it alone.
pub proof fn lemma_stale_press_starts_fresh(
    keys: Seq<ActiveKey>,
    window: int,
    key: u16,
    now: u64,
    analyzer: TimingAnalyzer,
    later: u64,
)
    requires
        is_stale(keys, window, now),
        !is_held(keys, key),
    ensures
        after_press(keys, window, key, now) == seq![pressed(key, now)],
        release_emission(after_press(keys, window, key, now), analyzer, key, later) == Some(
            seq![key],
        ),
{
    let r = after_press(keys, window, key, now);
    assert(r =~= seq![pressed(key, now)]);
    lemma_lone_key_release(r, analyzer, key, later);
}

} // verus!
