//! Timing model: scores how sequential a group of key holds looks, and keeps
//! a moving average of the user's inter-press intervals to size the chord window.
//!
//! All times are integers in microseconds. Ratios that are fractions of one
//! (threshold, overlap ratio, speed factor) are integers in thousandths.
use vstd::prelude::*;

verus! {

/// How long a recomputed chord window stays cached.
pub const SPEED_CACHE_US: u64 = 100_000;

/// Number of inter-press intervals kept for the moving average.
pub const MAX_SAMPLES: usize = 10;

/// Largest accepted base chord window.
pub const MAX_WINDOW_US: u64 = 0xFFFF_FFFF;

/// Largest accepted typing speed factor, in thousandths.
pub const MAX_SPEED_FACTOR: u64 = 0xFFFF_FFFF;

/// Largest number of timings a roll score is computed over.
pub const MAX_TIMINGS: usize = 0x100;

/// Press and (once known) release instant of one key.
#[derive(Clone, Copy, Debug)]
pub struct KeyTiming {
    pub press_time: u64,
    pub release_time: Option<u64>,
}

/// Largest denominator of a roll score.
pub const MAX_SCORE_DEN: u128 = 0x100_0000_0000_0000_0000_0000_0000 * 1000;

/// A score in [0, 1], held exactly as `num / den`.
#[derive(Clone, Copy, Debug, PartialEq, Eq, Structural)]
pub struct RollScore {
    pub num: u128,
    pub den: u128,
}

/// Time from one press to the next; zero when the second is not later.
pub open spec fn press_interval(cur: KeyTiming, next: KeyTiming) -> int {
    if next.press_time >= cur.press_time {
        next.press_time - cur.press_time
    } else {
        0
    }
}

/// How long `cur` was still held after `next` went down. A key not yet
/// released counts as overlapping by the whole window `w`.
pub open spec fn overlap(w: int, cur: KeyTiming, next: KeyTiming) -> int {
    match cur.release_time {
        Some(r) => if r > next.press_time {
            r - next.press_time
        } else {
            0
        },
        None => w,
    }
}

/// Score of one adjacent pair, scaled by `w * w` (so `w * w` stands for 1).
/// `min_overlap` is in thousandths of `w`.
pub open spec fn pair_score(w: int, min_overlap: int, cur: KeyTiming, next: KeyTiming) -> int {
    let p = press_interval(cur, next);
    let o = overlap(w, cur, next);
    if p > w {
        w * w
    } else if 1000 * o < min_overlap * w {
        w * w
    } else {
        w * w - o * (w - p)
    }
}

/// Sum of the scaled scores of all adjacent pairs of `ts`.
pub open spec fn pair_scores_sum(w: int, min_overlap: int, ts: Seq<KeyTiming>) -> int
    decreases ts.len(),
{
    if ts.len() < 2 {
        0
    } else {
        pair_scores_sum(w, min_overlap, ts.drop_last()) + pair_score(
            w,
            min_overlap,
            ts[ts.len() - 2],
            ts[ts.len() - 1],
        )
    }
}

/// Typing speed correction, scaled by `1000 * w`: `1 - (avg / w - 1) * factor`.
pub open spec fn speed_adjustment(w: int, factor: int, avg: int) -> int {
    1000 * w + (w - avg) * factor
}

/// Roll score of `ts` as a fraction `(num, den)`: the mean pair score times the
/// speed correction, clamped to [0, 1]. Fewer than two timings score zero.
pub open spec fn roll_score(
    w: int,
    min_overlap: int,
    factor: int,
    avg: int,
    ts: Seq<KeyTiming>,
) -> (int, int) {
    if ts.len() < 2 {
        (0, 1)
    } else {
        clamp_fraction(
            pair_scores_sum(w, min_overlap, ts) * speed_adjustment(w, factor, avg),
            (ts.len() - 1) * (w * w) * (1000 * w),
        )
    }
}

/// `num / den` clamped to [0, 1], as a fraction.
pub open spec fn clamp_fraction(num: int, den: int) -> (int, int) {
    if num <= 0 {
        (0, 1)
    } else if num >= den {
        (1, 1)
    } else {
        (num, den)
    }
}

/// Whether the fraction `score` is below `threshold` thousandths.
pub open spec fn below_threshold(score: (int, int), threshold: int) -> bool {
    1000 * score.0 < threshold * score.1
}

/// Sum of a sequence of intervals.
pub open spec fn seq_sum(s: Seq<u64>) -> int
    decreases s.len(),
{
    if s.len() == 0 {
        0
    } else {
        seq_sum(s.drop_last()) + s.last()
    }
}

/// Mean of a non-empty sequence of intervals, rounded down.
pub open spec fn mean(s: Seq<u64>) -> int {
    seq_sum(s) / s.len() as int
}

/// The ring of intervals after `x` is pushed: oldest first, at most
/// `MAX_SAMPLES` kept.
pub open spec fn ring_push(ring: Seq<u64>, x: u64) -> Seq<u64> {
    if ring.len() >= MAX_SAMPLES {
        ring.push(x).drop_first()
    } else {
        ring.push(x)
    }
}

/// Chord window for average interval `avg`: `w * clamp(1 + (avg / w - 1) * factor, 0.5, 2)`,
/// rounded down.
pub open spec fn adjusted_window(w: int, factor: int, avg: int) -> int {
    let scaled = 1000 * w + (avg - w) * factor;
    let clamped = if scaled < 500 * w {
        500 * w
    } else if scaled > 2000 * w {
        2000 * w
    } else {
        scaled
    };
    clamped / 1000
}

/// `adjusted_window`, computed.
fn window_for(w: u64, factor: u64, avg: u64) -> (r: u64)
    requires
        1 <= w <= MAX_WINDOW_US,
        factor <= MAX_SPEED_FACTOR,
    ensures
        r == adjusted_window(w as int, factor as int, avg as int),
{
    let spread = (avg as i128) - (w as i128);
    assert(-0xFFFF_FFFF * 0xFFFF_FFFF <= (spread as int) * (factor as int)
        <= 0xFFFF_FFFF_FFFF_FFFF * 0xFFFF_FFFF) by (nonlinear_arith)
        requires
            -0xFFFF_FFFF <= spread <= 0xFFFF_FFFF_FFFF_FFFF,
            0 <= factor <= 0xFFFF_FFFF,
    ;
    let scaled: i128 = 1000 * (w as i128) + spread * (factor as i128);
    let lo: i128 = 500 * (w as i128);
    let hi: i128 = 2000 * (w as i128);
    let clamped = if scaled < lo {
        lo
    } else if scaled > hi {
        hi
    } else {
        scaled
    };
    (clamped / 1000) as u64
}

/// Adaptive timing model.
#[derive(Debug)]
pub struct TimingAnalyzer {
    base_chord_window: u64,
    roll_threshold: u64,
    typing_speed_factor: u64,
    min_overlap_ratio: u64,
    recent_press_intervals: Vec<u64>,
    average_typing_speed: u64,
    cached_chord_window: u64,
    last_speed_update: u64,
}

impl TimingAnalyzer {
    pub closed spec fn base_window(&self) -> int {
        self.base_chord_window as int
    }

    pub closed spec fn threshold(&self) -> int {
        self.roll_threshold as int
    }

    pub closed spec fn speed_factor(&self) -> int {
        self.typing_speed_factor as int
    }

    pub closed spec fn min_overlap(&self) -> int {
        self.min_overlap_ratio as int
    }

    /// The ring of recent inter-press intervals, oldest first.
    pub closed spec fn intervals(&self) -> Seq<u64> {
        self.recent_press_intervals@
    }

    pub closed spec fn average(&self) -> int {
        self.average_typing_speed as int
    }

    pub closed spec fn window(&self) -> int {
        self.cached_chord_window as int
    }

    pub closed spec fn last_refresh(&self) -> int {
        self.last_speed_update as int
    }

    pub closed spec fn wf(&self) -> bool {
        &&& 1 <= self.base_chord_window <= MAX_WINDOW_US
        &&& self.roll_threshold <= 1000
        &&& self.min_overlap_ratio <= 1000
        &&& self.typing_speed_factor <= MAX_SPEED_FACTOR
        &&& self.recent_press_intervals@.len() <= MAX_SAMPLES
    }

    /// The roll score this analyzer gives to `ts`.
    pub open spec fn score_of(&self, ts: Seq<KeyTiming>) -> (int, int) {
        roll_score(self.base_window(), self.min_overlap(), self.speed_factor(), self.average(), ts)
    }

    /// Whether this analyzer reads `ts` as a chord.
    pub open spec fn chord_of(&self, ts: Seq<KeyTiming>) -> bool {
        below_threshold(self.score_of(ts), self.threshold())
    }

    /// A fresh model at time `now`: no intervals yet, the average and the
    /// window both equal to the base window.
    pub fn new(
        base_chord_window: u64,
        roll_threshold: u64,
        typing_speed_factor: u64,
        min_overlap_ratio: u64,
        now: u64,
    ) -> (r: Self)
        requires
            1 <= base_chord_window <= MAX_WINDOW_US,
            roll_threshold <= 1000,
            min_overlap_ratio <= 1000,
            typing_speed_factor <= MAX_SPEED_FACTOR,
        ensures
            r.wf(),
            r.base_window() == base_chord_window,
            r.threshold() == roll_threshold,
            r.speed_factor() == typing_speed_factor,
            r.min_overlap() == min_overlap_ratio,
            r.intervals().len() == 0,
            r.average() == base_chord_window,
            r.window() == base_chord_window,
            r.last_refresh() == now,
    {
        TimingAnalyzer {
            base_chord_window,
            roll_threshold,
            typing_speed_factor,
            min_overlap_ratio,
            recent_press_intervals: Vec::new(),
            average_typing_speed: base_chord_window,
            cached_chord_window: base_chord_window,
            last_speed_update: now,
        }
    }
    /// Scaled score of one adjacent pair, as `pair_score` gives it.
    fn pair_contribution(&self, cur: KeyTiming, next: KeyTiming) -> (r: i128)
        requires
            self.wf(),
        ensures
            r == pair_score(self.base_window(), self.min_overlap(), cur, next),
            -0x1_0000_0000_0000_0000_0000_0000 <= r <= 0x1_0000_0000_0000_0000,
    {
        let w = self.base_chord_window;
        assert(0 <= (w as int) * (w as int) <= 0x1_0000_0000_0000_0000) by (nonlinear_arith)
            requires
                w <= MAX_WINDOW_US,
        ;
        let ww = (w as i128) * (w as i128);
        let p: u64 = if next.press_time >= cur.press_time {
            next.press_time - cur.press_time
        } else {
            0
        };
        if p > w {
            return ww;
        }
        let o: u64 = match cur.release_time {
            Some(rel) => if rel > next.press_time {
                rel - next.press_time
            } else {
                0
            },
            None => w,
        };
        assert((self.min_overlap_ratio as int) * (w as int) <= 1000 * 0xFFFF_FFFF)
            by (nonlinear_arith)
            requires
                self.min_overlap_ratio <= 1000,
                w <= MAX_WINDOW_US,
        ;
        if (o as u128) * 1000 < (self.min_overlap_ratio as u128) * (w as u128) {
            return ww;
        }
        let gap = (w - p) as i128;
        assert(0 <= (o as int) * (gap as int) <= 0xFFFF_FFFF_FFFF_FFFF * 0xFFFF_FFFF)
            by (nonlinear_arith)
            requires
                o <= 0xFFFF_FFFF_FFFF_FFFFu64,
                0 <= gap <= 0xFFFF_FFFF,
        ;
        ww - (o as i128) * gap
    }

    /// Rollover score of `timings` (in press order): 0 for a perfect chord,
    /// 1 for clearly sequential presses.
    pub fn calculate_roll_score(&self, timings: &[KeyTiming]) -> (r: RollScore)
        requires
            self.wf(),
            timings@.len() <= MAX_TIMINGS,
        ensures
            r.num == self.score_of(timings@).0,
            r.den == self.score_of(timings@).1,
            0 < r.den <= MAX_SCORE_DEN,
            r.num <= r.den,
    {
        let n = timings.len();
        if n < 2 {
            return RollScore { num: 0, den: 1 };
        }
        let ghost ts = timings@;
        let ghost w = self.base_window();
        let ghost m = self.min_overlap();
        let mut total: i128 = 0;
        let mut i: usize = 1;
        assert(ts.subrange(0, 1).len() == 1);
        while i < n
            invariant
                1 <= i <= n,
                n == ts.len(),
                ts == timings@,
                n <= MAX_TIMINGS,
                self.wf(),
                w == self.base_window(),
                m == self.min_overlap(),
                total == pair_scores_sum(w, m, ts.subrange(0, i as int)),
                -(i as int) * 0x1_0000_0000_0000_0000_0000_0000 <= total <= (i as int)
                    * 0x1_0000_0000_0000_0000,
            decreases n - i,
        {
            let c = self.pair_contribution(timings[i - 1], timings[i]);
            proof {
                let next = ts.subrange(0, i + 1);
                assert(next.drop_last() =~= ts.subrange(0, i as int));
                assert(next[next.len() - 2] == ts[i - 1]);
                assert(next[next.len() - 1] == ts[i as int]);
            }
            total = total + c;
            i = i + 1;
        }
        assert(ts.subrange(0, n as int) =~= ts);
        let w64 = self.base_chord_window;
        let avg = self.average_typing_speed;
        let f = self.typing_speed_factor;
        let spread = (w64 as i128) - (avg as i128);
        assert(-0xFFFF_FFFF_FFFF_FFFF * 0xFFFF_FFFF <= (spread as int) * (f as int)
            <= 0xFFFF_FFFF * 0xFFFF_FFFF) by (nonlinear_arith)
            requires
                -0xFFFF_FFFF_FFFF_FFFF <= spread <= 0xFFFF_FFFF,
                0 <= f <= 0xFFFF_FFFF,
        ;
        let adj: i128 = 1000 * (w64 as i128) + spread * (f as i128);
        let pairs = (n - 1) as u128;
        let wu = w64 as u128;
        assert(0 <= (pairs as int) * (wu as int) * (wu as int) * (1000 * wu as int)
            <= 0x100 * 0x1_0000_0000 * 0x1_0000_0000 * 0x1_0000_0000 * 1000) by (nonlinear_arith)
            requires
                pairs <= 0x100,
                wu <= 0xFFFF_FFFF,
        ;
        assert((pairs as int) * 0x1_0000_0000 <= 0x1_0000_0000_0000) by (nonlinear_arith)
            requires
                pairs <= 0x1_0000,
        ;
        assert((pairs as int) * (wu as int) <= 0x1_0000_0000_0000) by (nonlinear_arith)
            requires
                pairs <= 0x1_0000,
                wu <= 0xFFFF_FFFF,
        ;
        assert((pairs as int) * (wu as int) * (wu as int) <= 0x1_0000_0000_0000_0000_0000)
            by (nonlinear_arith)
            requires
                (pairs as int) * (wu as int) <= 0x1_0000_0000_0000,
                wu <= 0xFFFF_FFFF,
        ;
        let den: u128 = pairs * wu * wu * (1000 * wu);
        assert(den > 0) by (nonlinear_arith)
            requires
                den == (pairs as int) * (wu as int) * (wu as int) * (1000 * wu as int),
                pairs >= 1,
                wu >= 1,
        ;
        assert((pairs as int) * (wu as int) * (wu as int) * (1000 * wu as int) == (n - 1) * (w
            * w) * (1000 * w)) by (nonlinear_arith)
            requires
                pairs == n - 1,
                wu == w,
        ;
        let ghost num = (total as int) * (adj as int);
        if total == 0 || adj == 0 || (total < 0) != (adj < 0) {
            assert(num <= 0) by (nonlinear_arith)
                requires
                    num == (total as int) * (adj as int),
                    total == 0 || adj == 0 || (total < 0) != (adj < 0),
            ;
            return RollScore { num: 0, den: 1 };
        }
        let ta: u128 = if total < 0 {
            (-total) as u128
        } else {
            total as u128
        };
        let aa: u128 = if adj < 0 {
            (-adj) as u128
        } else {
            adj as u128
        };
        assert((ta as int) * (aa as int) == num && num > 0) by (nonlinear_arith)
            requires
                num == (total as int) * (adj as int),
                total != 0,
                adj != 0,
                (total < 0) == (adj < 0),
                ta == if total < 0 {
                    -total
                } else {
                    total as int
                },
                aa == if adj < 0 {
                    -adj
                } else {
                    adj as int
                },
        ;
        match ta.checked_mul(aa) {
            None => RollScore { num: 1, den: 1 },
            Some(prod) => {
                if prod >= den {
                    RollScore { num: 1, den: 1 }
                } else {
                    RollScore { num: prod, den }
                }
            },
        }
    }

    /// True iff the roll score of `timings` is below the roll threshold.
    pub fn is_chord(&self, timings: &[KeyTiming]) -> (r: bool)
        requires
            self.wf(),
            timings@.len() <= MAX_TIMINGS,
        ensures
            r == self.chord_of(timings@),
    {
        let score = self.calculate_roll_score(timings);
        assert((self.roll_threshold as int) * (score.den as int) <= 1000 * MAX_SCORE_DEN)
            by (nonlinear_arith)
            requires
                self.roll_threshold <= 1000,
                score.den <= MAX_SCORE_DEN,
        ;
        score.num * 1000 < (self.roll_threshold as u128) * score.den
    }

    /// Records an inter-press interval observed at time `now`. The ring takes
    /// it at once; the average and the window are recomputed only when at
    /// least `SPEED_CACHE_US` have passed since the last recomputation.
    pub fn update_typing_speed(&mut self, interval: u64, now: u64)
        requires
            old(self).wf(),
        ensures
            final(self).wf(),
            speed_update(*old(self), *final(self), interval, now),
    {
        self.recent_press_intervals.push(interval);
        if self.recent_press_intervals.len() > MAX_SAMPLES {
            self.recent_press_intervals.remove(0);
        }
        assert(self.recent_press_intervals@ =~= ring_push(old(self).intervals(), interval));
        if now >= self.last_speed_update && now - self.last_speed_update >= SPEED_CACHE_US {
            let len = self.recent_press_intervals.len();
            let ghost ring = self.recent_press_intervals@;
            let mut sum: u128 = 0;
            let mut i: usize = 0;
            while i < len
                invariant
                    0 <= i <= len,
                    len == ring.len(),
                    len <= MAX_SAMPLES,
                    ring == self.recent_press_intervals@,
                    sum == seq_sum(ring.subrange(0, i as int)),
                    sum <= i * 0xFFFF_FFFF_FFFF_FFFF,
                decreases len - i,
            {
                proof {
                    assert(ring.subrange(0, i + 1).drop_last() =~= ring.subrange(0, i as int));
                }
                sum = sum + self.recent_press_intervals[i] as u128;
                i = i + 1;
            }
            assert(ring.subrange(0, len as int) =~= ring);
            let avg = sum / (len as u128);
            assert(avg <= 0xFFFF_FFFF_FFFF_FFFF) by (nonlinear_arith)
                requires
                    avg == (sum as int) / (len as int),
                    sum <= len * 0xFFFF_FFFF_FFFF_FFFF,
                    len >= 1,
            ;
            self.average_typing_speed = avg as u64;
            self.cached_chord_window = window_for(
                self.base_chord_window,
                self.typing_speed_factor,
                self.average_typing_speed,
            );
            self.last_speed_update = now;
        }
    }

    /// The recent inter-press intervals, oldest first.
    pub fn recent_intervals(&self) -> (r: &Vec<u64>)
        ensures
            r@ == self.intervals(),
    {
        &self.recent_press_intervals
    }

    /// The average inter-press interval as last recomputed.
    pub fn average_typing_speed(&self) -> (r: u64)
        ensures
            r == self.average(),
    {
        self.average_typing_speed
    }

    /// The current chord window; it is only recomputed by `update_typing_speed`.
    pub fn get_adjusted_chord_window(&self) -> (r: u64)
        ensures
            r == self.window(),
    {
        self.cached_chord_window
    }
}


/// How `update_typing_speed(interval, now)` takes `before` to `after`: the
/// configuration stays, the ring takes `interval`, and the average and window
/// are recomputed only when `SPEED_CACHE_US` have passed since the last time.
pub open spec fn speed_update(
    before: TimingAnalyzer,
    after: TimingAnalyzer,
    interval: u64,
    now: u64,
) -> bool {
    &&& after.base_window() == before.base_window()
    &&& after.threshold() == before.threshold()
    &&& after.speed_factor() == before.speed_factor()
    &&& after.min_overlap() == before.min_overlap()
    &&& after.intervals() == ring_push(before.intervals(), interval)
    &&& if now >= before.last_refresh() + SPEED_CACHE_US {
        &&& after.average() == mean(after.intervals())
        &&& after.window() == adjusted_window(
            before.base_window(),
            before.speed_factor(),
            after.average(),
        )
        &&& after.last_refresh() == now
    } else {
        &&& after.average() == before.average()
        &&& after.window() == before.window()
        &&& after.last_refresh() == before.last_refresh()
    }
}

/// Sum over adjacent pairs of the blended score `1 - overlap_ratio * (1 - interval_ratio)`,
/// scaled by `w * w`, with neither shortcut to 1 taken.
pub open spec fn blended_sum(w: int, ts: Seq<KeyTiming>) -> int
    decreases ts.len(),
{
    if ts.len() < 2 {
        0
    } else {
        let cur = ts[ts.len() - 2];
        let next = ts[ts.len() - 1];
        blended_sum(w, ts.drop_last()) + (w * w - overlap(w, cur, next) * (w - press_interval(
            cur,
            next,
        )))
    }
}

/// When every adjacent pair is pressed within the base window and overlaps by
/// at least the minimum ratio, each pair scores the blended formula; the
/// timings then read as a chord exactly when the speed-adjusted, clamped mean
/// of those scores is below the roll threshold.
pub proof fn lemma_overlapping_presses_blend(a: TimingAnalyzer, ts: Seq<KeyTiming>)
    requires
        forall|i: int|
            0 <= i < ts.len() - 1 ==> {
                &&& press_interval(#[trigger] ts[i], ts[i + 1]) <= a.base_window()
                &&& 1000 * overlap(a.base_window(), ts[i], ts[i + 1]) >= a.min_overlap()
                    * a.base_window()
            },
    ensures
        pair_scores_sum(a.base_window(), a.min_overlap(), ts) == blended_sum(a.base_window(), ts),
        ts.len() >= 2 ==> a.score_of(ts) == clamp_fraction(
            blended_sum(a.base_window(), ts) * speed_adjustment(
                a.base_window(),
                a.speed_factor(),
                a.average(),
            ),
            (ts.len() - 1) * (a.base_window() * a.base_window()) * (1000 * a.base_window()),
        ),
        a.chord_of(ts) == below_threshold(a.score_of(ts), a.threshold()),
    decreases ts.len(),
{
    if ts.len() >= 2 {
        let prefix = ts.drop_last();
        assert forall|i: int| 0 <= i < prefix.len() - 1 implies {
            &&& press_interval(#[trigger] prefix[i], prefix[i + 1]) <= a.base_window()
            &&& 1000 * overlap(a.base_window(), prefix[i], prefix[i + 1]) >= a.min_overlap()
                * a.base_window()
        } by {
            assert(prefix[i] == ts[i]);
            assert(prefix[i + 1] == ts[i + 1]);
        }
        lemma_overlapping_presses_blend(a, prefix);
        let k = ts.len() - 2;
        assert(press_interval(ts[k], ts[k + 1]) <= a.base_window());
    }
}

/// A pair pressed more than the base window apart scores exactly one (`w * w`
/// scaled), whatever the overlap: the first key's release time does not matter.
pub proof fn lemma_slow_pair_scores_one(w: int, min_overlap: int, cur: KeyTiming, next: KeyTiming)
    requires
        press_interval(cur, next) > w,
    ensures
        pair_score(w, min_overlap, cur, next) == w * w,
        forall|release: Option<u64>|
            #[trigger] pair_score(
                w,
                min_overlap,
                (KeyTiming { press_time: cur.press_time, release_time: release }),
                next,
            ) == w * w,
{
}

/// Two updates that both come before `SPEED_CACHE_US` have passed since the
/// last recomputation leave the average, the cached window and the refresh
/// time as they were, while the ring takes both intervals at once.
pub proof fn lemma_burst_keeps_window(
    a: TimingAnalyzer,
    b: TimingAnalyzer,
    c: TimingAnalyzer,
    first: u64,
    first_at: u64,
    second: u64,
    second_at: u64,
)
    requires
        speed_update(a, b, first, first_at),
        speed_update(b, c, second, second_at),
        first_at < a.last_refresh() + SPEED_CACHE_US,
        second_at < a.last_refresh() + SPEED_CACHE_US,
    ensures
        c.window() == a.window(),
        c.average() == a.average(),
        c.last_refresh() == a.last_refresh(),
        c.intervals() == ring_push(ring_push(a.intervals(), first), second),
{
}

} // verus!
