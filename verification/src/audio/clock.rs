//! SequencerClock: sample-accurate step advancement.
//!
//! The clock keeps its sample accumulator in fixed point: one audio sample
//! is `TICKS_PER_SAMPLE` ticks, so that fractional step lengths (5512.5
//! samples at 120 BPM and 44.1 kHz) are carried over exactly.
use vstd::prelude::*;
use vstd::arithmetic::div_mod::{
    lemma_fundamental_div_mod, lemma_mod_pos_bound, lemma_div_is_ordered,
    lemma_fundamental_div_mod_converse_div, lemma_fundamental_div_mod_converse_mod,
};
use vstd::arithmetic::mul::lemma_mul_inequality;

verus! {

/// Resolution of the clock's accumulator: ticks per audio sample.
pub const TICKS_PER_SAMPLE: u128 = 0x1_0000_0000;

/// Emitted by the clock each time the sequencer advances to a new step.
#[derive(Debug, Clone, Copy, PartialEq, Eq, Structural)]
pub struct StepEvent {
    /// Free-running step counter (never wraps).
    pub global_step: usize,
    /// Current beat number within a 4-beat bar (0..3).
    pub beat: u8,
    /// True when this step is the first step of a 16-step bar.
    pub is_bar_start: bool,
}

/// The event that announces step `step`.
pub open spec fn step_event(step: usize) -> StepEvent {
    StepEvent {
        global_step: step,
        beat: ((step / 4) % 4) as u8,
        is_bar_start: step % 16 == 0,
    }
}

/// Share (in thousandths of a pair of steps) that step `step` takes under
/// swing: even steps get `swing`, odd steps the rest.
pub open spec fn swing_share(swing: u16, step: usize) -> int {
    if step % 2 == 0 {
        swing as int
    } else {
        1000 - swing
    }
}

/// Length of step `step` in ticks, rounded down, for a tempo of `bpm`
/// thousandths of a beat per minute: `sample_rate * 60 / (bpm / 1000) / 4`
/// samples per straight step, scaled by `2 * swing_share / 1000`.
pub open spec fn step_length_ticks(bpm: u32, sample_rate: u32, swing: u16, step: usize) -> int {
    (sample_rate * 30 * swing_share(swing, step) * TICKS_PER_SAMPLE) / (bpm as int)
}

/// The accumulator after one more sample (it saturates at `u128::MAX`).
pub open spec fn add_one_sample(ticks: u128) -> u128 {
    if ticks as int + TICKS_PER_SAMPLE as int <= u128::MAX {
        (ticks + TICKS_PER_SAMPLE) as u128
    } else {
        u128::MAX
    }
}

/// The abstract state of a clock.
#[derive(Debug, Clone, Copy, PartialEq, Eq, Structural)]
pub struct ClockModel {
    /// Ticks accumulated since the last step.
    pub ticks: u128,
    /// The last step announced (or to be announced, while the first is pending).
    pub step: usize,
    /// Whether the next call announces `step` at once.
    pub first_step_pending: bool,
}

/// The state of a clock just created or reset.
pub open spec fn initial_clock() -> ClockModel {
    ClockModel { ticks: 0, step: 0, first_step_pending: true }
}

/// One call of `advance`: the new state and the event it returns.
pub open spec fn clock_next(s: ClockModel, bpm: u32, sample_rate: u32, swing: u16) -> (
    ClockModel,
    Option<StepEvent>,
) {
    if s.first_step_pending {
        (ClockModel { ticks: 0, step: s.step, first_step_pending: false }, Some(step_event(s.step)))
    } else {
        let t = add_one_sample(s.ticks);
        let len = step_length_ticks(bpm, sample_rate, swing, s.step);
        if bpm > 0 && t >= len {
            let next = (s.step + 1) as usize;
            (
                ClockModel { ticks: (t - len) as u128, step: next, first_step_pending: false },
                Some(step_event(next)),
            )
        } else {
            (ClockModel { ticks: t, step: s.step, first_step_pending: false }, None)
        }
    }
}

/// The state after `n` calls of `advance`, all with the same tempo.
pub open spec fn clock_run(s: ClockModel, bpm: u32, sample_rate: u32, swing: u16, n: nat) -> ClockModel
    decreases n,
{
    if n == 0 {
        s
    } else {
        clock_next(clock_run(s, bpm, sample_rate, swing, (n - 1) as nat), bpm, sample_rate, swing).0
    }
}

/// The event returned by the `n`-th of those calls (`n >= 1`).
pub open spec fn clock_event_at(s: ClockModel, bpm: u32, sample_rate: u32, swing: u16, n: nat) -> Option<StepEvent> {
    clock_next(clock_run(s, bpm, sample_rate, swing, (n - 1) as nat), bpm, sample_rate, swing).1
}

/// The first call after `new()` or `reset()` returns step 0 at once, which
/// is beat 0 and the start of a bar, and leaves the accumulator empty.
pub proof fn lemma_first_call_emits_step_zero(bpm: u32, sample_rate: u32, swing: u16)
    ensures
        clock_next(initial_clock(), bpm, sample_rate, swing) == (
            ClockModel { ticks: 0, step: 0, first_step_pending: false },
            Some(step_event(0)),
        ),
        step_event(0).global_step == 0,
        step_event(0).beat == 0,
        step_event(0).is_bar_start,
{
}

/// Whatever the accumulator holds (also after a change of tempo or swing
/// has left it above the new step's length), a call on a running clock
/// adds one sample and announces the next step exactly when the total
/// reaches the current step's length, `sample_rate * 30 * share /
/// bpm` samples for a tempo of `bpm` thousandths of a BPM (`share` being
/// `swing` for even steps and `1000 - swing` for odd ones), keeping the
/// remainder; otherwise it returns nothing and keeps the total.
pub proof fn lemma_step_when_due(s: ClockModel, bpm: u32, sample_rate: u32, swing: u16)
    requires
        !s.first_step_pending,
        bpm > 0,
        swing <= 1000,
        s.step < usize::MAX,
        s.ticks + 0x1_0000_0000 <= u128::MAX,
    ensures
        ({
            let share: int = if s.step % 2 == 0 { swing as int } else { 1000 - swing };
            let len: int = (sample_rate as int * 30 * share * 0x1_0000_0000) / (bpm as int);
            let total: int = s.ticks + 0x1_0000_0000;
            let next: int = s.step + 1;
            let (t, e) = clock_next(s, bpm, sample_rate, swing);
            &&& total >= len ==> e == Some(
                StepEvent { global_step: next as usize, beat: ((next / 4) % 4) as u8, is_bar_start: next % 16 == 0 },
            ) && t.step == next && t.ticks == total - len && !t.first_step_pending
            &&& total < len ==> e is None && t.step == s.step && t.ticks == total && !t.first_step_pending
        }),
{
    let share: int = if s.step % 2 == 0 { swing as int } else { 1000 - swing };
    let len: int = (sample_rate as int * 30 * share * 0x1_0000_0000) / (bpm as int);
    assert(swing_share(swing, s.step) == share);
    assert(step_length_ticks(bpm, sample_rate, swing, s.step) == len);
    assert(add_one_sample(s.ticks) == s.ticks + 0x1_0000_0000);
    lemma_step_length_bounded(bpm, sample_rate, swing, s.step);
    assert(len >= 0) by (nonlinear_arith)
        requires
            share >= 0,
            bpm > 0,
            len == (sample_rate as int * 30 * share * 0x1_0000_0000) / (bpm as int),
    ;
}

/// Every event carries the step it announces: the first one announces the
/// current step, every later one the step after the last (the counter
/// never wraps), and the clock's state moves to that step.
pub proof fn lemma_steps_count_up(s: ClockModel, bpm: u32, sample_rate: u32, swing: u16)
    requires
        s.step < usize::MAX,
    ensures
        ({
            let (t, e) = clock_next(s, bpm, sample_rate, swing);
            &&& e matches Some(ev) ==> ev.global_step == t.step
            &&& e matches Some(ev) ==> ev.global_step == if s.first_step_pending { s.step as int } else { s.step + 1 }
            &&& e is None ==> t.step == s.step && !s.first_step_pending
            &&& !t.first_step_pending
        }),
{
}

/// The beat of a step is its quarter-note within a 4-beat bar, and a bar
/// starts every 16 steps, always on beat 0.
pub proof fn lemma_step_event_fields(step: usize)
    ensures
        step_event(step).global_step == step,
        step_event(step).beat < 4,
        step_event(step).beat == (step / 4) % 4,
        step_event(step).is_bar_start <==> step % 16 == 0,
        step_event(step).is_bar_start ==> step_event(step).beat == 0,
{
}

/// Swing moves time from each odd step to the even step before it: the
/// even step is the longer one from 50% swing (500) on (the two are equal
/// at 50%), and the pair together lasts, to within one tick, the exact
/// length of two straight steps, `sample_rate * 30000 / bpm` samples.
pub proof fn lemma_swing_keeps_pair_length(bpm: u32, sample_rate: u32, swing: u16, step: usize)
    requires
        bpm > 0,
        swing <= 1000,
        step % 2 == 0,
        step < usize::MAX,
    ensures
        ({
            let even = step_length_ticks(bpm, sample_rate, swing, step);
            let odd = step_length_ticks(bpm, sample_rate, swing, (step + 1) as usize);
            let two_straight = (sample_rate * 30 * 1000 * TICKS_PER_SAMPLE) / (bpm as int);
            &&& two_straight - 1 <= even + odd <= two_straight
            &&& swing >= 500 ==> even >= odd
            &&& swing == 500 ==> even == odd
        }),
{
    let a = sample_rate * 30 * TICKS_PER_SAMPLE;
    let d = bpm as int;
    let x = sample_rate * 30 * (swing as int) * TICKS_PER_SAMPLE;
    let y = sample_rate * 30 * (1000 - swing) * TICKS_PER_SAMPLE;
    let z = sample_rate * 30 * 1000 * TICKS_PER_SAMPLE;
    assert(x == a * swing && y == a * (1000 - swing) && z == a * 1000) by (nonlinear_arith)
        requires
            a == sample_rate * 30 * TICKS_PER_SAMPLE,
            x == sample_rate * 30 * (swing as int) * TICKS_PER_SAMPLE,
            y == sample_rate * 30 * (1000 - swing) * TICKS_PER_SAMPLE,
            z == sample_rate * 30 * 1000 * TICKS_PER_SAMPLE,
    ;
    assert(a >= 0) by (nonlinear_arith)
        requires
            a == sample_rate * 30 * TICKS_PER_SAMPLE,
    ;
    assert(x + y == z) by (nonlinear_arith)
        requires
            x == a * swing,
            y == a * (1000 - swing),
            z == a * 1000,
    ;
    assert(0 <= y) by (nonlinear_arith)
        requires
            a >= 0,
            y == a * (1000 - swing),
            swing <= 1000,
    ;
    assert(0 <= x) by (nonlinear_arith)
        requires
            a >= 0,
            x == a * swing,
    ;
    assert(step_length_ticks(bpm, sample_rate, swing, step) == x / d);
    assert(((step + 1) as usize) % 2 == 1);
    assert(step_length_ticks(bpm, sample_rate, swing, (step + 1) as usize) == y / d);
    lemma_fundamental_div_mod(x, d);
    lemma_fundamental_div_mod(y, d);
    lemma_fundamental_div_mod(z, d);
    lemma_mod_pos_bound(x, d);
    lemma_mod_pos_bound(y, d);
    lemma_mod_pos_bound(z, d);
    assert(z / d - 1 <= x / d + y / d <= z / d) by (nonlinear_arith)
        requires
            d > 0,
            x == d * (x / d) + x % d,
            y == d * (y / d) + y % d,
            z == d * (z / d) + z % d,
            0 <= x % d < d,
            0 <= y % d < d,
            0 <= z % d < d,
            x + y == z,
    ;
    if swing >= 500 {
        lemma_mul_inequality(1000 - swing, swing as int, a);
        assert(a * (1000 - swing) <= a * swing) by (nonlinear_arith)
            requires
                (1000 - swing) * a <= (swing as int) * a,
        ;
        lemma_div_is_ordered(y, x, d);
    }
}

/// The state and the events after a sequence of calls of `advance`, one
/// `(bpm, sample_rate, swing)` per call, in order.
pub open spec fn clock_trace(s: ClockModel, calls: Seq<(u32, u32, u16)>) -> (ClockModel, Seq<StepEvent>)
    decreases calls.len(),
{
    if calls.len() == 0 {
        (s, Seq::empty())
    } else {
        let (t, events) = clock_trace(s, calls.drop_last());
        let c = calls.last();
        let (t2, e) = clock_next(t, c.0, c.1, c.2);
        (
            t2,
            match e {
                Some(ev) => events.push(ev),
                None => events,
            },
        )
    }
}

/// From a new or reset clock, whatever tempo, sample rate and swing each
/// call brings, the events returned carry the steps 0, 1, 2, ... in call
/// order: no step is skipped, repeated or wrapped, a call returns at most
/// one event, and the first call returns one. The clock stands at the last
/// step returned.
pub proof fn lemma_trace_counts_steps(calls: Seq<(u32, u32, u16)>)
    requires
        calls.len() < usize::MAX,
    ensures
        ({
            let (t, events) = clock_trace(initial_clock(), calls);
            &&& forall|k: int| 0 <= k < events.len() ==> #[trigger] events[k].global_step == k
            &&& events.len() <= calls.len()
            &&& calls.len() == 0 ==> t == initial_clock()
            &&& calls.len() > 0 ==> events.len() >= 1 && events.len() == t.step + 1 && !t.first_step_pending
        }),
    decreases calls.len(),
{
    if calls.len() > 0 {
        let init = calls.drop_last();
        lemma_trace_counts_steps(init);
        let (t, events) = clock_trace(initial_clock(), init);
        let c = calls.last();
        lemma_steps_count_up(t, c.0, c.1, c.2);
    }
}

/// The state after the first call of a new clock (which returned step 0).
pub open spec fn clock_after_first_call() -> ClockModel {
    ClockModel { ticks: 0, step: 0, first_step_pending: false }
}

/// With a fixed straight tempo (swing 500) whose steps last at least one
/// sample, the clock never drifts: after the first call (step 0) and `n`
/// more, it stands at step `n * TICKS_PER_SAMPLE / len` (rounded down,
/// `len` being the step length in ticks) with the remainder carried, and
/// the `n`-th of those calls returns an event exactly when that quotient
/// grows, announcing the new step. So step `k` comes on the first call
/// whose total reaches `k * len`.
pub proof fn lemma_straight_tempo_schedule(bpm: u32, sample_rate: u32, n: nat)
    requires
        bpm > 0,
        step_length_ticks(bpm, sample_rate, 500, 0) >= TICKS_PER_SAMPLE,
        n < usize::MAX,
    ensures
        ({
            let len = step_length_ticks(bpm, sample_rate, 500, 0);
            let q = (n * TICKS_PER_SAMPLE) / len;
            &&& clock_run(clock_after_first_call(), bpm, sample_rate, 500, n) == (ClockModel {
                ticks: (n * TICKS_PER_SAMPLE - q * len) as u128,
                step: q as usize,
                first_step_pending: false,
            })
            &&& n >= 1 ==> clock_event_at(clock_after_first_call(), bpm, sample_rate, 500, n) == if q > ((n
                - 1) * TICKS_PER_SAMPLE) / len {
                Some(step_event(q as usize))
            } else {
                None
            }
        }),
    decreases n,
{
    let len = step_length_ticks(bpm, sample_rate, 500, 0);
    let t = TICKS_PER_SAMPLE as int;
    lemma_step_length_bounded(bpm, sample_rate, 500, 0);
    let x = n * t;
    lemma_fundamental_div_mod(x, len);
    lemma_mod_pos_bound(x, len);
    let q = x / len;
    assert(q <= n) by {
        assert(x <= n * len) by (nonlinear_arith)
            requires
                x == n * t,
                t <= len,
        ;
        lemma_div_is_ordered(x, n * len, len);
        assert((n * len) / len == n) by {
            lemma_fundamental_div_mod_converse_div(n * len, len, n as int, 0);
        }
    }
    assert(x - q * len == x % len) by (nonlinear_arith)
        requires
            x == len * (x / len) + x % len,
            q == x / len,
    ;
    if n > 0 {
        let m = (n - 1) as nat;
        lemma_straight_tempo_schedule(bpm, sample_rate, m);
        let y = m * t;
        let qm = y / len;
        let r = y - qm * len;
        lemma_fundamental_div_mod(y, len);
        lemma_mod_pos_bound(y, len);
        assert(r == y % len) by (nonlinear_arith)
            requires
                y == len * (y / len) + y % len,
                qm == y / len,
                r == y - qm * len,
        ;
        assert(x == y + t) by (nonlinear_arith)
            requires
                x == n * t,
                y == m * t,
                n == m + 1,
        ;
        let prev = clock_run(clock_after_first_call(), bpm, sample_rate, 500, m);
        assert(step_length_ticks(bpm, sample_rate, 500, prev.step) == len);
        assert(qm <= m) by {
            assert(y <= m * len) by (nonlinear_arith)
                requires
                    y == m * t,
                    t <= len,
            ;
            lemma_div_is_ordered(y, m * len, len);
            lemma_fundamental_div_mod_converse_div(m * len, len, m as int, 0);
        }
        if r + t >= len {
            assert(x == (qm + 1) * len + (r + t - len)) by (nonlinear_arith)
                requires
                    x == y + t,
                    r == y - qm * len,
            ;
            lemma_fundamental_div_mod_converse_div(x, len, qm + 1, r + t - len);
            lemma_fundamental_div_mod_converse_mod(x, len, qm + 1, r + t - len);
        } else {
            assert(x == qm * len + (r + t)) by (nonlinear_arith)
                requires
                    x == y + t,
                    r == y - qm * len,
            ;
            lemma_fundamental_div_mod_converse_div(x, len, qm, r + t);
        }
    }
}

proof fn lemma_step_length_bounded(bpm: u32, sample_rate: u32, swing: u16, step: usize)
    requires
        bpm > 0,
    ensures
        step_length_ticks(bpm, sample_rate, swing, step) < 0x1_0000_0000_0000_0000_0000_0000,
{
    let share = swing_share(swing, step);
    let num = sample_rate * 30 * share * TICKS_PER_SAMPLE;
    assert(num <= 0x1_0000_0000 * 32 * 0x1_0000 * 0x1_0000_0000) by (nonlinear_arith)
        requires
            sample_rate < 0x1_0000_0000,
            share <= 0x1_0000,
            num == sample_rate * 30 * share * TICKS_PER_SAMPLE,
            TICKS_PER_SAMPLE == 0x1_0000_0000,
    ;
    assert(num / (bpm as int) <= 0x1_0000_0000 * 32 * 0x1_0000 * 0x1_0000_0000) by (nonlinear_arith)
        requires
            bpm > 0,
            num <= 0x1_0000_0000 * 32 * 0x1_0000 * 0x1_0000_0000,
    ;
}

proof fn lemma_waiting_phase(s: ClockModel, bpm: u32, sample_rate: u32, swing: u16, j: nat)
    requires
        !s.first_step_pending,
        bpm > 0,
        s.ticks + j * TICKS_PER_SAMPLE < step_length_ticks(bpm, sample_rate, swing, s.step),
    ensures
        clock_run(s, bpm, sample_rate, swing, j) == (ClockModel {
            ticks: (s.ticks + j * TICKS_PER_SAMPLE) as u128,
            step: s.step,
            first_step_pending: false,
        }),
    decreases j,
{
    lemma_step_length_bounded(bpm, sample_rate, swing, s.step);
    if j > 0 {
        let jm = (j - 1) as nat;
        assert(s.ticks + jm * TICKS_PER_SAMPLE < s.ticks + j * TICKS_PER_SAMPLE) by (nonlinear_arith)
            requires
                jm + 1 == j,
        ;
        lemma_waiting_phase(s, bpm, sample_rate, swing, jm);
        assert(s.ticks + jm * TICKS_PER_SAMPLE + TICKS_PER_SAMPLE == s.ticks + j * TICKS_PER_SAMPLE) by (nonlinear_arith)
            requires
                jm + 1 == j,
        ;
    }
}

/// With a fixed tempo, a step lasts exactly as many samples as it takes
/// the accumulator to reach the step's length: if `m` samples are the
/// fewest that bring it there, the first `m - 1` calls return `None` and
/// the `m`-th returns the next step, keeping the remainder for the step
/// after it.
pub proof fn lemma_step_spacing(s: ClockModel, bpm: u32, sample_rate: u32, swing: u16, m: nat)
    requires
        !s.first_step_pending,
        bpm > 0,
        s.step < usize::MAX,
        m >= 1,
        s.ticks + (m - 1) * TICKS_PER_SAMPLE < step_length_ticks(bpm, sample_rate, swing, s.step),
        s.ticks + m * TICKS_PER_SAMPLE >= step_length_ticks(bpm, sample_rate, swing, s.step),
        s.ticks + m * TICKS_PER_SAMPLE <= u128::MAX,
    ensures
        forall|j: nat| 1 <= j < m ==> #[trigger] clock_event_at(s, bpm, sample_rate, swing, j) is None,
        clock_event_at(s, bpm, sample_rate, swing, m) == Some(step_event((s.step + 1) as usize)),
        clock_run(s, bpm, sample_rate, swing, m) == (ClockModel {
            ticks: (s.ticks + m * TICKS_PER_SAMPLE - step_length_ticks(bpm, sample_rate, swing, s.step)) as u128,
            step: (s.step + 1) as usize,
            first_step_pending: false,
        }),
{
    let len = step_length_ticks(bpm, sample_rate, swing, s.step);
    assert forall|j: nat| 1 <= j < m implies #[trigger] clock_event_at(s, bpm, sample_rate, swing, j) is None by {
        let jm = (j - 1) as nat;
        assert(s.ticks + jm * TICKS_PER_SAMPLE + TICKS_PER_SAMPLE <= s.ticks + (m - 1) * TICKS_PER_SAMPLE)
            by (nonlinear_arith)
            requires
                jm + 1 == j,
                j < m,
        ;
        lemma_waiting_phase(s, bpm, sample_rate, swing, jm);
    }
    let mm = (m - 1) as nat;
    lemma_waiting_phase(s, bpm, sample_rate, swing, mm);
    assert(s.ticks + mm * TICKS_PER_SAMPLE + TICKS_PER_SAMPLE == s.ticks + m * TICKS_PER_SAMPLE) by (nonlinear_arith)
        requires
            mm + 1 == m,
    ;
}

/// A sample-accurate clock that converts a stream of audio samples into
/// discrete sequencer steps at the tempo defined by BPM.
///
/// The clock is a pure "BPM to step pulse" converter: it does not know
/// about loop lengths or pattern boundaries. Callers are responsible for
/// mapping `global_step` into their own pattern/loop coordinates.
pub struct SequencerClock {
    ticks_since_last_step: u128,
    current_step: usize,
    /// Tracks whether we still need to emit the very first step (step 0).
    first_step_pending: bool,
}

impl View for SequencerClock {
    type V = ClockModel;

    closed spec fn view(&self) -> ClockModel {
        ClockModel {
            ticks: self.ticks_since_last_step,
            step: self.current_step,
            first_step_pending: self.first_step_pending,
        }
    }
}

/// Ticks in step `step`, computed exactly (`bpm` must be nonzero).
fn compute_step_length(bpm: u32, sample_rate: u32, swing: u16, step: usize) -> (len: u128)
    requires
        bpm > 0,
        swing <= 1000,
    ensures
        len == step_length_ticks(bpm, sample_rate, swing, step),
{
    let share: u128 = if step % 2 == 0 {
        swing as u128
    } else {
        (1000 - swing) as u128
    };
    let sr = sample_rate as u128;
    assert(sr * 30 <= 0x20_0000_0000u128);
    assert(sr * 30 * share <= 0x20_0000_0000u128 * 1000) by (nonlinear_arith)
        requires
            sr * 30 <= 0x20_0000_0000u128,
            share <= 1000,
    ;
    let a: u128 = sr * 30 * share;
    assert(a * TICKS_PER_SAMPLE <= 0x20_0000_0000u128 * 1000 * 0x1_0000_0000u128) by (nonlinear_arith)
        requires
            a <= 0x20_0000_0000u128 * 1000,
    ;
    let num: u128 = a * TICKS_PER_SAMPLE;
    num / (bpm as u128)
}

impl SequencerClock {
    /// Create a new clock starting at step 0. The first call to `advance`
    /// will immediately return `Some(StepEvent)` for step 0.
    pub fn new() -> (clock: Self)
        ensures
            clock@ == initial_clock(),
            forall|bpm: u32, sample_rate: u32, swing: u16|
                #[trigger] clock_next(clock@, bpm, sample_rate, swing).1 == Some(step_event(0)),
    {
        SequencerClock { ticks_since_last_step: 0, current_step: 0, first_step_pending: true }
    }

    /// Reset the clock back to step 0 and clear the sample accumulator.
    /// The next call to `advance` will immediately return step 0.
    pub fn reset(&mut self)
        ensures
            final(self)@ == initial_clock(),
            forall|bpm: u32, sample_rate: u32, swing: u16|
                #[trigger] clock_next(final(self)@, bpm, sample_rate, swing).1 == Some(step_event(0)),
    {
        self.ticks_since_last_step = 0;
        self.current_step = 0;
        self.first_step_pending = true;
    }

    /// Call once per audio sample. Returns `Some(StepEvent)` when the
    /// sequencer advances to a new step, `None` otherwise.
    ///
    /// - `bpm`: tempo in thousandths of a beat per minute, 120 BPM being
    ///   120_000 (one beat = 4 sixteenth-note steps)
    /// - `sample_rate`: audio sample rate in Hz (e.g. 44100)
    /// - `swing`: 500 (straight) to 750 (heavy shuffle), in thousandths.
    ///   Even steps are lengthened, odd steps are shortened proportionally.
    pub fn advance(&mut self, bpm: u32, sample_rate: u32, swing: u16) -> (event: Option<
        StepEvent,
    >)
        requires
            swing <= 1000,
            old(self)@.step < usize::MAX,
        ensures
            (final(self)@, event) == clock_next(old(self)@, bpm, sample_rate, swing),
            event matches Some(e) ==> e.beat == (e.global_step / 4) % 4 && e.beat <= 3 && e.is_bar_start
                == (e.global_step % 16 == 0),
            old(self)@.first_step_pending ==> event == Some(
                StepEvent { global_step: old(self)@.step, beat: ((old(self)@.step / 4) % 4) as u8, is_bar_start: old(self)@.step % 16 == 0 },
            ),
            !old(self)@.first_step_pending && bpm > 0 && old(self)@.ticks + 0x1_0000_0000 <= u128::MAX ==> {
                let share: int = if old(self)@.step % 2 == 0 { swing as int } else { 1000 - swing };
                let len: int = (sample_rate as int * 30 * share * 0x1_0000_0000) / (bpm as int);
                let total: int = old(self)@.ticks + 0x1_0000_0000;
                &&& total >= len ==> event is Some && event->0.global_step == old(self)@.step + 1
                    && final(self)@.ticks == total - len
                &&& total < len ==> event is None && final(self)@.ticks == total && final(self)@.step == old(self)@.step
            },
            !old(self)@.first_step_pending && bpm == 0 ==> event is None,
    {
        // On the very first call after new() or reset(), emit step 0 immediately.
        if self.first_step_pending {
            self.first_step_pending = false;
            self.ticks_since_last_step = 0;
            return Some(self.make_event());
        }
        let t: u128 = if self.ticks_since_last_step <= u128::MAX - TICKS_PER_SAMPLE {
            self.ticks_since_last_step + TICKS_PER_SAMPLE
        } else {
            u128::MAX
        };
        if bpm > 0 {
            let len = compute_step_length(bpm, sample_rate, swing, self.current_step);
            if t >= len {
                self.ticks_since_last_step = t - len;
                // Advance to next step (free-running, never wraps).
                self.current_step = self.current_step + 1;
                return Some(self.make_event());
            }
        }
        self.ticks_since_last_step = t;
        None
    }

    /// Build a `StepEvent` from the current state.
    fn make_event(&self) -> (event: StepEvent)
        ensures
            event == step_event(self.current_step),
    {
        StepEvent {
            global_step: self.current_step,
            beat: ((self.current_step / 4) % 4) as u8,
            is_bar_start: self.current_step % 16 == 0,
        }
    }
}

} // verus!
