use textstep::audio::clock::SequencerClock;

#[test]
fn first_call_returns_step_zero() {
    let mut clock = SequencerClock::new();
    let event = clock.advance(120_000, 44100, 500);
    assert!(event.is_some());
    let e = event.unwrap();
    assert_eq!(e.global_step, 0);
    assert_eq!(e.beat, 0);
    assert!(e.is_bar_start);
}

#[test]
fn second_call_returns_none() {
    let mut clock = SequencerClock::new();
    let _ = clock.advance(120_000, 44100, 500); // step 0
    let event = clock.advance(120_000, 44100, 500);
    assert!(event.is_none());
}

#[test]
fn advances_after_correct_number_of_samples() {
    let bpm: f64 = 120.0;
    let sr: f64 = 44100.0;
    let samples_per_step = sr * 60.0 / bpm / 4.0; // 5512.5

    let mut clock = SequencerClock::new();
    // First call: step 0 fires immediately.
    let e = clock.advance((bpm * 1000.0) as u32, sr as u32, 500);
    assert_eq!(e.unwrap().global_step, 0);

    // Pump exactly samples_per_step samples: step 1 should fire.
    let count = samples_per_step.ceil() as usize;
    let mut step_events = Vec::new();
    for _ in 0..count {
        if let Some(e) = clock.advance((bpm * 1000.0) as u32, sr as u32, 500) {
            step_events.push(e.global_step);
        }
    }
    assert_eq!(step_events, vec![1]);
}

#[test]
fn global_step_never_wraps() {
    let bpm: f64 = 120.0;
    let sr: f64 = 44100.0;
    let samples_per_step = sr * 60.0 / bpm / 4.0;

    let mut clock = SequencerClock::new();
    let mut last_step = None;

    // Run through enough samples to hit steps 0..5 (6 events total).
    let total_samples = (samples_per_step * 5.0) as usize + 1;
    for _ in 0..total_samples {
        if let Some(e) = clock.advance((bpm * 1000.0) as u32, sr as u32, 500) {
            last_step = Some(e.global_step);
        }
    }
    // Step 0 fires immediately, then 1..4 fire after accumulating samples.
    assert_eq!(last_step, Some(4));
}

#[test]
fn beat_calculation() {
    // beat = (global_step / 4) % 4
    let bpm: f64 = 120.0;
    let sr: f64 = 44100.0;
    let samples_per_step = sr * 60.0 / bpm / 4.0;

    let mut clock = SequencerClock::new();
    let mut beats = Vec::new();

    let total_samples = (samples_per_step * 16.0) as usize + 1;
    for _ in 0..total_samples {
        if let Some(e) = clock.advance((bpm * 1000.0) as u32, sr as u32, 500) {
            beats.push(e.beat);
        }
    }
    // First 17 steps: 0..=16
    assert!(beats.len() >= 16);
    assert_eq!(beats[0], 0); // step 0
    assert_eq!(beats[4], 1); // step 4
    assert_eq!(beats[8], 2); // step 8
    assert_eq!(beats[12], 3); // step 12
    assert_eq!(beats[16], 0); // step 16 -> (16/4)%4 = 0
}

#[test]
fn is_bar_start_every_16_steps() {
    let bpm: f64 = 120.0;
    let sr: f64 = 44100.0;
    let samples_per_step = sr * 60.0 / bpm / 4.0;

    let mut clock = SequencerClock::new();
    let mut bar_starts = Vec::new();

    let total_samples = (samples_per_step * 33.0) as usize + 1;
    for _ in 0..total_samples {
        if let Some(e) = clock.advance((bpm * 1000.0) as u32, sr as u32, 500) {
            if e.is_bar_start {
                bar_starts.push(e.global_step);
            }
        }
    }
    // Steps 0, 16, and 32 are bar starts.
    assert_eq!(bar_starts, vec![0, 16, 32]);
}

#[test]
fn reset_re_emits_step_zero() {
    let bpm: f64 = 120.0;
    let sr: f64 = 44100.0;
    let samples_per_step = sr * 60.0 / bpm / 4.0;

    let mut clock = SequencerClock::new();

    // Advance a few steps.
    let total = (samples_per_step * 5.0) as usize + 1;
    for _ in 0..total {
        clock.advance((bpm * 1000.0) as u32, sr as u32, 500);
    }

    clock.reset();

    let event = clock.advance((bpm * 1000.0) as u32, sr as u32, 500);
    assert!(event.is_some());
    let e = event.unwrap();
    assert_eq!(e.global_step, 0);
    assert!(e.is_bar_start);
}

/// Calls of `advance` (after the one that returns step 0) until each of
/// the next `steps` steps fires.
fn call_counts(bpm: u32, sr: u32, swing: u16, steps: usize) -> Vec<usize> {
    let mut clock = SequencerClock::new();
    assert_eq!(clock.advance(bpm, sr, swing).unwrap().global_step, 0);
    let mut counts = Vec::new();
    let mut calls = 0usize;
    while counts.len() < steps {
        calls += 1;
        if let Some(e) = clock.advance(bpm, sr, swing) {
            assert_eq!(e.global_step, counts.len() + 1);
            counts.push(calls);
        }
    }
    counts
}

#[test]
fn half_samples_carry_over_between_steps() {
    // 5512.5 samples per step: steps land at 5513, 11025, 16538, 22050.
    assert_eq!(call_counts(120_000, 44100, 500, 4), vec![5513, 11025, 16538, 22050]);
}

#[test]
fn swing_lengthens_even_steps_and_shortens_odd_ones() {
    // At 75% swing step 0 lasts 8268.75 samples and step 1 2756.25.
    assert_eq!(call_counts(120_000, 44100, 750, 2), vec![8269, 11025]);
}

#[test]
fn non_integral_step_length_at_133_bpm() {
    // 44100 * 15 / 133 = 4973.68... samples per step.
    assert_eq!(call_counts(133_000, 44100, 500, 3), vec![4974, 9948, 14922]);
}

#[test]
fn fractional_tempo_127_5_bpm() {
    // 44100 * 15 / 127.5 = 5188.23... samples per step.
    assert_eq!(call_counts(127_500, 44100, 500, 3), vec![5189, 10377, 15565]);
}

#[test]
fn zero_bpm_never_advances() {
    let mut clock = SequencerClock::new();
    assert!(clock.advance(0, 44100, 500).is_some());
    for _ in 0..100_000 {
        assert!(clock.advance(0, 44100, 500).is_none());
    }
}

#[test]
fn events_carry_beat_and_bar_start() {
    let mut clock = SequencerClock::new();
    let mut events = Vec::new();
    while events.len() < 40 {
        if let Some(e) = clock.advance(300_000, 48000, 500) {
            events.push(e);
        }
    }
    for (i, e) in events.iter().enumerate() {
        assert_eq!(e.global_step, i);
        assert_eq!(e.beat as usize, (i / 4) % 4);
        assert_eq!(e.is_bar_start, i % 16 == 0);
    }
}

#[test]
fn first_call_returns_step_zero_for_any_tempo() {
    for &(bpm, sr, swing) in &[(0u32, 0u32, 0u16), (1, 1, 1000), (300_000, 192_000, 750), (u32::MAX, u32::MAX, 500)] {
        let mut clock = SequencerClock::new();
        let e = clock.advance(bpm, sr, swing).unwrap();
        assert_eq!((e.global_step, e.beat, e.is_bar_start), (0, 0, true));
        clock.advance(bpm, sr, swing);
        clock.reset();
        let e = clock.advance(bpm, sr, swing).unwrap();
        assert_eq!((e.global_step, e.beat, e.is_bar_start), (0, 0, true));
    }
}
