use textstep::audio::display_buffer::{AudioDisplayBuffer, WAVEFORM_SIZE};

#[test]
fn fresh_buffer_reads_silence() {
    let buf = AudioDisplayBuffer::new();
    let mut out = vec![7u32; 16];
    buf.read_waveform(&mut out);
    assert_eq!(out, vec![0u32; 16]);
    assert_eq!(buf.get_peak(), 0);
}

#[test]
fn read_returns_latest_samples_oldest_first() {
    let mut buf = AudioDisplayBuffer::new();
    for s in 1..=5u32 {
        buf.push_sample(s);
    }
    let mut out = vec![0u32; 3];
    buf.read_waveform(&mut out);
    assert_eq!(out, vec![3, 4, 5]);

    let mut out = vec![9u32; 7];
    buf.read_waveform(&mut out);
    assert_eq!(out, vec![0, 0, 1, 2, 3, 4, 5]);
}

#[test]
fn read_wraps_around_the_ring() {
    let mut buf = AudioDisplayBuffer::new();
    let total = WAVEFORM_SIZE as u32 + 100;
    for s in 0..total {
        buf.push_sample(s);
    }
    let mut out = vec![0u32; WAVEFORM_SIZE];
    buf.read_waveform(&mut out);
    let expected: Vec<u32> = (100..total).collect();
    assert_eq!(out, expected);
}

#[test]
fn longer_output_keeps_its_tail() {
    let mut buf = AudioDisplayBuffer::new();
    buf.push_sample(42);
    let mut out = vec![5u32; WAVEFORM_SIZE + 3];
    buf.read_waveform(&mut out);
    assert_eq!(out[WAVEFORM_SIZE - 1], 42);
    assert_eq!(out[WAVEFORM_SIZE - 2], 0);
    assert_eq!(&out[WAVEFORM_SIZE..], &[5, 5, 5]);
}

#[test]
fn samples_round_trip_as_float_bits() {
    let mut buf = AudioDisplayBuffer::new();
    buf.push_sample((-0.25f32).to_bits());
    buf.push_sample(0.5f32.to_bits());
    let mut out = vec![0u32; 2];
    buf.read_waveform(&mut out);
    assert_eq!(f32::from_bits(out[0]), -0.25);
    assert_eq!(f32::from_bits(out[1]), 0.5);
}

#[test]
fn peak_is_stored_and_read_back() {
    let mut buf = AudioDisplayBuffer::new();
    buf.set_peak(0.75f32.to_bits());
    assert_eq!(f32::from_bits(buf.get_peak()), 0.75);
    buf.push_sample(1);
    assert_eq!(f32::from_bits(buf.get_peak()), 0.75);
}
