use textstep::sequencer::transport::{LoopConfig, PlayState, RecordMode, Transport};

#[test]
fn loop_config_default_is_on_with_full_length() {
    let c = LoopConfig::default();
    assert!(c.enabled);
    assert_eq!(c.drum_length, 32);
    assert_eq!(c.synth_length, 32);
}

#[test]
fn transport_default_is_stopped_at_120_bpm_straight() {
    let t = Transport::default();
    assert_eq!(t.state, PlayState::Stopped);
    assert_eq!(t.bpm, 120_000);
    assert_eq!(t.record_mode, RecordMode::Off);
    assert!(t.loop_config.enabled);
    assert_eq!(t.loop_config.drum_length, 32);
    assert_eq!(t.swing, 500);
}
