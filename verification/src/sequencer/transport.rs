//! Transport state: play/pause/stop, BPM, loop configuration, swing amount.
use vstd::prelude::*;

verus! {

/// Sequencer playback state.
#[derive(Clone, Copy, Debug, PartialEq, Eq, Structural)]
pub enum PlayState {
    Stopped,
    Playing,
    Paused,
}

#[derive(Clone, Copy, Debug, PartialEq, Eq, Structural)]
pub enum RecordMode {
    Off,
    On,
}

/// Per-section loop length settings (8/16/24/32 steps for drum and synth independently).
#[derive(Clone, Copy, Debug)]
pub struct LoopConfig {
    pub enabled: bool,
    /// 8, 16, 24, or 32
    pub drum_length: u8,
    /// 8, 16, 24, or 32
    pub synth_length: u8,
}

impl Default for LoopConfig {
    fn default() -> (config: Self)
        ensures
            config.enabled,
            config.drum_length == 32,
            config.synth_length == 32,
    {
        LoopConfig { enabled: true, drum_length: 32, synth_length: 32 }
    }
}

/// Master transport: play state, tempo (BPM), record mode, loop config, and swing.
#[derive(Clone, Copy, Debug)]
pub struct Transport {
    pub state: PlayState,
    /// Tempo in thousandths of a beat per minute (120 BPM is 120_000),
    /// 60..=300 BPM.
    pub bpm: u32,
    pub record_mode: RecordMode,
    pub loop_config: LoopConfig,
    /// Swing in thousandths: 500 (straight) .. 750 (heavy shuffle).
    pub swing: u16,
}

impl Default for Transport {
    fn default() -> (transport: Self)
        ensures
            transport.state == PlayState::Stopped,
            transport.bpm == 120_000,
            transport.record_mode == RecordMode::Off,
            transport.loop_config.enabled,
            transport.loop_config.drum_length == 32,
            transport.loop_config.synth_length == 32,
            transport.swing == 500,
    {
        Transport {
            state: PlayState::Stopped,
            bpm: 120_000,
            record_mode: RecordMode::Off,
            loop_config: LoopConfig::default(),
            swing: 500,
        }
    }
}

} // verus!
