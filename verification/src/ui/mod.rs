pub mod layout;
pub mod drum_grid;
pub mod waveform;
