//! Sequencer timing, audio display buffering and terminal-UI layout logic of
//! the textstep drum machine, with their contracts proved by Verus.
pub mod audio;
pub mod sequencer;
pub mod ui;
