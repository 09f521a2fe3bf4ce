pub mod clock;
pub mod display_buffer;
pub mod fft;
