# textstep

The timing, buffering and layout logic of the textstep terminal drum
machine, written in Verus with its contracts proved.

- `src/audio/clock.rs`: the sequencer clock. Tempo is given in thousandths of a BPM,
  swing in thousandths, and the sample accumulator is kept in fixed point
  (2^32 ticks per sample), so step timing is exact integer arithmetic.
- `src/audio/display_buffer.rs`: the ring buffer of recent output samples
  (stored as `f32` bit patterns) and the peak level.
- `src/audio/fft.rs`: the bit-reversal permutation of the radix-2 FFT.
- `src/sequencer/transport.rs`: transport state and its defaults.
- `src/ui/`: screen layout (areas solved by ratatui), drum grid cell
  styles and labels, spectrum bar cells and frequency labels.
- `app/`: ratatui rendering and the floating-point DSP (FFT butterflies,
  windows, decibels, LED colors), built on the library.
