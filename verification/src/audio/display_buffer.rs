//! Shared buffer for audio visualization data: a ring buffer of the most
//! recent output samples and the latest peak level.
//!
//! Samples and the peak level are stored as the bit patterns of their
//! `f32` values (`f32::to_bits`), which the buffer hands back unchanged.
use vstd::prelude::*;

verus! {

/// Number of samples stored in the waveform ring buffer.
/// ~85ms at 48kHz, enough for a 4096-point FFT window.
pub const WAVEFORM_SIZE: usize = 4096;

/// `history` after `samples` were pushed in order: each push drops the
/// oldest sample and appends the new one.
pub open spec fn push_all(history: Seq<u32>, samples: Seq<u32>) -> Seq<u32>
    decreases samples.len(),
{
    if samples.len() == 0 {
        history
    } else {
        push_all(history, samples.drop_last()).drop_first().push(samples.last())
    }
}

/// What `read_waveform` writes into an output of length `out_len`: the
/// newest `min(out_len, WAVEFORM_SIZE)` samples, oldest first.
pub open spec fn latest_samples(history: Seq<u32>, out_len: int) -> Seq<u32> {
    let n = if out_len < WAVEFORM_SIZE { out_len } else { WAVEFORM_SIZE as int };
    history.subrange(WAVEFORM_SIZE - n, WAVEFORM_SIZE as int)
}

pub struct AudioDisplayBuffer {
    /// Peak level (bits of an f32). Updated by the audio thread each buffer.
    peak: u32,
    /// Ring buffer of post-output audio samples (bits of f32 values).
    waveform: Vec<u32>,
    /// Current write position in the ring buffer.
    write_pos: usize,
}

impl AudioDisplayBuffer {
    /// The ring holds exactly `WAVEFORM_SIZE` samples and the write
    /// position points into it.
    pub closed spec fn well_formed(&self) -> bool {
        &&& self.waveform.len() == WAVEFORM_SIZE
        &&& self.write_pos < WAVEFORM_SIZE
    }

    /// The last `WAVEFORM_SIZE` samples pushed, oldest first (zeros stand
    /// for samples never written).
    pub closed spec fn history(&self) -> Seq<u32> {
        Seq::new(
            WAVEFORM_SIZE as nat,
            |i: int| self.waveform@[(self.write_pos + i) % (WAVEFORM_SIZE as int)],
        )
    }

    /// The history always holds `WAVEFORM_SIZE` samples.
    pub proof fn lemma_history_length(&self)
        ensures
            self.history().len() == WAVEFORM_SIZE,
    {
    }

    /// The stored peak level.
    pub closed spec fn peak_bits(&self) -> u32 {
        self.peak
    }

    pub fn new() -> (buf: Self)
        ensures
            buf.well_formed(),
            buf.history().len() == WAVEFORM_SIZE,
            buf.history() == Seq::new(WAVEFORM_SIZE as nat, |i: int| 0u32),
            buf.peak_bits() == 0,
    {
        let mut waveform: Vec<u32> = Vec::new();
        while waveform.len() < WAVEFORM_SIZE
            invariant
                waveform.len() <= WAVEFORM_SIZE,
                forall|i: int| 0 <= i < waveform.len() ==> waveform@[i] == 0,
            decreases WAVEFORM_SIZE - waveform.len(),
        {
            waveform.push(0);
        }
        let buf = AudioDisplayBuffer { peak: 0, waveform, write_pos: 0 };
        assert(buf.history() =~= Seq::new(WAVEFORM_SIZE as nat, |i: int| 0u32));
        buf
    }

    /// Write a single sample into the ring buffer.
    pub fn push_sample(&mut self, sample_bits: u32)
        requires
            old(self).well_formed(),
        ensures
            final(self).well_formed(),
            final(self).history().len() == WAVEFORM_SIZE,
            final(self).history() == old(self).history().drop_first().push(sample_bits),
            final(self).peak_bits() == old(self).peak_bits(),
    {
        let ghost h = self.history();
        let pos = self.write_pos;
        self.waveform.set(pos, sample_bits);
        self.write_pos = (pos + 1) % WAVEFORM_SIZE;
        proof {
            let n = WAVEFORM_SIZE as int;
            let h2 = self.history();
            assert forall|i: int| 0 <= i < n implies #[trigger] h2[i] == h.drop_first().push(
                sample_bits,
            )[i] by {
                let k = (pos + 1 + i) % n;
                assert(h2[i] == self.waveform@[((pos + 1) % n + i) % n]);
                assert(((pos + 1) % n + i) % n == k);
                if i < n - 1 {
                    assert(k != pos);
                    assert(h[i + 1] == self.waveform@[k]);
                } else {
                    assert(k == pos);
                }
            }
            assert(h2 =~= h.drop_first().push(sample_bits));
        }
    }

    /// Update the peak level (once per buffer).
    pub fn set_peak(&mut self, peak_bits: u32)
        requires
            old(self).well_formed(),
        ensures
            final(self).well_formed(),
            final(self).history().len() == WAVEFORM_SIZE,
            final(self).peak_bits() == peak_bits,
            final(self).history() == old(self).history(),
    {
        self.peak = peak_bits;
    }

    /// Read the current peak level.
    pub fn get_peak(&self) -> (bits: u32)
        ensures
            bits == self.peak_bits(),
    {
        self.peak
    }

    /// Read the latest N samples from the ring buffer for display.
    /// Writes them in chronological order (oldest first) to the front of
    /// `out`; entries of `out` beyond `WAVEFORM_SIZE` are left as they were.
    pub fn read_waveform(&self, out: &mut [u32])
        requires
            self.well_formed(),
        ensures
            self.history().len() == WAVEFORM_SIZE,
            final(out)@.len() == old(out)@.len(),
            forall|i: int|
                0 <= i < old(out)@.len() && i < WAVEFORM_SIZE ==> #[trigger] final(out)@[i] == self.history()[WAVEFORM_SIZE
                    - (if old(out)@.len() < WAVEFORM_SIZE { old(out)@.len() as int } else { WAVEFORM_SIZE as int }) + i],
            final(out)@.subrange(0, latest_samples(self.history(), old(out)@.len() as int).len() as int)
                == latest_samples(self.history(), old(out)@.len() as int),
            forall|i: int|
                WAVEFORM_SIZE <= i < old(out)@.len() ==> #[trigger] final(out)@[i] == old(out)@[i],
    {
        let pos = self.write_pos;
        let n = if out.len() < WAVEFORM_SIZE {
            out.len()
        } else {
            WAVEFORM_SIZE
        };
        let start = (pos + WAVEFORM_SIZE - n) % WAVEFORM_SIZE;
        let ghost h = self.history();
        let ghost want = latest_samples(h, old(out)@.len() as int);
        let ghost orig = old(out)@;
        let mut i: usize = 0;
        while i < n
            invariant
                n <= WAVEFORM_SIZE,
                n == want.len(),
                out@.len() == orig.len(),
                n <= orig.len(),
                i <= n,
                start == (pos + WAVEFORM_SIZE - n) % (WAVEFORM_SIZE as int),
                pos < WAVEFORM_SIZE,
                self.waveform@.len() == WAVEFORM_SIZE,
                h == self.history(),
                self.write_pos == pos,
                want == h.subrange(WAVEFORM_SIZE - n, WAVEFORM_SIZE as int),
                forall|k: int| 0 <= k < i ==> out@[k] == want[k],
                forall|k: int| n <= k < orig.len() ==> out@[k] == orig[k],
            decreases n - i,
        {
            let idx = (start + i) % WAVEFORM_SIZE;
            proof {
                let m = WAVEFORM_SIZE as int;
                assert(want[i as int] == h[m - n + i]);
                assert(h[m - n + i] == self.waveform@[(pos + (m - n + i)) % m]);
                assert((pos + (m - n + i)) % m == idx);
            }
            out[i] = self.waveform[idx];
            i = i + 1;
        }
        assert(out@.subrange(0, n as int) =~= want);
        assert forall|k: int| 0 <= k < n implies #[trigger] out@[k] == h[WAVEFORM_SIZE - n + k] by {
            assert(out@.subrange(0, n as int)[k] == want[k]);
        }
    }
}

/// Reading after pushes: whatever the buffer held, after pushing
/// `samples` its history is the last `WAVEFORM_SIZE` values of the old
/// history followed by the samples, so a read returns the newest samples
/// in the order they were pushed.
pub proof fn lemma_history_after_pushes(history: Seq<u32>, samples: Seq<u32>)
    requires
        history.len() == WAVEFORM_SIZE,
    ensures
        push_all(history, samples) == (history + samples).subrange(
            samples.len() as int,
            samples.len() + WAVEFORM_SIZE,
        ),
    decreases samples.len(),
{
    if samples.len() > 0 {
        let init = samples.drop_last();
        lemma_history_after_pushes(history, init);
        let prev = push_all(history, init);
        assert(push_all(history, samples) == prev.drop_first().push(samples.last()));
        assert(history + samples == (history + init).push(samples.last()));
        assert(push_all(history, samples) =~= (history + samples).subrange(
            samples.len() as int,
            samples.len() + WAVEFORM_SIZE,
        ));
    }
}

/// A read after pushes returns the newest samples pushed, oldest first: if
/// at least `n` samples were pushed (`n` at most `WAVEFORM_SIZE`), reading
/// into an output of length `n` gives the last `n` of them, in order.
pub proof fn lemma_read_returns_latest_pushed(history: Seq<u32>, samples: Seq<u32>, n: int)
    requires
        history.len() == WAVEFORM_SIZE,
        0 <= n <= WAVEFORM_SIZE,
        n <= samples.len(),
    ensures
        latest_samples(push_all(history, samples), n) == samples.subrange(samples.len() - n, samples.len() as int),
        latest_samples(push_all(history, samples), n).len() == n,
{
    lemma_history_after_pushes(history, samples);
    assert(latest_samples(push_all(history, samples), n) =~= samples.subrange(samples.len() - n, samples.len() as int));
}

/// A fresh buffer reads as silence until samples arrive, and the first
/// `k <= WAVEFORM_SIZE` samples pushed into it are read back in order at
/// the end of its history, after `WAVEFORM_SIZE - k` zeros.
pub proof fn lemma_fresh_buffer_pushes(samples: Seq<u32>)
    requires
        samples.len() <= WAVEFORM_SIZE,
    ensures
        push_all(Seq::new(WAVEFORM_SIZE as nat, |i: int| 0u32), samples) == Seq::new(
            (WAVEFORM_SIZE - samples.len()) as nat,
            |i: int| 0u32,
        ) + samples,
{
    let zeros = Seq::new(WAVEFORM_SIZE as nat, |i: int| 0u32);
    lemma_history_after_pushes(zeros, samples);
    assert((zeros + samples).subrange(samples.len() as int, samples.len() + WAVEFORM_SIZE) =~= Seq::new(
        (WAVEFORM_SIZE - samples.len()) as nat,
        |i: int| 0u32,
    ) + samples);
}

} // verus!
