//! The waveform extractor's computation: folding decoded samples into a
//! fixed-resolution peak envelope, and resolving the independently probed
//! duration.
//!
//! Samples arrive as the bit patterns of normalized 32-bit floats. For
//! finite, non-negative floats the unsigned order of the bit patterns is the
//! numeric order, and clearing the sign bit is the absolute value, so the
//! per-window peak of absolute values is computed and specified exactly on
//! the bit patterns.

use vstd::prelude::*;

verus! {

/// Samples per envelope window; the last window of a file may be shorter.
pub const WINDOW: usize = 1024;

/// The bit pattern of a float's absolute value: the sign bit cleared.
pub open spec fn abs_bits(v: u32) -> u32 {
    v & 0x7FFF_FFFF
}

/// The bit pattern of positive one; every normalized sample's absolute value
/// stays at or below it.
pub const F32_ONE_BITS: u32 = 0x3F80_0000;

/// The largest absolute-value bit pattern in a window, zero for an empty one.
pub open spec fn seq_peak(s: Seq<u32>) -> u32
    decreases s.len(),
{
    if s.len() == 0 {
        0
    } else {
        let rest = seq_peak(s.drop_last());
        let a = abs_bits(s.last());
        if a > rest {
            a
        } else {
            rest
        }
    }
}

/// How many windows a sample count fills: the count divided by the window
/// size, rounded up.
pub open spec fn num_windows(n: nat) -> nat {
    (n + (WINDOW - 1) as nat) / (WINDOW as nat)
}

/// One window's worth of samples.
pub open spec fn window_of(s: Seq<u32>, w: int) -> Seq<u32> {
    let start = w * (WINDOW as int);
    let stop = if start + (WINDOW as int) <= s.len() {
        start + (WINDOW as int)
    } else {
        s.len() as int
    };
    s.subrange(start, stop)
}

/// The peak envelope of a sample sequence: one peak per window.
pub open spec fn envelope_spec(s: Seq<u32>) -> Seq<u32> {
    Seq::new(num_windows(s.len()), |w: int| seq_peak(window_of(s, w)))
}

/// Computes the peak envelope of a decoded file: the samples are cut into
/// windows of `WINDOW`, and each window contributes the largest absolute
/// value it holds. The envelope has one value per window, so its length is
/// the sample count divided by `WINDOW`, rounded up.
pub fn envelope(samples: &Vec<u32>) -> (env: Vec<u32>)
    ensures
        env@ == envelope_spec(samples@),
        env@.len() == num_windows(samples@.len()),
{
    let n = samples.len();
    let full = n / WINDOW;
    let nw = if n % WINDOW != 0 {
        full + 1
    } else {
        full
    };
    proof {
        assert(nw as nat == num_windows(samples@.len()));
    }
    let mut env: Vec<u32> = Vec::new();
    let mut w: usize = 0;
    while w < nw
        invariant
            w <= nw,
            n == samples@.len() <= usize::MAX,
            full == n / WINDOW,
            nw as nat == num_windows(samples@.len()),
            nw * WINDOW < usize::MAX + WINDOW,
            env@ == envelope_spec(samples@).subrange(0, w as int),
        decreases nw - w,
    {
        let start = w * WINDOW;
        proof {
            assert(start < n) by {
                assert(w * WINDOW <= (nw - 1) * WINDOW) by (nonlinear_arith)
                    requires w <= nw - 1, WINDOW > 0;
                assert((nw - 1) * (WINDOW as int) < n) by (nonlinear_arith)
                    requires
                        nw as nat == ((n as nat) + (WINDOW - 1) as nat) / (WINDOW as nat),
                        nw >= 1,
                        WINDOW > 0,
                        w < nw;
            };
        }
        let stop = if n - start > WINDOW {
            start + WINDOW
        } else {
            n
        };
        let mut m: u32 = 0;
        let mut j = start;
        proof {
            assert(samples@.subrange(start as int, start as int) =~= Seq::<u32>::empty());
        }
        while j < stop
            invariant
                start <= j <= stop <= samples@.len(),
                m == seq_peak(samples@.subrange(start as int, j as int)),
            decreases stop - j,
        {
            let a = samples[j] & 0x7FFF_FFFF;
            if a > m {
                m = a;
            }
            j = j + 1;
            proof {
                let pre = samples@.subrange(start as int, j as int - 1);
                let cur = samples@.subrange(start as int, j as int);
                assert(cur.drop_last() =~= pre);
            }
        }
        env.push(m);
        w = w + 1;
        proof {
            assert(samples@.subrange(start as int, stop as int) =~= window_of(samples@, w as int - 1));
            assert(env@ =~= envelope_spec(samples@).subrange(0, w as int));
        }
    }
    proof {
        assert(envelope_spec(samples@).subrange(0, nw as int) =~= envelope_spec(samples@));
    }
    env
}

/// Every envelope value stays within the largest absolute value among the
/// samples: for normalized decode (every sample's absolute bits at or below
/// `F32_ONE_BITS`), every envelope value is at or below `F32_ONE_BITS`.
pub proof fn lemma_seq_peak_le(s: Seq<u32>, bound: u32)
    requires
        forall|i: int| 0 <= i < s.len() ==> abs_bits(#[trigger] s[i]) <= bound,
    ensures
        seq_peak(s) <= bound,
    decreases s.len(),
{
    if s.len() > 0 {
        lemma_seq_peak_le(s.drop_last(), bound);
    }
}

/// The envelope of any sample sequence has one value per window — the sample
/// count divided by `WINDOW`, rounded up — and, when every sample's absolute
/// bits stay at or below a bound (normalized decode means the bound
/// `F32_ONE_BITS`), so does every envelope value.
pub proof fn lemma_envelope_bounds(s: Seq<u32>, bound: u32)
    requires
        forall|i: int| 0 <= i < s.len() ==> abs_bits(#[trigger] s[i]) <= bound,
    ensures
        envelope_spec(s).len() == num_windows(s.len()),
        forall|w: int| 0 <= w < envelope_spec(s).len() ==> #[trigger] envelope_spec(s)[w] <= bound,
{
    assert forall|w: int| 0 <= w < envelope_spec(s).len() implies #[trigger] envelope_spec(
        s,
    )[w] <= bound by {
        let win = window_of(s, w);
        assert(forall|i: int| 0 <= i < win.len() ==> abs_bits(#[trigger] win[i]) <= bound);
        lemma_seq_peak_le(win, bound);
    }
}

/// The duration that the metadata probe yields: the probed bit pattern when
/// the probe succeeded, and the bit pattern of zero — `0`, standing for
/// "unknown", never a negative or non-numeric value — when it failed.
pub fn resolve_duration_bits(probed: Option<u32>) -> (r: u32)
    ensures
        r == (match probed {
            Some(d) => d,
            None => 0u32,
        }),
{
    match probed {
        Some(d) => d,
        None => 0,
    }
}

} // verus!
