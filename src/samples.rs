//! Pixel samples of a 16-bit payload, and their 8-bit grey levels for display.

use vstd::prelude::*;

verus! {

/// The sample that two payload bytes encode: a big-endian signed 16-bit
/// integer, shifted by 32768 into the unsigned 16-bit range.
pub open spec fn sample_of(hi: u8, lo: u8) -> int {
    let raw = hi as int * 256 + lo as int;
    let signed = if raw >= 32768 {
        raw - 65536
    } else {
        raw
    };
    signed + 32768
}

/// Decodes a 16-bit payload into one sample per pixel, in row-major order.
pub fn decode_samples(payload: &[u8]) -> (r: Vec<u16>)
    requires
        payload@.len() % 2 == 0,
    ensures
        r@.len() == payload@.len() / 2,
        forall|i: int|
            0 <= i < r@.len() ==> #[trigger] r@[i] as int == sample_of(
                payload@[2 * i],
                payload@[2 * i + 1],
            ),
{
    let n = payload.len() / 2;
    let mut out: Vec<u16> = Vec::with_capacity(n);
    let mut i: usize = 0;
    while i < n
        invariant
            n == payload@.len() / 2,
            payload@.len() % 2 == 0,
            payload@.len() <= usize::MAX,
            i <= n,
            out@.len() == i,
            forall|j: int|
                0 <= j < i ==> #[trigger] out@[j] as int == sample_of(
                    payload@[2 * j],
                    payload@[2 * j + 1],
                ),
        decreases n - i,
    {
        let raw: u32 = payload[2 * i] as u32 * 256 + payload[2 * i + 1] as u32;
        let value: u32 = if raw >= 32768 {
            raw - 32768
        } else {
            raw + 32768
        };
        out.push(value as u16);
        i = i + 1;
    }
    out
}

/// The 8-bit grey level of a sample: its high byte.
pub open spec fn grey_of(sample: u16) -> u8 {
    (sample / 256) as u8
}

/// Three equal channels of each sample's grey level.
pub open spec fn grey_rgb_of(samples: Seq<u16>) -> Seq<u8>
    decreases samples.len(),
{
    if samples.len() == 0 {
        Seq::empty()
    } else {
        let g = grey_of(samples.last());
        grey_rgb_of(samples.drop_last()) + seq![g, g, g]
    }
}

/// An RGB image of the samples in grey: three bytes per sample.
pub fn grey_rgb(samples: &[u16]) -> (r: Vec<u8>)
    ensures
        r@ == grey_rgb_of(samples@),
{
    let mut out: Vec<u8> = Vec::new();
    let mut i: usize = 0;
    while i < samples.len()
        invariant
            i <= samples@.len(),
            out@ == grey_rgb_of(samples@.take(i as int)),
        decreases samples@.len() - i,
    {
        let g = (samples[i] / 256) as u8;
        proof {
            assert(samples@.take(i + 1).drop_last() =~= samples@.take(i as int));
        }
        out.push(g);
        out.push(g);
        out.push(g);
        proof {
            assert(out@ =~= grey_rgb_of(samples@.take(i + 1)));
        }
        i = i + 1;
    }
    proof {
        assert(samples@.take(i as int) =~= samples@);
    }
    out
}

} // verus!
