use vstd::prelude::*;

verus! {

/// The count that two bytes spell, the low byte first.
pub open spec fn count_of(low: u8, high: u8) -> u16 {
    (low as int + 256 * (high as int)) as u16
}

/// The counts that `bytes` spell: two bytes each, the low byte first. A
/// single byte left over at the end spells nothing.
pub open spec fn counts_of(bytes: Seq<u8>) -> Seq<u16> {
    Seq::new(bytes.len() / 2, |k: int| count_of(bytes[2 * k], bytes[2 * k + 1]))
}

/// Reads the counts of one frame from its bytes.
pub fn decode_counts(bytes: &[u8]) -> (r: Vec<u16>)
    ensures
        r@ == counts_of(bytes@),
{
    let n = bytes.len() / 2;
    let mut out: Vec<u16> = Vec::new();
    let mut k: usize = 0;
    while k < n
        invariant
            k <= n,
            n == bytes.len() / 2,
            out.len() == k,
            forall|j: int| 0 <= j < k ==> #[trigger] out[j] == count_of(bytes[2 * j], bytes[2 * j + 1]),
        decreases n - k,
    {
        let low = bytes[2 * k] as u16;
        let high = bytes[2 * k + 1] as u16;
        out.push(low + 256 * high);
        k += 1;
    }
    proof {
        assert(out@ =~= counts_of(bytes@));
    }
    out
}

/// How many whole frames lie between the start of the data at `start` and
/// the footer at `footer`, when each frame takes `stride` bytes.
pub open spec fn frames_before(start: u64, stride: u64, footer: u64) -> int {
    if footer < start {
        0
    } else {
        (footer - start) / (stride as int)
    }
}

/// Computes [`frames_before`].
pub fn frame_slots(start: u64, stride: u64, footer: u64) -> (r: u64)
    requires
        stride > 0,
    ensures
        r == frames_before(start, stride, footer),
{
    if footer < start {
        0
    } else {
        (footer - start) / stride
    }
}

} // verus!
