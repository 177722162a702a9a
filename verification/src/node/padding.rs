use vstd::prelude::*;

verus! {

/// Number of filler bytes that bring `len` up to the next multiple of `boundary`.
pub open spec fn padding_needed(len: nat, boundary: nat) -> nat
    recommends
        boundary > 0,
{
    ((boundary - (len % boundary)) % (boundary as int)) as nat
}

/// Pads the data to a specified boundary (e.g., 64 bytes) to prevent traffic analysis.
///
/// Zero bytes are appended until the length is a multiple of `boundary`; data
/// already on a boundary is left unchanged.
pub fn pad_to_boundary(data: &mut Vec<u8>, boundary: usize)
    requires
        boundary > 0,
        old(data)@.len() + boundary <= usize::MAX,
    ensures
        final(data)@ == old(data)@ + Seq::new(padding_needed(old(data)@.len(), boundary as nat), |i: int| 0u8),
        final(data)@.len() % (boundary as nat) == 0,
{
    let padding = (boundary - (data.len() % boundary)) % boundary;
    let ghost start = data@;
    let mut i: usize = 0;
    while i < padding
        invariant
            i <= padding,
            padding < boundary,
            start.len() + boundary <= usize::MAX,
            data@ == start + Seq::new(i as nat, |j: int| 0u8),
        decreases padding - i,
    {
        data.push(0u8);
        i = i + 1;
        assert(data@ =~= start + Seq::new(i as nat, |j: int| 0u8));
    }
    assert(data@ =~= start + Seq::new(padding_needed(start.len(), boundary as nat), |i: int| 0u8));
    proof {
        let n = start.len() as int;
        let b = boundary as int;
        assert(((b - n % b) % b + n) % b == 0) by (nonlinear_arith)
            requires b > 0, 0 <= n;
    }
}

} // verus!
