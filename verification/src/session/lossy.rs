use vstd::prelude::*;

verus! {

/// Manages lossy packet streams, typically used for real-time audio/video.
/// Messages sent here are NOT buffered for retransmission.
pub struct LossyStream {
    pub current_sequence: u16,
}

impl LossyStream {
    /// A stream starting at sequence number 0.
    pub fn new() -> (s: Self)
        ensures
            s.current_sequence == 0,
    {
        LossyStream { current_sequence: 0 }
    }

    /// Returns the current sequence number and advances it, wrapping after 65535.
    pub fn next_seq(&mut self) -> (seq: u16)
        ensures
            seq == old(self).current_sequence,
            final(self).current_sequence == (if old(self).current_sequence == u16::MAX { 0 } else { old(self).current_sequence + 1 }),
    {
        let seq = self.current_sequence;
        self.current_sequence = self.current_sequence.wrapping_add(1);
        seq
    }
}

} // verus!
