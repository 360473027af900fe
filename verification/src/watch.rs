//! Deciding, from the clipboard's sequence number, when to read it.

use vstd::prelude::*;

verus! {

/// Whether a clipboard at sequence number `seq` is worth reading, after the
/// last number seen was `last` and our own last paste left `suppressed`.
pub open spec fn should_read(last: u32, suppressed: u32, seq: u32) -> bool {
    seq != last && seq != suppressed
}

/// The sequence numbers that decide whether the clipboard changed since it
/// was last looked at, and whether that change was our own paste.
pub struct SeqWatch {
    last_seq: u32,
    suppress_until_seq: u32,
}

impl SeqWatch {
    /// The sequence number seen last.
    pub closed spec fn last(&self) -> u32 {
        self.last_seq
    }

    /// The sequence number our own last paste produced.
    pub closed spec fn suppressed(&self) -> u32 {
        self.suppress_until_seq
    }

    /// A watch that has seen nothing yet.
    pub fn new() -> (r: Self)
        ensures
            r.last() == 0,
            r.suppressed() == 0,
    {
        SeqWatch { last_seq: 0, suppress_until_seq: 0 }
    }

    /// Notes that the clipboard is at `seq`; says whether to read it: only
    /// when the number changed and is not the one our own paste produced.
    pub fn observe(&mut self, seq: u32) -> (read: bool)
        ensures
            read == should_read(old(self).last(), old(self).suppressed(), seq),
            read <==> (seq != old(self).last() && seq != old(self).suppressed()),
            final(self).last() == seq,
            final(self).suppressed() == old(self).suppressed(),
    {
        let read = seq != self.last_seq && seq != self.suppress_until_seq;
        self.last_seq = seq;
        read
    }

    /// Notes that our own paste left the clipboard at `seq`.
    pub fn suppress(&mut self, seq: u32)
        ensures
            final(self).suppressed() == seq,
            final(self).last() == old(self).last(),
    {
        self.suppress_until_seq = seq;
    }
}

/// A clipboard change is read at most once, and the change made by our own
/// paste is never read back: after seeing `seq`, or after pasting left the
/// clipboard at `seq`, seeing `seq` reads nothing.
pub proof fn lemma_no_double_capture(last: u32, suppressed: u32, seq: u32)
    ensures
        !should_read(seq, suppressed, seq),
        !should_read(last, seq, seq),
{
}

/// Every fresh change is read: a sequence number that is neither the one
/// seen last nor the one our own paste produced is always read.
pub proof fn lemma_fresh_change_is_read(last: u32, suppressed: u32, seq: u32)
    requires
        seq != last,
        seq != suppressed,
    ensures
        should_read(last, suppressed, seq),
{
}

} // verus!
