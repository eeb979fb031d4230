//! Dispatcher state: batching of the candidate stream, the hashed and
//! cracked counters, and the early-exit decision. The surrounding
//! process pumps the stream and the channels; every decision it acts
//! on is taken here.

use vstd::prelude::*;
use vstd::slice::slice_to_vec;

verus! {

/// Batches are cut once the buffer holds at least this many bytes,
/// a little under the buffer's allocated capacity of 1984 bytes.
pub open spec fn batch_send_threshold() -> int {
    1728
}

/// The dispatcher's progress state.
pub struct Dispatcher {
    buf: Vec<u8>,
    hashed: u64,
    cracked: u64,
    targets: usize,
}

impl Dispatcher {
    /// Candidate bytes accumulated for the next batch.
    pub closed spec fn pending(&self) -> Seq<u8> {
        self.buf@
    }

    /// Candidates consumed from the stream so far.
    pub closed spec fn hashed_count(&self) -> u64 {
        self.hashed
    }

    /// Sum of the crack reports received so far.
    pub closed spec fn cracked_count(&self) -> u64 {
        self.cracked
    }

    /// The number of distinct targets, fixed at construction.
    pub closed spec fn target_count(&self) -> usize {
        self.targets
    }

    pub fn new(targets: usize) -> (r: Dispatcher)
        ensures
            r.pending().len() == 0,
            r.hashed_count() == 0,
            r.cracked_count() == 0,
            r.target_count() == targets,
    {
        Dispatcher { buf: Vec::with_capacity(1984), hashed: 0, cracked: 0, targets }
    }

    /// Consumes one candidate record. An empty record is skipped: it
    /// is neither buffered nor counted. Otherwise the record and its
    /// delimiter are appended and the candidate is counted; once the
    /// buffer reaches the send threshold it is handed back whole as
    /// the next batch.
    pub fn push_candidate(&mut self, line: &[u8]) -> (r: Option<Vec<u8>>)
        requires
            old(self).hashed_count() < u64::MAX,
            old(self).pending().len() + line@.len() + 1 <= usize::MAX,
        ensures
            final(self).target_count() == old(self).target_count(),
            final(self).cracked_count() == old(self).cracked_count(),
            line@.len() == 0 ==> r is None && final(self).pending() == old(self).pending()
                && final(self).hashed_count() == old(self).hashed_count(),
            line@.len() > 0 ==> {
                let grown = old(self).pending() + line@ + seq![10u8];
                &&& final(self).hashed_count() == old(self).hashed_count() + 1
                &&& if grown.len() >= batch_send_threshold() {
                    match r {
                        Some(b) => b@ == grown && final(self).pending().len() == 0,
                        None => false,
                    }
                } else {
                    r is None && final(self).pending() == grown
                }
            },
    {
        if line.len() == 0 {
            return None;
        }
        let mut owned = slice_to_vec(line);
        self.buf.append(&mut owned);
        self.buf.push(10);
        self.hashed = self.hashed + 1;
        if self.buf.len() >= 1728 {
            let b = slice_to_vec(self.buf.as_slice());
            self.buf.clear();
            Some(b)
        } else {
            None
        }
    }

    /// Adds one crack report to the running total.
    pub fn note_report(&mut self, n: usize)
        requires
            old(self).cracked_count() + n <= u64::MAX,
        ensures
            final(self).cracked_count() == old(self).cracked_count() + n,
            final(self).hashed_count() == old(self).hashed_count(),
            final(self).pending() == old(self).pending(),
            final(self).target_count() == old(self).target_count(),
    {
        self.cracked = self.cracked + (n as u64);
    }

    /// The early-exit condition: every target is accounted for by the
    /// aggregate report total.
    pub fn all_found(&self) -> (r: bool)
        ensures
            r == (self.cracked_count() == self.target_count() as u64),
    {
        self.cracked == self.targets as u64
    }

    /// Takes the trailing partial batch, if any bytes are buffered.
    pub fn take_rest(&mut self) -> (r: Option<Vec<u8>>)
        ensures
            final(self).hashed_count() == old(self).hashed_count(),
            final(self).cracked_count() == old(self).cracked_count(),
            final(self).target_count() == old(self).target_count(),
            final(self).pending().len() == 0,
            match r {
                Some(b) => b@ == old(self).pending() && b@.len() > 0,
                None => old(self).pending().len() == 0,
            },
    {
        if self.buf.len() == 0 {
            None
        } else {
            let b = slice_to_vec(self.buf.as_slice());
            self.buf.clear();
            Some(b)
        }
    }

    /// Reads the hashed counter.
    pub fn hashed_so_far(&self) -> (r: u64)
        ensures
            r == self.hashed_count(),
    {
        self.hashed
    }

    /// Reads the cracked counter.
    pub fn cracked_so_far(&self) -> (r: u64)
        ensures
            r == self.cracked_count(),
    {
        self.cracked
    }
}

} // verus!
