//! Recently cemented elections: a small shared cache of final results.

use vstd::prelude::*;

use crate::numbers::{Amount, BlockHash};

verus! {

/// The final status of one election, as kept for observers.
#[derive(Clone, Copy, Debug)]
pub struct ElectionStatus {
    pub winner: BlockHash,
    pub tally: Amount,
    pub block_count: u32,
    pub voter_count: u32,
}

/// A bounded list of recently cemented election results.
pub struct RecentlyCementedCache {
    pub cemented: Vec<ElectionStatus>,
    pub max_size: usize,
}

impl RecentlyCementedCache {
    pub fn new(max_size: usize) -> (r: RecentlyCementedCache)
        ensures
            r.cemented@.len() == 0,
            r.max_size == max_size,
    {
        RecentlyCementedCache { cemented: Vec::new(), max_size }
    }

    /// A copy of the cached results, oldest first.
    pub fn get_cemented(&self) -> (r: Vec<ElectionStatus>)
        ensures
            r@ == self.cemented@,
    {
        let mut out: Vec<ElectionStatus> = Vec::new();
        let n = self.cemented.len();
        let mut i: usize = 0;
        while i < n
            invariant
                i <= n,
                n == self.cemented@.len(),
                out@ == self.cemented@.subrange(0, i as int),
            decreases n - i,
        {
            out.push(self.cemented[i]);
            proof {
                assert(out@ =~= self.cemented@.subrange(0, i + 1));
            }
            i += 1;
        }
        proof {
            assert(self.cemented@.subrange(0, n as int) =~= self.cemented@);
        }
        out
    }

    /// Appends one result.
    pub fn put(&mut self, election_status: ElectionStatus)
        ensures
            final(self).cemented@ == old(self).cemented@ + seq![election_status],
            final(self).max_size == old(self).max_size,
    {
        self.cemented.push(election_status);
        proof {
            assert(self.cemented@ =~= old(self).cemented@ + seq![election_status]);
        }
    }

    pub fn size(&self) -> (r: usize)
        ensures
            r == self.cemented@.len(),
    {
        self.cemented.len()
    }

    /// The bytes one cached element carries: a 32-byte winner, a
    /// 16-byte tally and two 4-byte counters.
    pub fn element_size() -> (r: usize)
        ensures
            r == 56,
    {
        56
    }
}

} // verus!
