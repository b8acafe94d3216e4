use vstd::prelude::*;

use crate::error::ManagerError;

verus! {

/// Identifier of an address within one probe kind: its line in the index.
pub type AddrId = u32;

/// The mutable configuration of one probe kind. `nonce` is the generation
/// counter that every update must present and that each update advances.
#[derive(Debug, Clone)]
pub struct Options {
    pub nonce: i32,
    pub addrs: Vec<AddrId>,
    pub interval: u32,
    pub avg_across: u32,
    pub pause: u32,
}

/// The options type under the name its HTTP handlers use.
pub type TargetOptions = Options;

/// The nonce that follows `n`: one more, and 0 after `i32::MAX`.
pub open spec fn next_nonce_spec(n: i32) -> i32 {
    if n == i32::MAX {
        0
    } else {
        (n + 1) as i32
    }
}

/// Every listed address has an entry in an index of `index_len` entries.
pub open spec fn addrs_known(addrs: Seq<AddrId>, index_len: int) -> bool {
    forall|k: int| 0 <= k < addrs.len() ==> (#[trigger] addrs[k] as int) < index_len
}

/// The nonce that follows `n`, wrapping to 0 on overflow.
pub fn next_nonce(n: i32) -> (r: i32)
    ensures
        r == next_nonce_spec(n),
{
    if n == i32::MAX {
        0
    } else {
        n + 1
    }
}

impl Options {
    /// Whether every address of these options has an entry in an index of
    /// `index_len` entries.
    pub fn addrs_valid(&self, index_len: usize) -> (r: bool)
        ensures
            r == addrs_known(self.addrs@, index_len as int),
    {
        let mut k: usize = 0;
        while k < self.addrs.len()
            invariant
                k <= self.addrs@.len(),
                forall|j: int| 0 <= j < k ==> (#[trigger] self.addrs@[j] as int) < index_len,
            decreases self.addrs@.len() - k,
        {
            if self.addrs[k] as usize >= index_len {
                return false;
            }
            k = k + 1;
        }
        true
    }

    /// Replaces these options by `proposed` when it carries the current
    /// nonce and names only indexed addresses; the stored nonce then
    /// advances and is returned. On any error nothing changes.
    pub fn update(&mut self, proposed: Options, index_len: usize) -> (r: Result<i32, ManagerError>)
        ensures
            proposed.nonce != old(self).nonce ==> r == Err::<i32, ManagerError>(
                ManagerError::NonceConflict,
            ),
            proposed.nonce == old(self).nonce && !addrs_known(proposed.addrs@, index_len as int)
                ==> r == Err::<i32, ManagerError>(ManagerError::InvalidAddrArgument),
            r is Err ==> *final(self) == *old(self),
            proposed.nonce == old(self).nonce && addrs_known(proposed.addrs@, index_len as int)
                ==> {
                &&& r == Ok::<i32, ManagerError>(next_nonce_spec(old(self).nonce))
                &&& final(self).nonce == next_nonce_spec(old(self).nonce)
                &&& final(self).addrs@ == proposed.addrs@
                &&& final(self).interval == proposed.interval
                &&& final(self).avg_across == proposed.avg_across
                &&& final(self).pause == proposed.pause
            },
    {
        if proposed.nonce != self.nonce {
            return Err(ManagerError::NonceConflict);
        }
        if !proposed.addrs_valid(index_len) {
            return Err(ManagerError::InvalidAddrArgument);
        }
        let nonce = next_nonce(proposed.nonce);
        *self = Options {
            nonce,
            addrs: proposed.addrs,
            interval: proposed.interval,
            avg_across: proposed.avg_across,
            pause: proposed.pause,
        };
        Ok(nonce)
    }
}

} // verus!
