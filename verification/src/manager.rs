use vstd::prelude::*;

use std::collections::HashMap;

use crate::inplace_cell::InplaceCell;

verus! {

/// The rank a rank table reports for an entity: the stored rank, or 0
/// if the entity was never upgraded.
pub open spec fn rank_in(ranks: Map<u64, u64>, uuid: u64) -> u64 {
    if ranks.contains_key(uuid) {
        ranks[uuid]
    } else {
        0
    }
}

/// Ranking policy for swap pool entities: entities with higher rank are
/// evicted after entities with lower rank.
///
/// `spec_ranks` is the policy's rank table. `upgrade` freshens an
/// entity's rank and returns the new value; `rank` reads the last known
/// rank, 0 for an entity that was never upgraded.
pub trait SwapManager {
    /// The current rank table.
    spec fn spec_ranks(&self) -> Map<u64, u64>;

    /// Upgrade the given entity's rank and return the new value.
    fn upgrade(&mut self, uuid: u64) -> (r: u64)
        ensures
            final(self).spec_ranks() == old(self).spec_ranks().insert(uuid, r),
    ;

    /// Report the given entity's rank.
    fn rank(&self, uuid: u64) -> (r: u64)
        ensures
            r == rank_in(self.spec_ranks(), uuid),
    ;
}

/// Once `upgrade` has returned `r` for an entity, the rank the table
/// reports for that entity is at least `r` until the next upgrade.
pub proof fn lemma_rank_after_upgrade(
    before: Map<u64, u64>,
    after: Map<u64, u64>,
    uuid: u64,
    r: u64,
)
    requires
        after == before.insert(uuid, r),
    ensures
        rank_in(after, uuid) >= r,
{
}

/// Relies on std::time::SystemTime::now: the wall-clock time, reported
/// as whole seconds since the Unix epoch (0 for a clock set before it).
/// Nothing is assumed about the returned value.
#[verifier::external_body]
fn unix_timestamp_seconds() -> u64 {
    match std::time::SystemTime::now().duration_since(std::time::UNIX_EPOCH) {
        Ok(d) => d.as_secs(),
        Err(_) => 0,
    }
}

/// Ranks entities by the wall-clock second of their last upgrade.
///
/// Every upgrade asks the system clock for the current time; consider
/// `SwapUpgradeCountManager` when that syscall per access is too costly.
pub struct SwapLastUseManager {
    ranks: InplaceCell<HashMap<u64, u64>>,
}

impl SwapLastUseManager {
    /// Create the manager with an empty rank table.
    pub fn new(thread_safe: bool) -> (m: Self)
        ensures
            m.spec_ranks() == Map::<u64, u64>::empty(),
    {
        SwapLastUseManager { ranks: InplaceCell::new(HashMap::new(), thread_safe) }
    }
}

impl Default for SwapLastUseManager {
    /// The default manager is thread-safe and starts empty.
    fn default() -> (m: Self)
        ensures
            m.spec_ranks() == Map::<u64, u64>::empty(),
    {
        SwapLastUseManager::new(true)
    }
}

impl SwapManager for SwapLastUseManager {
    closed spec fn spec_ranks(&self) -> Map<u64, u64> {
        self.ranks.value_spec()@
    }

    fn upgrade(&mut self, uuid: u64) -> (r: u64) {
        let rank = unix_timestamp_seconds();
        let mut table = self.ranks.take_value();
        table.insert(uuid, rank);
        self.ranks.replace_by(table);
        rank
    }

    fn rank(&self, uuid: u64) -> (r: u64) {
        match self.ranks.get_ref().get(&uuid) {
            Some(v) => *v,
            None => 0,
        }
    }
}

/// Ranks entities by how many times they were upgraded.
///
/// The counter saturates at `u64::MAX` instead of wrapping, so ranks
/// never decrease.
pub struct SwapUpgradeCountManager {
    ranks: InplaceCell<HashMap<u64, u64>>,
}

impl SwapUpgradeCountManager {
    /// Create the manager with an empty rank table.
    pub fn new(thread_safe: bool) -> (m: Self)
        ensures
            m.spec_ranks() == Map::<u64, u64>::empty(),
    {
        SwapUpgradeCountManager { ranks: InplaceCell::new(HashMap::new(), thread_safe) }
    }
}

impl Default for SwapUpgradeCountManager {
    /// The default manager is thread-safe and starts empty.
    fn default() -> (m: Self)
        ensures
            m.spec_ranks() == Map::<u64, u64>::empty(),
    {
        SwapUpgradeCountManager::new(true)
    }
}

impl SwapManager for SwapUpgradeCountManager {
    closed spec fn spec_ranks(&self) -> Map<u64, u64> {
        self.ranks.value_spec()@
    }

    fn upgrade(&mut self, uuid: u64) -> (r: u64)
        ensures
            r == rank_in(old(self).spec_ranks(), uuid).saturating_add(1),
    {
        let prior = match self.ranks.get_ref().get(&uuid) {
            Some(v) => *v,
            None => 0,
        };
        let rank = prior.saturating_add(1);
        let mut table = self.ranks.take_value();
        table.insert(uuid, rank);
        self.ranks.replace_by(table);
        rank
    }

    fn rank(&self, uuid: u64) -> (r: u64) {
        match self.ranks.get_ref().get(&uuid) {
            Some(v) => *v,
            None => 0,
        }
    }
}

} // verus!
