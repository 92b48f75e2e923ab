use vstd::prelude::*;

use crate::entity::SwapEntity;
use crate::error::{SwapError, SwapResult};
use crate::manager::{rank_in, SwapManager};
use crate::size::SizeOf;
use crate::transformer::SwapTransformer;
use crate::value::SwapValue;

verus! {

use vstd::pervasive::VecAdditionalExecFns;

/// Whether a registry slot holds a well-formed entity. Empty slots —
/// left behind by dropped entities — are trivially fine.
pub open spec fn slot_wf<T: SwapValue + SizeOf, X: SwapTransformer>(
    slot: Option<SwapEntity<T>>,
    x: &X,
) -> bool {
    match slot {
        Some(e) => e.wf(x),
        None => true,
    }
}

/// The bytes a registry slot charges against the budget.
pub open spec fn slot_size<T: SwapValue + SizeOf>(slot: Option<SwapEntity<T>>) -> usize {
    match slot {
        Some(e) => e.spec_size(),
        None => 0,
    }
}

/// Whether a registry slot holds a hot entity.
pub open spec fn slot_is_hot<T: SwapValue + SizeOf>(slot: Option<SwapEntity<T>>) -> bool {
    match slot {
        Some(e) => e.spec_is_hot(),
        None => false,
    }
}

/// The total bytes a registry charges against the budget: the sizes of
/// its hot entities, summed without truncation.
pub open spec fn used_in<T: SwapValue + SizeOf>(slots: Seq<Option<SwapEntity<T>>>) -> nat
    decreases slots.len(),
{
    if slots.len() == 0 {
        0
    } else {
        used_in(slots.drop_last()) + slot_size(slots.last()) as nat
    }
}

/// How many slots of a registry hold a hot entity.
pub open spec fn hot_count<T: SwapValue + SizeOf>(slots: Seq<Option<SwapEntity<T>>>) -> nat
    decreases slots.len(),
{
    if slots.len() == 0 {
        0
    } else {
        hot_count(slots.drop_last()) + if slot_is_hot(slots.last()) {
            1nat
        } else {
            0nat
        }
    }
}

/// Appending a slot adds its size to the total.
pub proof fn lemma_used_in_push<T: SwapValue + SizeOf>(
    slots: Seq<Option<SwapEntity<T>>>,
    slot: Option<SwapEntity<T>>,
)
    ensures
        used_in(slots.push(slot)) == used_in(slots) + slot_size(slot),
{
    assert(slots.push(slot).drop_last() =~= slots);
}

/// Replacing one slot changes the total by the difference of the two
/// slots' sizes.
pub proof fn lemma_used_in_update<T: SwapValue + SizeOf>(
    slots: Seq<Option<SwapEntity<T>>>,
    i: int,
    slot: Option<SwapEntity<T>>,
)
    requires
        0 <= i < slots.len(),
    ensures
        used_in(slots.update(i, slot)) + slot_size(slots[i]) == used_in(slots) + slot_size(slot),
    decreases slots.len(),
{
    let updated = slots.update(i, slot);
    if i == slots.len() - 1 {
        assert(updated.drop_last() =~= slots.drop_last());
        assert(updated.last() == slot);
    } else {
        assert(updated.drop_last() =~= slots.drop_last().update(i, slot));
        assert(updated.last() == slots.last());
        lemma_used_in_update(slots.drop_last(), i, slot);
    }
}

/// Replacing one slot changes the hot count by the difference of the
/// two slots' hotness.
pub proof fn lemma_hot_count_update<T: SwapValue + SizeOf>(
    slots: Seq<Option<SwapEntity<T>>>,
    i: int,
    slot: Option<SwapEntity<T>>,
)
    requires
        0 <= i < slots.len(),
    ensures
        hot_count(slots.update(i, slot)) + (if slot_is_hot(slots[i]) {
            1nat
        } else {
            0nat
        }) == hot_count(slots) + (if slot_is_hot(slot) {
            1nat
        } else {
            0nat
        }),
    decreases slots.len(),
{
    let updated = slots.update(i, slot);
    if i == slots.len() - 1 {
        assert(updated.drop_last() =~= slots.drop_last());
        assert(updated.last() == slot);
    } else {
        assert(updated.drop_last() =~= slots.drop_last().update(i, slot));
        assert(updated.last() == slots.last());
        lemma_hot_count_update(slots.drop_last(), i, slot);
    }
}

/// The bytes available under a budget when the given amount is used.
pub open spec fn avail_of(used: nat, allocated: usize) -> nat {
    if used >= allocated {
        0
    } else {
        (allocated - used) as nat
    }
}

/// A registry whose slots all charge nothing uses nothing.
pub proof fn lemma_used_in_zero<T: SwapValue + SizeOf>(slots: Seq<Option<SwapEntity<T>>>)
    requires
        forall|i: int| 0 <= i < slots.len() ==> slot_size(#[trigger] slots[i]) == 0,
    ensures
        used_in(slots) == 0,
    decreases slots.len(),
{
    if slots.len() > 0 {
        lemma_used_in_zero(slots.drop_last());
    }
}

/// The live slots of a registry, in order, with empty slots pruned.
pub open spec fn live_slots<T: SwapValue + SizeOf>(slots: Seq<Option<SwapEntity<T>>>) -> Seq<
    Option<SwapEntity<T>>,
>
    decreases slots.len(),
{
    if slots.len() == 0 {
        Seq::empty()
    } else if slots.last() is Some {
        live_slots(slots.drop_last()).push(slots.last())
    } else {
        live_slots(slots.drop_last())
    }
}

/// Every live slot is one of the slots of the registry it came from.
pub proof fn lemma_live_slots_member<T: SwapValue + SizeOf>(
    slots: Seq<Option<SwapEntity<T>>>,
    k: int,
)
    requires
        0 <= k < live_slots(slots).len(),
    ensures
        exists|i: int| 0 <= i < slots.len() && live_slots(slots)[k] == #[trigger] slots[i],
    decreases slots.len(),
{
    if slots.last() is Some && k == live_slots(slots).len() - 1 {
        assert(live_slots(slots)[k] == slots[slots.len() - 1]);
    } else {
        lemma_live_slots_member(slots.drop_last(), k);
        let i = choose|i: int|
            0 <= i < slots.drop_last().len() && live_slots(slots.drop_last())[k]
                == #[trigger] slots.drop_last()[i];
        assert(live_slots(slots)[k] == slots[i]);
    }
}

/// Pruning empty slots keeps only live ones.
pub proof fn lemma_live_slots_some<T: SwapValue + SizeOf>(slots: Seq<Option<SwapEntity<T>>>)
    ensures
        forall|k: int| 0 <= k < live_slots(slots).len() ==> (#[trigger] live_slots(slots)[k]) is Some,
    decreases slots.len(),
{
    if slots.len() > 0 {
        lemma_live_slots_some(slots.drop_last());
    }
}

/// Pruning empty slots does not change the bytes used.
pub proof fn lemma_live_slots_used<T: SwapValue + SizeOf>(slots: Seq<Option<SwapEntity<T>>>)
    ensures
        used_in(live_slots(slots)) == used_in(slots),
    decreases slots.len(),
{
    if slots.len() > 0 {
        lemma_live_slots_used(slots.drop_last());
        if slots.last() is Some {
            lemma_used_in_push(live_slots(slots.drop_last()), slots.last());
        }
    }
}

/// Pruning empty slots keeps every remaining entity well-formed.
pub proof fn lemma_live_slots_wf<T: SwapValue + SizeOf, X: SwapTransformer>(
    slots: Seq<Option<SwapEntity<T>>>,
    x: &X,
)
    requires
        forall|i: int| 0 <= i < slots.len() ==> slot_wf(#[trigger] slots[i], x),
    ensures
        forall|k: int|
            0 <= k < live_slots(slots).len() ==> slot_wf(#[trigger] live_slots(slots)[k], x),
{
    assert forall|k: int|
        0 <= k < live_slots(slots).len() implies slot_wf(#[trigger] live_slots(slots)[k], x) by {
        lemma_live_slots_member(slots, k);
    }
}

/// Pruning empty slots keeps backing paths pairwise distinct.
pub proof fn lemma_live_slots_distinct_paths<T: SwapValue + SizeOf>(
    slots: Seq<Option<SwapEntity<T>>>,
)
    requires
        forall|i: int, j: int|
            0 <= i < j < slots.len() && slots[i] is Some && slots[j] is Some ==> (
            #[trigger] slots[i]).unwrap().spec_path() != (#[trigger] slots[j]).unwrap().spec_path(),
    ensures
        forall|i: int, j: int|
            0 <= i < j < live_slots(slots).len() && live_slots(slots)[i] is Some && live_slots(
                slots,
            )[j] is Some ==> (#[trigger] live_slots(slots)[i]).unwrap().spec_path() != (
            #[trigger] live_slots(slots)[j]).unwrap().spec_path(),
    decreases slots.len(),
{
    if slots.len() > 0 {
        let pruned = live_slots(slots);
        let prior = slots.drop_last();
        assert(forall|i: int| 0 <= i < prior.len() ==> prior[i] == #[trigger] slots[i]);
        lemma_live_slots_distinct_paths(prior);
        if slots.last() is Some {
            assert forall|i: int, j: int|
                0 <= i < j < pruned.len() && pruned[i] is Some && pruned[j] is Some implies (
            #[trigger] pruned[i]).unwrap().spec_path() != (
            #[trigger] pruned[j]).unwrap().spec_path() by {
                if j == pruned.len() - 1 {
                    lemma_live_slots_member(prior, i);
                    let m = choose|m: int|
                        0 <= m < prior.len() && live_slots(prior)[i] == #[trigger] prior[m];
                    assert(pruned[i] == slots[m]);
                    assert(pruned[j] == slots[slots.len() - 1]);
                }
            }
        }
    }
}

/// After a `free(n)` that returned true, with `n` at least the
/// overshoot of used bytes over the budget, the pool is back within its
/// budget: eviction reclaimed at least the overshoot.
pub proof fn lemma_budget_after_free(used_before: nat, used_after: nat, n: nat, allocated: nat)
    requires
        used_after + n <= used_before,
        used_before <= allocated + n,
    ensures
        used_after <= allocated,
{
}

/// Per-pool accounting registry: tracks every live entity, computes
/// used and available bytes against the byte budget, and evicts
/// lower-ranked entities to free memory.
///
/// Entities live in registry slots addressed by the index that
/// `push_entity` returned; a dropped entity leaves an empty slot behind
/// until `collect_garbage` prunes it.
pub struct SwapHandle<T, M, X> {
    allocated: usize,
    entities: Vec<Option<SwapEntity<T>>>,
    manager: M,
    transformer: X,
    thread_safe: bool,
}

impl<T: SwapValue + SizeOf, M: SwapManager, X: SwapTransformer> SwapHandle<T, M, X> {
    /// The byte budget fixed at construction.
    pub closed spec fn spec_allocated(&self) -> usize {
        self.allocated
    }

    /// The registry of entity slots.
    pub closed spec fn spec_entities(&self) -> Seq<Option<SwapEntity<T>>> {
        self.entities@
    }

    /// The ranking policy.
    pub closed spec fn spec_manager(&self) -> M {
        self.manager
    }

    /// The byte transformer at the disk boundary.
    pub closed spec fn spec_transformer(&self) -> X {
        self.transformer
    }

    /// Whether the pool was configured thread-safe.
    pub closed spec fn spec_thread_safe(&self) -> bool {
        self.thread_safe
    }

    /// The ranking policy's rank table.
    pub open spec fn spec_ranks(&self) -> Map<u64, u64> {
        self.spec_manager().spec_ranks()
    }

    /// The bytes currently charged by hot entities.
    pub open spec fn spec_used(&self) -> nat {
        used_in(self.spec_entities())
    }

    /// The bytes still available under the budget.
    pub open spec fn spec_available(&self) -> nat {
        avail_of(self.spec_used(), self.spec_allocated())
    }

    /// Every slot holds a well-formed entity, and no two live entities
    /// share a backing path.
    pub open spec fn wf(&self) -> bool {
        &&& (forall|i: int|
            0 <= i < self.spec_entities().len() ==> slot_wf(
                #[trigger] self.spec_entities()[i],
                &self.spec_transformer(),
            ))
        &&& (forall|i: int, j: int|
            0 <= i < j < self.spec_entities().len() && self.spec_entities()[i] is Some
                && self.spec_entities()[j] is Some ==> (#[trigger] self.spec_entities()[i]).unwrap().spec_path() != (
            #[trigger] self.spec_entities()[j]).unwrap().spec_path())
    }

    /// Whether every hot entity in the registry can be flushed.
    pub open spec fn spec_all_flushable(&self) -> bool {
        forall|i: int|
            0 <= i < self.spec_entities().len() ==> match #[trigger] self.spec_entities()[i] {
                Some(e) => e.spec_flushable(&self.spec_transformer()),
                None => true,
            }
    }

    /// Whether some live entity uses the given backing path.
    pub open spec fn spec_has_path(&self, path: Seq<char>) -> bool {
        exists|i: int|
            0 <= i < self.spec_entities().len() && (#[trigger] self.spec_entities()[i]) is Some
                && self.spec_entities()[i].unwrap().spec_path() == path
    }

    /// Create a new pool handle with the given byte budget, ranking
    /// policy and transformer.
    pub fn new(allocated: usize, manager: M, transformer: X, thread_safe: bool) -> (h: Self)
        ensures
            h.wf(),
            h.spec_allocated() == allocated,
            h.spec_entities() == Seq::<Option<SwapEntity<T>>>::empty(),
            h.spec_manager() == manager,
            h.spec_transformer() == transformer,
            h.spec_thread_safe() == thread_safe,
            h.spec_used() == 0,
    {
        SwapHandle { allocated, entities: Vec::new(), manager, transformer, thread_safe }
    }

    /// Register an entity in the pool and upgrade its rank once.
    /// Returns the slot index that addresses the entity from now on.
    pub fn push_entity(&mut self, entity: SwapEntity<T>) -> (id: usize)
        requires
            old(self).wf(),
            entity.wf(&old(self).spec_transformer()),
            !old(self).spec_has_path(entity.spec_path()),
        ensures
            final(self).wf(),
            id == old(self).spec_entities().len(),
            final(self).spec_entities() == old(self).spec_entities().push(Some(entity)),
            final(self).spec_allocated() == old(self).spec_allocated(),
            final(self).spec_transformer() == old(self).spec_transformer(),
            final(self).spec_thread_safe() == old(self).spec_thread_safe(),
            final(self).spec_used() == old(self).spec_used() + entity.spec_size(),
            exists|nr: u64|
                final(self).spec_ranks() == old(self).spec_ranks().insert(
                    entity.spec_uuid(),
                    nr,
                ),
    {
        let id = self.entities.len();
        let u = entity.uuid();
        proof {
            lemma_used_in_push(self.entities@, Some(entity));
        }
        self.entities.push(Some(entity));
        let nr = self.manager.upgrade(u);
        proof {
            assert(self.spec_ranks() == old(self).spec_ranks().insert(entity.spec_uuid(), nr));
        }
        id
    }

    /// Upgrade an entity's rank and return the new value.
    pub fn upgrade_entity(&mut self, uuid: u64) -> (r: u64)
        ensures
            final(self).spec_ranks() == old(self).spec_ranks().insert(uuid, r),
            final(self).spec_entities() == old(self).spec_entities(),
            final(self).spec_allocated() == old(self).spec_allocated(),
            final(self).spec_transformer() == old(self).spec_transformer(),
            final(self).spec_thread_safe() == old(self).spec_thread_safe(),
            old(self).wf() ==> final(self).wf(),
    {
        self.manager.upgrade(uuid)
    }

    /// Get an entity's rank.
    pub fn rank_entity(&self, uuid: u64) -> (r: u64)
        ensures
            r == rank_in(self.spec_ranks(), uuid),
    {
        self.manager.rank(uuid)
    }

    /// Borrow the registry of entity slots.
    pub fn entities(&self) -> (r: &Vec<Option<SwapEntity<T>>>)
        ensures
            r@ == self.spec_entities(),
    {
        &self.entities
    }

    /// Borrow the ranking policy.
    pub fn manager(&self) -> (r: &M)
        ensures
            *r == self.spec_manager(),
    {
        &self.manager
    }

    /// Borrow the byte transformer.
    pub fn transformer(&self) -> (r: &X)
        ensures
            *r == self.spec_transformer(),
    {
        &self.transformer
    }

    /// The byte budget fixed at construction.
    pub fn allocated(&self) -> (r: usize)
        ensures
            r == self.spec_allocated(),
    {
        self.allocated
    }

    /// Compute the bytes currently used by hot entities, truncated at
    /// `usize::MAX`. Iterates over the whole registry.
    pub fn used(&self) -> (r: usize)
        ensures
            self.spec_used() <= usize::MAX ==> r == self.spec_used(),
            self.spec_used() > usize::MAX ==> r == usize::MAX,
    {
        let mut total: usize = 0;
        let mut i: usize = 0;
        while i < self.entities.len()
            invariant
                i <= self.entities@.len(),
                used_in(self.entities@.take(i as int)) <= usize::MAX ==> total == used_in(
                    self.entities@.take(i as int),
                ),
                used_in(self.entities@.take(i as int)) > usize::MAX ==> total == usize::MAX,
            decreases self.entities@.len() - i,
        {
            proof {
                lemma_used_in_push(self.entities@.take(i as int), self.entities@[i as int]);
                assert(self.entities@.take(i as int).push(self.entities@[i as int])
                    =~= self.entities@.take(i + 1));
            }
            let s = match &self.entities[i] {
                Some(e) => e.size_of(),
                None => 0,
            };
            total = total.saturating_add(s);
            i = i + 1;
        }
        proof {
            assert(self.entities@.take(self.entities@.len() as int) =~= self.entities@);
        }
        total
    }

    /// Compute the bytes still available for new hot values: the
    /// budget, less what is used, floored at zero. Iterates over the
    /// whole registry.
    pub fn available(&self) -> (r: usize)
        ensures
            r == self.spec_available(),
    {
        self.allocated.saturating_sub(self.used())
    }

    /// Prune the empty slots that dropped entities left behind. The
    /// remaining entities keep their order but are renumbered.
    pub fn collect_garbage(&mut self)
        requires
            old(self).wf(),
        ensures
            final(self).wf(),
            final(self).spec_entities() == live_slots(old(self).spec_entities()),
            forall|k: int|
                0 <= k < final(self).spec_entities().len() ==> (
                #[trigger] final(self).spec_entities()[k]) is Some,
            final(self).spec_allocated() == old(self).spec_allocated(),
            final(self).spec_manager() == old(self).spec_manager(),
            final(self).spec_transformer() == old(self).spec_transformer(),
            final(self).spec_thread_safe() == old(self).spec_thread_safe(),
            final(self).spec_used() == old(self).spec_used(),
    {
        let ghost orig = old(self).spec_entities();
        let mut kept: Vec<Option<SwapEntity<T>>> = Vec::new();
        let mut i: usize = 0;
        while i < self.entities.len()
            invariant
                orig == old(self).spec_entities(),
                i <= self.entities@.len(),
                self.entities@.len() == orig.len(),
                forall|j: int| i <= j < orig.len() ==> self.entities@[j] == #[trigger] orig[j],
                kept@ == live_slots(orig.take(i as int)),
                self.allocated == old(self).spec_allocated(),
                self.manager == old(self).spec_manager(),
                self.transformer == old(self).spec_transformer(),
                self.thread_safe == old(self).spec_thread_safe(),
            decreases self.entities@.len() - i,
        {
            let mut slot: Option<SwapEntity<T>> = None;
            self.entities.set_and_swap(i, &mut slot);
            proof {
                assert(orig.take(i as int + 1).drop_last() =~= orig.take(i as int));
                assert(orig.take(i as int + 1).last() == orig[i as int]);
            }
            if slot.is_some() {
                kept.push(slot);
            }
            i = i + 1;
        }
        proof {
            assert(orig.take(orig.len() as int) =~= orig);
            lemma_live_slots_used(orig);
            lemma_live_slots_wf(orig, &self.transformer);
            lemma_live_slots_distinct_paths(orig);
            lemma_live_slots_some(orig);
        }
        self.entities = kept;
    }

    /// Flush every live entity to its backing file. A failing flush
    /// aborts the pass; the entities already flushed stay cold.
    pub fn flush(&mut self) -> (r: SwapResult<()>)
        requires
            old(self).wf(),
        ensures
            final(self).wf(),
            final(self).spec_allocated() == old(self).spec_allocated(),
            final(self).spec_manager() == old(self).spec_manager(),
            final(self).spec_transformer() == old(self).spec_transformer(),
            final(self).spec_thread_safe() == old(self).spec_thread_safe(),
            final(self).spec_entities().len() == old(self).spec_entities().len(),
            forall|j: int|
                0 <= j < old(self).spec_entities().len() && old(self).spec_entities()[j] is Some
                    ==> {
                    let e0 = (#[trigger] old(self).spec_entities()[j]).unwrap();
                    let e1 = final(self).spec_entities()[j].unwrap();
                    &&& final(self).spec_entities()[j] is Some
                    &&& e1.spec_uuid() == e0.spec_uuid()
                    &&& e1.spec_path() == e0.spec_path()
                    &&& e1.spec_value(&old(self).spec_transformer()) == e0.spec_value(
                        &old(self).spec_transformer(),
                    )
                },
            forall|j: int|
                0 <= j < old(self).spec_entities().len() && !((
                #[trigger] old(self).spec_entities()[j]) is Some
                    && old(self).spec_entities()[j].unwrap().spec_is_hot())
                    ==> final(self).spec_entities()[j] == old(self).spec_entities()[j],
            (r is Ok <==> old(self).spec_all_flushable()),
            r is Err ==> r == SwapResult::<()>::Err(SwapError::Serialize) || r == SwapResult::<
                (),
            >::Err(SwapError::TransformForward),
            forall|j: int|
                0 <= j < old(self).spec_entities().len() && (
                #[trigger] final(self).spec_entities()[j]) is Some && final(self).spec_entities()[j].unwrap().spec_is_hot() ==> final(self).spec_entities()[j]
                == old(self).spec_entities()[j],
            r is Err ==> exists|f: int|
                {
                    &&& 0 <= f < old(self).spec_entities().len()
                    &&& (#[trigger] old(self).spec_entities()[f]) is Some
                    &&& old(self).spec_entities()[f].unwrap().spec_is_hot()
                    &&& !old(self).spec_entities()[f].unwrap().spec_flushable(
                        &old(self).spec_transformer(),
                    )
                    &&& (forall|j: int|
                        0 <= j < f && (#[trigger] old(self).spec_entities()[j]) is Some ==> final(self).spec_entities()[j] is Some && final(self).spec_entities()[j].unwrap().spec_is_cold())
                    &&& (forall|j: int|
                        f <= j < old(self).spec_entities().len() ==> #[trigger] final(self).spec_entities()[j] == old(self).spec_entities()[j])
                    &&& (r == SwapResult::<()>::Err(SwapError::Serialize) <==> !T::spec_encodable(
                        old(self).spec_entities()[f].unwrap().spec_hot_value()@,
                    ))
                },
            r is Ok ==> forall|j: int|
                0 <= j < final(self).spec_entities().len() && (
                #[trigger] final(self).spec_entities()[j]) is Some
                    ==> final(self).spec_entities()[j].unwrap().spec_is_cold(),
            r is Ok ==> final(self).spec_used() == 0,
    {
        let ghost orig = old(self).spec_entities();
        let mut i: usize = 0;
        while i < self.entities.len()
            invariant
                orig == old(self).spec_entities(),
                i <= self.entities@.len(),
                self.entities@.len() == orig.len(),
                self.wf(),
                self.allocated == old(self).spec_allocated(),
                self.manager == old(self).spec_manager(),
                self.transformer == old(self).spec_transformer(),
                self.thread_safe == old(self).spec_thread_safe(),
                forall|j: int| i <= j < orig.len() ==> #[trigger] self.entities@[j] == orig[j],
                forall|j: int|
                    0 <= j < i && orig[j] is Some ==> (#[trigger] self.entities@[j]) is Some
                        && self.entities@[j].unwrap().spec_uuid() == orig[j].unwrap().spec_uuid()
                        && self.entities@[j].unwrap().spec_path() == orig[j].unwrap().spec_path()
                        && self.entities@[j].unwrap().spec_value(&self.transformer)
                        == orig[j].unwrap().spec_value(&self.transformer)
                        && self.entities@[j].unwrap().spec_is_cold()
                        && orig[j].unwrap().spec_flushable(&self.transformer),
                forall|j: int|
                    0 <= j < i && !(orig[j] is Some && orig[j].unwrap().spec_is_hot())
                        ==> #[trigger] self.entities@[j] == orig[j],
            decreases self.entities@.len() - i,
        {
            let pre_hot = match &self.entities[i] {
                Some(e) => e.is_hot(),
                None => false,
            };
            proof {
                assert(pre_hot == slot_is_hot(self.entities@[i as int]));
            }
            if pre_hot {
                let ghost pre = self.entities@;
                proof {
                    assert(slot_wf(pre[i as int], &self.transformer));
                }
                let mut slot: Option<SwapEntity<T>> = None;
                self.entities.set_and_swap(i, &mut slot);
                let outcome = match &mut slot {
                    Some(e) => e.flush(&self.transformer),
                    None => Ok(()),
                };
                self.entities.set(i, slot);
                proof {
                    assert(self.entities@ =~= pre.update(i as int, self.entities@[i as int]));
                    assert(forall|j: int|
                        0 <= j < orig.len() && j != i ==> #[trigger] self.entities@[j] == pre[j]);
                }
                match outcome {
                    Ok(u) => {},
                    Err(err) => {
                        proof {
                            assert(self.entities@[i as int] =~= pre[i as int]);
                            assert(self.entities@ =~= pre);
                            assert(!old(self).spec_all_flushable()) by {
                                assert(old(self).spec_entities()[i as int] is Some);
                                assert(!old(self).spec_entities()[i as int].unwrap().spec_flushable(
                                    &old(self).spec_transformer(),
                                ));
                            }
                            assert(old(self).spec_entities()[i as int] is Some && old(self).spec_entities()[i as int].unwrap().spec_is_hot());
                            assert(forall|j2: int|
                                i as int <= j2 < orig.len() ==> #[trigger] self.entities@[j2]
                                    == orig[j2]);
                            assert(forall|j2: int|
                                0 <= j2 < i as int && (#[trigger] orig[j2]) is Some
                                    ==> self.entities@[j2] is Some
                                    && self.entities@[j2].unwrap().spec_is_cold());
                        }
                        return Err(err);
                    },
                }
            }
            proof {
                assert forall|j: int|
                    0 <= j <= i && orig[j] is Some implies (#[trigger] self.entities@[j]) is Some by {
                    if j < i {
                        assert(0 <= j < i);
                    } else {
                        assert(j == i);
                    }
                }
                assert forall|j: int|
                    0 <= j <= i && orig[j] is Some implies (#[trigger] self.entities@[j]).unwrap().spec_is_cold() by {
                    if j < i {
                        assert(0 <= j < i);
                    } else {
                        assert(j == i);
                    }
                }
                assert forall|j: int|
                    0 <= j <= i && orig[j] is Some implies (#[trigger] self.entities@[j]).unwrap().spec_uuid() == orig[j].unwrap().spec_uuid()
                        && self.entities@[j].unwrap().spec_path() == orig[j].unwrap().spec_path() by {
                    if j < i {
                        assert(0 <= j < i);
                    } else {
                        assert(j == i);
                    }
                }
                assert forall|j: int|
                    0 <= j <= i && orig[j] is Some implies (#[trigger] self.entities@[j]).unwrap().spec_value(&self.transformer)
                        == orig[j].unwrap().spec_value(&self.transformer) by {
                    if j < i {
                        assert(0 <= j < i);
                    } else {
                        assert(j == i);
                    }
                }
                assert forall|j: int|
                    0 <= j <= i && orig[j] is Some implies (#[trigger] orig[j]).unwrap().spec_flushable(&self.transformer) by {
                    if j < i {
                        assert(self.entities@[j] is Some);
                    } else {
                        assert(j == i);
                        if pre_hot {
                            assert(orig[j].unwrap().spec_flushable(&self.transformer));
                        } else {
                            assert(self.entities@[j] == orig[j]);
                            assert(!orig[j].unwrap().spec_is_hot());
                        }
                    }
                }
            }
            i = i + 1;
        }
        proof {
            assert(old(self).spec_all_flushable()) by {
                assert forall|k: int|
                    0 <= k < old(self).spec_entities().len() && (#[trigger] old(self).spec_entities()[k]) is Some implies old(self).spec_entities()[k].unwrap().spec_flushable(&old(self).spec_transformer()) by {
                    assert(self.entities@[k] is Some);
                    assert(orig[k] is Some && orig[k].unwrap().spec_flushable(&self.transformer));
                    assert(orig[k] == old(self).spec_entities()[k]);
                    assert(self.transformer == old(self).spec_transformer());
                }
            }
            assert forall|j: int|
                0 <= j < self.entities@.len() implies slot_size(#[trigger] self.entities@[j])
                == 0 by {
                if orig[j] is Some {
                    assert(self.entities@[j].unwrap().spec_is_cold());
                } else {
                    assert(self.entities@[j] == orig[j]);
                }
            }
            lemma_used_in_zero(self.entities@);
        }
        Ok(())
    }

    /// Find the slot of the lowest-ranked hot entity, if any. Equal
    /// ranks resolve to the earliest slot, which keeps eviction
    /// deterministic.
    fn lowest_ranked_hot(&self) -> (r: Option<usize>)
        ensures
            r matches Some(j) ==> {
                &&& (j as int) < self.spec_entities().len()
                &&& self.spec_entities()[j as int] is Some
                &&& self.spec_entities()[j as int].unwrap().spec_is_hot()
                &&& forall|k: int|
                    0 <= k < self.spec_entities().len() && (
                    #[trigger] self.spec_entities()[k]) is Some
                        && self.spec_entities()[k].unwrap().spec_is_hot() ==> rank_in(
                        self.spec_ranks(),
                        self.spec_entities()[j as int].unwrap().spec_uuid(),
                    ) <= rank_in(self.spec_ranks(), self.spec_entities()[k].unwrap().spec_uuid())
            },
            r is None ==> forall|k: int|
                0 <= k < self.spec_entities().len() && (#[trigger] self.spec_entities()[k]) is Some
                    ==> self.spec_entities()[k].unwrap().spec_is_cold(),
    {
        let mut best: Option<usize> = None;
        let mut best_rank: u64 = 0;
        let mut k: usize = 0;
        while k < self.entities.len()
            invariant
                k <= self.entities@.len(),
                best matches Some(j) ==> {
                    &&& (j as int) < k as int
                    &&& self.entities@[j as int] is Some
                    &&& self.entities@[j as int].unwrap().spec_is_hot()
                    &&& best_rank == rank_in(
                        self.spec_ranks(),
                        self.entities@[j as int].unwrap().spec_uuid(),
                    )
                    &&& forall|m: int|
                        0 <= m < k as int && (#[trigger] self.entities@[m]) is Some
                            && self.entities@[m].unwrap().spec_is_hot() ==> best_rank <= rank_in(
                            self.spec_ranks(),
                            self.entities@[m].unwrap().spec_uuid(),
                        )
                },
                best is None ==> forall|m: int|
                    0 <= m < k as int && (#[trigger] self.entities@[m]) is Some
                        ==> self.entities@[m].unwrap().spec_is_cold(),
            decreases self.entities@.len() - k,
        {
            let hot_uuid: Option<u64> = match &self.entities[k] {
                Some(e) => if e.is_hot() {
                    Some(e.uuid())
                } else {
                    None
                },
                None => None,
            };
            match hot_uuid {
                Some(u) => {
                    let rk = self.manager.rank(u);
                    let better = match best {
                        Some(b) => rk < best_rank,
                        None => true,
                    };
                    if better {
                        best = Some(k);
                        best_rank = rk;
                    }
                },
                None => {},
            }
            k = k + 1;
        }
        best
    }

    /// Free the given amount of memory by flushing hot entities,
    /// lowest-ranked first.
    ///
    /// Returns true once enough bytes were reclaimed — always, when at
    /// least `memory` bytes were hot — and false when the registry ran
    /// out of hot entities first. A failing flush aborts the pass.
    pub fn free(&mut self, memory: usize) -> (r: SwapResult<bool>)
        requires
            old(self).wf(),
        ensures
            final(self).wf(),
            final(self).spec_allocated() == old(self).spec_allocated(),
            final(self).spec_manager() == old(self).spec_manager(),
            final(self).spec_transformer() == old(self).spec_transformer(),
            final(self).spec_thread_safe() == old(self).spec_thread_safe(),
            final(self).spec_entities().len() == old(self).spec_entities().len(),
            forall|j: int|
                0 <= j < old(self).spec_entities().len() && old(self).spec_entities()[j] is Some
                    ==> (#[trigger] final(self).spec_entities()[j]) is Some && final(self).spec_entities()[j].unwrap().spec_uuid() == old(self).spec_entities()[j].unwrap().spec_uuid() && final(self).spec_entities()[j].unwrap().spec_path() == old(self).spec_entities()[j].unwrap().spec_path() && final(self).spec_entities()[j].unwrap().spec_value(&old(self).spec_transformer()) == old(self).spec_entities()[j].unwrap().spec_value(&old(self).spec_transformer()),
            forall|j: int|
                0 <= j < old(self).spec_entities().len() && !(old(self).spec_entities()[j] is Some && old(self).spec_entities()[j].unwrap().spec_is_hot()) ==> #[trigger] final(self).spec_entities()[j] == old(self).spec_entities()[j],
            final(self).spec_used() <= old(self).spec_used(),
            r == SwapResult::<bool>::Ok(true) ==> final(self).spec_used() + memory <= old(self).spec_used(),
            r == SwapResult::<bool>::Ok(false) ==> final(self).spec_used() == 0 && old(self).spec_used() < memory,
            old(self).spec_all_flushable() ==> r is Ok,
            r is Err ==> !old(self).spec_all_flushable(),
            r is Err ==> r == SwapResult::<bool>::Err(SwapError::Serialize) || r == SwapResult::<
                bool,
            >::Err(SwapError::TransformForward),
            memory == 0 ==> *final(self) == *old(self) && r == SwapResult::<bool>::Ok(true),
            r == SwapResult::<bool>::Ok(false) ==> forall|j: int|
                0 <= j < final(self).spec_entities().len() && (
                #[trigger] final(self).spec_entities()[j]) is Some ==> final(self).spec_entities()[j].unwrap().spec_is_cold(),
            forall|j: int|
                0 <= j < old(self).spec_entities().len() && (
                #[trigger] final(self).spec_entities()[j]) is Some && final(self).spec_entities()[j].unwrap().spec_is_hot() ==> final(self).spec_entities()[j]
                == old(self).spec_entities()[j],
            r == SwapResult::<bool>::Ok(true) && memory > 0 ==> exists|w: int|
                0 <= w < old(self).spec_entities().len() && (#[trigger] old(self).spec_entities()[w]) is Some && old(self).spec_entities()[w].unwrap().spec_is_hot()
                && final(self).spec_entities()[w] is Some && final(self).spec_entities()[w].unwrap().spec_is_cold() && old(self).spec_used() < final(self).spec_used() + memory + slot_size(old(self).spec_entities()[w]),
            r is Err ==> exists|f: int|
                0 <= f < old(self).spec_entities().len() && (#[trigger] old(self).spec_entities()[f]) is Some && old(self).spec_entities()[f].unwrap().spec_is_hot()
                && !old(self).spec_entities()[f].unwrap().spec_flushable(
                    &old(self).spec_transformer(),
                ) && final(self).spec_entities()[f] == old(self).spec_entities()[f] && (r
                == SwapResult::<bool>::Err(SwapError::Serialize) <==> !T::spec_encodable(
                    old(self).spec_entities()[f].unwrap().spec_hot_value()@,
                )),
            forall|a: int, b: int|
                0 <= a < old(self).spec_entities().len() && 0 <= b < old(self).spec_entities().len() && old(self).spec_entities()[a] is Some && old(self).spec_entities()[a].unwrap().spec_is_hot() && (#[trigger] final(self).spec_entities()[a]).unwrap().spec_is_cold() && (#[trigger] final(self).spec_entities()[b]) is Some && final(self).spec_entities()[b].unwrap().spec_is_hot() ==> rank_in(
                    old(self).spec_ranks(),
                    old(self).spec_entities()[a].unwrap().spec_uuid(),
                ) <= rank_in(
                    old(self).spec_ranks(),
                    old(self).spec_entities()[b].unwrap().spec_uuid(),
                ),
    {
        let ghost orig = old(self).spec_entities();
        if memory == 0 {
            return Ok(true);
        }
        let mut remaining = memory;
        while remaining > 0
            invariant
                orig == old(self).spec_entities(),
                self.wf(),
                self.allocated == old(self).spec_allocated(),
                self.manager == old(self).spec_manager(),
                self.transformer == old(self).spec_transformer(),
                self.thread_safe == old(self).spec_thread_safe(),
                self.entities@.len() == orig.len(),
                forall|j: int|
                    0 <= j < orig.len() && orig[j] is Some ==> (
                    #[trigger] self.entities@[j]) is Some
                        && self.entities@[j].unwrap().spec_uuid() == orig[j].unwrap().spec_uuid()
                        && self.entities@[j].unwrap().spec_path() == orig[j].unwrap().spec_path()
                        && self.entities@[j].unwrap().spec_value(&self.transformer)
                        == orig[j].unwrap().spec_value(&self.transformer),
                forall|j: int|
                    0 <= j < orig.len() && !(orig[j] is Some && orig[j].unwrap().spec_is_hot())
                        ==> #[trigger] self.entities@[j] == orig[j],
                forall|j: int|
                    0 <= j < orig.len() && (#[trigger] self.entities@[j]) is Some
                        && self.entities@[j].unwrap().spec_is_hot() ==> self.entities@[j]
                        == orig[j],
                self.spec_used() <= old(self).spec_used(),
                remaining as int == (if old(self).spec_used() - self.spec_used() >= memory as int {
                    0int
                } else {
                    memory as int - (old(self).spec_used() - self.spec_used())
                }),
                old(self).spec_used() - self.spec_used() > 0 ==> exists|w: int|
                    0 <= w < orig.len() && (#[trigger] orig[w]) is Some
                        && orig[w].unwrap().spec_is_hot() && self.entities@[w] is Some
                        && self.entities@[w].unwrap().spec_is_cold() && old(self).spec_used()
                        < self.spec_used() + memory + slot_size(orig[w]),
                forall|a: int, b: int|
                    0 <= a < orig.len() && 0 <= b < orig.len() && orig[a] is Some
                        && orig[a].unwrap().spec_is_hot() && (
                    #[trigger] self.entities@[a]).unwrap().spec_is_cold() && (
                    #[trigger] self.entities@[b]) is Some
                        && self.entities@[b].unwrap().spec_is_hot() ==> rank_in(
                        self.spec_ranks(),
                        orig[a].unwrap().spec_uuid(),
                    ) <= rank_in(self.spec_ranks(), orig[b].unwrap().spec_uuid()),
            decreases hot_count(self.entities@),
        {
            let j = match self.lowest_ranked_hot() {
                Some(j) => j,
                None => {
                    proof {
                        assert forall|t: int|
                            0 <= t < self.entities@.len() implies slot_size(
                            #[trigger] self.entities@[t],
                        ) == 0 by {}
                        lemma_used_in_zero(self.entities@);
                    }
                    return Ok(false);
                },
            };
            let ghost pre = self.entities@;
            proof {
                assert(slot_wf(pre[j as int], &self.transformer));
            }
            let s = match &self.entities[j] {
                Some(e) => e.size_of(),
                None => 0,
            };
            let mut slot: Option<SwapEntity<T>> = None;
            self.entities.set_and_swap(j, &mut slot);
            let outcome = match &mut slot {
                Some(e) => e.flush(&self.transformer),
                None => Ok(()),
            };
            self.entities.set(j, slot);
            proof {
                assert(self.entities@ =~= pre.update(j as int, self.entities@[j as int]));
                assert(forall|t: int|
                    0 <= t < orig.len() && t != j ==> #[trigger] self.entities@[t] == pre[t]);
                lemma_used_in_update(pre, j as int, self.entities@[j as int]);
                lemma_hot_count_update(pre, j as int, self.entities@[j as int]);
            }
            match outcome {
                Ok(u2) => {},
                Err(err) => {
                    proof {
                        assert(self.entities@ =~= pre);
                        assert(pre[j as int] == orig[j as int]);
                        assert(!old(self).spec_all_flushable()) by {
                            assert(orig[j as int] is Some);
                            assert(old(self).spec_entities()[j as int] is Some);
                            assert(!old(self).spec_entities()[j as int].unwrap().spec_flushable(
                                &old(self).spec_transformer(),
                            ));
                        }
                        assert(old(self).spec_entities()[j as int] is Some && old(self).spec_entities()[j as int].unwrap().spec_is_hot() && !old(self).spec_entities()[j as int].unwrap().spec_flushable(
                            &old(self).spec_transformer(),
                        ) && self.entities@[j as int] == old(self).spec_entities()[j as int]);
                    }
                    return Err(err);
                },
            }
            proof {
                assert(pre[j as int] == orig[j as int]);
                assert(self.entities@[j as int] is Some
                    && self.entities@[j as int].unwrap().spec_is_cold());
                assert(old(self).spec_used() < self.spec_used() + memory + slot_size(
                    orig[j as int],
                ));
                assert forall|a: int, b: int|
                    0 <= a < orig.len() && 0 <= b < orig.len() && orig[a] is Some
                        && orig[a].unwrap().spec_is_hot() && (
                    #[trigger] self.entities@[a]).unwrap().spec_is_cold() && (
                    #[trigger] self.entities@[b]) is Some
                        && self.entities@[b].unwrap().spec_is_hot() implies rank_in(
                    self.spec_ranks(),
                    orig[a].unwrap().spec_uuid(),
                ) <= rank_in(self.spec_ranks(), orig[b].unwrap().spec_uuid()) by {
                    assert(self.entities@[b] == pre[b]);
                    if a == j {
                        assert(pre[b] is Some && pre[b].unwrap().spec_is_hot());
                        assert(pre[b].unwrap().spec_uuid() == orig[b].unwrap().spec_uuid());
                    } else {
                        assert(self.entities@[a] == pre[a]);
                    }
                }
            }
            remaining = remaining.saturating_sub(s);
        }
        Ok(true)
    }

    /// Check whether some live entity uses the given backing path.
    pub fn has_path(&self, path: &String) -> (r: bool)
        ensures
            r == self.spec_has_path(path@),
    {
        let mut k: usize = 0;
        while k < self.entities.len()
            invariant
                k <= self.entities@.len(),
                forall|m: int|
                    0 <= m < k as int && (#[trigger] self.entities@[m]) is Some
                        ==> self.entities@[m].unwrap().spec_path() != path@,
            decreases self.entities@.len() - k,
        {
            match &self.entities[k] {
                Some(e) => {
                    if e.path().eq(path) {
                        return true;
                    }
                },
                None => {},
            }
            k = k + 1;
        }
        false
    }

    /// Read an entity's value, upgrading its rank.
    ///
    /// A cold entity's file is read back; the value stays in memory
    /// only if it fits the budget, evicting lower-ranked entities if
    /// needed. When it does not fit, the value is handed out while the
    /// entity stays cold, its backing file retained.
    pub fn value(&mut self, index: usize) -> (r: SwapResult<T>)
        requires
            old(self).wf(),
            (index as int) < old(self).spec_entities().len(),
            old(self).spec_entities()[index as int] is Some,
        ensures
            final(self).wf(),
            final(self).spec_allocated() == old(self).spec_allocated(),
            final(self).spec_transformer() == old(self).spec_transformer(),
            final(self).spec_thread_safe() == old(self).spec_thread_safe(),
            final(self).spec_entities().len() == old(self).spec_entities().len(),
            exists|nr: u64|
                final(self).spec_ranks() == old(self).spec_ranks().insert(
                    old(self).spec_entities()[index as int].unwrap().spec_uuid(),
                    nr,
                ),
            forall|j: int|
                0 <= j < old(self).spec_entities().len() && old(self).spec_entities()[j] is Some
                    ==> (#[trigger] final(self).spec_entities()[j]) is Some
                    && final(self).spec_entities()[j].unwrap().spec_uuid()
                    == old(self).spec_entities()[j].unwrap().spec_uuid()
                    && final(self).spec_entities()[j].unwrap().spec_path()
                    == old(self).spec_entities()[j].unwrap().spec_path()
                    && final(self).spec_entities()[j].unwrap().spec_value(
                        &old(self).spec_transformer(),
                    ) == old(self).spec_entities()[j].unwrap().spec_value(
                        &old(self).spec_transformer(),
                    ),
            forall|j: int|
                0 <= j < old(self).spec_entities().len() && j != index as int && !(old(self).spec_entities()[j] is Some && old(self).spec_entities()[j].unwrap().spec_is_hot())
                    ==> #[trigger] final(self).spec_entities()[j] == old(self).spec_entities()[j],
            r matches Ok(v) ==> Some(v@) == old(self).spec_entities()[index as int].unwrap().spec_value(
                &old(self).spec_transformer(),
            ),
            old(self).spec_all_flushable() ==> r is Ok,
            r is Err ==> r == SwapResult::<T>::Err(SwapError::Serialize) || r == SwapResult::<
                T,
            >::Err(SwapError::TransformForward),
            r is Ok ==> final(self).spec_used() <= old(self).spec_used() || final(self).spec_used()
                <= old(self).spec_allocated(),
            r matches Ok(v) ==> final(self).spec_entities()[index as int] is Some && (final(self).spec_entities()[index as int].unwrap().spec_is_hot() <==> (v.spec_size_of() <= old(self).spec_allocated() || v.spec_size_of() + slot_size(
                old(self).spec_entities()[index as int],
            ) <= old(self).spec_used())),
            r is Ok && final(self).spec_entities()[index as int].unwrap().spec_is_cold() ==> final(self).spec_entities()[index as int].unwrap().spec_file_exists(),
    {
        let ghost orig = old(self).spec_entities();
        let u = match &self.entities[index] {
            Some(e) => e.uuid(),
            None => {
                return vstd::pervasive::unreached();
            },
        };
        let nr = self.manager.upgrade(u);
        proof {
            assert(self.spec_ranks() == old(self).spec_ranks().insert(u, nr));
        }

        let mut slot: Option<SwapEntity<T>> = None;
        self.entities.set_and_swap(index, &mut slot);
        let ghost mid = self.entities@;
        let mut e = match slot {
            Some(e) => e,
            None => {
                return vstd::pervasive::unreached();
            },
        };
        proof {
            lemma_used_in_update(orig, index as int, None);
        }
        let was_hot = e.is_hot();
        let v: T = if was_hot {
            match e.take_raw() {
                Some(v) => v,
                None => {
                    return vstd::pervasive::unreached();
                },
            }
        } else {
            e.read_cold(&self.transformer)
        };

        let size = v.size_of();
        let avail = self.available();
        let excess = size.saturating_sub(avail);
        let fits: bool;
        if excess == 0 {
            fits = true;
        } else {
            match self.free(excess) {
                Ok(b) => {
                    fits = b;
                },
                Err(err) => {
                    proof {
                        assert(!old(self).spec_all_flushable()) by {
                            let w = choose|w: int|
                                0 <= w < mid.len() && (#[trigger] mid[w]) is Some
                                    && !mid[w].unwrap().spec_flushable(&self.transformer);
                            assert(mid[w] == orig[w]);
                            assert(old(self).spec_entities()[w] is Some);
                            assert(!old(self).spec_entities()[w].unwrap().spec_flushable(
                                &old(self).spec_transformer(),
                            ));
                        }
                    }
                    if was_hot {
                        e.put_raw(v);
                    }
                    self.entities.set(index, Some(e));
                    return Err(err);
                },
            }
        }
        proof {
            assert(fits <==> (v.spec_size_of() <= old(self).spec_allocated() || v.spec_size_of()
                + slot_size(orig[index as int]) <= old(self).spec_used()));
        }
        let ghost freed = self.entities@;
        let result: SwapResult<T>;
        if fits {
            let out = v.clone_value();
            e.put_raw(v);
            result = Ok(out);
        } else {
            if was_hot {
                let out = v.clone_value();
                e.put_raw(v);
                match e.flush(&self.transformer) {
                    Ok(u2) => {
                        result = Ok(out);
                    },
                    Err(err) => {
                        proof {
                            assert(!old(self).spec_all_flushable()) by {
                                assert(old(self).spec_entities()[index as int] is Some);
                                assert(!old(self).spec_entities()[index as int].unwrap().spec_flushable(
                                    &old(self).spec_transformer(),
                                ));
                            }
                        }
                        result = Err(err);
                    },
                }
            } else {
                result = Ok(v);
            }
        }
        self.entities.set(index, Some(e));
        proof {
            lemma_used_in_update(freed, index as int, self.entities@[index as int]);
            let fin = self.entities@;
            assert forall|j: int|
                0 <= j < fin.len() implies slot_wf(#[trigger] fin[j], &self.transformer) by {
                if j != index as int {
                    assert(fin[j] == freed[j]);
                    assert(slot_wf(freed[j], &self.transformer));
                }
            }
            assert forall|a: int, b: int|
                0 <= a < b < fin.len() && fin[a] is Some && fin[b] is Some implies (
            #[trigger] fin[a]).unwrap().spec_path() != (#[trigger] fin[b]).unwrap().spec_path() by {
                if a != index as int {
                    assert(fin[a] == freed[a]);
                    assert(mid[a] == orig[a]);
                    if !(mid[a] is Some && mid[a].unwrap().spec_is_hot()) {
                        assert(freed[a] == mid[a]);
                    }
                    assert(orig[a] is Some);
                    assert(fin[a].unwrap().spec_path() == orig[a].unwrap().spec_path());
                }
                if b != index as int {
                    assert(fin[b] == freed[b]);
                    assert(mid[b] == orig[b]);
                    if !(mid[b] is Some && mid[b].unwrap().spec_is_hot()) {
                        assert(freed[b] == mid[b]);
                    }
                    assert(orig[b] is Some);
                    assert(fin[b].unwrap().spec_path() == orig[b].unwrap().spec_path());
                }
                assert(orig[a] is Some && orig[b] is Some);
                assert(orig[a].unwrap().spec_path() != orig[b].unwrap().spec_path());
            }
            assert forall|j: int|
                0 <= j < orig.len() && orig[j] is Some implies (#[trigger] fin[j]) is Some
                    && fin[j].unwrap().spec_uuid() == orig[j].unwrap().spec_uuid()
                    && fin[j].unwrap().spec_path() == orig[j].unwrap().spec_path()
                    && fin[j].unwrap().spec_value(&self.transformer) == orig[j].unwrap().spec_value(
                    &self.transformer,
                ) by {
                if j != index as int {
                    assert(fin[j] == freed[j]);
                    assert(mid[j] == orig[j]);
                }
            }
            assert forall|j: int|
                0 <= j < orig.len() && j != index as int && !(orig[j] is Some
                    && orig[j].unwrap().spec_is_hot()) implies #[trigger] fin[j] == orig[j] by {
                assert(fin[j] == freed[j]);
                assert(mid[j] == orig[j]);
                assert(freed[j] == mid[j]);
            }
        }
        result
    }

    /// Read an entity's value and force it hot, upgrading its rank and
    /// bypassing the budget check. The backing file, if any, stays.
    pub fn value_allocate(&mut self, index: usize) -> (r: SwapResult<T>)
        requires
            old(self).wf(),
            (index as int) < old(self).spec_entities().len(),
            old(self).spec_entities()[index as int] is Some,
        ensures
            final(self).wf(),
            final(self).spec_allocated() == old(self).spec_allocated(),
            final(self).spec_transformer() == old(self).spec_transformer(),
            final(self).spec_thread_safe() == old(self).spec_thread_safe(),
            final(self).spec_entities().len() == old(self).spec_entities().len(),
            exists|nr: u64|
                final(self).spec_ranks() == old(self).spec_ranks().insert(
                    old(self).spec_entities()[index as int].unwrap().spec_uuid(),
                    nr,
                ),
            forall|j: int|
                0 <= j < old(self).spec_entities().len() && j != index as int
                    ==> #[trigger] final(self).spec_entities()[j] == old(self).spec_entities()[j],
            final(self).spec_entities()[index as int] is Some,
            final(self).spec_entities()[index as int].unwrap().spec_is_hot(),
            final(self).spec_entities()[index as int].unwrap().spec_uuid()
                == old(self).spec_entities()[index as int].unwrap().spec_uuid(),
            final(self).spec_entities()[index as int].unwrap().spec_path()
                == old(self).spec_entities()[index as int].unwrap().spec_path(),
            final(self).spec_entities()[index as int].unwrap().spec_value(
                &old(self).spec_transformer(),
            ) == old(self).spec_entities()[index as int].unwrap().spec_value(
                &old(self).spec_transformer(),
            ),
            final(self).spec_entities()[index as int].unwrap().spec_file()
                == old(self).spec_entities()[index as int].unwrap().spec_file(),
            r is Ok,
            r matches Ok(v) ==> Some(v@) == old(self).spec_entities()[index as int].unwrap().spec_value(
                &old(self).spec_transformer(),
            ),
    {
        let u = match &self.entities[index] {
            Some(e) => e.uuid(),
            None => {
                return vstd::pervasive::unreached();
            },
        };
        let nr = self.manager.upgrade(u);
        proof {
            assert(self.spec_ranks() == old(self).spec_ranks().insert(u, nr));
        }
        let mut slot: Option<SwapEntity<T>> = None;
        self.entities.set_and_swap(index, &mut slot);
        let mut e = match slot {
            Some(e) => e,
            None => {
                return vstd::pervasive::unreached();
            },
        };
        let res = e.value_allocate(&self.transformer);
        self.entities.set(index, Some(e));
        proof {
            assert(self.entities@ =~= old(self).spec_entities().update(
                index as int,
                self.entities@[index as int],
            ));
        }
        res
    }

    /// Read an entity's value while keeping it cold, without touching
    /// its rank. A hot entity is flushed to its backing file first.
    pub fn value_unallocate(&mut self, index: usize) -> (r: SwapResult<T>)
        requires
            old(self).wf(),
            (index as int) < old(self).spec_entities().len(),
            old(self).spec_entities()[index as int] is Some,
        ensures
            final(self).wf(),
            final(self).spec_allocated() == old(self).spec_allocated(),
            final(self).spec_manager() == old(self).spec_manager(),
            final(self).spec_transformer() == old(self).spec_transformer(),
            final(self).spec_thread_safe() == old(self).spec_thread_safe(),
            final(self).spec_entities().len() == old(self).spec_entities().len(),
            forall|j: int|
                0 <= j < old(self).spec_entities().len() && j != index as int
                    ==> #[trigger] final(self).spec_entities()[j] == old(self).spec_entities()[j],
            final(self).spec_entities()[index as int] is Some,
            final(self).spec_entities()[index as int].unwrap().spec_uuid()
                == old(self).spec_entities()[index as int].unwrap().spec_uuid(),
            final(self).spec_entities()[index as int].unwrap().spec_path()
                == old(self).spec_entities()[index as int].unwrap().spec_path(),
            final(self).spec_entities()[index as int].unwrap().spec_value(
                &old(self).spec_transformer(),
            ) == old(self).spec_entities()[index as int].unwrap().spec_value(
                &old(self).spec_transformer(),
            ),
            r matches Ok(v) ==> Some(v@) == old(self).spec_entities()[index as int].unwrap().spec_value(
                &old(self).spec_transformer(),
            ) && final(self).spec_entities()[index as int].unwrap().spec_is_cold() && final(self).spec_entities()[index as int].unwrap().spec_file_exists(),
            old(self).spec_entities()[index as int].unwrap().spec_is_cold() ==> final(self).spec_entities()[index as int] == old(self).spec_entities()[index as int] && r is Ok,
            (r is Ok <==> old(self).spec_entities()[index as int].unwrap().spec_flushable(
                &old(self).spec_transformer(),
            )),
            r is Err ==> r == SwapResult::<T>::Err(SwapError::Serialize) || r == SwapResult::<
                T,
            >::Err(SwapError::TransformForward),
            r is Err ==> final(self).spec_entities()[index as int] == old(self).spec_entities()[index as int],
    {
        let mut slot: Option<SwapEntity<T>> = None;
        self.entities.set_and_swap(index, &mut slot);
        let mut e = match slot {
            Some(e) => e,
            None => {
                return vstd::pervasive::unreached();
            },
        };
        let res = e.value_unallocate(&self.transformer);
        self.entities.set(index, Some(e));
        proof {
            assert(self.entities@ =~= old(self).spec_entities().update(
                index as int,
                self.entities@[index as int],
            ));
        }
        res
    }

    /// Store a new value in an entity, evicting as needed.
    ///
    /// The entity's current value is flushed first; the new value is
    /// admitted — entity hot, backing file removed — exactly when it
    /// fits what the budget and the flushable entities can yield,
    /// and refused with `Ok(false)` otherwise, the old value staying
    /// safe in the backing file.
    pub fn update(&mut self, index: usize, value: T) -> (r: SwapResult<bool>)
        requires
            old(self).wf(),
            (index as int) < old(self).spec_entities().len(),
            old(self).spec_entities()[index as int] is Some,
        ensures
            final(self).wf(),
            final(self).spec_allocated() == old(self).spec_allocated(),
            final(self).spec_manager() == old(self).spec_manager(),
            final(self).spec_transformer() == old(self).spec_transformer(),
            final(self).spec_thread_safe() == old(self).spec_thread_safe(),
            final(self).spec_entities().len() == old(self).spec_entities().len(),
            forall|j: int|
                0 <= j < old(self).spec_entities().len() && j != index as int && old(self).spec_entities()[j] is Some ==> (#[trigger] final(self).spec_entities()[j]) is Some
                    && final(self).spec_entities()[j].unwrap().spec_uuid()
                    == old(self).spec_entities()[j].unwrap().spec_uuid()
                    && final(self).spec_entities()[j].unwrap().spec_path()
                    == old(self).spec_entities()[j].unwrap().spec_path()
                    && final(self).spec_entities()[j].unwrap().spec_value(
                        &old(self).spec_transformer(),
                    ) == old(self).spec_entities()[j].unwrap().spec_value(
                        &old(self).spec_transformer(),
                    ),
            forall|j: int|
                0 <= j < old(self).spec_entities().len() && j != index as int && !(old(self).spec_entities()[j] is Some && old(self).spec_entities()[j].unwrap().spec_is_hot())
                    ==> #[trigger] final(self).spec_entities()[j] == old(self).spec_entities()[j],
            final(self).spec_entities()[index as int] is Some,
            final(self).spec_entities()[index as int].unwrap().spec_uuid()
                == old(self).spec_entities()[index as int].unwrap().spec_uuid(),
            final(self).spec_entities()[index as int].unwrap().spec_path()
                == old(self).spec_entities()[index as int].unwrap().spec_path(),
            r == SwapResult::<bool>::Ok(true) ==> final(self).spec_entities()[index as int].unwrap().spec_is_hot()
                && final(self).spec_entities()[index as int].unwrap().spec_value(
                &old(self).spec_transformer(),
            ) == Some(value@) && final(self).spec_entities()[index as int].unwrap().spec_file() is None,
            r == SwapResult::<bool>::Ok(false) ==> final(self).spec_entities()[index as int].unwrap().spec_is_cold()
                && final(self).spec_entities()[index as int].unwrap().spec_value(
                &old(self).spec_transformer(),
            ) == old(self).spec_entities()[index as int].unwrap().spec_value(
                &old(self).spec_transformer(),
            ) && final(self).spec_entities()[index as int].unwrap().spec_file_exists(),
            r is Err ==> final(self).spec_entities()[index as int].unwrap().spec_value(
                &old(self).spec_transformer(),
            ) == old(self).spec_entities()[index as int].unwrap().spec_value(
                &old(self).spec_transformer(),
            ),
            old(self).spec_all_flushable() ==> r is Ok,
            r is Err ==> r == SwapResult::<bool>::Err(SwapError::Serialize) || r == SwapResult::<
                bool,
            >::Err(SwapError::TransformForward),
            r matches Ok(b) ==> b == (value.spec_size_of() <= old(self).spec_allocated()
                || value.spec_size_of() + slot_size(old(self).spec_entities()[index as int])
                <= old(self).spec_used()),
            r == SwapResult::<bool>::Ok(true) ==> final(self).spec_used() <= old(self).spec_used() || final(self).spec_used() <= old(self).spec_allocated(),
    {
        let ghost orig = old(self).spec_entities();
        let mut slot: Option<SwapEntity<T>> = None;
        self.entities.set_and_swap(index, &mut slot);
        let ghost mid = self.entities@;
        let mut e = match slot {
            Some(e) => e,
            None => {
                return vstd::pervasive::unreached();
            },
        };
        match e.flush(&self.transformer) {
            Ok(u2) => {},
            Err(err) => {
                proof {
                    assert(!old(self).spec_all_flushable()) by {
                        assert(old(self).spec_entities()[index as int] is Some);
                        assert(!old(self).spec_entities()[index as int].unwrap().spec_flushable(
                            &old(self).spec_transformer(),
                        ));
                    }
                }
                self.entities.set(index, Some(e));
                proof {
                    assert(self.entities@ =~= orig);
                }
                return Err(err);
            },
        }
        self.entities.set(index, Some(e));
        let ghost cooled = self.entities@;
        proof {
            lemma_used_in_update(orig, index as int, None);
            lemma_used_in_update(mid, index as int, cooled[index as int]);
        }
        let size = value.size_of();
        let avail = self.available();
        let shortfall = size.saturating_sub(avail);
        let admitted: bool;
        if shortfall == 0 {
            admitted = true;
        } else {
            match self.free(shortfall) {
                Ok(b) => {
                    admitted = b;
                },
                Err(err) => {
                    proof {
                        assert(!old(self).spec_all_flushable()) by {
                            let w = choose|w: int|
                                0 <= w < cooled.len() && (#[trigger] cooled[w]) is Some
                                    && !cooled[w].unwrap().spec_flushable(&self.transformer);
                            assert(w != index as int);
                            assert(cooled[w] == orig[w]);
                            assert(old(self).spec_entities()[w] is Some);
                            assert(!old(self).spec_entities()[w].unwrap().spec_flushable(
                                &old(self).spec_transformer(),
                            ));
                        }
                    }
                    return Err(err);
                },
            }
        }
        if admitted {
            let ghost freed = self.entities@;
            let mut slot2: Option<SwapEntity<T>> = None;
            self.entities.set_and_swap(index, &mut slot2);
            let mut e2 = match slot2 {
                Some(e2) => e2,
                None => {
                    return vstd::pervasive::unreached();
                },
            };
            match e2.replace(value) {
                Ok(u3) => {},
                Err(err) => {
                    return vstd::pervasive::unreached();
                },
            }
            self.entities.set(index, Some(e2));
            proof {
                assert(self.entities@ =~= freed.update(index as int, self.entities@[index as int]));
                lemma_used_in_update(freed, index as int, self.entities@[index as int]);
            }
            Ok(true)
        } else {
            Ok(false)
        }
    }

    /// Drop an entity: its in-memory value is discarded and its
    /// backing file is removed with it. The slot stays empty until
    /// `collect_garbage` prunes it.
    pub fn drop_entity(&mut self, index: usize)
        requires
            old(self).wf(),
            (index as int) < old(self).spec_entities().len(),
        ensures
            final(self).wf(),
            final(self).spec_allocated() == old(self).spec_allocated(),
            final(self).spec_manager() == old(self).spec_manager(),
            final(self).spec_transformer() == old(self).spec_transformer(),
            final(self).spec_thread_safe() == old(self).spec_thread_safe(),
            final(self).spec_entities() == old(self).spec_entities().update(index as int, None),
    {
        self.entities.set(index, None);
    }
}

} // verus!
