use vstd::prelude::*;

use crate::entity::SwapEntity;
use crate::error::{SwapError, SwapResult};
use crate::handle::{avail_of, slot_size, used_in, SwapHandle};
use crate::manager::{rank_in, SwapLastUseManager, SwapManager};
use crate::size::SizeOf;
use crate::transformer::{SwapIdentityTransformer, SwapTransformer};
use crate::uuid;
use crate::value::SwapValue;

verus! {

use vstd::string::StringExecFns;
use vstd::utf8::encode_utf8;

/// Builder for a swap pool: picks the ranking policy, the byte
/// transformer and the thread-safety mode before the pool is made.
pub struct SwapPoolBuilder<M, X> {
    thread_safe: bool,
    manager: M,
    transformer: X,
}

impl Default for SwapPoolBuilder<SwapLastUseManager, SwapIdentityTransformer> {
    /// The default build: thread-safe, ranking by last use, bytes
    /// stored unchanged.
    fn default() -> (b: Self)
        ensures
            b.spec_thread_safe(),
            b.spec_manager().spec_ranks() == Map::<u64, u64>::empty(),
    {
        SwapPoolBuilder {
            thread_safe: true,
            manager: SwapLastUseManager::new(true),
            transformer: SwapIdentityTransformer,
        }
    }
}

impl<M: SwapManager, X: SwapTransformer> SwapPoolBuilder<M, X> {
    /// The thread-safety mode the pool will be built with.
    pub closed spec fn spec_thread_safe(&self) -> bool {
        self.thread_safe
    }

    /// The ranking policy the pool will be built with.
    pub closed spec fn spec_manager(&self) -> M {
        self.manager
    }

    /// The byte transformer the pool will be built with.
    pub closed spec fn spec_transformer(&self) -> X {
        self.transformer
    }

    /// Change the pool's thread-safety mode.
    pub fn with_thread_safe(self, thread_safe: bool) -> (b: Self)
        ensures
            b.spec_thread_safe() == thread_safe,
            b.spec_manager() == self.spec_manager(),
            b.spec_transformer() == self.spec_transformer(),
    {
        SwapPoolBuilder { thread_safe, manager: self.manager, transformer: self.transformer }
    }

    /// Change the pool's ranking policy.
    pub fn with_manager<M2: SwapManager>(self, manager: M2) -> (b: SwapPoolBuilder<M2, X>)
        ensures
            b.spec_thread_safe() == self.spec_thread_safe(),
            b.spec_manager() == manager,
            b.spec_transformer() == self.spec_transformer(),
    {
        SwapPoolBuilder {
            thread_safe: self.thread_safe,
            manager,
            transformer: self.transformer,
        }
    }

    /// Change the pool's byte transformer.
    pub fn with_transformer<X2: SwapTransformer>(self, transformer: X2) -> (b: SwapPoolBuilder<
        M,
        X2,
    >)
        ensures
            b.spec_thread_safe() == self.spec_thread_safe(),
            b.spec_manager() == self.spec_manager(),
            b.spec_transformer() == transformer,
    {
        SwapPoolBuilder { thread_safe: self.thread_safe, manager: self.manager, transformer }
    }

    /// Build the pool over the given byte budget and folder.
    pub fn build<T: SwapValue + SizeOf>(self, allocated: usize, folder: String) -> (p: SwapPool<
        T,
        M,
        X,
    >)
        ensures
            p.wf(),
            p.spec_handle().spec_allocated() == allocated,
            p.spec_handle().spec_entities() == Seq::<Option<SwapEntity<T>>>::empty(),
            p.spec_handle().spec_manager() == self.spec_manager(),
            p.spec_handle().spec_transformer() == self.spec_transformer(),
            p.spec_folder() == folder@,
            p.spec_thread_safe() == self.spec_thread_safe(),
    {
        SwapPool {
            handle: SwapHandle::new(allocated, self.manager, self.transformer, self.thread_safe),
            folder,
            thread_safe: self.thread_safe,
        }
    }
}

/// A swap pool: a handle plus the folder its entities keep their
/// backing files in. Spawning puts a value into a fresh entity with a
/// unique file path under the folder.
pub struct SwapPool<T, M, X> {
    handle: SwapHandle<T, M, X>,
    folder: String,
    thread_safe: bool,
}

impl<T: SwapValue + SizeOf, M: SwapManager, X: SwapTransformer> SwapPool<T, M, X> {
    /// The pool's accounting handle.
    pub closed spec fn spec_handle(&self) -> SwapHandle<T, M, X> {
        self.handle
    }

    /// The folder the pool's backing files live under.
    pub closed spec fn spec_folder(&self) -> Seq<char> {
        self.folder@
    }

    /// Whether the pool was configured thread-safe.
    pub closed spec fn spec_thread_safe(&self) -> bool {
        self.thread_safe
    }

    /// A well-formed pool is a well-formed handle.
    pub open spec fn wf(&self) -> bool {
        self.spec_handle().wf()
    }

    /// The path `spawn_named` derives for a name.
    pub open spec fn spec_path_of(&self, name: Seq<char>) -> Seq<char> {
        self.spec_folder() + "/"@ + name
    }

    /// Get a swap pool builder with the default configuration.
    pub fn builder() -> (b: SwapPoolBuilder<SwapLastUseManager, SwapIdentityTransformer>)
        ensures
            b.spec_thread_safe(),
            b.spec_manager().spec_ranks() == Map::<u64, u64>::empty(),
    {
        SwapPoolBuilder::default()
    }

    /// Borrow the pool's handle.
    pub fn handle(&self) -> (r: &SwapHandle<T, M, X>)
        ensures
            *r == self.spec_handle(),
    {
        &self.handle
    }

    /// Borrow the pool's handle for mutation: reads, updates and
    /// eviction go through it.
    pub fn handle_mut(&mut self) -> (r: &mut SwapHandle<T, M, X>)
        ensures
            *r == old(self).spec_handle(),
            final(self).spec_handle() == *final(r),
            final(self).spec_folder() == old(self).spec_folder(),
            final(self).spec_thread_safe() == old(self).spec_thread_safe(),
    {
        &mut self.handle
    }

    /// Spawn a new entity under the given file name.
    ///
    /// When the value does not fit the available budget, lower-ranked
    /// entities are flushed first; a value that still does not fit is
    /// stored cold right away. A colliding name is the caller's error.
    pub fn spawn_named(&mut self, name: &str, value: T) -> (r: SwapResult<usize>)
        requires
            old(self).wf(),
            !old(self).spec_handle().spec_has_path(old(self).spec_path_of(name@)),
        ensures
            final(self).wf(),
            final(self).spec_folder() == old(self).spec_folder(),
            final(self).spec_thread_safe() == old(self).spec_thread_safe(),
            final(self).spec_handle().spec_allocated() == old(self).spec_handle().spec_allocated(),
            final(self).spec_handle().spec_transformer() == old(self).spec_handle().spec_transformer(),
            forall|j: int|
                0 <= j < old(self).spec_handle().spec_entities().len() && old(self).spec_handle().spec_entities()[j] is Some ==> (#[trigger] final(self).spec_handle().spec_entities()[j]) is Some && final(self).spec_handle().spec_entities()[j].unwrap().spec_value(
                    &old(self).spec_handle().spec_transformer(),
                ) == old(self).spec_handle().spec_entities()[j].unwrap().spec_value(
                    &old(self).spec_handle().spec_transformer(),
                ) && final(self).spec_handle().spec_entities()[j].unwrap().spec_uuid() == old(self).spec_handle().spec_entities()[j].unwrap().spec_uuid() && final(self).spec_handle().spec_entities()[j].unwrap().spec_path() == old(self).spec_handle().spec_entities()[j].unwrap().spec_path(),
            r matches Ok(id) ==> {
                let ents = final(self).spec_handle().spec_entities();
                &&& id as int == ents.len() - 1
                &&& ents.len() == old(self).spec_handle().spec_entities().len() + 1
                &&& ents[id as int] is Some
                &&& ents[id as int].unwrap().spec_value(
                    &old(self).spec_handle().spec_transformer(),
                ) == Some(value@)
                &&& ents[id as int].unwrap().spec_path() == old(self).spec_path_of(name@)
                &&& ents[id as int].unwrap().spec_uuid() == uuid::uuid_of(
                    encode_utf8(old(self).spec_path_of(name@)),
                )
                &&& (ents[id as int].unwrap().spec_is_hot() ==> ents[id as int].unwrap().spec_hot_value()
                    == value)
            },
            old(self).spec_handle().spec_all_flushable() && T::spec_encodable(value@) && old(self).spec_handle().spec_transformer().spec_forward(T::spec_encode(value@)) is Some
                ==> r is Ok,
            r is Err ==> r == SwapResult::<usize>::Err(SwapError::Serialize) || r == SwapResult::<
                usize,
            >::Err(SwapError::TransformForward),
            r is Ok ==> final(self).spec_handle().spec_used() <= old(self).spec_handle().spec_used() || final(self).spec_handle().spec_used() <= old(self).spec_handle().spec_allocated(),
            r matches Ok(id) ==> exists|nr: u64|
                final(self).spec_handle().spec_ranks() == old(self).spec_handle().spec_ranks().insert(
                    uuid::uuid_of(encode_utf8(old(self).spec_path_of(name@))),
                    nr,
                ),
            r matches Ok(id) ==> {
                let ents = final(self).spec_handle().spec_entities();
                let rest = used_in(ents.drop_last());
                let budget = old(self).spec_handle().spec_allocated();
                let used0 = old(self).spec_handle().spec_used();
                &&& (ents[id as int].unwrap().spec_is_hot() <==> value.spec_size_of() <= avail_of(
                    rest,
                    budget,
                ))
                &&& final(self).spec_handle().spec_used() == rest + slot_size(ents[id as int])
                &&& rest <= used0
                &&& (value.spec_size_of() <= avail_of(used0, budget) ==> rest == used0 && (forall|
                    j: int,
                |
                    0 <= j < old(self).spec_handle().spec_entities().len() ==> #[trigger] ents[j]
                        == old(self).spec_handle().spec_entities()[j]))
                &&& (value.spec_size_of() > avail_of(used0, budget) && value.spec_size_of()
                    - avail_of(used0, budget) <= used0 ==> rest + (value.spec_size_of() - avail_of(
                    used0,
                    budget,
                )) <= used0)
                &&& (value.spec_size_of() - avail_of(used0, budget) > used0 ==> rest == 0)
            },
            forall|j: int|
                0 <= j < old(self).spec_handle().spec_entities().len() && !(old(self).spec_handle().spec_entities()[j] is Some && old(self).spec_handle().spec_entities()[j].unwrap().spec_is_hot()) ==> #[trigger] final(self).spec_handle().spec_entities()[j] == old(self).spec_handle().spec_entities()[j],
            forall|j: int|
                0 <= j < old(self).spec_handle().spec_entities().len() && (#[trigger] final(self).spec_handle().spec_entities()[j]) is Some && final(self).spec_handle().spec_entities()[j].unwrap().spec_is_hot() ==> final(self).spec_handle().spec_entities()[j] == old(self).spec_handle().spec_entities()[j],
            forall|a: int, b: int|
                0 <= a < old(self).spec_handle().spec_entities().len() && 0 <= b < old(self).spec_handle().spec_entities().len() && old(self).spec_handle().spec_entities()[a] is Some && old(self).spec_handle().spec_entities()[a].unwrap().spec_is_hot() && (#[trigger] final(self).spec_handle().spec_entities()[a]).unwrap().spec_is_cold() && (#[trigger] final(self).spec_handle().spec_entities()[b]) is Some && final(self).spec_handle().spec_entities()[b].unwrap().spec_is_hot() ==> rank_in(
                    old(self).spec_handle().spec_ranks(),
                    old(self).spec_handle().spec_entities()[a].unwrap().spec_uuid(),
                ) <= rank_in(
                    old(self).spec_handle().spec_ranks(),
                    old(self).spec_handle().spec_entities()[b].unwrap().spec_uuid(),
                ),
    {
        let ghost orig = old(self).spec_handle().spec_entities();
        let mut path = String::from_str(self.folder.as_str());
        path.append("/");
        path.append(name);

        let size = value.size_of();
        let avail = self.handle.available();
        let excess = size.saturating_sub(avail);
        if excess > 0 {
            match self.handle.free(excess) {
                Ok(b) => {},
                Err(err) => {
                    return Err(err);
                },
            }
        }
        proof {
            assert(!self.handle.spec_has_path(path@)) by {
                if self.handle.spec_has_path(path@) {
                    let w = choose|w: int|
                        0 <= w < self.handle.spec_entities().len() && (
                        #[trigger] self.handle.spec_entities()[w]) is Some
                            && self.handle.spec_entities()[w].unwrap().spec_path() == path@;
                    assert(orig[w] is Some);
                    assert(old(self).spec_handle().spec_entities()[w] is Some
                        && old(self).spec_handle().spec_entities()[w].unwrap().spec_path()
                        == path@);
                }
            }
        }
        let ghost mid2 = self.handle.spec_entities();
        let avail2 = self.handle.available();
        let e = match SwapEntity::create(
            value,
            avail2,
            path,
            self.thread_safe,
            self.handle.transformer(),
        ) {
            Ok(e) => e,
            Err(err) => {
                return Err(err);
            },
        };
        let id = self.handle.push_entity(e);
        proof {
            let ents = self.handle.spec_entities();
            assert(ents.drop_last() =~= mid2);
            assert(forall|j: int| 0 <= j < orig.len() ==> #[trigger] ents[j] == mid2[j]);
            assert forall|a: int, b: int|
                0 <= a < orig.len() && 0 <= b < orig.len() && orig[a] is Some
                    && orig[a].unwrap().spec_is_hot() && (
                #[trigger] ents[a]).unwrap().spec_is_cold() && (#[trigger] ents[b]) is Some
                    && ents[b].unwrap().spec_is_hot() implies rank_in(
                old(self).spec_handle().spec_ranks(),
                orig[a].unwrap().spec_uuid(),
            ) <= rank_in(old(self).spec_handle().spec_ranks(), orig[b].unwrap().spec_uuid()) by {
                assert(ents[a] == mid2[a]);
                assert(ents[b] == mid2[b]);
            }
        }
        Ok(id)
    }

    /// Spawn a new entity named after the value's own bytes: the
    /// identifier of its serialization, in hexadecimal, with a `.swap`
    /// suffix. A pool that already uses the derived name refuses the
    /// spawn instead of overwriting the other entity's file.
    pub fn spawn(&mut self, value: T) -> (r: SwapResult<usize>)
        requires
            old(self).wf(),
        ensures
            final(self).wf(),
            final(self).spec_folder() == old(self).spec_folder(),
            final(self).spec_thread_safe() == old(self).spec_thread_safe(),
            final(self).spec_handle().spec_allocated() == old(self).spec_handle().spec_allocated(),
            r matches Ok(id) ==> {
                let ents = final(self).spec_handle().spec_entities();
                &&& id as int == ents.len() - 1
                &&& ents.len() == old(self).spec_handle().spec_entities().len() + 1
                &&& ents[id as int] is Some
                &&& ents[id as int].unwrap().spec_value(
                    &old(self).spec_handle().spec_transformer(),
                ) == Some(value@)
                &&& ents[id as int].unwrap().spec_path() == old(self).spec_path_of(
                    uuid::hex_of(uuid::uuid_of(T::spec_encode(value@)) as nat) + ".swap"@,
                )
                &&& (ents[id as int].unwrap().spec_is_hot() ==> ents[id as int].unwrap().spec_hot_value()
                    == value)
            },
            forall|j: int|
                0 <= j < old(self).spec_handle().spec_entities().len() && old(self).spec_handle().spec_entities()[j] is Some ==> (#[trigger] final(self).spec_handle().spec_entities()[j]) is Some && final(self).spec_handle().spec_entities()[j].unwrap().spec_value(
                    &old(self).spec_handle().spec_transformer(),
                ) == old(self).spec_handle().spec_entities()[j].unwrap().spec_value(
                    &old(self).spec_handle().spec_transformer(),
                ),
            (r == SwapResult::<usize>::Err(SwapError::Io) <==> T::spec_encodable(value@) && old(self).spec_handle().spec_has_path(
                old(self).spec_path_of(
                    uuid::hex_of(uuid::uuid_of(T::spec_encode(value@)) as nat) + ".swap"@,
                ),
            )),
            old(self).spec_handle().spec_all_flushable() && T::spec_encodable(value@) && old(self).spec_handle().spec_transformer().spec_forward(T::spec_encode(value@)) is Some && !old(self).spec_handle().spec_has_path(
                old(self).spec_path_of(
                    uuid::hex_of(uuid::uuid_of(T::spec_encode(value@)) as nat) + ".swap"@,
                ),
            ) ==> r is Ok,
            r matches Ok(id) ==> exists|nr: u64|
                final(self).spec_handle().spec_ranks() == old(self).spec_handle().spec_ranks().insert(
                    uuid::uuid_of(
                        encode_utf8(
                            old(self).spec_path_of(
                                uuid::hex_of(uuid::uuid_of(T::spec_encode(value@)) as nat)
                                    + ".swap"@,
                            ),
                        ),
                    ),
                    nr,
                ),
            r matches Ok(id) ==> {
                let ents = final(self).spec_handle().spec_entities();
                let rest = used_in(ents.drop_last());
                let budget = old(self).spec_handle().spec_allocated();
                let used0 = old(self).spec_handle().spec_used();
                &&& (ents[id as int].unwrap().spec_is_hot() <==> value.spec_size_of() <= avail_of(
                    rest,
                    budget,
                ))
                &&& final(self).spec_handle().spec_used() == rest + slot_size(ents[id as int])
                &&& rest <= used0
                &&& (value.spec_size_of() <= avail_of(used0, budget) ==> rest == used0 && (forall|
                    j: int,
                |
                    0 <= j < old(self).spec_handle().spec_entities().len() ==> #[trigger] ents[j]
                        == old(self).spec_handle().spec_entities()[j]))
                &&& (value.spec_size_of() > avail_of(used0, budget) && value.spec_size_of()
                    - avail_of(used0, budget) <= used0 ==> rest + (value.spec_size_of() - avail_of(
                    used0,
                    budget,
                )) <= used0)
                &&& (value.spec_size_of() - avail_of(used0, budget) > used0 ==> rest == 0)
            },
            forall|j: int|
                0 <= j < old(self).spec_handle().spec_entities().len() && !(old(self).spec_handle().spec_entities()[j] is Some && old(self).spec_handle().spec_entities()[j].unwrap().spec_is_hot()) ==> #[trigger] final(self).spec_handle().spec_entities()[j] == old(self).spec_handle().spec_entities()[j],
            forall|j: int|
                0 <= j < old(self).spec_handle().spec_entities().len() && (#[trigger] final(self).spec_handle().spec_entities()[j]) is Some && final(self).spec_handle().spec_entities()[j].unwrap().spec_is_hot() ==> final(self).spec_handle().spec_entities()[j] == old(self).spec_handle().spec_entities()[j],
    {
        let bytes = match value.encode() {
            Ok(b) => b,
            Err(err) => {
                return Err(err);
            },
        };
        let h = uuid::get(bytes.as_slice());
        let mut name = uuid::to_hex(h);
        name.append(".swap");
        let mut path = String::from_str(self.folder.as_str());
        path.append("/");
        path.append(name.as_str());
        if self.handle.has_path(&path) {
            return Err(SwapError::Io);
        }
        self.spawn_named(name.as_str(), value)
    }

    /// Spawn an entity that adopts an existing backing file.
    ///
    /// The host reads the file and hands its bytes in; the entity
    /// starts cold at the given path with those bytes authoritative, so
    /// no budget is charged until the value is first read. A colliding
    /// path is the caller's error.
    pub fn spawn_from_file(&mut self, path: String, contents: Vec<u8>) -> (r: SwapResult<usize>)
        requires
            old(self).wf(),
            !old(self).spec_handle().spec_has_path(path@),
        ensures
            final(self).wf(),
            final(self).spec_folder() == old(self).spec_folder(),
            final(self).spec_thread_safe() == old(self).spec_thread_safe(),
            final(self).spec_handle().spec_allocated() == old(self).spec_handle().spec_allocated(),
            final(self).spec_handle().spec_transformer() == old(self).spec_handle().spec_transformer(),
            r is Err ==> *final(self) == *old(self),
            (r is Ok <==> (old(self).spec_handle().spec_transformer().spec_backward(
                contents@,
            ) matches Some(raw) && T::spec_decode(raw) is Some)),
            r == SwapResult::<usize>::Err(SwapError::TransformBackward) <==> old(self).spec_handle().spec_transformer().spec_backward(contents@) is None,
            r == SwapResult::<usize>::Err(SwapError::Deserialize) <==> (old(self).spec_handle().spec_transformer().spec_backward(contents@) matches Some(raw)
                && T::spec_decode(raw) is None),
            r matches Ok(id) ==> {
                let ents = final(self).spec_handle().spec_entities();
                &&& id as int == ents.len() - 1
                &&& ents.len() == old(self).spec_handle().spec_entities().len() + 1
                &&& ents[id as int] is Some
                &&& ents[id as int].unwrap().spec_is_cold()
                &&& ents[id as int].unwrap().spec_file() == Some(contents@)
                &&& ents[id as int].unwrap().spec_path() == path@
                &&& ents[id as int].unwrap().spec_uuid() == uuid::uuid_of(encode_utf8(path@))
                &&& ents[id as int].unwrap().spec_value(
                    &old(self).spec_handle().spec_transformer(),
                ) == (match old(self).spec_handle().spec_transformer().spec_backward(contents@) {
                    Some(raw) => T::spec_decode(raw),
                    None => None::<T::V>,
                })
                &&& (forall|j: int|
                    0 <= j < old(self).spec_handle().spec_entities().len() ==> #[trigger] ents[j]
                        == old(self).spec_handle().spec_entities()[j])
            },
            r matches Ok(id) ==> final(self).spec_handle().spec_used() == old(self).spec_handle().spec_used(),
            r matches Ok(id) ==> exists|nr: u64|
                final(self).spec_handle().spec_ranks() == old(self).spec_handle().spec_ranks().insert(
                    uuid::uuid_of(encode_utf8(path@)),
                    nr,
                ),
    {
        let ghost orig = old(self).spec_handle().spec_entities();
        let e = match SwapEntity::adopt(path, contents, self.thread_safe, self.handle.transformer(
        )) {
            Ok(e) => e,
            Err(err) => {
                return Err(err);
            },
        };
        let id = self.handle.push_entity(e);
        proof {
            assert(forall|j: int|
                0 <= j < orig.len() ==> #[trigger] self.handle.spec_entities()[j] == orig[j]);
        }
        Ok(id)
    }
}

impl<T: SwapValue + SizeOf> SwapPool<T, SwapLastUseManager, SwapIdentityTransformer> {
    /// Create a new swap pool with the default configuration over the
    /// given byte budget and folder.
    pub fn new(allocated: usize, folder: String) -> (p: Self)
        ensures
            p.wf(),
            p.spec_handle().spec_allocated() == allocated,
            p.spec_handle().spec_entities() == Seq::<Option<SwapEntity<T>>>::empty(),
            p.spec_handle().spec_manager().spec_ranks() == Map::<u64, u64>::empty(),
            p.spec_handle().spec_transformer() == SwapIdentityTransformer,
            p.spec_folder() == folder@,
            p.spec_thread_safe(),
    {
        SwapPoolBuilder::default().build(allocated, folder)
    }
}

} // verus!
