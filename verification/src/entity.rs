use vstd::prelude::*;

use crate::error::{SwapError, SwapResult};
use crate::inplace_cell::InplaceCell;
use crate::size::SizeOf;
use crate::transformer::SwapTransformer;
use crate::uuid;
use crate::value::{clone_bytes, SwapValue};

verus! {

use vstd::utf8::encode_utf8;

/// A single hot/cold value backed by a swap file.
///
/// The entity is hot while its value sits in memory and cold while it
/// lives only in its backing file. The backing file is part of the
/// entity's state: `Some(bytes)` while the file exists with those
/// contents, `None` while it does not. A cold entity's file always
/// exists and decodes back to the entity's value — that is the `wf`
/// invariant that every operation preserves.
pub struct SwapEntity<T> {
    value: InplaceCell<Option<T>>,
    file: Option<Vec<u8>>,
    uuid: u64,
    path: String,
}

impl<T> SwapEntity<T> {
    /// Whether the value is in memory right now.
    pub closed spec fn spec_is_hot(&self) -> bool {
        self.value.value_spec() is Some
    }

    /// Whether the value lives only in the backing file right now:
    /// exactly when it is not in memory.
    pub open spec fn spec_is_cold(&self) -> bool {
        !self.spec_is_hot()
    }

    /// The in-memory value of a hot entity.
    pub closed spec fn spec_hot_value(&self) -> T {
        self.value.value_spec().unwrap()
    }

    /// The entity's stable identifier.
    pub closed spec fn spec_uuid(&self) -> u64 {
        self.uuid
    }

    /// The backing file's path.
    pub closed spec fn spec_path(&self) -> Seq<char> {
        self.path@
    }

    /// The backing file's contents, if the file exists.
    pub closed spec fn spec_file(&self) -> Option<Seq<u8>> {
        match self.file {
            Some(b) => Some(b@),
            None => None,
        }
    }

    /// Whether the backing file exists.
    pub open spec fn spec_file_exists(&self) -> bool {
        self.spec_file() is Some
    }

    /// Get the entity's unique identifier.
    pub fn uuid(&self) -> (r: u64)
        ensures
            r == self.spec_uuid(),
    {
        self.uuid
    }

    /// Get the backing file's path.
    pub fn path(&self) -> (r: &String)
        ensures
            r@ == self.spec_path(),
    {
        &self.path
    }

    /// Check if the value is stored in memory right now.
    pub fn is_hot(&self) -> (r: bool)
        ensures
            r == self.spec_is_hot(),
    {
        self.value.get_ref().is_some()
    }

    /// Check if the value is stored on disk right now.
    pub fn is_cold(&self) -> (r: bool)
        ensures
            r == self.spec_is_cold(),
    {
        self.value.get_ref().is_none()
    }

    /// Check if the backing file exists.
    pub fn file_exists(&self) -> (r: bool)
        ensures
            r == self.spec_file_exists(),
    {
        self.file.is_some()
    }

    /// Borrow the backing file's contents, if the file exists.
    pub fn file(&self) -> (r: &Option<Vec<u8>>)
        ensures
            r matches Some(b) ==> self.spec_file() == Some(b@),
            r is None <==> self.spec_file() is None,
    {
        &self.file
    }
}

impl<T: SwapValue + SizeOf> SwapEntity<T> {
    /// The view a cold entity's file decodes to, through the
    /// transformer.
    pub open spec fn spec_cold_value<X: SwapTransformer>(&self, x: &X) -> Option<T::V> {
        match self.spec_file() {
            Some(b) => match x.spec_backward(b) {
                Some(raw) => T::spec_decode(raw),
                None => None,
            },
            None => None,
        }
    }

    /// The entity's current value, as a view: the in-memory value when
    /// hot, what the backing file decodes to when cold.
    pub open spec fn spec_value<X: SwapTransformer>(&self, x: &X) -> Option<T::V> {
        if self.spec_is_hot() {
            Some(self.spec_hot_value()@)
        } else {
            self.spec_cold_value(x)
        }
    }

    /// Well-formedness: the identifier is derived from the path, and a
    /// cold entity's backing file exists and decodes to a value.
    pub open spec fn wf<X: SwapTransformer>(&self, x: &X) -> bool {
        &&& self.spec_uuid() == uuid::uuid_of(encode_utf8(self.spec_path()))
        &&& (self.spec_is_cold() ==> self.spec_cold_value(x) is Some)
    }

    /// Whether a flush of this entity would succeed: a hot value must
    /// serialize and transform forward; a cold entity always flushes.
    pub open spec fn spec_flushable<X: SwapTransformer>(&self, x: &X) -> bool {
        self.spec_is_hot() ==> {
            &&& T::spec_encodable(self.spec_hot_value()@)
            &&& x.spec_forward(T::spec_encode(self.spec_hot_value()@)) is Some
        }
    }

    /// The bytes this entity charges against the budget: its value's
    /// size while hot, nothing while cold.
    pub open spec fn spec_size(&self) -> usize {
        if self.spec_is_hot() {
            self.spec_hot_value().spec_size_of()
        } else {
            0
        }
    }

    /// Exactly one of hot and cold holds at any observation point, and
    /// a well-formed cold entity's backing file exists.
    pub proof fn lemma_hot_cold_exclusive<X: SwapTransformer>(&self, x: &X)
        requires
            self.wf(x),
        ensures
            self.spec_is_hot() != self.spec_is_cold(),
            self.spec_is_cold() ==> self.spec_file_exists(),
    {
    }

    /// Get the size of the entity's value: the in-memory size while
    /// hot, the backing file's length while cold.
    pub fn value_size(&self) -> (r: SwapResult<usize>)
        ensures
            self.spec_is_hot() ==> r == SwapResult::<usize>::Ok(self.spec_size()),
            self.spec_is_cold() && self.spec_file_exists() ==> r == SwapResult::<usize>::Ok(
                self.spec_file().unwrap().len() as usize,
            ),
            self.spec_is_cold() && !self.spec_file_exists() ==> r == SwapResult::<usize>::Err(
                SwapError::Io,
            ),
    {
        match self.value.get_ref() {
            Some(v) => Ok(v.size_of()),
            None => match &self.file {
                Some(b) => Ok(b.len()),
                None => Err(SwapError::Io),
            },
        }
    }

    /// Create a new entity over the given backing path.
    ///
    /// If the value's size exceeds the available budget, the value is
    /// serialized to the backing file at once and the entity starts
    /// cold; otherwise it starts hot, with no file written.
    pub fn create<X: SwapTransformer>(
        value: T,
        available: usize,
        path: String,
        thread_safe: bool,
        x: &X,
    ) -> (r: SwapResult<Self>)
        ensures
            match r {
                Ok(e) => {
                    &&& e.wf(x)
                    &&& e.spec_value(x) == Some(value@)
                    &&& e.spec_path() == path@
                    &&& e.spec_uuid() == uuid::uuid_of(encode_utf8(path@))
                    &&& (e.spec_is_hot() <==> value.spec_size_of() <= available)
                    &&& (e.spec_is_hot() ==> e.spec_hot_value() == value && e.spec_file() is None)
                    &&& (e.spec_is_cold() ==> e.spec_file() == Some(
                        x.spec_forward(T::spec_encode(value@)).unwrap(),
                    ))
                },
                Err(err) => {
                    &&& value.spec_size_of() > available
                    &&& (err == SwapError::Serialize <==> !T::spec_encodable(value@))
                    &&& (err == SwapError::TransformForward <==> T::spec_encodable(value@)
                        && x.spec_forward(T::spec_encode(value@)) is None)
                    &&& (err == SwapError::Serialize || err == SwapError::TransformForward)
                },
            },
            value.spec_size_of() > available && !(T::spec_encodable(value@) && x.spec_forward(
                T::spec_encode(value@),
            ) is Some) ==> r is Err,
    {
        let id = uuid::get(path.as_str().as_bytes());
        if value.size_of() > available {
            let bytes = match value.encode() {
                Ok(b) => b,
                Err(err) => {
                    return Err(err);
                },
            };
            let stored = match x.forward(bytes) {
                Some(o) => o,
                None => {
                    return Err(SwapError::TransformForward);
                },
            };
            proof {
                T::lemma_codec_round_trip(value@);
                x.lemma_transform_round_trip(T::spec_encode(value@));
            }
            Ok(
                SwapEntity {
                    value: InplaceCell::new(None, thread_safe),
                    file: Some(stored),
                    uuid: id,
                    path,
                },
            )
        } else {
            Ok(
                SwapEntity {
                    value: InplaceCell::new(Some(value), thread_safe),
                    file: None,
                    uuid: id,
                    path,
                },
            )
        }
    }

    /// Create an entity that adopts an existing backing file: the
    /// entity starts cold at the given path with the given bytes as its
    /// file contents, which must transform back and decode.
    pub fn adopt<X: SwapTransformer>(
        path: String,
        contents: Vec<u8>,
        thread_safe: bool,
        x: &X,
    ) -> (r: SwapResult<Self>)
        ensures
            r matches Ok(e) ==> {
                &&& e.wf(x)
                &&& e.spec_is_cold()
                &&& e.spec_file() == Some(contents@)
                &&& e.spec_path() == path@
                &&& e.spec_uuid() == uuid::uuid_of(encode_utf8(path@))
                &&& e.spec_value(x) == (match x.spec_backward(contents@) {
                    Some(raw) => T::spec_decode(raw),
                    None => None::<T::V>,
                })
            },
            (r is Ok <==> (x.spec_backward(contents@) matches Some(raw) && T::spec_decode(
                raw,
            ) is Some)),
            r == SwapResult::<Self>::Err(SwapError::TransformBackward) <==> x.spec_backward(
                contents@,
            ) is None,
            r == SwapResult::<Self>::Err(SwapError::Deserialize) <==> (x.spec_backward(
                contents@,
            ) matches Some(raw) && T::spec_decode(raw) is None),
    {
        let id = uuid::get(path.as_str().as_bytes());
        let raw = match x.backward(clone_bytes(&contents)) {
            Some(o) => o,
            None => {
                return Err(SwapError::TransformBackward);
            },
        };
        match T::decode(raw) {
            Ok(v) => Ok(
                SwapEntity {
                    value: InplaceCell::new(None, thread_safe),
                    file: Some(contents),
                    uuid: id,
                    path,
                },
            ),
            Err(err) => Err(err),
        }
    }

    /// Serialize the in-memory value to the backing file, making the
    /// entity cold. Flushing a cold entity changes nothing, so flushing
    /// twice is the same as flushing once.
    pub fn flush<X: SwapTransformer>(&mut self, x: &X) -> (r: SwapResult<()>)
        requires
            old(self).wf(x),
        ensures
            final(self).wf(x),
            final(self).spec_uuid() == old(self).spec_uuid(),
            final(self).spec_path() == old(self).spec_path(),
            final(self).spec_value(x) == old(self).spec_value(x),
            old(self).spec_is_cold() ==> *final(self) == *old(self) && r is Ok,
            r is Ok ==> final(self).spec_is_cold(),
            (r is Ok <==> old(self).spec_flushable(x)),
            r is Ok && old(self).spec_is_hot() ==> final(self).spec_file() == Some(
                x.spec_forward(T::spec_encode(old(self).spec_hot_value()@)).unwrap(),
            ),
            r is Err ==> *final(self) == *old(self),
            r == SwapResult::<()>::Err(SwapError::Serialize) <==> old(self).spec_is_hot()
                && !T::spec_encodable(old(self).spec_hot_value()@),
            r == SwapResult::<()>::Err(SwapError::TransformForward) <==> old(self).spec_is_hot()
                && T::spec_encodable(old(self).spec_hot_value()@) && x.spec_forward(
                T::spec_encode(old(self).spec_hot_value()@),
            ) is None,
    {
        let taken = self.value.take_value();
        match taken {
            Some(v) => {
                let bytes = match v.encode() {
                    Ok(b) => b,
                    Err(err) => {
                        self.value.replace_by(Some(v));
                        proof {
                            crate::inplace_cell::lemma_cell_eq(&self.value, &old(self).value);
                        }
                        return Err(err);
                    },
                };
                let stored = match x.forward(bytes) {
                    Some(o) => o,
                    None => {
                        self.value.replace_by(Some(v));
                        proof {
                            crate::inplace_cell::lemma_cell_eq(&self.value, &old(self).value);
                        }
                        return Err(SwapError::TransformForward);
                    },
                };
                proof {
                    T::lemma_codec_round_trip(v@);
                    x.lemma_transform_round_trip(T::spec_encode(v@));
                }
                self.file = Some(stored);
                Ok(())
            },
            None => {
                proof {
                    crate::inplace_cell::lemma_cell_eq(&self.value, &old(self).value);
                }
                Ok(())
            },
        }
    }

    /// Read the value while keeping the entity cold, without touching
    /// its rank.
    ///
    /// A hot entity is flushed to its backing file and its value is
    /// handed out; a cold entity's file is read without changing state.
    pub fn value_unallocate<X: SwapTransformer>(&mut self, x: &X) -> (r: SwapResult<T>)
        requires
            old(self).wf(x),
        ensures
            final(self).wf(x),
            final(self).spec_uuid() == old(self).spec_uuid(),
            final(self).spec_path() == old(self).spec_path(),
            final(self).spec_value(x) == old(self).spec_value(x),
            r matches Ok(v) ==> Some(v@) == old(self).spec_value(x)
                && final(self).spec_is_cold() && final(self).spec_file_exists(),
            old(self).spec_is_cold() ==> *final(self) == *old(self) && r is Ok,
            (r is Ok <==> old(self).spec_flushable(x)),
            r is Err ==> *final(self) == *old(self),
            r == SwapResult::<T>::Err(SwapError::Serialize) <==> old(self).spec_is_hot()
                && !T::spec_encodable(old(self).spec_hot_value()@),
            r == SwapResult::<T>::Err(SwapError::TransformForward) <==> old(self).spec_is_hot()
                && T::spec_encodable(old(self).spec_hot_value()@) && x.spec_forward(
                T::spec_encode(old(self).spec_hot_value()@),
            ) is None,
    {
        let taken = self.value.take_value();
        match taken {
            Some(v) => {
                let bytes = match v.encode() {
                    Ok(b) => b,
                    Err(err) => {
                        self.value.replace_by(Some(v));
                        proof {
                            crate::inplace_cell::lemma_cell_eq(&self.value, &old(self).value);
                        }
                        return Err(err);
                    },
                };
                let stored = match x.forward(bytes) {
                    Some(o) => o,
                    None => {
                        self.value.replace_by(Some(v));
                        proof {
                            crate::inplace_cell::lemma_cell_eq(&self.value, &old(self).value);
                        }
                        return Err(SwapError::TransformForward);
                    },
                };
                proof {
                    T::lemma_codec_round_trip(v@);
                    x.lemma_transform_round_trip(T::spec_encode(v@));
                }
                self.file = Some(stored);
                Ok(v)
            },
            None => {
                proof {
                    crate::inplace_cell::lemma_cell_eq(&self.value, &old(self).value);
                }
                match &self.file {
                    Some(b) => {
                        let raw = match x.backward(clone_bytes(b)) {
                            Some(o) => o,
                            None => {
                                return vstd::pervasive::unreached();
                            },
                        };
                        match T::decode(raw) {
                            Ok(v) => Ok(v),
                            Err(err) => vstd::pervasive::unreached(),
                        }
                    },
                    None => {
                        vstd::pervasive::unreached()
                    },
                }
            },
        }
    }

    /// Read the value and force the entity hot, regardless of budget.
    /// The backing file, if any, is left in place.
    pub fn value_allocate<X: SwapTransformer>(&mut self, x: &X) -> (r: SwapResult<T>)
        requires
            old(self).wf(x),
        ensures
            final(self).wf(x),
            final(self).spec_uuid() == old(self).spec_uuid(),
            final(self).spec_path() == old(self).spec_path(),
            final(self).spec_value(x) == old(self).spec_value(x),
            final(self).spec_file() == old(self).spec_file(),
            r is Ok,
            r matches Ok(v) ==> Some(v@) == old(self).spec_value(x) && final(self).spec_is_hot(),
            old(self).spec_is_hot() ==> *final(self) == *old(self),
    {
        if self.value.get_ref().is_none() {
            match &self.file {
                Some(b) => {
                    let raw = match x.backward(clone_bytes(b)) {
                        Some(o) => o,
                        None => {
                            return vstd::pervasive::unreached();
                        },
                    };
                    let v = match T::decode(raw) {
                        Ok(v) => v,
                        Err(err) => {
                            return vstd::pervasive::unreached();
                        },
                    };
                    self.value.replace_by(Some(v));
                },
                None => {
                    return vstd::pervasive::unreached();
                },
            }
        }
        match self.value.get_ref() {
            Some(v) => Ok(v.clone_value()),
            None => vstd::pervasive::unreached(),
        }
    }

    /// Take the in-memory value out, leaving the entity cold with its
    /// backing file untouched. The caller must restore the value or
    /// write the file before handing the entity back out.
    pub(crate) fn take_raw(&mut self) -> (r: Option<T>)
        ensures
            r == (if old(self).spec_is_hot() {
                Some(old(self).spec_hot_value())
            } else {
                None::<T>
            }),
            final(self).spec_is_cold(),
            final(self).spec_file() == old(self).spec_file(),
            final(self).spec_uuid() == old(self).spec_uuid(),
            final(self).spec_path() == old(self).spec_path(),
    {
        self.value.take_value()
    }

    /// Put a value into memory, making the entity hot, with its
    /// backing file untouched.
    pub(crate) fn put_raw(&mut self, v: T)
        ensures
            final(self).spec_is_hot(),
            final(self).spec_hot_value() == v,
            final(self).spec_file() == old(self).spec_file(),
            final(self).spec_uuid() == old(self).spec_uuid(),
            final(self).spec_path() == old(self).spec_path(),
    {
        self.value.replace_by(Some(v));
    }

    /// Decode a cold entity's backing file without changing any state.
    pub(crate) fn read_cold<X: SwapTransformer>(&self, x: &X) -> (r: T)
        requires
            self.wf(x),
            self.spec_is_cold(),
        ensures
            Some(r@) == self.spec_cold_value(x),
    {
        match &self.file {
            Some(b) => {
                let raw = match x.backward(clone_bytes(b)) {
                    Some(o) => o,
                    None => {
                        return vstd::pervasive::unreached();
                    },
                };
                match T::decode(raw) {
                    Ok(v) => v,
                    Err(err) => vstd::pervasive::unreached(),
                }
            },
            None => vstd::pervasive::unreached(),
        }
    }

    /// Unconditionally store a new value, making the entity hot and
    /// removing its backing file. The caller asserts that the new value
    /// fits where the old one was charged.
    pub fn replace(&mut self, value: T) -> (r: SwapResult<()>)
        ensures
            r is Ok,
            final(self).spec_is_hot(),
            final(self).spec_hot_value() == value,
            final(self).spec_file() is None,
            final(self).spec_uuid() == old(self).spec_uuid(),
            final(self).spec_path() == old(self).spec_path(),
    {
        self.value.replace_by(Some(value));
        self.file = None;
        Ok(())
    }
}

/// Round trip: a value put into an entity at creation, carried through
/// a flush, and handed back by a successful read is the value that went
/// in. The three states are related exactly as the contracts of
/// `create`, `flush` and the read operations relate them.
pub proof fn lemma_round_trip<T: SwapValue + SizeOf, X: SwapTransformer>(
    created: SwapEntity<T>,
    flushed: SwapEntity<T>,
    v: T,
    r: T::V,
    x: &X,
)
    requires
        created.spec_value(x) == Some(v@),
        flushed.spec_value(x) == created.spec_value(x),
        Some(r) == flushed.spec_value(x),
    ensures
        r == v@,
{
}

impl<T: SwapValue + SizeOf> SizeOf for SwapEntity<T> {
    open spec fn spec_size_of(&self) -> usize {
        self.spec_size()
    }

    fn size_of(&self) -> (n: usize) {
        match self.value.get_ref() {
            Some(v) => v.size_of(),
            None => 0,
        }
    }
}


} // verus!
