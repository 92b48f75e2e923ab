use vstd::prelude::*;

verus! {

use vstd::pervasive::cloned;

/// Single-value container whose updates go "in place": an updater
/// consumes the current value and produces the next one, and the cell's
/// contract relates the two through the updater's own postcondition.
///
/// The `thread_safe` flag is a pool-wide configuration choice: a
/// thread-safe cell keeps a clone of the prior value while an updater
/// runs, so a failed `update_result` leaves a clone of the old value
/// behind, while a non-thread-safe cell falls back to the type's
/// default value in that case.
pub struct InplaceCell<T> {
    value: T,
    thread_safe: bool,
}

impl<T> InplaceCell<T> {
    /// The value currently stored.
    pub closed spec fn value_spec(&self) -> T {
        self.value
    }

    /// Whether the cell was constructed thread-safe.
    pub closed spec fn is_thread_safe(&self) -> bool {
        self.thread_safe
    }

    /// Create a new cell holding `value`.
    pub fn new(value: T, thread_safe: bool) -> (c: Self)
        ensures
            c.value_spec() == value,
            c.is_thread_safe() == thread_safe,
    {
        InplaceCell { value, thread_safe }
    }

    /// Unconditionally store `value`.
    pub fn replace_by(&mut self, value: T)
        ensures
            final(self).value_spec() == value,
            final(self).is_thread_safe() == old(self).is_thread_safe(),
    {
        self.value = value;
    }

    /// Borrow the stored value.
    pub fn get_ref(&self) -> (r: &T)
        ensures
            *r == self.value_spec(),
    {
        &self.value
    }
}

impl<T: Default> InplaceCell<T> {
    /// Take the stored value out, leaving the type's default value.
    pub fn take_value(&mut self) -> (r: T)
        ensures
            r == old(self).value_spec(),
            call_ensures(T::default, (), final(self).value_spec()),
            final(self).is_thread_safe() == old(self).is_thread_safe(),
    {
        let mut taken = T::default();
        core::mem::swap(&mut taken, &mut self.value);
        taken
    }
}

impl<T: Default + Clone> InplaceCell<T> {
    /// Apply `updater` to the stored value, catching and returning the
    /// error it reports.
    ///
    /// The updater consumes the current value; on success it returns the
    /// next value together with its result. On failure the cell holds a
    /// clone of the prior value if it is thread-safe, and the type's
    /// default value otherwise.
    pub fn update_result<R, E, F: FnOnce(T) -> Result<(T, R), E>>(&mut self, updater: F) -> (r:
        Result<R, E>)
        requires
            updater.requires((old(self).value_spec(),)),
        ensures
            final(self).is_thread_safe() == old(self).is_thread_safe(),
            match r {
                Ok(res) => updater.ensures(
                    (old(self).value_spec(),),
                    Ok((final(self).value_spec(), res)),
                ),
                Err(e) => {
                    &&& updater.ensures((old(self).value_spec(),), Err(e))
                    &&& if old(self).is_thread_safe() {
                        cloned(old(self).value_spec(), final(self).value_spec())
                    } else {
                        call_ensures(T::default, (), final(self).value_spec())
                    }
                },
            },
    {
        let backup: Option<T> = if self.thread_safe {
            Some(self.value.clone())
        } else {
            None
        };
        let mut taken = T::default();
        core::mem::swap(&mut taken, &mut self.value);
        match updater(taken) {
            Ok((next, res)) => {
                self.value = next;
                Ok(res)
            },
            Err(e) => {
                match backup {
                    Some(prior) => {
                        self.value = prior;
                    },
                    None => {},
                }
                Err(e)
            },
        }
    }

    /// Replace the stored value by the updater's result, catching and
    /// returning the error it reports.
    pub fn replace_result<E, F: FnOnce(T) -> Result<T, E>>(&mut self, updater: F) -> (r: Result<
        (),
        E,
    >)
        requires
            updater.requires((old(self).value_spec(),)),
        ensures
            final(self).is_thread_safe() == old(self).is_thread_safe(),
            match r {
                Ok(u) => updater.ensures((old(self).value_spec(),), Ok(final(self).value_spec())),
                Err(e) => {
                    &&& updater.ensures((old(self).value_spec(),), Err(e))
                    &&& if old(self).is_thread_safe() {
                        cloned(old(self).value_spec(), final(self).value_spec())
                    } else {
                        call_ensures(T::default, (), final(self).value_spec())
                    }
                },
            },
    {
        let backup: Option<T> = if self.thread_safe {
            Some(self.value.clone())
        } else {
            None
        };
        let mut taken = T::default();
        core::mem::swap(&mut taken, &mut self.value);
        match updater(taken) {
            Ok(next) => {
                self.value = next;
                Ok(())
            },
            Err(e) => {
                match backup {
                    Some(prior) => {
                        self.value = prior;
                    },
                    None => {},
                }
                Err(e)
            },
        }
    }

    /// Apply `updater` to the stored value.
    pub fn update<F: FnOnce(T) -> T>(&mut self, updater: F)
        requires
            updater.requires((old(self).value_spec(),)),
        ensures
            updater.ensures((old(self).value_spec(),), final(self).value_spec()),
            final(self).is_thread_safe() == old(self).is_thread_safe(),
    {
        let mut taken = T::default();
        core::mem::swap(&mut taken, &mut self.value);
        self.value = updater(taken);
    }

    /// Replace the stored value by the updater's result.
    pub fn replace<F: FnOnce(T) -> T>(&mut self, updater: F)
        requires
            updater.requires((old(self).value_spec(),)),
        ensures
            updater.ensures((old(self).value_spec(),), final(self).value_spec()),
            final(self).is_thread_safe() == old(self).is_thread_safe(),
    {
        let mut taken = T::default();
        core::mem::swap(&mut taken, &mut self.value);
        self.value = updater(taken);
    }

    /// Clone the stored value and return the clone.
    pub fn get_copy(&self) -> (r: T)
        ensures
            cloned(self.value_spec(), r),
    {
        self.value.clone()
    }
}

/// Two cells with the same stored value and the same thread-safety flag
/// are the same cell value.
pub proof fn lemma_cell_eq<T>(a: &InplaceCell<T>, b: &InplaceCell<T>)
    requires
        a.value_spec() == b.value_spec(),
        a.is_thread_safe() == b.is_thread_safe(),
    ensures
        *a == *b,
{
}

} // verus!
