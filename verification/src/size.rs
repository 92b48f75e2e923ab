use vstd::prelude::*;

verus! {

/// Byte-cost estimator used by the pool's accounting.
///
/// Implementations report how many bytes the pool should charge for
/// holding a value hot. The estimate does not have to match the exact
/// heap layout; it only has to be a deterministic function of the value,
/// which is what `spec_size_of` pins down.
pub trait SizeOf {
    /// The charged size, as the accounting layer reasons about it.
    spec fn spec_size_of(&self) -> usize;

    /// Report the charged size of this value.
    fn size_of(&self) -> (n: usize)
        ensures
            n == self.spec_size_of(),
    ;
}

/// The charged size of a sequence of values: the sizes of the elements,
/// summed with saturation at `usize::MAX`.
pub open spec fn seq_spec_size_of<T: SizeOf>(s: Seq<T>) -> usize
    decreases s.len(),
{
    if s.len() == 0 {
        0
    } else {
        seq_spec_size_of(s.drop_last()).saturating_add(s.last().spec_size_of())
    }
}

/// Appending one element adds its size (saturating) to the total.
pub proof fn lemma_seq_spec_size_of_push<T: SizeOf>(s: Seq<T>, v: T)
    ensures
        seq_spec_size_of(s.push(v)) == seq_spec_size_of(s).saturating_add(v.spec_size_of()),
{
    assert(s.push(v).drop_last() =~= s);
    assert(s.push(v).last() == v);
}

impl SizeOf for u8 {
    open spec fn spec_size_of(&self) -> usize {
        1
    }

    fn size_of(&self) -> usize {
        1
    }
}

impl SizeOf for u16 {
    open spec fn spec_size_of(&self) -> usize {
        2
    }

    fn size_of(&self) -> usize {
        2
    }
}

impl SizeOf for u32 {
    open spec fn spec_size_of(&self) -> usize {
        4
    }

    fn size_of(&self) -> usize {
        4
    }
}

impl SizeOf for u64 {
    open spec fn spec_size_of(&self) -> usize {
        8
    }

    fn size_of(&self) -> usize {
        8
    }
}

impl SizeOf for u128 {
    open spec fn spec_size_of(&self) -> usize {
        16
    }

    fn size_of(&self) -> usize {
        16
    }
}

impl SizeOf for i8 {
    open spec fn spec_size_of(&self) -> usize {
        1
    }

    fn size_of(&self) -> usize {
        1
    }
}

impl SizeOf for i16 {
    open spec fn spec_size_of(&self) -> usize {
        2
    }

    fn size_of(&self) -> usize {
        2
    }
}

impl SizeOf for i32 {
    open spec fn spec_size_of(&self) -> usize {
        4
    }

    fn size_of(&self) -> usize {
        4
    }
}

impl SizeOf for i64 {
    open spec fn spec_size_of(&self) -> usize {
        8
    }

    fn size_of(&self) -> usize {
        8
    }
}

impl SizeOf for i128 {
    open spec fn spec_size_of(&self) -> usize {
        16
    }

    fn size_of(&self) -> usize {
        16
    }
}

impl SizeOf for bool {
    open spec fn spec_size_of(&self) -> usize {
        1
    }

    fn size_of(&self) -> usize {
        1
    }
}

impl SizeOf for char {
    open spec fn spec_size_of(&self) -> usize {
        4
    }

    fn size_of(&self) -> usize {
        4
    }
}

impl SizeOf for () {
    open spec fn spec_size_of(&self) -> usize {
        0
    }

    fn size_of(&self) -> usize {
        0
    }
}

impl<T: SizeOf> SizeOf for Box<T> {
    open spec fn spec_size_of(&self) -> usize {
        (**self).spec_size_of()
    }

    fn size_of(&self) -> (n: usize)
        ensures
            n == self.spec_size_of(),
    {
        (**self).size_of()
    }
}

impl SizeOf for String {
    open spec fn spec_size_of(&self) -> usize {
        vstd::utf8::encode_utf8(self@).len() as usize
    }

    fn size_of(&self) -> (n: usize)
        ensures
            n == self.spec_size_of(),
    {
        self.as_str().len()
    }
}

impl<T: SizeOf> SizeOf for Vec<T> {
    open spec fn spec_size_of(&self) -> usize {
        seq_spec_size_of(self@)
    }

    fn size_of(&self) -> (n: usize)
        ensures
            n == self.spec_size_of(),
    {
        let mut total: usize = 0;
        let mut i: usize = 0;
        while i < self.len()
            invariant
                i <= self@.len(),
                total == seq_spec_size_of(self@.take(i as int)),
            decreases self@.len() - i,
        {
            proof {
                lemma_seq_spec_size_of_push(self@.take(i as int), self@[i as int]);
                assert(self@.take(i as int).push(self@[i as int]) =~= self@.take(i + 1));
            }
            total = total.saturating_add(self[i].size_of());
            i = i + 1;
        }
        proof {
            assert(self@.take(self@.len() as int) =~= self@);
        }
        total
    }
}

impl<T: SizeOf> SizeOf for Option<T> {
    open spec fn spec_size_of(&self) -> usize {
        match self {
            Some(v) => v.spec_size_of(),
            None => 0,
        }
    }

    fn size_of(&self) -> (n: usize)
        ensures
            n == self.spec_size_of(),
    {
        match self {
            Some(v) => v.size_of(),
            None => 0,
        }
    }
}

impl<T: SizeOf, E: SizeOf> SizeOf for Result<T, E> {
    open spec fn spec_size_of(&self) -> usize {
        match self {
            Ok(v) => v.spec_size_of(),
            Err(e) => e.spec_size_of(),
        }
    }

    fn size_of(&self) -> (n: usize)
        ensures
            n == self.spec_size_of(),
    {
        match self {
            Ok(v) => v.size_of(),
            Err(e) => e.size_of(),
        }
    }
}

} // verus!
