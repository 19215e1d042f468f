//! Statically allocated vectors of a fixed capacity.
use vstd::prelude::*;

verus! {

/// A cell of a fixed-capacity vector: unset, or holding a value.
#[derive(Copy, Clone, Debug)]
pub enum MaybeUninit<T> {
    Uninit,
    Value(T),
}

impl<T> MaybeUninit<T> {
    /// The value held by a set cell.
    pub open spec fn value(self) -> T {
        match self {
            MaybeUninit::Value(v) => v,
            MaybeUninit::Uninit => arbitrary(),
        }
    }
}

/// One binary digit.
#[derive(Copy, Clone, Debug, PartialEq, Eq, Structural)]
pub enum Bit {
    Zero,
    One,
}

impl Bit {
    /// `One` for a set bit, `Zero` for a clear one.
    pub fn from_bool(set: bool) -> (r: Bit)
        ensures
            (r == Bit::One) == set,
    {
        if set {
            Bit::One
        } else {
            Bit::Zero
        }
    }

    /// Whether the bit is `One`.
    pub fn is_one(&self) -> (r: bool)
        ensures
            r == (*self == Bit::One),
    {
        match self {
            Bit::One => true,
            Bit::Zero => false,
        }
    }
}

/// The error of appending to a vector that is already full.
#[derive(Copy, Clone, Debug, PartialEq, Eq, Structural)]
pub struct CapacityExceeded;

/// A vector of at most `N` values, held in an array of `N` cells.
///
/// The cells below `len` hold the vector's values in order; the others are unset.
#[derive(Debug)]
pub struct Vec<T, const N: usize> {
    buffer: [MaybeUninit<T>; N],
    len: usize,
    capacity: usize,
}

impl<T, const N: usize> View for Vec<T, N> {
    type V = Seq<T>;

    closed spec fn view(&self) -> Seq<T> {
        Seq::new(self.len as nat, |i: int| self.buffer@[i].value())
    }
}

impl<T, const N: usize> Vec<T, N> {
    #[verifier::type_invariant]
    closed spec fn inv(&self) -> bool {
        &&& self.len <= N
        &&& self.capacity == N
        &&& forall|i: int| 0 <= i < self.len ==> self.buffer@[i] is Value
        &&& forall|i: int| self.len <= i < N ==> self.buffer@[i] is Uninit
    }
}

impl<T: Copy, const N: usize> Vec<T, N> {
    /// Constructs an empty vector of capacity `N`.
    pub fn new() -> (r: Self)
        ensures
            r@ == Seq::<T>::empty(),
    {
        let r = Vec { buffer: [MaybeUninit::Uninit;N], len: 0, capacity: N };
        assert(r@ =~= Seq::<T>::empty());
        r
    }

    /// The number of values held.
    pub fn len(&self) -> (r: usize)
        ensures
            r == self@.len(),
            r <= N,
    {
        proof {
            use_type_invariant(self);
        }
        self.len
    }

    /// The number of values the vector can hold, `N`.
    pub fn capacity(&self) -> (r: usize)
        ensures
            r == N,
    {
        proof {
            use_type_invariant(self);
        }
        self.capacity
    }

    /// Whether the vector holds `N` values.
    pub fn is_full(&self) -> (r: bool)
        ensures
            r == (self@.len() == N),
    {
        proof {
            use_type_invariant(self);
        }
        self.len == self.capacity
    }

    /// The value at index `i`.
    pub fn get(&self, i: usize) -> (r: T)
        requires
            i < self@.len(),
        ensures
            r == self@[i as int],
    {
        proof {
            use_type_invariant(self);
        }
        match self.buffer[i] {
            MaybeUninit::Value(v) => v,
            MaybeUninit::Uninit => unreached(),
        }
    }

    /// Appends `value`, or fails and leaves the vector as it was when it is full.
    pub fn push(&mut self, value: T) -> (r: Result<(), CapacityExceeded>)
        ensures
            old(self)@.len() < N ==> r is Ok && final(self)@ == old(self)@.push(value),
            old(self)@.len() >= N ==> r is Err && final(self)@ == old(self)@,
    {
        proof {
            use_type_invariant(&*self);
        }
        if self.len < self.capacity {
            let ghost before = self@;
            let i = self.len;
            let mut buffer = self.buffer;
            buffer[i] = MaybeUninit::Value(value);
            *self = Vec { buffer, len: i + 1, capacity: self.capacity };
            assert(self@ =~= before.push(value));
            Ok(())
        } else {
            Err(CapacityExceeded)
        }
    }
}

} // verus!
