//! A byte vector of fixed maximum capacity, backed by the no-allocation
//! vector of `noalloc_vec_rs`. Every operation that would grow the vector
//! past its capacity fails explicitly instead of allocating.
//!
//! The backing vector is opaque to the verifier, so `Buffer` carries a ghost
//! sequence mirroring its contents; each trusted method states how the call
//! moves that sequence, exactly as the backing crate's source shows.

use vstd::prelude::*;

verus! {

/// Declares the backing vector type so that it can stand in fields and
/// signatures; the verifier treats its values as opaque.
#[verifier::external_type_specification]
#[verifier::external_body]
#[verifier::reject_recursive_types(T)]
pub struct ExVec<T, const MAX_LENGTH: usize>(noalloc_vec_rs::vec::Vec<T, MAX_LENGTH>);

/// Relies on `noalloc_vec_rs::vec::Vec::new`: creates an empty vector.
#[verifier::external_body]
fn new_vec<const MAX_LENGTH: usize>() -> noalloc_vec_rs::vec::Vec<u8, MAX_LENGTH> {
    noalloc_vec_rs::vec::Vec::new()
}

/// An ordered sequence of bytes holding at most `MAX_LENGTH` elements, the
/// bound fixed at compile time. Its view is the sequence of bytes held.
pub struct Buffer<const MAX_LENGTH: usize> {
    inner: noalloc_vec_rs::vec::Vec<u8, MAX_LENGTH>,
    contents: Ghost<Seq<u8>>,
}

impl<const MAX_LENGTH: usize> View for Buffer<MAX_LENGTH> {
    type V = Seq<u8>;

    closed spec fn view(&self) -> Seq<u8> {
        self.contents@
    }
}

impl<const MAX_LENGTH: usize> Buffer<MAX_LENGTH> {
    /// Creates an empty buffer.
    pub fn new() -> (b: Self)
        ensures
            b@ == Seq::<u8>::empty(),
    {
        Buffer { inner: new_vec(), contents: Ghost(Seq::empty()) }
    }

    /// Relies on `noalloc_vec_rs::vec::Vec::push`: appends the byte when the
    /// vector holds fewer than `MAX_LENGTH` elements, and otherwise fails,
    /// leaving the vector unchanged.
    #[verifier::external_body]
    pub fn push(&mut self, value: u8) -> (r: Result<(), ()>)
        ensures
            old(self)@.len() < MAX_LENGTH ==> r is Ok && final(self)@ == old(self)@.push(value),
            old(self)@.len() >= MAX_LENGTH ==> r is Err && final(self)@ == old(self)@,
    {
        match self.inner.push(value) {
            Ok(()) => Ok(()),
            Err(_) => Err(()),
        }
    }

    /// Relies on `noalloc_vec_rs::vec::Vec::insert`: places the byte at
    /// `index`, shifting what follows one slot to the right, when
    /// `index <= len` and the vector is not full; otherwise fails, leaving
    /// the vector unchanged.
    #[verifier::external_body]
    pub fn insert(&mut self, index: usize, value: u8) -> (r: Result<(), ()>)
        ensures
            index <= old(self)@.len() && old(self)@.len() < MAX_LENGTH ==> r is Ok
                && final(self)@ == old(self)@.insert(index as int, value),
            !(index <= old(self)@.len() && old(self)@.len() < MAX_LENGTH) ==> r is Err
                && final(self)@ == old(self)@,
    {
        match self.inner.insert(index, value) {
            Ok(()) => Ok(()),
            Err(_) => Err(()),
        }
    }

    /// Relies on `noalloc_vec_rs::vec::Vec::write`: overwrites the slot at
    /// `index` when `index < len`, appends when `index == len < MAX_LENGTH`,
    /// and otherwise fails, leaving the vector unchanged.
    #[verifier::external_body]
    pub fn write(&mut self, index: usize, value: u8) -> (r: Result<(), ()>)
        ensures
            index < old(self)@.len() && index < MAX_LENGTH ==> r is Ok
                && final(self)@ == old(self)@.update(index as int, value),
            index == old(self)@.len() && index < MAX_LENGTH ==> r is Ok
                && final(self)@ == old(self)@.push(value),
            index > old(self)@.len() || index >= MAX_LENGTH ==> r is Err
                && final(self)@ == old(self)@,
    {
        match self.inner.write(index, value) {
            Ok(()) => Ok(()),
            Err(_) => Err(()),
        }
    }

    /// Relies on `noalloc_vec_rs::vec::Vec::clear`: removes every element.
    #[verifier::external_body]
    pub fn clear(&mut self)
        ensures
            final(self)@ == Seq::<u8>::empty(),
    {
        self.inner.clear()
    }

    /// Relies on `noalloc_vec_rs::vec::Vec::len`: the number of elements held.
    #[verifier::external_body]
    pub fn len(&self) -> (r: usize)
        ensures
            r == self@.len(),
    {
        self.inner.len()
    }

    /// Relies on the slice view of `noalloc_vec_rs::vec::Vec` (`as_slice`):
    /// the element at `index`.
    #[verifier::external_body]
    pub fn get(&self, index: usize) -> (r: u8)
        requires
            index < self@.len(),
        ensures
            r == self@[index as int],
    {
        self.inner.as_slice()[index]
    }

    /// Relies on `noalloc_vec_rs::vec::Vec::as_slice`: the first `len`
    /// elements, in order.
    #[verifier::external_body]
    pub fn as_slice(&self) -> (r: &[u8])
        ensures
            r@ == self@,
    {
        self.inner.as_slice()
    }
}

} // verus!
