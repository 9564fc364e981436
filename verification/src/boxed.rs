//! Single values in collected memory.
use crate::token::GcToken;
use vstd::prelude::*;

verus! {

/// A value in collected memory.
pub struct GcBox<T> {
    value: Box<T>,
}

impl<T> View for GcBox<T> {
    type V = T;

    closed spec fn view(&self) -> T {
        *self.value
    }
}

/// Moves `val` into collected memory.
pub fn allocate<T>(_token: &impl GcToken, val: T) -> (b: GcBox<T>)
    ensures
        b@ == val,
{
    GcBox { value: Box::new(val) }
}

impl<T> GcBox<T> {
    /// The value, while the thread holds a token.
    pub fn as_ref<'a>(&'a self, _token: &impl GcToken) -> (r: &'a T)
        ensures
            *r == self@,
    {
        &self.value
    }

    /// The value, for writing, while the thread holds a token.
    pub fn as_mut<'a>(&'a mut self, _token: &impl GcToken) -> (r: &'a mut T)
        ensures
            *r == old(self)@,
            final(self)@ == *final(r),
    {
        &mut self.value
    }
}

} // verus!
