use vstd::prelude::*;

verus! {

/// A view of data that can be read but not written back: the value is
/// computed from the data by `get`.
#[derive(Debug, Copy, Clone)]
pub struct ReadOnly<Get> {
    get: Get,
}

impl<Get> ReadOnly<Get> {
    /// The function that computes the value.
    pub closed spec fn getter(self) -> Get {
        self.get
    }

    /// A view computing its value by `get`.
    pub fn new<A, B>(get: Get) -> (r: Self)
        where
            Get: Fn(&A) -> B,
        ensures
            r.getter() == get,
    {
        ReadOnly { get }
    }

    /// The value computed from `data`.
    pub fn value<A, B>(&self, data: &A) -> (r: B)
        where
            Get: Fn(&A) -> B,
        requires
            call_requires(self.getter(), (data,)),
        ensures
            call_ensures(self.getter(), (data,), r),
    {
        (self.get)(data)
    }
}

} // verus!
