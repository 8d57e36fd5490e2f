use vstd::prelude::*;

verus! {

/// A non-null pointer that is handed between threads as a plain copyable
/// value. It is only carried: nothing reads or writes through it here.
#[derive(Debug)]
#[verifier::external_body]
#[verifier::reject_recursive_types(T)]
pub struct SyncNonNull<T>(pub std::ptr::NonNull<T>);

impl<T> Clone for SyncNonNull<T> {
    fn clone(&self) -> (res: Self)
        ensures
            res == *self,
    {
        *self
    }
}

impl<T> Copy for SyncNonNull<T> {
}

} // verus!
