use vstd::prelude::*;

verus! {

/// Tests the success value of a result, counting any error as a pass.
pub trait IsErrOr<T>: Sized {
    /// The success value, if there is one.
    spec fn ok_value(self) -> Option<T>;

    /// True for an error; for a success value, what `f` says of it.
    fn is_err_or<F: FnOnce(T) -> bool>(self, f: F) -> (r: bool)
        requires
            forall|t: T| #[trigger] call_requires(f, (t,)),
        ensures
            match self.ok_value() {
                Some(t) => call_ensures(f, (t,), r),
                None => r,
            },
    ;
}

impl<T, E> IsErrOr<T> for Result<T, E> {
    open spec fn ok_value(self) -> Option<T> {
        match self {
            Ok(t) => Some(t),
            Err(_) => None,
        }
    }

    fn is_err_or<F: FnOnce(T) -> bool>(self, f: F) -> (r: bool) {
        match self {
            Ok(t) => f(t),
            Err(_) => true,
        }
    }
}

} // verus!
