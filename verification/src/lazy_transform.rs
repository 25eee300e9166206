//! A value that is turned into another one once, when the other one is
//! first needed.

use vstd::prelude::*;

verus! {

enum Value<T, U> {
    Uninit,
    Init(T),
    Final(U),
}

/// A value of type `T` until it is transformed, a value of type `U` after.
pub struct LazyTransform<T, U> {
    value: Value<T, U>,
}

impl<T, U> LazyTransform<T, U> {
    /// It holds a value of one of the two types.
    pub closed spec fn wf(&self) -> bool {
        !(self.value is Uninit)
    }

    /// The value before the transformation, while it is not transformed.
    pub closed spec fn initial(&self) -> Option<T> {
        match self.value {
            Value::Init(v) => Some(v),
            _ => None,
        }
    }

    /// The value after the transformation, once it is transformed.
    pub closed spec fn transformed(&self) -> Option<U> {
        match self.value {
            Value::Final(v) => Some(v),
            _ => None,
        }
    }

    /// Holds `init` until it is transformed.
    pub fn new(init: T) -> (r: LazyTransform<T, U>)
        ensures
            r.wf(),
            r.initial() == Some(init),
            r.transformed() is None,
    {
        LazyTransform { value: Value::Init(init) }
    }

    /// The value before the transformation; it must not be transformed yet.
    pub fn get(&self) -> (r: &T)
        requires
            self.initial() is Some,
        ensures
            self.initial() == Some(*r),
    {
        match &self.value {
            Value::Init(v) => v,
            _ => {
                loop
                    invariant
                        false,
                    decreases 0nat,
                {
                }
            },
        }
    }

    /// The value after the transformation: `transform` applied to the value
    /// held, the first time; the same value on every later call.
    pub fn transform<F: FnOnce(T) -> U>(&mut self, transform: F) -> (r: &U)
        requires
            old(self).wf(),
            old(self).initial() matches Some(v) ==> transform.requires((v,)),
        ensures
            final(self).wf(),
            final(self).transformed() == Some(*r),
            final(self).initial() is None,
            old(self).transformed() matches Some(u) ==> *r == u,
            old(self).initial() matches Some(v) ==> transform.ensures((v,), *r),
    {
        let mut value = Value::Uninit;
        std::mem::swap(&mut value, &mut self.value);
        match value {
            Value::Init(v) => {
                self.value = Value::Final(transform(v));
            },
            Value::Final(v) => {
                self.value = Value::Final(v);
            },
            Value::Uninit => {},
        }
        match &self.value {
            Value::Final(u) => u,
            _ => {
                loop
                    invariant
                        false,
                    decreases 0nat,
                {
                }
            },
        }
    }
}

} // verus!
