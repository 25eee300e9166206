//! The configuration of the command-line tool, loaded when first needed.

use vstd::prelude::*;

verus! {

/// A configuration that is loaded on first access.
pub struct LazyConfig<C> {
    config: Option<C>,
}

impl<C> LazyConfig<C> {
    /// The configuration, if loaded.
    pub closed spec fn loaded(&self) -> Option<C> {
        self.config
    }

    /// Nothing loaded yet.
    pub fn new() -> (r: LazyConfig<C>)
        ensures
            r.loaded() is None,
    {
        LazyConfig { config: None }
    }

    /// Whether the configuration is loaded.
    pub fn is_init(&self) -> (b: bool)
        ensures
            b == self.loaded() is Some,
    {
        self.config.is_some()
    }

    /// The configuration, loaded by `load` if it was not yet.
    pub fn get<F: FnOnce() -> C>(&mut self, load: F) -> (r: &C)
        requires
            old(self).loaded() is None ==> load.requires(()),
        ensures
            final(self).loaded() == Some(*r),
            old(self).loaded() matches Some(c) ==> *r == c,
            old(self).loaded() is None ==> load.ensures((), *r),
    {
        if self.config.is_none() {
            self.config = Some(load());
        }
        match &self.config {
            Some(c) => c,
            None => {
                loop
                    invariant
                        false,
                    decreases 0nat,
                {
                }
            },
        }
    }

    /// The configuration to change, loaded by `load` if it was not yet.
    pub fn get_mut<F: FnOnce() -> C>(&mut self, load: F) -> (r: &mut C)
        requires
            old(self).loaded() is None ==> load.requires(()),
        ensures
            old(self).loaded() matches Some(c) ==> *r == c,
            old(self).loaded() is None ==> load.ensures((), *r),
            final(self).loaded() == Some(*final(r)),
    {
        if self.config.is_none() {
            self.config = Some(load());
        }
        match &mut self.config {
            Some(c) => c,
            None => {
                loop
                    invariant
                        false,
                    decreases 0nat,
                {
                }
            },
        }
    }
}

} // verus!
