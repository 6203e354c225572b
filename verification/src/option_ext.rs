//! Replacing the value of an optional slot by a value computed from it.
use vstd::prelude::*;

verus! {

/// An in-place update for `Option`.
pub trait OptionExt<T> {
    /// The optional value that the slot holds.
    spec fn held(&self) -> Option<T>;

    /// Hands the slot's value to `f` and stores what `f` returns in the slot.
    fn replace_with<F>(&mut self, f: F) where F: FnOnce(Option<T>) -> Option<T>
        requires
            f.requires((old(self).held(),)),
        ensures
            f.ensures((old(self).held(),), final(self).held()),
    ;
}

impl<T> OptionExt<T> for Option<T> {
    open spec fn held(&self) -> Option<T> {
        *self
    }

    fn replace_with<F>(&mut self, f: F) where F: FnOnce(Option<T>) -> Option<T> {
        // While `f` runs the slot holds an empty placeholder, which the
        // second swap hands to `new_value`.
        let mut old_value = None;
        std::mem::swap(self, &mut old_value);
        let mut new_value = f(old_value);
        std::mem::swap(self, &mut new_value);
        std::mem::forget(new_value);
    }
}

} // verus!
