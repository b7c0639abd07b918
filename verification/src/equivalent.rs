//! Lookup by a borrowed form of a key.
use std::borrow::Borrow;
use vstd::prelude::*;

verus! {

/// `Borrow::borrow`: the borrowed form of `key`; nothing is promised of it.
#[verifier::external_body]
fn borrowed<Q: ?Sized, K: Borrow<Q> + ?Sized>(key: &K) -> &Q {
    key.borrow()
}

/// Whether `self` names the same key as `key`, compared through a borrowed form of `key`.
pub trait Equivalent<K: ?Sized> {
    fn equivalent(&self, key: &K) -> bool;
}

impl<Q, K> Equivalent<K> for Q where Q: Eq + ?Sized, K: Borrow<Q> + ?Sized {
    fn equivalent(&self, key: &K) -> bool {
        self == borrowed::<Q, K>(key)
    }
}

} // verus!
