//! A type-indexed store for per-request extras: at most one value per type,
//! put in and taken out by the type alone. The store is a map from type
//! identity to an erased value, which Verus cannot look into, so the whole
//! store is opaque and its operations are trusted; the tests exercise them.

use vstd::prelude::*;
use std::any::{Any, TypeId};
use std::collections::HashMap;

verus! {

/// The store. One slot per type; inserting replaces.
#[verifier::external_body]
pub struct Extras {
    extras: HashMap<TypeId, Box<dyn Any>>,
}

impl Default for Extras {
    /// Relies on `HashMap::new`: the store starts empty.
    #[verifier::external_body]
    fn default() -> Extras {
        Extras { extras: HashMap::new() }
    }
}

impl Extras {
    /// Relies on `HashMap::get` and `Any::downcast_ref`: the value stored
    /// under this type, if any.
    #[verifier::external_body]
    pub fn get<'a, T: 'static>(&'a self) -> Option<&'a T> where T: Any + Send + Sync + 'static {
        let ty = TypeId::of::<T>();
        if let Some(v) = self.extras.get(&ty) {
            (&**v as &dyn Any).downcast_ref::<T>()
        } else {
            None
        }
    }

    /// Relies on `HashMap::insert`: stores the value under its type,
    /// replacing what was there.
    #[verifier::external_body]
    pub fn insert<T>(&mut self, val: T) where T: Any + Send + Sync + 'static {
        let ty = TypeId::of::<T>();
        self.extras.insert(ty, Box::new(val));
    }

    /// Relies on `HashMap::get_mut` and `Any::downcast_mut`: the value
    /// stored under this type, if any, for changing in place.
    #[verifier::external_body]
    pub fn get_mut<'a, T>(&'a mut self) -> Option<&'a mut T> where T: Any + Send + Sync + 'static {
        let ty = TypeId::of::<T>();
        if let Some(v) = self.extras.get_mut(&ty) {
            (&mut **v as &mut dyn Any).downcast_mut::<T>()
        } else {
            None
        }
    }

    /// Relies on `HashMap::remove` and `Box::downcast`: takes the value
    /// stored under this type out of the store.
    #[verifier::external_body]
    pub fn take<T>(&mut self) -> Option<Box<T>> where T: Any + Send + Sync + 'static {
        let ty = TypeId::of::<T>();
        if let Some(v) = self.extras.remove(&ty) {
            v.downcast::<T>().ok()
        } else {
            None
        }
    }
}

} // verus!
