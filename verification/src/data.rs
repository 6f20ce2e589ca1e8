//! Shared application state.
//!
//! Handlers receive their room's state through a cheap, cloneable handle.
//! The handle remembers the identifier of the state's type, so a caller
//! that erases the type can check it got the shape it expects back.

use core::any::TypeId;
use std::sync::Arc;
use vstd::prelude::*;

verus! {

#[verifier::external_type_specification]
#[verifier::external_body]
pub struct ExTypeId(TypeId);

/// Relies on `core::any::TypeId::of`: the identifier of the type `T`.
#[verifier::external_body]
fn type_id_of<T: 'static>() -> TypeId {
    TypeId::of::<T>()
}

/// A shared handle to one piece of application state, tagged with the
/// identifier of the state's type.
pub struct Data<T> {
    pub data_type_id: TypeId,
    pub inner_data: Arc<T>,
}

impl<T: 'static> Data<T> {
    /// Wraps the given state for sharing.
    pub fn new(data: T) -> (r: Data<T>)
        ensures
            r.inner_data == data,
    {
        let data_type_id = type_id_of::<T>();
        let inner_data = Arc::new(data);
        Data { data_type_id, inner_data }
    }
}

impl<T> Clone for Data<T> {
    /// Another handle to the same state. Relies on `Arc::clone`: the
    /// clone is a handle to the same allocation, so it carries the same
    /// value.
    #[verifier::external_body]
    fn clone(&self) -> (r: Self)
        ensures
            r.inner_data == self.inner_data,
            r.data_type_id == self.data_type_id,
    {
        Data { data_type_id: self.data_type_id, inner_data: self.inner_data.clone() }
    }
}

} // verus!
