//! The OptiX instance handle and its initialization.

use std::sync::Arc;
use vstd::prelude::*;
use crate::error::{OptixError, decodes_to};

verus! {

/// Wrapper around the raw OptiX function table.
pub struct FunctionTable<T> {
    pub raw: T,
}

impl<T> FunctionTable<T> {
    /// Wraps a raw function table for sharing.
    pub fn new(raw: T) -> (r: Arc<Self>)
        ensures
            r.raw == raw,
    {
        Arc::new(FunctionTable { raw })
    }
}

/// Handle to an initialized OptiX instance; the function table is shared
/// with every resource created from it.
pub struct Optix<T> {
    pub table: Arc<FunctionTable<T>>,
}

/// Initializes OptiX from the outcome of loading the OptiX library and
/// querying its function table: the table, or the `OptixResult` code of
/// the failure.
pub fn init<T>(loaded: Result<T, i32>) -> (r: Result<Optix<T>, OptixError>)
    ensures
        match loaded {
            Ok(t) => r matches Ok(o) && o.table.raw == t,
            Err(code) => r matches Err(e) && decodes_to(code, e),
        },
{
    match loaded {
        Ok(raw) => Ok(Optix { table: FunctionTable::new(raw) }),
        Err(code) => Err(OptixError::from_raw(code)),
    }
}

} // verus!
