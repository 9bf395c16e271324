//! What a spawned task comes to.
use crate::errors::SpawnError;
use vstd::prelude::*;

verus! {

/// What a spawned task came to.
pub type SpawnResult<T> = Result<T, SpawnError>;

} // verus!
