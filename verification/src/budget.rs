//! Which models can be asked to call functions.

pub mod compatibility;

use vstd::prelude::*;

verus! {

/// The price record of a model, as far as the registry of compatibility
/// reads it.
#[derive(Debug, Clone, PartialEq, Eq)]
pub struct PricingInfo {
    pub model_id: String,
}

} // verus!
