//! The manifest of a world, as far as computed values need it.
use vstd::prelude::*;

use crate::abi;
use crate::field_element::FieldElement;

verus! {

/// A function of a contract that computes a value.
#[derive(Debug)]
pub struct ComputedValueEntrypoint {
    /// The name of the function.
    pub entrypoint: String,
    /// The model that the value belongs to.
    pub model: Option<String>,
}

/// A contract of a world.
#[derive(Debug)]
pub struct Contract {
    /// Where the contract is deployed.
    pub address: Option<FieldElement>,
    pub abi: Option<abi::Contract>,
    pub computed: Vec<ComputedValueEntrypoint>,
}

/// The manifest of a world.
#[derive(Debug)]
pub struct Manifest {
    pub contracts: Vec<Contract>,
}

} // verus!
