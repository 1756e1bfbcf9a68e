//! The processor of the events that tell of a deployed contract.
use vstd::prelude::*;

use crate::field_element::FieldElement;
use crate::manifest::Manifest;

verus! {

/// An event that a contract has emitted.
#[derive(Debug)]
pub struct Event {
    pub from_address: FieldElement,
    pub keys: Vec<FieldElement>,
    pub data: Vec<FieldElement>,
}

/// Processes the events that tell of a deployed contract.
#[derive(Debug)]
pub struct DeployedContractProcessor {
    pub manifest: Option<Manifest>,
}

impl Default for DeployedContractProcessor {
    /// A processor without a manifest.
    fn default() -> (r: Self)
        ensures
            r.manifest is None,
    {
        DeployedContractProcessor { manifest: None }
    }
}

impl DeployedContractProcessor {
    /// The name of the events that the processor is for.
    pub fn event_key(&self) -> (r: String)
        ensures
            r@ == "ContractDeployed"@,
    {
        "ContractDeployed".to_string()
    }

    /// Accepts an event that has no key besides the one that tells its kind.
    pub fn validate(&self, event: &Event) -> (r: bool)
        ensures
            r == (event.keys@.len() <= 1),
    {
        event.keys.len() <= 1
    }
}

} // verus!
