//! Elements of the field that Starknet computes in.
use vstd::prelude::*;

verus! {

/// A field element as its 32 bytes, the most significant first.
#[derive(Clone, Copy, Debug, PartialEq, Eq)]
pub struct FieldElement {
    pub bytes: [u8; 32],
}

impl View for FieldElement {
    type V = Seq<u8>;

    open spec fn view(&self) -> Seq<u8> {
        self.bytes@
    }
}

} // verus!
