//! The interface of a contract, as far as computed values need it.
use vstd::prelude::*;

verus! {

/// A value that a function returns.
#[derive(Debug)]
pub struct Output {
    /// The full path of the value's type.
    pub ty: String,
}

/// A function that a contract offers.
#[derive(Debug)]
pub struct Function {
    pub name: String,
    pub outputs: Vec<Output>,
}

/// An item of a contract's interface.
#[derive(Debug)]
pub enum Item {
    Function(Function),
    /// An item that is not a function.
    Other,
}

/// The interface of a contract.
#[derive(Debug)]
pub struct Contract {
    pub items: Vec<Item>,
}

} // verus!
