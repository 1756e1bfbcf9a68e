//! The types of the values that models hold.
use vstd::prelude::*;

use crate::field_element::FieldElement;

verus! {

/// An unsigned integer of 256 bits.
#[derive(Clone, Copy, Debug, PartialEq, Eq)]
pub struct U256 {
    pub low: u128,
    pub high: u128,
}

/// A primitive type, with a value of it where one is known.
#[derive(Clone, Copy, Debug, PartialEq, Eq)]
pub enum Primitive {
    U8(Option<u8>),
    U16(Option<u16>),
    U32(Option<u32>),
    U64(Option<u64>),
    U128(Option<u128>),
    U256(Option<U256>),
    Bool(Option<bool>),
    Felt252(Option<FieldElement>),
    ClassHash(Option<FieldElement>),
    ContractAddress(Option<FieldElement>),
}

/// A type.
#[derive(Debug, PartialEq, Eq)]
pub enum Ty {
    Primitive(Primitive),
    Tuple(Vec<Ty>),
}

/// The mathematical form of a [`Ty`].
pub enum TyView {
    Primitive(Primitive),
    Tuple(Seq<Ty>),
}

impl View for Ty {
    type V = TyView;

    open spec fn view(&self) -> TyView {
        match *self {
            Ty::Primitive(p) => TyView::Primitive(p),
            Ty::Tuple(items) => TyView::Tuple(items@),
        }
    }
}

/// The mathematical form of a type shows what the type is.
pub proof fn law_types_are_shown_as_they_are(ty: Ty)
    ensures
        ty matches Ty::Primitive(p) ==> ty@ == TyView::Primitive(p),
        ty matches Ty::Tuple(items) ==> ty@ == TyView::Tuple(items@),
{
}

} // verus!
