//! The codec's error taxonomy. Every failure of either direction is one of
//! these; a call either returns a complete result or one error, never a
//! partial output.

use vstd::prelude::*;

verus! {

/// Ghost model of an `XmlError`.
#[verifier::ext_equal]
pub enum GErr {
    DecodeError,
    MalformedXml,
    NestingTooDeep,
    InvalidFormat(Seq<char>, Seq<char>),
    EmptyDocument,
    InvalidRoot,
    InvalidTimezone,
    RootMultiValue,
    NestedSequenceNotAllowed,
    TypeMismatch,
}

/// What can go wrong:
/// - `DecodeError`: the input bytes are not valid text.
/// - `MalformedXml`: the reader found a syntax error.
/// - `NestingTooDeep`: the element stack reached its bound.
/// - `InvalidFormat(key, raw)`: the text under `key` does not coerce.
/// - `EmptyDocument`: the input ended with no root element.
/// - `InvalidRoot`: the value to serialize is not a one-entry mapping.
/// - `InvalidTimezone`: a timestamp at a non-zero offset was serialized.
/// - `RootMultiValue`: a root sequence holds more than one bare value.
/// - `NestedSequenceNotAllowed`: a sequence entry is itself a sequence.
/// - `TypeMismatch`: a mapping or sequence stood where scalar text was
///   needed.
#[derive(Debug, Clone, PartialEq)]
pub enum XmlError {
    DecodeError,
    MalformedXml,
    NestingTooDeep,
    InvalidFormat(String, String),
    EmptyDocument,
    InvalidRoot,
    InvalidTimezone,
    RootMultiValue,
    NestedSequenceNotAllowed,
    TypeMismatch,
}

impl View for XmlError {
    type V = GErr;

    open spec fn view(&self) -> GErr {
        match self {
            XmlError::DecodeError => GErr::DecodeError,
            XmlError::MalformedXml => GErr::MalformedXml,
            XmlError::NestingTooDeep => GErr::NestingTooDeep,
            XmlError::InvalidFormat(k, r) => GErr::InvalidFormat(k@, r@),
            XmlError::EmptyDocument => GErr::EmptyDocument,
            XmlError::InvalidRoot => GErr::InvalidRoot,
            XmlError::InvalidTimezone => GErr::InvalidTimezone,
            XmlError::RootMultiValue => GErr::RootMultiValue,
            XmlError::NestedSequenceNotAllowed => GErr::NestedSequenceNotAllowed,
            XmlError::TypeMismatch => GErr::TypeMismatch,
        }
    }
}

} // verus!
