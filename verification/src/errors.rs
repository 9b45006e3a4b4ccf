//! The ways in which encoding and decoding fail.
use vstd::prelude::*;

verus! {

/// Why a request to the decoder failed.
#[derive(Debug, PartialEq, Eq)]
pub enum DecodeErr {
    /// The buffer ends in the middle of a field.
    NoEnoughDataErr,
    /// A header carries a wire type mark outside the fourteen defined ones.
    UnknownTarsTypeErr,
    /// A required tag does not occur in the region.
    TagNotFoundErr,
    /// The field found at the tag has a mark that the requested kind does not accept.
    MisMatchTarsTypeErr,
    /// The inner header of a simple list is not an 8-bit integer mark.
    WrongSimpleListTarsTypeErr,
    /// An integer that stands for an enumeration has no variant.
    InvalidEnumValue,
    /// A named field is absent.
    FieldNotFoundErr(String),
    /// A named field has no entry for the requested type name.
    TypeNotFoundErr(String),
}

/// Why a type mark was refused.
#[derive(Debug, PartialEq, Eq)]
pub enum TarsTypeErr {
    DisMatchTarsTypeErr,
}

/// Why a request to the encoder failed.
#[derive(Debug, PartialEq, Eq)]
pub enum EncodeErr {
    /// The tag does not fit the header.
    TooBigTagErr,
    /// A length that should fit one byte does not.
    ConvertU8Err,
    /// A length does not fit the four-byte length prefix, or the output buffer
    /// cannot grow by the field.
    BufferTooBigErr,
    /// A wire type mark outside the fourteen defined ones.
    UnknownTarsTypeErr,
}

impl DecodeErr {
    /// The text that describes this error.
    pub open spec fn spec_description(&self) -> Seq<char> {
        match self {
            DecodeErr::NoEnoughDataErr => "decoder: without enough data to read"@,
            DecodeErr::UnknownTarsTypeErr => "decoder: unknown tars type"@,
            DecodeErr::TagNotFoundErr => "decoder: Tag Not Found"@,
            DecodeErr::MisMatchTarsTypeErr => "decoder: mismatch type"@,
            DecodeErr::WrongSimpleListTarsTypeErr => "decoder: wrong simple list type"@,
            DecodeErr::InvalidEnumValue => "decoder: invalid enum value"@,
            DecodeErr::FieldNotFoundErr(desc) => desc@,
            DecodeErr::TypeNotFoundErr(desc) => desc@,
        }
    }

    /// Returns the text that describes this error.
    pub fn description(&self) -> (s: String)
        ensures
            s@ == self.spec_description(),
    {
        match self {
            DecodeErr::NoEnoughDataErr => "decoder: without enough data to read".to_owned(),
            DecodeErr::UnknownTarsTypeErr => "decoder: unknown tars type".to_owned(),
            DecodeErr::TagNotFoundErr => "decoder: Tag Not Found".to_owned(),
            DecodeErr::MisMatchTarsTypeErr => "decoder: mismatch type".to_owned(),
            DecodeErr::WrongSimpleListTarsTypeErr => "decoder: wrong simple list type".to_owned(),
            DecodeErr::InvalidEnumValue => "decoder: invalid enum value".to_owned(),
            DecodeErr::FieldNotFoundErr(desc) => desc.clone(),
            DecodeErr::TypeNotFoundErr(desc) => desc.clone(),
        }
    }
}

impl TarsTypeErr {
    /// The text that describes this error.
    pub open spec fn spec_description(&self) -> Seq<char> {
        "tars_type: disMatch tars_type"@
    }

    /// Returns the text that describes this error.
    pub fn description(&self) -> (s: String)
        ensures
            s@ == self.spec_description(),
    {
        "tars_type: disMatch tars_type".to_owned()
    }
}

impl EncodeErr {
    /// The text that describes this error.
    pub open spec fn spec_description(&self) -> Seq<char> {
        match self {
            EncodeErr::TooBigTagErr => "encoder: tag too big, max value is 255"@,
            EncodeErr::ConvertU8Err => "encoder: cannot convert to u8"@,
            EncodeErr::BufferTooBigErr => "encoder: BufferTooBigErr len bigger than 4294967295 bytes"@,
            EncodeErr::UnknownTarsTypeErr => "encoder: unknown tars type"@,
        }
    }

    /// Returns the text that describes this error.
    pub fn description(&self) -> (s: String)
        ensures
            s@ == self.spec_description(),
    {
        match self {
            EncodeErr::TooBigTagErr => "encoder: tag too big, max value is 255".to_owned(),
            EncodeErr::ConvertU8Err => "encoder: cannot convert to u8".to_owned(),
            EncodeErr::BufferTooBigErr => "encoder: BufferTooBigErr len bigger than 4294967295 bytes".to_owned(),
            EncodeErr::UnknownTarsTypeErr => "encoder: unknown tars type".to_owned(),
        }
    }
}

} // verus!
