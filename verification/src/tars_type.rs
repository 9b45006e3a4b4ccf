//! The wire type marks and the protocol versions.
use crate::tars_map::TarsMap;
use bytes::Bytes;
use vstd::prelude::*;
use vstd::string::StringExecFns;
use vstd::std_specs::convert::FromSpecImpl;

verus! {

/// How the payload of a field is shaped. The mark is the low nibble of the
/// first header byte; the variants stand in the order of their numbers, 0 to 13.
#[derive(Clone, Copy, Debug, PartialEq, Eq, PartialOrd, Ord, Structural)]
pub enum TarsTypeMark {
    EnInt8,
    EnInt16,
    EnInt32,
    EnInt64,
    EnFloat,
    EnDouble,
    EnString1,
    EnString4,
    EnMaps,
    EnList,
    EnStructBegin,
    EnStructEnd,
    EnZero,
    EnSimplelist,
}

impl TarsTypeMark {
    /// The number of the mark on the wire.
    pub open spec fn spec_value(self) -> u8 {
        match self {
            TarsTypeMark::EnInt8 => 0,
            TarsTypeMark::EnInt16 => 1,
            TarsTypeMark::EnInt32 => 2,
            TarsTypeMark::EnInt64 => 3,
            TarsTypeMark::EnFloat => 4,
            TarsTypeMark::EnDouble => 5,
            TarsTypeMark::EnString1 => 6,
            TarsTypeMark::EnString4 => 7,
            TarsTypeMark::EnMaps => 8,
            TarsTypeMark::EnList => 9,
            TarsTypeMark::EnStructBegin => 10,
            TarsTypeMark::EnStructEnd => 11,
            TarsTypeMark::EnZero => 12,
            TarsTypeMark::EnSimplelist => 13,
        }
    }

    /// The mark with the given number, if it is one of the fourteen.
    pub open spec fn spec_from_nibble(v: u8) -> Option<TarsTypeMark> {
        if v == 0 {
            Some(TarsTypeMark::EnInt8)
        } else if v == 1 {
            Some(TarsTypeMark::EnInt16)
        } else if v == 2 {
            Some(TarsTypeMark::EnInt32)
        } else if v == 3 {
            Some(TarsTypeMark::EnInt64)
        } else if v == 4 {
            Some(TarsTypeMark::EnFloat)
        } else if v == 5 {
            Some(TarsTypeMark::EnDouble)
        } else if v == 6 {
            Some(TarsTypeMark::EnString1)
        } else if v == 7 {
            Some(TarsTypeMark::EnString4)
        } else if v == 8 {
            Some(TarsTypeMark::EnMaps)
        } else if v == 9 {
            Some(TarsTypeMark::EnList)
        } else if v == 10 {
            Some(TarsTypeMark::EnStructBegin)
        } else if v == 11 {
            Some(TarsTypeMark::EnStructEnd)
        } else if v == 12 {
            Some(TarsTypeMark::EnZero)
        } else if v == 13 {
            Some(TarsTypeMark::EnSimplelist)
        } else {
            None
        }
    }

    /// The mark with the given number, for every number: one that is none of
    /// the fourteen gives `EnZero`, the mark without payload.
    pub open spec fn spec_from_number(v: u8) -> TarsTypeMark {
        match TarsTypeMark::spec_from_nibble(v) {
            Some(mark) => mark,
            None => TarsTypeMark::EnZero,
        }
    }

    /// Returns the number of the mark on the wire.
    pub fn value(self) -> (v: u8)
        ensures
            v == self.spec_value(),
            v <= 13,
    {
        match self {
            TarsTypeMark::EnInt8 => 0,
            TarsTypeMark::EnInt16 => 1,
            TarsTypeMark::EnInt32 => 2,
            TarsTypeMark::EnInt64 => 3,
            TarsTypeMark::EnFloat => 4,
            TarsTypeMark::EnDouble => 5,
            TarsTypeMark::EnString1 => 6,
            TarsTypeMark::EnString4 => 7,
            TarsTypeMark::EnMaps => 8,
            TarsTypeMark::EnList => 9,
            TarsTypeMark::EnStructBegin => 10,
            TarsTypeMark::EnStructEnd => 11,
            TarsTypeMark::EnZero => 12,
            TarsTypeMark::EnSimplelist => 13,
        }
    }

    /// Returns the mark with the given number, or `None` where the number is
    /// none of the fourteen. The decoder reads headers with this function, so
    /// that an undefined mark is an error and never a silent zero.
    pub fn from_nibble(v: u8) -> (m: Option<TarsTypeMark>)
        ensures
            m == Self::spec_from_nibble(v),
            m is Some <==> v <= 13,
            m matches Some(mark) ==> mark.spec_value() == v,
    {
        match v {
            0 => Some(TarsTypeMark::EnInt8),
            1 => Some(TarsTypeMark::EnInt16),
            2 => Some(TarsTypeMark::EnInt32),
            3 => Some(TarsTypeMark::EnInt64),
            4 => Some(TarsTypeMark::EnFloat),
            5 => Some(TarsTypeMark::EnDouble),
            6 => Some(TarsTypeMark::EnString1),
            7 => Some(TarsTypeMark::EnString4),
            8 => Some(TarsTypeMark::EnMaps),
            9 => Some(TarsTypeMark::EnList),
            10 => Some(TarsTypeMark::EnStructBegin),
            11 => Some(TarsTypeMark::EnStructEnd),
            12 => Some(TarsTypeMark::EnZero),
            13 => Some(TarsTypeMark::EnSimplelist),
            _ => None,
        }
    }
}

/// The number of a mark leads back to the mark.
pub proof fn lemma_mark_value_round_trip(mark: TarsTypeMark)
    ensures
        TarsTypeMark::spec_from_nibble(mark.spec_value()) == Some(mark),
        mark.spec_value() <= 13,
{
}

impl From<u8> for TarsTypeMark {
    /// The total form of `from_nibble`: a number that is none of the fourteen
    /// gives `EnZero`, the mark without payload.
    fn from(v: u8) -> (m: Self) {
        match TarsTypeMark::from_nibble(v) {
            Some(mark) => mark,
            None => TarsTypeMark::EnZero,
        }
    }
}

impl FromSpecImpl<u8> for TarsTypeMark {
    open spec fn obeys_from_spec() -> bool {
        true
    }

    open spec fn from_spec(v: u8) -> Self {
        TarsTypeMark::spec_from_number(v)
    }
}

/// The protocol that a message is framed in.
#[derive(Clone, Copy, Debug, PartialEq, Eq, PartialOrd, Ord, Structural)]
pub enum ProtocolVersion {
    Tars,
    TupSimple,
    TupComplex,
}

impl ProtocolVersion {
    /// The number of the version: 1, 2 or 3.
    pub open spec fn spec_value(self) -> u8 {
        match self {
            ProtocolVersion::Tars => 1,
            ProtocolVersion::TupSimple => 2,
            ProtocolVersion::TupComplex => 3,
        }
    }

    /// The version with the given number: 1 is `Tars`, 2 is `TupSimple`,
    /// every other number is `TupComplex`.
    pub open spec fn spec_from_number(v: u8) -> ProtocolVersion {
        if v == 1 {
            ProtocolVersion::Tars
        } else if v == 2 {
            ProtocolVersion::TupSimple
        } else {
            ProtocolVersion::TupComplex
        }
    }

    /// Returns the number of the version.
    pub fn value(self) -> (v: u8)
        ensures
            v == self.spec_value(),
    {
        match self {
            ProtocolVersion::Tars => 1,
            ProtocolVersion::TupSimple => 2,
            ProtocolVersion::TupComplex => 3,
        }
    }
}

impl From<u8> for ProtocolVersion {
    /// 1 is `Tars`, 2 is `TupSimple`, every other number is `TupComplex`.
    fn from(v: u8) -> (p: Self) {
        if v == 1 {
            ProtocolVersion::Tars
        } else if v == 2 {
            ProtocolVersion::TupSimple
        } else {
            ProtocolVersion::TupComplex
        }
    }
}

impl FromSpecImpl<u8> for ProtocolVersion {
    open spec fn obeys_from_spec() -> bool {
        true
    }

    open spec fn from_spec(v: u8) -> Self {
        ProtocolVersion::spec_from_number(v)
    }
}

/// The number of a version leads back to the version.
pub proof fn law_version_value_round_trip(version: ProtocolVersion)
    ensures
        ProtocolVersion::spec_from_number(version.spec_value()) == version,
{
}

/// A 32-bit floating-point number as it travels: its IEEE-754 bits.
#[derive(Clone, Copy, Debug, PartialEq, Eq, Structural)]
pub struct TarsFloat {
    pub bits: u32,
}

/// A 64-bit floating-point number as it travels: its IEEE-754 bits.
#[derive(Clone, Copy, Debug, PartialEq, Eq, Structural)]
pub struct TarsDouble {
    pub bits: u64,
}

impl TarsFloat {
    /// The number with the given bits.
    pub fn from_bits(bits: u32) -> (f: TarsFloat)
        ensures
            f.bits == bits,
    {
        TarsFloat { bits }
    }

    /// The bits of the number.
    pub fn to_bits(self) -> (bits: u32)
        ensures
            bits == self.bits,
    {
        self.bits
    }
}

impl TarsDouble {
    /// The number with the given bits.
    pub fn from_bits(bits: u64) -> (f: TarsDouble)
        ensures
            f.bits == bits,
    {
        TarsDouble { bits }
    }

    /// The bits of the number.
    pub fn to_bits(self) -> (bits: u64)
        ensures
            bits == self.bits,
    {
        self.bits
    }
}

/// The name of a type in the named-field wrapper formats, which tell the
/// values stored under one key apart by it. An unsigned type has the name of
/// the signed type of the next width, in which its values travel.
pub trait ClassName {
    /// The characters of the name.
    open spec fn class_name_text() -> Seq<char> {
        arbitrary()
    }

    /// The name.
    fn _class_name() -> (name: String)
        ensures
            name@ == Self::class_name_text(),
    ;
}

impl ClassName for bool {
    open spec fn class_name_text() -> Seq<char> {
        "bool"@
    }

    fn _class_name() -> (name: String) {
        String::from_str("bool")
    }
}

impl ClassName for i8 {
    open spec fn class_name_text() -> Seq<char> {
        "char"@
    }

    fn _class_name() -> (name: String) {
        String::from_str("char")
    }
}

impl ClassName for i16 {
    open spec fn class_name_text() -> Seq<char> {
        "short"@
    }

    fn _class_name() -> (name: String) {
        String::from_str("short")
    }
}

impl ClassName for i32 {
    open spec fn class_name_text() -> Seq<char> {
        "int32"@
    }

    fn _class_name() -> (name: String) {
        String::from_str("int32")
    }
}

impl ClassName for i64 {
    open spec fn class_name_text() -> Seq<char> {
        "int64"@
    }

    fn _class_name() -> (name: String) {
        String::from_str("int64")
    }
}

impl ClassName for u8 {
    open spec fn class_name_text() -> Seq<char> {
        "short"@
    }

    fn _class_name() -> (name: String) {
        String::from_str("short")
    }
}

impl ClassName for u16 {
    open spec fn class_name_text() -> Seq<char> {
        "int32"@
    }

    fn _class_name() -> (name: String) {
        String::from_str("int32")
    }
}

impl ClassName for u32 {
    open spec fn class_name_text() -> Seq<char> {
        "int64"@
    }

    fn _class_name() -> (name: String) {
        String::from_str("int64")
    }
}

impl ClassName for TarsFloat {
    open spec fn class_name_text() -> Seq<char> {
        "float"@
    }

    fn _class_name() -> (name: String) {
        String::from_str("float")
    }
}

impl ClassName for TarsDouble {
    open spec fn class_name_text() -> Seq<char> {
        "double"@
    }

    fn _class_name() -> (name: String) {
        String::from_str("double")
    }
}

impl ClassName for String {
    open spec fn class_name_text() -> Seq<char> {
        "string"@
    }

    fn _class_name() -> (name: String) {
        String::from_str("string")
    }
}

impl ClassName for Bytes {
    open spec fn class_name_text() -> Seq<char> {
        "list<byte>"@
    }

    fn _class_name() -> (name: String) {
        String::from_str("list<byte>")
    }
}

/// A mapping has the name `map<K,V>`, with the names of its keys and values.
impl<K: ClassName, V: ClassName> ClassName for TarsMap<K, V> {
    open spec fn class_name_text() -> Seq<char> {
        "map<"@ + K::class_name_text() + ","@ + V::class_name_text() + ">"@
    }

    fn _class_name() -> (name: String) {
        let key = K::_class_name();
        let value = V::_class_name();
        String::from_str("map<").concat(key.as_str()).concat(",").concat(value.as_str()).concat(">")
    }
}

/// A sequence has the name `List<T>`, with the name of its elements.
impl<T: ClassName> ClassName for Vec<T> {
    open spec fn class_name_text() -> Seq<char> {
        "List<"@ + T::class_name_text() + ">"@
    }

    fn _class_name() -> (name: String) {
        let item = T::_class_name();
        String::from_str("List<").concat(item.as_str()).concat(">")
    }
}

} // verus!
