//! Records that travel on their own, as a whole buffer.
use bytes::Bytes;
use std::fmt::Debug;
use vstd::prelude::*;

verus! {

/// A record that fills itself from a buffer of its fields and hands out its
/// fields as a buffer.
pub trait TarsStruct: Debug {
    /// Reads the fields of `self` from `buf`.
    fn from_bytes(&mut self, buf: Bytes);

    /// The fields of `self`, written to a buffer.
    fn to_bytes(&self) -> Bytes;
}

} // verus!
