//! A codec for the TARS wire format: a compact, self-describing
//! tag-length-value encoding of integers, strings, byte blobs, sequences,
//! mappings and nested records.
//!
//! A message is a region of bytes that holds fields, one after the other, in
//! any order of their tags. `tars_encoder::TarsEncoder` appends fields to a
//! buffer; `tars_decoder::TarsDecoder` reads them back by their tags.
//!
//! - `wire` says what the bytes of each field are and what a region means.
//!   The contracts of the encoder and the decoder are stated over it.
//! - `tars_type` holds the wire type marks, the protocol versions and the
//!   floats as they travel; `tars_map` the mapping, ordered by its keys;
//!   `errors` the ways in which a request fails.
//! - `buffer` is where the `bytes` crate is called.
//! - `laws` and `round_trip` state and prove what holds of the format and of
//!   the values: what was written reads back, whatever stands around it;
//!   `framing` holds the facts about regions that those proofs rest on.
pub mod errors;
pub mod tars_decoder;
pub mod tars_map;
pub mod tars_struct;
pub mod tars_type;
pub mod wire;
pub mod buffer;
pub mod tars_encoder;
pub mod framing;
pub mod laws;
pub mod round_trip;
