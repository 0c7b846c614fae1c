//! Schema-driven packing of named boolean flags into compact encodings.
//!
//! A schema assigns every flag a bit index, either implicitly (declaration
//! order) or explicitly (a caller-supplied, possibly sparse index per flag),
//! and derives the encoded width from those indices.  The codec then packs
//! flag values into a fixed-length byte sequence (eight flags per byte,
//! least-significant bit first) or into a fixed-length boolean array (one
//! slot per bit index), and reconstructs the values from either form.
//!
//! [`schema`] resolves a list of flag declarations into a [`schema::ResolvedSchema`];
//! [`codec`] packs and unpacks flag values against a resolved schema.

pub mod codec;
pub mod schema;

use vstd::prelude::*;

verus! {

/// A fixed-width byte-packed view of a value: `N` bytes holding bit-packed
/// boolean flags.  Implementations are expected to be generated by an outside
/// layer that resolves the implementing type's flags to a schema and calls
/// [`codec::encode_bytes`] and [`codec::decode_bytes`].
pub trait AsBitMask<const N: usize>: Sized {
    /// Packs the value's flags into `N` bytes.
    fn as_bytes(&self) -> [u8; N];

    /// Reconstructs a value from its `N`-byte packed form.
    fn from_bytes(bytes: &[u8; N]) -> Self;
}

/// A fixed-width boolean-array view of a value: `N` slots, one per bit index.
/// Implementations are expected to be generated by an outside layer that
/// resolves the implementing type's flags to a schema and calls
/// [`codec::encode_bits`] and [`codec::decode_bits`].
pub trait AsBits<const N: usize>: Sized {
    /// Writes the value's flags into an `N`-slot boolean array.
    fn as_bits(&self) -> [bool; N];

    /// Reconstructs a value from its `N`-slot boolean array form.
    fn from_bits(bits: &[bool; N]) -> Self;
}

} // verus!
