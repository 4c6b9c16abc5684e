use vstd::prelude::*;

verus! {

/// One decoded contract return value, as plain data.
///
/// Integers are 256-bit words held as four little-endian 64-bit limbs; `Int`
/// reads its word as two's complement. The `usize` beside a word is the bit
/// (or byte) width the ABI declared for it.
#[derive(Debug, PartialEq, Eq)]
pub enum DecodedValue {
    Bool(bool),
    Int([u64; 4], usize),
    Uint([u64; 4], usize),
    FixedBytes([u8; 32], usize),
    Address([u8; 20]),
    Function([u8; 24]),
    Bytes(Vec<u8>),
    Str(String),
    Array(Vec<DecodedValue>),
    FixedArray(Vec<DecodedValue>),
    Tuple(Vec<DecodedValue>),
}

/// One successful call: the block it was pinned to and what it returned.
pub type Sample = (u64, Vec<DecodedValue>);

/// The mathematical view of a sample.
pub open spec fn sample_view(s: Sample) -> (u64, Seq<DecodedValue>) {
    (s.0, s.1@)
}

/// The mathematical view of a sequence of samples.
pub open spec fn samples_view(s: Seq<Sample>) -> Seq<(u64, Seq<DecodedValue>)> {
    s.map_values(|x: Sample| sample_view(x))
}

} // verus!
