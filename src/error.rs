use vstd::prelude::*;

verus! {

/// Why the decoding of one asset failed.
#[derive(Debug, Clone, Copy, PartialEq, Eq, Structural)]
pub enum DecodeError {
    /// A magic number, sentinel or reserved field holds the wrong value.
    MalformedHeader,
    /// A block type, compression mode or layout that this decoder does not handle.
    UnsupportedFeature,
    /// A read or copy would go past the end of the available bytes.
    Truncated,
    /// A plane depth outside `1..=5`, or geometry that does not fit together.
    InvalidDimension,
}

} // verus!
