use vstd::prelude::*;

verus! {

/// Everything that can go wrong while building, reading or accessing a container.
#[derive(Clone, Copy, PartialEq, Eq, Debug, Structural)]
pub enum NifError {
    /// The first four bytes are not the NIF magic number.
    InvalidMagic,
    /// The file was written by a newer version of the format.
    UnsupportedVersion,
    /// The header names a pixel format code outside 0..=3.
    UnsupportedPixelFormat,
    /// Fewer bytes are present than the header and frame count require.
    TruncatedData,
    /// Frame bytes of the wrong length for the header.
    SizeMismatch,
    /// A pixel coordinate outside the frame.
    OutOfRange,
    /// The underlying storage or compressor failed.
    IoError,
}

} // verus!
