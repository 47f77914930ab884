//! Codec for NIF containers: a fixed header followed by raster frames of one
//! pixel format, stored raw or as a single gzip stream.
pub mod bytes;
pub mod error;
pub mod pixel;
pub mod header;
pub mod frame;
pub mod gzip;
pub mod container;

pub use container::Nif;
pub use error::NifError;
pub use frame::Frame;
pub use header::{Header, CURRENT_VERSION, FEATURE_FLAGS_COMPRESSION, HEADER_SIZE, MAGIC_NUMBER};
pub use pixel::{Pixel, Pixel16U, Pixel32U};
