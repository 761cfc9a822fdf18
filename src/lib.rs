//! Bit-interleaved space-subdivision codes (geohash, quad tiles).
//!
//! A point of a variant's bounding rectangle is encoded by bisecting the
//! rectangle again and again, alternating between the x and the y axis, and
//! folding the resulting bits into the symbols of the variant's alphabet.
//! Coordinates are fixed-point integers (`STEPS_PER_UNIT` steps per degree
//! or metre), so every midpoint test is exact.
pub mod variant;
pub mod cells;
pub mod encode;
pub mod resolution;
pub mod decode;
pub mod laws;

pub use variant::{Bounds, Geocode, LATITUDE_LIMIT, LONGITUDE_LIMIT, MERCATOR_LIMIT, STEPS_PER_UNIT};
pub use encode::OutOfRangeError;
pub use resolution::Resolution;
pub use decode::{Cell, DecodeError};
