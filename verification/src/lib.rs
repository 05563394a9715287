//! The rendering core of an offline path tracer, with its combinatorial
//! parts proved: the ordering of binary64 quantities, box unions and the slab
//! test, root selection on a sphere, the bounding-volume hierarchy and its
//! traversal, the bounded path loop and the layout of the image buffer.
//!
//! Quantities are held by their IEEE-754 binary64 bit patterns
//! ([`structs::scalar::Scalar`]). The library orders, selects and stores
//! them; whatever has to be rounded (sums, products, roots, tangents) is
//! computed by the caller and handed in, either as plain values or through
//! function parameters whose answers the contracts speak of.
pub mod structs;
