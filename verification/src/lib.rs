//! A verified elliptic-curve group core: affine and projective point
//! representations over a prime field, the group operations and their
//! algebraic laws, cofactor clearing, batched normalization with one shared
//! field inversion, and a bilinear pairing layer.

pub mod field;
pub mod affine;
pub mod params;
pub mod projective;
pub mod laws;
pub mod scalar;
pub mod pairing;
