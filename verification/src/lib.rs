//! Arithmetic on elliptic curves in short Weierstrass form over prime fields, and the
//! memory of the executor that calls it.
//!
//! The group law on affine points is in [`weierstrass`]: addition, doubling,
//! negation, and scalar multiplication by double-and-add. What each operation
//! returns is stated over natural numbers and proved, together with what holds of
//! the operations whatever the curve ([`weierstrass::laws`]) and that they stay on
//! the curve ([`weierstrass::closure`]).
//!
//! The field arithmetic underneath is done by a numeric backend ([`backend`]): in
//! integers of a fixed width ([`fixed_width`]) or on unbounded digit strings
//! ([`software`]). Numbers are held as little-endian digits ([`bignat`]).
pub mod backend;
pub mod bignat;
pub mod curve;
pub mod fermat;
pub mod fixed_width;
pub mod memory;
pub mod modular;
pub mod params;
pub mod software;
pub mod utils;
pub mod weierstrass;

pub use curve::{AffinePoint, CurveType, EllipticCurve, EllipticCurveParameters};
