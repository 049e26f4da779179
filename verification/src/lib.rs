//! A small dense linear-algebra kernel, generic over its scalar type.
//!
//! [`Vector`] and [`Matrix`] hold scalars of any type that implements
//! [`KField`]. Every operation states its result over the scalar's own
//! specification functions, so the contracts hold for each instance alike.
//! A matrix is stored row-major: the entry at row `r` and column `c` lies at
//! position `r * cols + c` of its flat storage.

pub mod algebra;
pub mod error;
pub mod field;
pub mod laws;
pub mod matrix;
pub mod text;
pub mod vector;

pub use error::LinAlgError;
pub use field::{FieldLaws, KField, MathOps};
pub use matrix::Matrix;
pub use vector::{angle_cos, cross_product, lerp, linear_combination, Vector};
