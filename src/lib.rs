//! A small dense linear-algebra kernel: column-major matrices over a generic
//! element type, traversal cursors over their storage, and a Gaussian
//! elimination solver with partial pivoting.
pub mod gauss;
pub mod iter;
pub mod matrix;
pub mod scalar;
pub mod soundness;
