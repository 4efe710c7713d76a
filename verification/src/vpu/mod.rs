//! The host side of the card worker: the protocol, the window it is spoken
//! through, the matrix-multiply service and the weight formats.
pub mod cards;
pub mod check;
pub mod half;
pub mod matmul;
pub mod proto;
pub mod weights;
pub mod window;
