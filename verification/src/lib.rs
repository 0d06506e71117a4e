pub mod block;
pub mod codec;
pub mod embed;
pub mod error;
pub mod padding;

pub use crate::error::StegoError;
