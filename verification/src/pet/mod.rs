//! Pet packages: sprite-sheet decoding, frame model and validation.

pub mod codec;
pub mod model;
pub mod validator;
pub mod store;
