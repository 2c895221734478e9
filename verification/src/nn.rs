//! Neural network inference support.

pub mod cnn;
pub mod indices;
pub mod layout;
pub mod network;
pub mod shape;
pub mod small_vec;
pub mod tensor;
