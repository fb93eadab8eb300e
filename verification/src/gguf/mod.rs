//! Q4_0 block format, weight tensors, matmul launches and linear layers.

pub mod block;
pub mod laws;
pub mod linear;
pub mod meaning;
pub mod op;
pub mod tensor;
