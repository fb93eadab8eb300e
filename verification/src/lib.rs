//! Q4_0 quantized weights for a speech model that runs on CubeCL devices.
//!
//! A device stores the weights in blocks of 32, and the fused kernels dequantize them
//! as they multiply. This library holds what can be decided and computed with
//! integers: the block formats, the shapes and grids of kernel launches, what every
//! thread of a kernel reads, and how the layers put launches together. Floating-point
//! sums and the devices themselves are the caller's.

pub mod gguf;
pub mod nvtx;
pub mod profile;
pub mod text;
