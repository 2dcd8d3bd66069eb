//! Panel packing and tile layout for the bf16 tile-GEMM kernels.
pub mod geometry;
pub mod strided;
pub mod amx_native_pack;
pub mod tile;
pub mod bf16_gemm;
