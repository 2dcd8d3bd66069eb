# tract_linalg (bf16 tile-GEMM packing, verified)

The layout logic of the bf16 tile-GEMM kernels, verified with Verus:

- `src/geometry.rs`: depth padding to a multiple of 32, panel counts and widths;
- `src/strided.rs`: two-dimensional strided addressing and its bounds check;
- `src/amx_native_pack.rs`: the A and B packing formats (16-row panels of bf16 bit
  patterns, depth zero-padded), with laws on what the panels hold;
- `src/tile.rs`: tile loads, gathers and stores through strides, operand transposes and
  padding, and cell-wise updates whose arithmetic the caller supplies;
- `src/bf16_gemm.rs`: the A and B operands the per-call bf16 kernel builds, and their
  agreement with the packing formats.

`app/` holds what needs f32 values or the ndarray fork's `simd` module: the
f32-to-bf16 conversion, the tile primitive, the VNNI packer, `blas_gemm`, and the
fused-op interpreters of the kernels.
