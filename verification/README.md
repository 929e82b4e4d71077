# numr_kernels

Verified integer and index logic of a CPU tensor-kernel runtime.

- `strided_copy`: gathering a strided view (shape, signed strides, byte
  offset) into row-major storage, in three tiers (one bulk copy, one copy per
  outer index of a contiguous trailing block, one element at a time), each
  proved equal to the element-by-element gather.
- `dot`: signed-byte dot products, accumulated exactly and clamped to `i32`,
  both scalar and with the lane/spill structure of the vector kernels.
- `matmul_int`: the magnitude prescan that guards an `i64`-accumulated `i32`
  matrix multiply, and that multiply.
- `packing`: panel packing for the matrix-multiply microkernels, including
  packing a transposed operand into the identical panel.
- `int_unary`: wrapping integer `neg`, `abs` and `sign`.
- `conv`: the interior window of `conv1d` and the polyphase runs of
  `conv_transpose1d`.
- `dispatch`: which kernel a matrix multiply, convolution or element-wise op
  runs for a shape and SIMD level.

`app/` detects the SIMD level of the running CPU.
