# voxtral_mini_realtime

Q4_0 quantized weights for a speech model that runs on CubeCL devices.

- `src/` is the library. Verus proves its contracts. It holds the block format
  (`gguf::block`), weight tensors (`gguf::tensor`), the kernels and their launches
  (`gguf::op`), the layers (`gguf::linear`), what holds of them together
  (`gguf::laws`), profiler ranges (`nvtx`), numbers in text (`text`) and the decisions of
  the profiling harness (`profile`).
- `app/` is ordinary Rust around it: device buffers, the CubeCL kernels with their
  floating-point sums, tensors of Burn, and the profiling harness.
- `tests/` runs the library on concrete values.

A kernel is modelled thread by thread. `q4_matmul_naive` and `q4_matmul_tiled` in `src/`
give the products that a thread sums, in order, and where it writes the sum. The kernels
of the same names in `app/` do the sums on the device.
