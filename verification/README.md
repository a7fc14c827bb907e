# black_ferox

A tensor library for training neural networks, split in two crates.

`src/` is the verified library. It holds what the numeric code decides on
integers and bytes, each function with a contract proved by Verus:

- shapes, strides and broadcasting (`black_shape`, `black_strides`);
- byte buffers and their allocation (`black_buffer`);
- tensors as views over shared buffers: views, reshapes, transposes,
  permutations and the row-major gather behind `contiguous`
  (`black_tensor`, `black_index`, `black_gather`);
- the index plans of the kernels: reductions, batched matrix products,
  convolutions and the im2col unfolding, the input and weight positions
  feeding each output of the grouped, 3-D and transposed convolutions, and
  the causal mask of attention (`black_ops`);
- the size classes and free lists of the memory pool, and the bump arena
  (`black_memory`, `black_pool`);
- the counting rules of the plateau scheduler, the gradient scaler and the
  training loop (`black_train`);
- the visiting order of the backward pass (`black_graph`) and the reading of
  requested shapes with an inferred extent (`black_dims`);
- laws that relate several operations (`black_laws`).

Where a function needs more of its inputs than their types say (that a
product fits in a `usize`, that a window fits along an axis, that a tensor's
elements lie inside its buffer), the library also offers a verified test of
that need (`black_products_fit`, `black_conv_axis_check`,
`black_contiguous_check`, `black_matmul_fits_check`, ...), which `app/`
calls first.

`app/` is ordinary Rust on top of it: the single- and double-precision
kernels, automatic differentiation, the optimizers and schedulers, the
memory pool, the serde and error-display copies of the library's types, and
the Python module.
