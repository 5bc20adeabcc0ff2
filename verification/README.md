# wav1c

A small AV1 still-image and video encoder library whose logic is verified
with Verus.

- `src/` is the verified library: the bit writer and range coder, the
  transforms, quantization and coefficient coding, intra prediction and the
  rate-distortion choices, the intra block and skip-block encoders, the
  inter block encoder (motion search and refinement, motion-vector
  prediction and coding), the inter partition coder and the inter tile
  encoder,
  deblocking and CDEF filters, motion search, the sequence and frame
  headers, OBU framing, and the Y4M, IVF, MP4 and AVIF containers and
  parsers. Each public function states what it returns in its `ensures`.
- `tests/` runs the library on concrete inputs.
- `app/` is the unverified rim around it: file access, the HEIF reader and
  the floating-point rate control and tone mapping.

Run Verus on `src/lib.rs` to check the proofs.
