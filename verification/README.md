# senmei

The verified core of a video-enhancement toolkit (upscaling, denoising,
interpolation), written in Verus.

`src/` is the library; every function in it carries a contract that Verus
proves:

- `onnx` — the protobuf weight reader (initializers and `Constant` nodes),
  specified byte for byte, error by error.
- `tiling`, `engine`, `swin` — tile geometry for tiled inference (padding,
  cropping, uniform tiles, the feather ramp and its partition of unity,
  batching), the tiling plan, the fused path's VRAM guard, and the window
  attention index tables.
- `blur`, `pipeline` — the box blur of the denoise/deblur fallbacks and the
  frame-level decisions of the render loop: frame counts, error precedence,
  readback pipelining order, the interpolation schedule, duplicate dropping,
  the ffmpeg filter step.
- `hardware`, `sysfs`, `platform`, `torch`, `rocm` — GPU detection results,
  the kernel's sysfs/KFD text, and which libtorch/ROCm runtime to fetch and
  when an install is complete.
- `model`, `convert` — the model registry and the checkpoint key remapping
  rules per architecture.

`app/` holds what Verus does not see: driver probing through `libloading`,
file and process I/O, the floating-point image operations, the JSON form of
the registry, the runtime downloads and the threaded render loop.
`tests/` exercises the library from outside.
