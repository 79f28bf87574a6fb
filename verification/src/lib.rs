//! Verified core of the senmei video-enhancement toolkit: the tensor
//! geometry used by tiled inference, the ONNX weight reader, hardware and
//! runtime selection, the model registry, and the frame-level decisions of
//! the processing pipeline.

mod arith;
pub mod blur;
pub mod convert;
pub mod engine;
pub mod hardware;
pub mod model;
pub mod onnx;
pub mod pipeline;
pub mod platform;
pub mod rocm;
pub mod swin;
pub mod sysfs;
pub mod tensor;
pub mod text;
pub mod tiling;
pub mod torch;

pub use engine::{EngineCaps, InferOptions};
pub use hardware::{pick_device, Device, Hardware};
pub use model::{ModelKind, ModelMetadata, ModelRef, Registry};
pub use pipeline::{Filter, Frame, Passthrough, Progress, StepTiming};
pub use tensor::Tensor;
pub use tiling::{crop, crop_rgb24, pad_to, uniform_tile};
pub use torch::{pick_variant, TchDevice, TorchInstall, TorchVariant};
