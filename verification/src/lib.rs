//! The core of an overlay renderer: a recorder that collects the rectangles of
//! a frame for one instanced draw call, the bounds of the presentation
//! surface, and a texture atlas whose pages are filled by a guillotine packer.
//!
//! Every function is verified against its contract. `layout` holds the packing
//! state as contracts see it, `tiling`, `order`, `packing`, `outcome` and
//! `retry` hold what is proved of it, and `outside` holds the few calls into
//! other crates whose contracts are believed without proof.

pub mod layout;
pub mod order;
pub mod outcome;
pub mod outside;
pub mod packing;
pub mod pixels;
pub mod renderer;
pub mod report;
pub mod retry;
pub mod space;
pub mod swapchain;
pub mod texture_packer;
pub mod tiling;

pub use renderer::{DrawItem, FramePlan, FrameSize, PenState, Quad, RenderError, Renderer, MAX_ITEMS};
pub use report::format_backtrace;
pub use space::TexturePackerSpace;
pub use swapchain::{AcquireFailure, FrameStep, Swapchain};
pub use texture_packer::{PackError, TexturePacker};
