//! Decisions of the Vulkan set-up and of the render loop.

pub mod renderer;
pub mod vulkan;
