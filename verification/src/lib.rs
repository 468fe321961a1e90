//! Verified core of a small Vulkan renderer: keyboard and button input state,
//! load-batch bookkeeping, the asset look-up database format, the table of
//! loaded assets and the asset storage's state machine, one-shot
//! notifications, the choices of the Vulkan set-up and of the render loop, and
//! the icosphere mesh topology.

pub mod assets;
pub mod config;
pub mod futures;
pub mod input;
pub mod mesh;
pub mod render;
pub mod resources;
