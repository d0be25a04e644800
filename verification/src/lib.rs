//! Verified core logic of a real time strategy engine: typed identifiers,
//! profiling maps and time spans, unit part trees, input drag tracking,
//! texel generation, the terrain mesh and the progressive refresh of the
//! height texture, shader file bytes and hot reload, the client's menus,
//! the frame step's choice of frame, hit and reload rules, and the network
//! manager's decisions.

use vstd::prelude::*;

pub mod botdef;
pub mod combat;
pub mod framework;
pub mod frame;
pub mod frame_server;
pub mod glsl_compiler;
pub mod heightmap;
pub mod heightmap_editor;
pub mod heightmap_zones;
pub mod input_state;
pub mod manager;
pub mod menu;
pub mod moddef;
pub mod net_client;
pub mod net_server;
pub mod procedural_texels;
pub mod shader_reload;
pub mod timespan;
pub mod uitool;
pub mod unit;
pub mod utils;

verus! {

/// Messages to the window's event loop.
#[derive(Debug, Clone, Copy, PartialEq, Eq, Structural)]
pub enum EventLoopMsg {
    Stop,
}

} // verus!
