use vstd::prelude::*;

verus! {

/// The stage of the graphics pipeline a shader is compiled for.
#[derive(Debug, Clone, Copy, PartialEq, Eq, Structural)]
pub enum ShaderStage {
    Vertex,
    Fragment,
    Compute,
}

} // verus!
