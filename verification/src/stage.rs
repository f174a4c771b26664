use vstd::prelude::*;

verus! {

/// One unit of shader source with a fixed role in the pipeline.
#[derive(Clone, Copy, PartialEq, Eq, Structural, Debug)]
pub enum ShaderStage {
    Vertex,
    Geometry,
    Fragment,
}

} // verus!
