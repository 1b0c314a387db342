//! Drawable objects.

use vstd::prelude::*;
use crate::pipelines::buffers::VertexBuffer;
use crate::pipelines::instance_manager::VertexStructure;

verus! {

/// A drawable object: its mesh shape and the texture it is drawn with.
/// The mesh geometry is created once per shape and shared.
#[derive(Debug)]
pub struct RenderObject {
    shape: u64,
    mesh: VertexBuffer,
    texture_name: String,
}

impl RenderObject {
    /// The object's mesh shape tag.
    pub closed spec fn shape_spec(&self) -> u64 {
        self.shape
    }

    /// The object's mesh geometry.
    pub closed spec fn mesh_spec(&self) -> VertexBuffer {
        self.mesh
    }

    /// The object's texture name.
    pub closed spec fn texture_spec(&self) -> Seq<char> {
        self.texture_name@
    }

    /// A drawable with the given mesh structure and texture.
    pub fn new<T: VertexStructure>(structure: T, texture_name: String) -> (r: Self)
        ensures
            r.shape_spec() == structure.tag(),
            r.mesh_spec() == structure.mesh_spec(),
            r.texture_spec() == texture_name@,
    {
        let shape = structure.type_tag();
        let mesh = structure.craete_buffer();
        RenderObject { shape, mesh, texture_name }
    }

    /// The texture this object is drawn with.
    pub fn texture_name(&self) -> (r: &String)
        ensures
            r@ == self.texture_spec(),
    {
        &self.texture_name
    }

    /// The stable identity of the object's mesh shape.
    pub fn structure_type_id(&self) -> (t: u64)
        ensures
            t == self.shape_spec(),
    {
        self.shape
    }

    /// The object's mesh geometry buffers.
    pub fn create_buffer(&self) -> (b: VertexBuffer)
        ensures
            b == self.mesh_spec(),
    {
        self.mesh
    }
}

} // verus!
