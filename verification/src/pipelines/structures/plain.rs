//! A flat unit quad.

use vstd::prelude::*;
use crate::pipelines::buffers::{BufferContainer, Vertex, VertexBuffer};
use crate::pipelines::instance_manager::VertexStructure;
use crate::math::trig::{FX_ONE, FX_HALF};

verus! {

/// The mesh-shape tag of the flat quad.
pub const PLAIN_SHAPE: u64 = 2;

/// A flat quad of four vertices and six indices, centred on the origin.
#[derive(Clone, Copy, Debug)]
pub struct Plain;

impl VertexStructure for Plain {
    open spec fn tag(&self) -> u64 {
        PLAIN_SHAPE
    }

    open spec fn mesh_spec(&self) -> VertexBuffer {
        VertexBuffer {
            buffer: BufferContainer { size: 4, written: 4 },
            index_buffer: Some(BufferContainer { size: 6, written: 6 }),
        }
    }

    fn type_tag(&self) -> (t: u64) {
        PLAIN_SHAPE
    }

    fn craete_buffer(&self) -> (b: VertexBuffer) {
        VertexBuffer::new(
            BufferContainer::create_buffer(4),
            Some(BufferContainer::create_buffer(6)),
        )
    }
}

impl Plain {
    /// The quad's corners, in fixed point: half a unit out from the
    /// origin on each axis, with the texture pinned to the corners.
    pub fn vertices(&self) -> (r: Vec<Vertex>)
        ensures
            r@.len() == 4,
            r@[0].position@ == seq![(-FX_HALF) as i64, FX_HALF, 0i64],
            r@[1].position@ == seq![FX_HALF, FX_HALF, 0i64],
            r@[2].position@ == seq![FX_HALF, (-FX_HALF) as i64, 0i64],
            r@[3].position@ == seq![(-FX_HALF) as i64, (-FX_HALF) as i64, 0i64],
            r@[0].texture_pos@ == seq![0i64, 0i64],
            r@[1].texture_pos@ == seq![FX_ONE, 0i64],
            r@[2].texture_pos@ == seq![FX_ONE, FX_ONE],
            r@[3].texture_pos@ == seq![0i64, FX_ONE],
    {
        let mut v: Vec<Vertex> = Vec::new();
        v.push(Vertex { position: [-FX_HALF, FX_HALF, 0], texture_pos: [0, 0] });
        v.push(Vertex { position: [FX_HALF, FX_HALF, 0], texture_pos: [FX_ONE, 0] });
        v.push(Vertex { position: [FX_HALF, -FX_HALF, 0], texture_pos: [FX_ONE, FX_ONE] });
        v.push(Vertex { position: [-FX_HALF, -FX_HALF, 0], texture_pos: [0, FX_ONE] });
        proof {
            assert(v@[0].position@ =~= seq![(-FX_HALF) as i64, FX_HALF, 0i64]);
            assert(v@[1].position@ =~= seq![FX_HALF, FX_HALF, 0i64]);
            assert(v@[2].position@ =~= seq![FX_HALF, (-FX_HALF) as i64, 0i64]);
            assert(v@[3].position@ =~= seq![(-FX_HALF) as i64, (-FX_HALF) as i64, 0i64]);
            assert(v@[0].texture_pos@ =~= seq![0i64, 0i64]);
            assert(v@[1].texture_pos@ =~= seq![FX_ONE, 0i64]);
            assert(v@[2].texture_pos@ =~= seq![FX_ONE, FX_ONE]);
            assert(v@[3].texture_pos@ =~= seq![0i64, FX_ONE]);
        }
        v
    }

    /// The quad's two triangles, as indices into `vertices`.
    pub fn indices(&self) -> (r: Vec<u16>)
        ensures
            r@ == seq![0u16, 2u16, 1u16, 0u16, 3u16, 2u16],
    {
        let mut v: Vec<u16> = Vec::new();
        v.push(0);
        v.push(2);
        v.push(1);
        v.push(0);
        v.push(3);
        v.push(2);
        proof {
            assert(v@ =~= seq![0u16, 2u16, 1u16, 0u16, 3u16, 2u16]);
        }
        v
    }
}

} // verus!
