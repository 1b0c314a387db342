//! Models of GPU-resident buffers.
//!
//! A `BufferContainer` stands for a device buffer: how many elements it
//! has room for, and how many have been uploaded into it.  A
//! `VertexBuffer` pairs a vertex buffer with an optional index buffer.

use vstd::prelude::*;

verus! {

/// A GPU-resident element buffer: its capacity and the number of
/// elements last uploaded into it.
#[derive(Clone, Copy, Debug)]
pub struct BufferContainer {
    pub size: u64,
    pub written: u64,
}

impl BufferContainer {
    /// A buffer descriptor with the given capacity and upload count.
    pub fn new(size: u64, written: u64) -> (r: Self)
        ensures
            r.size == size,
            r.written == written,
    {
        BufferContainer { size, written }
    }

    /// A buffer created from `len` elements of initial data: its capacity
    /// and contents match.
    pub fn create_buffer(len: u64) -> (r: Self)
        ensures
            r.size == len,
            r.written == len,
    {
        BufferContainer { size: len, written: len }
    }

    /// A buffer allocated with room for `len` elements and nothing
    /// uploaded yet.
    pub fn create_with_size(len: u64) -> (r: Self)
        ensures
            r.size == len,
            r.written == 0,
    {
        BufferContainer { size: len, written: 0 }
    }

    /// The capacity, in elements.
    pub fn size(&self) -> (n: u64)
        ensures
            n == self.size,
    {
        self.size
    }

    /// A reallocation that carries the old contents over into a buffer of
    /// the new capacity: whatever fits stays uploaded.
    pub fn clone_data_with_size(&self, new_obj_len: u64) -> (r: Self)
        ensures
            r.size == new_obj_len,
            r.written == vstd::math::min(self.written as int, new_obj_len as int),
    {
        let w = if self.written < new_obj_len {
            self.written
        } else {
            new_obj_len
        };
        BufferContainer { size: new_obj_len, written: w }
    }
}

/// One mesh vertex: a fixed-point position and texture coordinate.
#[derive(Clone, Copy, Debug)]
pub struct Vertex {
    pub position: [i64; 3],
    pub texture_pos: [i64; 2],
}

/// A count of buffer elements, for sizing uploads.
pub trait IntoBytes {
    /// The number of elements this value uploads.
    spec fn count(&self) -> nat;

    fn size(&self) -> (n: usize)
        ensures
            n as nat == self.count(),
    ;
}

impl IntoBytes for Vertex {
    open spec fn count(&self) -> nat {
        1
    }

    fn size(&self) -> (n: usize) {
        1
    }
}

impl IntoBytes for Vec<Vertex> {
    open spec fn count(&self) -> nat {
        self@.len()
    }

    fn size(&self) -> (n: usize) {
        self.len()
    }
}

/// A vertex kind that can live in a GPU vertex stream: how many scalars
/// one element carries.
pub trait Bufferable {
    /// The per-element scalar count.
    spec fn stride_spec() -> nat;

    fn describe() -> (n: usize)
        ensures
            n as nat == Self::stride_spec(),
    ;
}

impl Bufferable for Vertex {
    open spec fn stride_spec() -> nat {
        5
    }

    fn describe() -> (n: usize) {
        5
    }
}

/// A mesh's geometry buffers: vertex data, and optional index data.
#[derive(Clone, Copy, Debug)]
pub struct VertexBuffer {
    pub buffer: BufferContainer,
    pub index_buffer: Option<BufferContainer>,
}

impl VertexBuffer {
    /// Pairs a vertex buffer with an optional index buffer.
    pub fn new(buffer: BufferContainer, index_buffer: Option<BufferContainer>) -> (r: Self)
        ensures
            r.buffer == buffer,
            r.index_buffer == index_buffer,
    {
        VertexBuffer { buffer, index_buffer }
    }

    /// The number of indices to draw with, or the vertex count where the
    /// mesh is not indexed.
    pub fn draw_count(&self) -> (n: u64)
        ensures
            n == match self.index_buffer {
                Some(ib) => ib.size,
                None => self.buffer.size,
            },
    {
        match &self.index_buffer {
            Some(ib) => ib.size,
            None => self.buffer.size,
        }
    }
}

} // verus!
