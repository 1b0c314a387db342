//! The binding-layout cache.
//!
//! A binding layout describes what resources a shader expects, and is
//! created at most once per distinct resource shape.  Shapes are named by
//! stable integer tags; the cache records each tag the first time it is
//! asked for, and the layout handle for a shape is its position in that
//! record.  Lookups are idempotent: asking again for a shape returns the
//! stored handle and creates nothing.

use vstd::prelude::*;

verus! {

/// A handle to a created binding layout: the shape it was created for and
/// its device-side identity.
#[derive(Clone, Copy, Debug, PartialEq, Eq, Structural)]
pub struct BindGroupLayoutContainer {
    pub shape: u64,
    pub id: u64,
}

/// A concrete binding group, resolved against a cached layout.
#[derive(Clone, Copy, Debug, PartialEq, Eq, Structural)]
pub struct BindGroupContainer {
    pub layout: BindGroupLayoutContainer,
}

/// The layout cache: the shapes seen so far, each at most once.  The
/// layout created for a shape is numbered by the shape's position.
#[derive(Debug)]
pub struct BindGroupLayoutManager {
    shapes: Vec<u64>,
}

/// True when the cache holds the shape.
pub open spec fn cache_has_shape(s: Seq<u64>, shape: u64) -> bool {
    exists|k: int| 0 <= k < s.len() && s[k] == shape
}

/// The position (and so the layout identity) of the shape.
pub open spec fn cache_index(s: Seq<u64>, shape: u64) -> int {
    choose|k: int| 0 <= k < s.len() && s[k] == shape
}

impl BindGroupLayoutManager {
    /// The shapes a layout has been created for, in creation order.
    pub closed spec fn shapes_seq(self) -> Seq<u64> {
        self.shapes@
    }

    /// The cache invariant: each shape appears at most once.
    pub open spec fn wf(self) -> bool {
        let s = self.shapes_seq();
        forall|k1: int, k2: int|
            0 <= k1 < s.len() && 0 <= k2 < s.len() && k1 != k2 ==> s[k1] != s[k2]
    }

    /// An empty cache.
    pub fn new() -> (r: Self)
        ensures
            r.wf(),
            r.shapes_seq().len() == 0,
    {
        BindGroupLayoutManager { shapes: Vec::new() }
    }

    /// The layout for a shape: the stored handle when the shape was seen
    /// before, else a freshly created one, stored for every later call.
    /// At most one layout ever exists per shape.
    pub fn get_bind_group_layout(&mut self, shape: u64) -> (r: BindGroupLayoutContainer)
        requires
            old(self).wf(),
        ensures
            final(self).wf(),
            r.shape == shape,
            cache_has_shape(final(self).shapes_seq(), shape),
            r.id as int == cache_index(final(self).shapes_seq(), shape),
            cache_has_shape(old(self).shapes_seq(), shape) ==> *final(self) == *old(self) && r.id
                as int == cache_index(old(self).shapes_seq(), shape),
            !cache_has_shape(old(self).shapes_seq(), shape) ==> final(self).shapes_seq() == old(
                self,
            ).shapes_seq().push(shape) && r.id as int == old(self).shapes_seq().len(),
    {
        let n = self.shapes.len();
        let mut k: usize = 0;
        while k < n
            invariant
                n == self.shapes@.len(),
                k <= n,
                self.wf(),
                forall|m: int| 0 <= m < k ==> self.shapes@[m] != shape,
            decreases n - k,
        {
            if self.shapes[k] == shape {
                proof {
                    let s = self.shapes_seq();
                    let w = cache_index(s, shape);
                    assert(0 <= w < s.len() && s[w] == shape);
                    assert(w == k as int);
                }
                return BindGroupLayoutContainer { shape, id: k as u64 };
            }
            k += 1;
        }
        proof {
            assert(!cache_has_shape(self.shapes_seq(), shape));
        }
        self.shapes.push(shape);
        proof {
            let s = self.shapes_seq();
            assert(s[s.len() - 1] == shape);
            let w = cache_index(s, shape);
            assert(0 <= w < s.len() && s[w] == shape);
            assert(w == s.len() - 1);
        }
        BindGroupLayoutContainer { shape, id: n as u64 }
    }

    /// A binding group for the shape, against the cached (or now created)
    /// layout.
    pub fn create_group(&mut self, shape: u64) -> (r: BindGroupContainer)
        requires
            old(self).wf(),
        ensures
            final(self).wf(),
            r.layout.shape == shape,
            cache_has_shape(final(self).shapes_seq(), shape),
            r.layout.id as int == cache_index(final(self).shapes_seq(), shape),
            cache_has_shape(old(self).shapes_seq(), shape) ==> *final(self) == *old(self),
            !cache_has_shape(old(self).shapes_seq(), shape) ==> final(self).shapes_seq() == old(
                self,
            ).shapes_seq().push(shape),
    {
        let layout = self.get_bind_group_layout(shape);
        BindGroupContainer { layout }
    }
}

} // verus!
