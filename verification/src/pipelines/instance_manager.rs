//! The instanced-batch engine.
//!
//! Drawable objects are grouped by (mesh-shape tag, texture name); all
//! instances of one group are drawn with a single GPU command, their
//! model matrices accumulated per frame into the group's batch.  A
//! batch's GPU instance buffer grows to the largest accumulation seen and
//! never shrinks; `clear` resets the accumulation but keeps the buffer;
//! `prepare` evicts batches that accumulated nothing this frame and
//! reconciles the capacity of the rest.
//!
//! The per-frame protocol, driven externally, is: `register_object` for
//! every visible instance, then `prepare`, then draw from `iter_data`,
//! then `clear`.
//!
//! Contracts speak of the engine through `BatchModel`: the batches in
//! order, each reduced to its key, its accumulated records, and its
//! buffer's capacity and upload count.

use vstd::prelude::*;
use super::buffers::{BufferContainer, VertexBuffer};
use super::group_layout_manager::{BindGroupContainer, BindGroupLayoutManager, cache_has_shape};
use super::transform::{InstanceTransform, Transform};
use crate::math::transformable_matrices::v3;
use crate::renderer::render_object::RenderObject;

verus! {

/// The binding shape of a batch's texture resources: one texture plus one
/// sampler.
pub const TEXTURE_BIND_SHAPE: u64 = 1;

/// One batch of a specific mesh shape and texture: its binding group, the
/// GPU instance buffer, the records accumulated this frame, and the
/// shared mesh geometry.
#[derive(Debug)]
pub struct InstancedData {
    pub texture_group: BindGroupContainer,
    pub transform_buffer: BufferContainer,
    pub transform_vec: Vec<InstanceTransform>,
    pub buffer: VertexBuffer,
}

impl InstancedData {
    /// A new batch: a binding group resolved through the layout cache, an
    /// instance buffer holding one default record, no accumulation, and
    /// the shared mesh geometry.
    pub fn new(buffer: VertexBuffer, manager: &mut BindGroupLayoutManager) -> (r: Self)
        requires
            old(manager).wf(),
        ensures
            final(manager).wf(),
            cache_has_shape(final(manager).shapes_seq(), TEXTURE_BIND_SHAPE),
            cache_has_shape(old(manager).shapes_seq(), TEXTURE_BIND_SHAPE)
                ==> *final(manager) == *old(manager),
            r.texture_group.layout.shape == TEXTURE_BIND_SHAPE,
            r.transform_buffer.size == 1,
            r.transform_buffer.written == 1,
            r.transform_vec@.len() == 0,
            r.buffer == buffer,
    {
        let group = manager.create_group(TEXTURE_BIND_SHAPE);
        InstancedData {
            texture_group: group,
            transform_buffer: BufferContainer::create_buffer(1),
            transform_vec: Vec::new(),
            buffer,
        }
    }

    /// The batch's texture binding group.
    pub fn texture_group(&self) -> (r: &BindGroupContainer)
        ensures
            r == &self.texture_group,
    {
        &self.texture_group
    }

    /// The batch's GPU instance buffer.
    pub fn transform_buffer(&self) -> (r: &BufferContainer)
        ensures
            r == &self.transform_buffer,
    {
        &self.transform_buffer
    }

    /// The batch's shared mesh geometry.
    pub fn structure_buffer(&self) -> (r: &VertexBuffer)
        ensures
            r == &self.buffer,
    {
        &self.buffer
    }

    /// Appends one record to this frame's accumulation.
    pub fn push(&mut self, raw: InstanceTransform)
        requires
            old(self).transform_vec@.len() < u32::MAX,
        ensures
            final(self).transform_vec@ == old(self).transform_vec@.push(raw),
            final(self).transform_buffer == old(self).transform_buffer,
            final(self).texture_group == old(self).texture_group,
            final(self).buffer == old(self).buffer,
    {
        self.transform_vec.push(raw);
    }

    /// Resets the accumulation; the GPU buffer and binding group are
    /// retained.
    pub fn clear(&mut self)
        ensures
            final(self).transform_vec@ == Seq::<InstanceTransform>::empty(),
            final(self).transform_buffer == old(self).transform_buffer,
            final(self).texture_group == old(self).texture_group,
            final(self).buffer == old(self).buffer,
    {
        self.transform_vec.clear();
    }

    /// The number of instances accumulated this frame.
    pub fn instace_count(&self) -> (n: u32)
        requires
            self.transform_vec@.len() <= u32::MAX,
        ensures
            n == self.transform_vec@.len(),
    {
        self.transform_vec.len() as u32
    }

    /// Reconciles the GPU buffer with this frame's accumulation: the
    /// buffer grows to the accumulated count when it is too small (and
    /// never shrinks), and exactly the accumulated records are uploaded.
    /// Returns whether a reallocation happened.
    pub fn prepare_capacity(&mut self) -> (grew: bool)
        requires
            old(self).transform_vec@.len() <= u32::MAX,
        ensures
            final(self).transform_vec@ == old(self).transform_vec@,
            final(self).texture_group == old(self).texture_group,
            final(self).buffer == old(self).buffer,
            final(self).transform_buffer.size == vstd::math::max(
                old(self).transform_buffer.size as int,
                old(self).transform_vec@.len() as int,
            ),
            final(self).transform_buffer.written == old(self).transform_vec@.len(),
            grew == (old(self).transform_vec@.len() > old(self).transform_buffer.size),
    {
        let count = self.transform_vec.len() as u64;
        if count > self.transform_buffer.size {
            self.transform_buffer = BufferContainer::new(count, count);
            true
        } else {
            self.transform_buffer = BufferContainer::new(self.transform_buffer.size, count);
            false
        }
    }
}

/// A mesh kind that can supply geometry for its instances: a stable shape
/// tag, and the geometry buffers to create for it.
pub trait VertexStructure: Sized {
    /// The stable identity of this mesh shape.
    spec fn tag(&self) -> u64;

    /// The geometry buffers this shape creates.
    spec fn mesh_spec(&self) -> VertexBuffer;

    fn type_tag(&self) -> (t: u64)
        ensures
            t == self.tag(),
    ;

    fn craete_buffer(&self) -> (b: VertexBuffer)
        ensures
            b == self.mesh_spec(),
    ;
}

/// One batch, reduced to what the engine's contracts speak of: its key,
/// its accumulated records, and its buffer's capacity and upload count.
pub struct BatchModel {
    pub shape: u64,
    pub texture: Seq<char>,
    pub records: Seq<InstanceTransform>,
    pub capacity: int,
    pub written: int,
}

/// The model of one stored batch.
pub open spec fn model_of(key: (u64, String), d: InstancedData) -> BatchModel {
    BatchModel {
        shape: key.0,
        texture: key.1@,
        records: d.transform_vec@,
        capacity: d.transform_buffer.size as int,
        written: d.transform_buffer.written as int,
    }
}

/// The models of all stored batches, in storage order.
pub open spec fn models_of(s: Seq<((u64, String), InstancedData)>) -> Seq<BatchModel> {
    s.map_values(|e: ((u64, String), InstancedData)| model_of(e.0, e.1))
}

/// True when some batch carries the key.
pub open spec fn model_has_key(m: Seq<BatchModel>, shape: u64, texture: Seq<char>) -> bool {
    exists|k: int| 0 <= k < m.len() && (#[trigger] m[k]).shape == shape && m[k].texture == texture
}

/// The position of the batch carrying the key.
pub open spec fn model_index(m: Seq<BatchModel>, shape: u64, texture: Seq<char>) -> int {
    choose|k: int| 0 <= k < m.len() && (#[trigger] m[k]).shape == shape && m[k].texture == texture
}

/// True when the mesh registry records the shape.
pub open spec fn registry_has_shape(s: Seq<(u64, (u64, VertexBuffer))>, shape: u64) -> bool {
    exists|k: int| 0 <= k < s.len() && (#[trigger] s[k]).0 == shape
}

/// The position of the shape in the mesh registry.
pub open spec fn registry_index(s: Seq<(u64, (u64, VertexBuffer))>, shape: u64) -> int {
    choose|k: int| 0 <= k < s.len() && (#[trigger] s[k]).0 == shape
}

/// A batch with one more accumulated record.
pub open spec fn with_record(b: BatchModel, rec: InstanceTransform) -> BatchModel {
    BatchModel {
        shape: b.shape,
        texture: b.texture,
        records: b.records.push(rec),
        capacity: b.capacity,
        written: b.written,
    }
}

/// A batch as it is first created: one record accumulated, an instance
/// buffer of capacity one holding its single initial element.
pub open spec fn new_batch(shape: u64, texture: Seq<char>, rec: InstanceTransform) -> BatchModel {
    BatchModel {
        shape,
        texture,
        records: seq![rec],
        capacity: 1,
        written: 1,
    }
}

/// What registering one instance does: the record joins the batch with
/// the instance's key, and a batch is created first when none carries it.
pub open spec fn register_model(
    m: Seq<BatchModel>,
    shape: u64,
    texture: Seq<char>,
    rec: InstanceTransform,
) -> Seq<BatchModel> {
    if model_has_key(m, shape, texture) {
        let k = model_index(m, shape, texture);
        m.update(k, with_record(m[k], rec))
    } else {
        m.push(new_batch(shape, texture, rec))
    }
}

/// A batch after capacity reconciliation: the buffer grown to the
/// accumulation if needed, and exactly the accumulation uploaded.
pub open spec fn reconciled(b: BatchModel) -> BatchModel {
    BatchModel {
        shape: b.shape,
        texture: b.texture,
        records: b.records,
        capacity: vstd::math::max(b.capacity, b.records.len() as int),
        written: b.records.len() as int,
    }
}

/// What `prepare` does: batches that accumulated nothing are evicted, the
/// rest are reconciled, in order.
pub open spec fn prepare_model(m: Seq<BatchModel>) -> Seq<BatchModel>
    decreases m.len(),
{
    if m.len() == 0 {
        Seq::empty()
    } else {
        let rest = prepare_model(m.drop_last());
        let b = m.last();
        if b.records.len() > 0 {
            rest.push(reconciled(b))
        } else {
            rest
        }
    }
}

/// True when `prepare` reallocates some batch's buffer.
pub open spec fn prepare_grew(m: Seq<BatchModel>) -> bool {
    exists|k: int|
        0 <= k < m.len() && (#[trigger] m[k]).records.len() > 0 && m[k].records.len()
            > m[k].capacity
}

/// What `clear` does: every accumulation emptied, keys and buffers kept.
pub open spec fn clear_model(m: Seq<BatchModel>) -> Seq<BatchModel> {
    m.map_values(
        |b: BatchModel|
            BatchModel {
                shape: b.shape,
                texture: b.texture,
                records: Seq::empty(),
                capacity: b.capacity,
                written: b.written,
            },
    )
}

/// The engine: the live batches keyed by (mesh shape, texture name), and
/// the mesh geometry shared per shape with a registration count.
#[derive(Debug)]
pub struct InstanceManager {
    data: Vec<((u64, String), InstancedData)>,
    buffer: Vec<(u64, (u64, VertexBuffer))>,
}

impl InstanceManager {
    /// The stored batches, in storage order.
    pub closed spec fn batches(self) -> Seq<((u64, String), InstancedData)> {
        self.data@
    }

    /// The models of the stored batches.
    pub open spec fn model(self) -> Seq<BatchModel> {
        models_of(self.batches())
    }

    /// The mesh registry: shape tag to (registration count, geometry).
    pub closed spec fn mesh_registry(self) -> Seq<(u64, (u64, VertexBuffer))> {
        self.buffer@
    }

    /// The engine invariant: batch keys are distinct, registry shapes are
    /// distinct, and every accumulation is countable in 32 bits.
    pub open spec fn wf(self) -> bool {
        let m = self.model();
        &&& forall|k1: int, k2: int|
            0 <= k1 < m.len() && 0 <= k2 < m.len() && k1 != k2 ==> !((#[trigger] m[k1]).shape == (
            #[trigger] m[k2]).shape && m[k1].texture == m[k2].texture)
        &&& forall|k: int| 0 <= k < m.len() ==> (#[trigger] m[k]).records.len() <= u32::MAX
        &&& forall|k1: int, k2: int|
            0 <= k1 < self.mesh_registry().len() && 0 <= k2 < self.mesh_registry().len() && k1
                != k2 ==> (#[trigger] self.mesh_registry()[k1]).0 != (
            #[trigger] self.mesh_registry()[k2]).0
    }

    /// An empty engine.
    pub fn new() -> (r: Self)
        ensures
            r.wf(),
            r.model().len() == 0,
            r.mesh_registry().len() == 0,
    {
        InstanceManager { data: Vec::new(), buffer: Vec::new() }
    }

    /// The stored batches, for issuing one draw call each.
    pub fn iter_data(&self) -> (r: &Vec<((u64, String), InstancedData)>)
        ensures
            r@ == self.batches(),
    {
        &self.data
    }

    /// The geometry shared for the shape, creating and recording it on
    /// first sight; the shape's registration count is not yet bumped.
    fn lookup_or_create_mesh(&mut self, obj: &RenderObject) -> (r: VertexBuffer)
        requires
            old(self).wf(),
        ensures
            final(self).wf(),
            final(self).batches() == old(self).batches(),
            ({
                let reg = old(self).mesh_registry();
                registry_has_shape(reg, obj.shape_spec()) ==> final(self).mesh_registry() == reg
                    && r == reg[registry_index(reg, obj.shape_spec())].1.1
            }),
            ({
                let reg = old(self).mesh_registry();
                !registry_has_shape(reg, obj.shape_spec()) ==> final(self).mesh_registry()
                    == reg.push((obj.shape_spec(), (1u64, obj.mesh_spec()))) && r
                    == obj.mesh_spec()
            }),
    {
        let shape = obj.structure_type_id();
        let n = self.buffer.len();
        let mut k: usize = 0;
        while k < n
            invariant
                n == self.buffer@.len(),
                k <= n,
                self.wf(),
                old(self).wf(),
                self.batches() == old(self).batches(),
                self.mesh_registry() == old(self).mesh_registry(),
                forall|m: int| 0 <= m < k ==> (#[trigger] self.buffer@[m]).0 != obj.shape_spec(),
                obj.shape_spec() == shape,
            decreases n - k,
        {
            let e = self.buffer[k];
            if e.0 == shape {
                proof {
                    let s = self.mesh_registry();
                    assert(s[k as int].0 == shape);
                    let w = registry_index(s, shape);
                    assert(0 <= w < s.len() && s[w].0 == shape);
                    assert(w == k as int) by {
                        if w != k as int {
                            assert(self.wf());
                        }
                    }
                }
                return e.1.1;
            }
            k += 1;
        }
        proof {
            assert(!registry_has_shape(self.mesh_registry(), shape));
        }
        let mesh = obj.create_buffer();
        self.buffer.push((shape, (1, mesh)));
        proof {
            let s = self.mesh_registry();
            assert forall|k1: int, k2: int|
                0 <= k1 < s.len() && 0 <= k2 < s.len() && k1 != k2 implies (#[trigger] s[k1]).0 != (
            #[trigger] s[k2]).0 by {
                if k1 < s.len() - 1 && k2 < s.len() - 1 {
                    assert(s[k1] == old(self).mesh_registry()[k1]);
                    assert(s[k2] == old(self).mesh_registry()[k2]);
                    assert(old(self).wf());
                }
            }
            assert(self.batches() == old(self).batches());
            assert(self.model() == old(self).model());
        }
        mesh
    }

    /// Bumps the shape's registration count, saturating at its maximum;
    /// the shape must already be recorded.
    fn bump_mesh_count(&mut self, shape: u64)
        requires
            old(self).wf(),
            registry_has_shape(old(self).mesh_registry(), shape),
        ensures
            final(self).wf(),
            final(self).batches() == old(self).batches(),
            final(self).mesh_registry().len() == old(self).mesh_registry().len(),
            forall|m: int|
                0 <= m < old(self).mesh_registry().len() && m != registry_index(
                    old(self).mesh_registry(),
                    shape,
                ) ==> final(self).mesh_registry()[m] == old(self).mesh_registry()[m],
            ({
                let w = registry_index(old(self).mesh_registry(), shape);
                let oldent = old(self).mesh_registry()[w];
                let newent = final(self).mesh_registry()[w];
                newent.0 == oldent.0 && newent.1.1 == oldent.1.1 && newent.1.0 as int
                    == vstd::math::min(oldent.1.0 as int + 1, u64::MAX as int)
            }),
    {
        let n = self.buffer.len();
        let mut k: usize = 0;
        while k < n
            invariant
                n == self.buffer@.len(),
                k <= n,
                forall|m: int| 0 <= m < k ==> (#[trigger] self.buffer@[m]).0 != shape,
                self.wf(),
                old(self).wf(),
                self.batches() == old(self).batches(),
                self.mesh_registry() == old(self).mesh_registry(),
                registry_has_shape(self.mesh_registry(), shape),
            decreases n - k,
        {
            let e = self.buffer[k];
            if e.0 == shape {
                proof {
                    let s = self.mesh_registry();
                    assert(s[k as int].0 == shape);
                    let w = registry_index(s, shape);
                    assert(0 <= w < s.len() && s[w].0 == shape);
                    assert(w == k as int) by {
                        if w != k as int {
                            assert(self.wf());
                        }
                    }
                }
                let c = if e.1.0 < u64::MAX {
                    e.1.0 + 1
                } else {
                    e.1.0
                };
                self.buffer.set(k, (e.0, (c, e.1.1)));
                proof {
                    let s = self.mesh_registry();
                    assert forall|k1: int, k2: int|
                        0 <= k1 < s.len() && 0 <= k2 < s.len() && k1 != k2 implies (
                    #[trigger] s[k1]).0 != (#[trigger] s[k2]).0 by {
                        assert(s[k1].0 == old(self).mesh_registry()[k1].0);
                        assert(s[k2].0 == old(self).mesh_registry()[k2].0);
                        assert(old(self).wf());
                    }
                    assert(self.batches() == old(self).batches());
                    assert(self.model() == old(self).model());
                    assert(old(self).wf());
                }
                return ;
            }
            k += 1;
        }
        proof {
            assert(false);
        }
    }

    /// Registers one visible instance: its flattened transform joins the
    /// batch keyed by the object's (mesh shape, texture name), and the
    /// batch is created first - with its binding group resolved through
    /// the layout cache and its mesh geometry shared per shape - when this
    /// is its key's first registration.
    pub fn register_object(
        &mut self,
        obj: &RenderObject,
        transform: &Transform,
        group_manager: &mut BindGroupLayoutManager,
    )
        requires
            old(self).wf(),
            old(group_manager).wf(),
            transform.wf(),
            model_has_key(old(self).model(), obj.shape_spec(), obj.texture_spec()) ==> old(
                self,
            ).model()[model_index(old(self).model(), obj.shape_spec(), obj.texture_spec())].records.len()
                < u32::MAX,
        ensures
            final(self).wf(),
            final(group_manager).wf(),
            exists|rec: InstanceTransform|
                (#[trigger] rec.is_record_of(
                    v3(transform.position),
                    v3(transform.scale),
                    v3(transform.rotation),
                )) && final(self).model() == register_model(
                    old(self).model(),
                    obj.shape_spec(),
                    obj.texture_spec(),
                    rec,
                ),
            cache_has_shape(final(group_manager).shapes_seq(), TEXTURE_BIND_SHAPE)
                || model_has_key(old(self).model(), obj.shape_spec(), obj.texture_spec()),
            cache_has_shape(old(group_manager).shapes_seq(), TEXTURE_BIND_SHAPE)
                ==> *final(group_manager) == *old(group_manager),
            registry_has_shape(final(self).mesh_registry(), obj.shape_spec()),
            ({
                let reg0 = old(self).mesh_registry();
                let reg1 = final(self).mesh_registry();
                if registry_has_shape(reg0, obj.shape_spec()) {
                    reg1.len() == reg0.len() && (forall|m: int|
                        0 <= m < reg0.len() && m != registry_index(reg0, obj.shape_spec())
                            ==> reg1[m] == reg0[m]) && reg1[registry_index(
                        reg0,
                        obj.shape_spec(),
                    )].0 == obj.shape_spec() && reg1[registry_index(reg0, obj.shape_spec())].1.1
                        == reg0[registry_index(reg0, obj.shape_spec())].1.1
                } else {
                    reg1.len() == reg0.len() + 1 && (forall|m: int|
                        0 <= m < reg0.len() ==> reg1[m] == reg0[m]) && reg1.last().0
                        == obj.shape_spec() && reg1.last().1.1 == obj.mesh_spec()
                }
            }),
            !model_has_key(old(self).model(), obj.shape_spec(), obj.texture_spec()) ==> ({
                let reg0 = old(self).mesh_registry();
                final(self).batches().last().1.buffer == if registry_has_shape(
                    reg0,
                    obj.shape_spec(),
                ) {
                    reg0[registry_index(reg0, obj.shape_spec())].1.1
                } else {
                    obj.mesh_spec()
                }
            }),
    {
        let rec = InstanceTransform::from_transform(transform);
        let shape = obj.structure_type_id();
        let n = self.data.len();
        let mut k: usize = 0;
        let ghost m0 = self.model();
        while k < n
            invariant
                n == self.data@.len(),
                k <= n,
                self.wf(),
                old(self).wf(),
                old(group_manager).wf(),
                *group_manager == *old(group_manager),
                rec.is_record_of(
                    v3(transform.position),
                    v3(transform.scale),
                    v3(transform.rotation),
                ),
                self.data@ == old(self).data@,
                self.mesh_registry() == old(self).mesh_registry(),
                m0 == self.model(),
                model_has_key(m0, obj.shape_spec(), obj.texture_spec()) ==> m0[model_index(
                    m0,
                    obj.shape_spec(),
                    obj.texture_spec(),
                )].records.len() < u32::MAX,
                forall|m: int|
                    0 <= m < k ==> !((#[trigger] m0[m]).shape == obj.shape_spec() && m0[m].texture
                        == obj.texture_spec()),
                obj.shape_spec() == shape,
            decreases n - k,
        {
            let hit = self.data[k].0.0 == shape && self.data[k].0.1 == *obj.texture_name();
            if hit {
                let ghost before = self.data@;
                proof {
                    assert(m0[k as int] == model_of(before[k as int].0, before[k as int].1));
                    assert(m0[k as int].shape == obj.shape_spec() && m0[k as int].texture
                        == obj.texture_spec());
                    assert(model_has_key(m0, obj.shape_spec(), obj.texture_spec()));
                    let w = model_index(m0, obj.shape_spec(), obj.texture_spec());
                    assert(0 <= w < m0.len() && m0[w].shape == obj.shape_spec() && m0[w].texture
                        == obj.texture_spec());
                    assert(w == k as int) by {
                        if w != k as int {
                            assert(self.wf());
                        }
                    }
                    assert(m0[k as int].records.len() < u32::MAX);
                }
                let mut entry = self.data.remove(k);
                proof {
                    assert(entry == before[k as int]);
                    assert(entry.1.transform_vec@.len() < u32::MAX);
                }
                entry.1.push(rec);
                let ghost newdata = entry;
                self.data.insert(k, entry);
                proof {
                    assert(self.data@ =~= before.update(k as int, newdata));
                    assert(newdata.0 == before[k as int].0);
                    let mfin = models_of(self.data@);
                    assert forall|q: int| 0 <= q < mfin.len() implies mfin[q] == register_model(
                        m0,
                        obj.shape_spec(),
                        obj.texture_spec(),
                        rec,
                    )[q] by {
                        if q != k as int {
                            assert(self.data@[q] == before[q]);
                        } else {
                            assert(mfin[k as int] == model_of(newdata.0, newdata.1));
                        }
                    }
                    assert(mfin =~= register_model(m0, obj.shape_spec(), obj.texture_spec(), rec));
                    assert forall|k1: int, k2: int|
                        0 <= k1 < mfin.len() && 0 <= k2 < mfin.len() && k1 != k2 implies !((
                    #[trigger] mfin[k1]).shape == (#[trigger] mfin[k2]).shape && mfin[k1].texture
                        == mfin[k2].texture) by {
                        assert(mfin[k1].shape == m0[k1].shape && mfin[k1].texture == m0[k1].texture);
                        assert(mfin[k2].shape == m0[k2].shape && mfin[k2].texture == m0[k2].texture);
                    }
                }
                proof {
                    let mfin = models_of(self.data@);
                    assert forall|q: int| 0 <= q < mfin.len() implies (
                    #[trigger] mfin[q]).records.len() <= u32::MAX by {
                        if q != k as int {
                            assert(self.data@[q] == before[q]);
                            assert(mfin[q] == m0[q]);
                        } else {
                            assert(mfin[q].records == m0[q].records.push(rec));
                        }
                    }
                    assert(self.mesh_registry() == old(self).mesh_registry());
                    assert(self.wf());
                }
                let ghost msnap = self.model();
                proof {
                    assert(self.mesh_registry() == old(self).mesh_registry());
                }
                self.bump_mesh_count_if_present(shape, obj);
                proof {
                    assert(self.model() == msnap);
                    assert(rec.is_record_of(
                        v3(transform.position),
                        v3(transform.scale),
                        v3(transform.rotation),
                    ));
                    assert(self.model() == register_model(
                        m0,
                        obj.shape_spec(),
                        obj.texture_spec(),
                        rec,
                    ));
                }
                return ;
            }
            k += 1;
        }
        proof {
            assert(!model_has_key(m0, obj.shape_spec(), obj.texture_spec()));
        }
        let mesh = self.lookup_or_create_mesh(obj);
        let mut d = InstancedData::new(mesh, group_manager);
        d.push(rec);
        let name = obj.texture_name().clone();
        let ghost before = self.data@;
        self.data.push(((shape, name), d));
        proof {
            let mfin = models_of(self.data@);
            assert forall|q: int| 0 <= q < mfin.len() implies mfin[q] == register_model(
                m0,
                obj.shape_spec(),
                obj.texture_spec(),
                rec,
            )[q] by {
                if q < before.len() {
                    assert(self.data@[q] == before[q]);
                } else {
                    assert(mfin[q] == model_of((shape, name), d));
                    assert(d.transform_vec@ =~= seq![rec]);
                    assert(mfin[q].records == new_batch(
                        obj.shape_spec(),
                        obj.texture_spec(),
                        rec,
                    ).records);
                }
            }
            assert(mfin =~= register_model(m0, obj.shape_spec(), obj.texture_spec(), rec));
            assert forall|k1: int, k2: int|
                0 <= k1 < mfin.len() && 0 <= k2 < mfin.len() && k1 != k2 implies !((
            #[trigger] mfin[k1]).shape == (#[trigger] mfin[k2]).shape && mfin[k1].texture
                == mfin[k2].texture) by {
                if k1 < m0.len() && k2 < m0.len() {
                    assert(mfin[k1] == m0[k1] && mfin[k2] == m0[k2]);
                } else if k1 < m0.len() {
                    assert(mfin[k1] == m0[k1]);
                    assert(!(m0[k1].shape == obj.shape_spec() && m0[k1].texture
                        == obj.texture_spec()));
                } else if k2 < m0.len() {
                    assert(mfin[k2] == m0[k2]);
                    assert(!(m0[k2].shape == obj.shape_spec() && m0[k2].texture
                        == obj.texture_spec()));
                }
            }
        }
        proof {
            let mfin = models_of(self.data@);
            assert forall|q: int| 0 <= q < mfin.len() implies (#[trigger] mfin[q]).records.len()
                <= u32::MAX by {
                if q < before.len() {
                    assert(self.data@[q] == before[q]);
                }
            }
            assert(self.wf());
        }
        let ghost msnap = self.model();
        let ghost reg0 = old(self).mesh_registry();
        let ghost rega = self.mesh_registry();
        let ghost lastbuf = self.batches().last().1.buffer;
        self.bump_mesh_count_if_present(shape, obj);
        proof {
            assert(self.model() == msnap);
            assert(rec.is_record_of(
                v3(transform.position),
                v3(transform.scale),
                v3(transform.rotation),
            ));
            assert(self.model() == register_model(m0, obj.shape_spec(), obj.texture_spec(), rec));
            let reg1 = self.mesh_registry();
            if registry_has_shape(reg0, shape) {
                assert(rega == reg0);
            } else {
                assert(rega == reg0.push((shape, (1u64, obj.mesh_spec()))));
                assert(rega[rega.len() - 1].0 == shape);
                assert(registry_has_shape(rega, shape));
                let wa = registry_index(rega, shape);
                assert(0 <= wa < rega.len() && rega[wa].0 == shape);
                assert(wa == rega.len() - 1) by {
                    if wa < rega.len() - 1 {
                        assert(rega[wa] == reg0[wa]);
                        assert(registry_has_shape(reg0, shape));
                    }
                }
                assert(reg1.len() == reg0.len() + 1);
                assert forall|m: int| 0 <= m < reg0.len() implies reg1[m] == reg0[m] by {
                    assert(reg1[m] == rega[m]);
                }
                assert(reg1[reg1.len() - 1].0 == shape);
                assert(reg1[reg1.len() - 1].1.1 == rega[wa].1.1);
                assert(reg1.last().1.1 == obj.mesh_spec());
            }
            assert(self.batches().last().1.buffer == lastbuf);
        }
    }

    /// Bumps the shape's registration count, recording the shape with the
    /// object's geometry when it is new; batches, other shapes, and the
    /// recorded geometry of this shape are untouched.
    fn bump_mesh_count_if_present(&mut self, shape: u64, obj: &RenderObject)
        requires
            old(self).wf(),
            obj.shape_spec() == shape,
        ensures
            final(self).wf(),
            final(self).batches() == old(self).batches(),
            ({
                let reg0 = old(self).mesh_registry();
                let reg1 = final(self).mesh_registry();
                if registry_has_shape(reg0, shape) {
                    reg1.len() == reg0.len() && (forall|m: int|
                        0 <= m < reg0.len() && m != registry_index(reg0, shape) ==> reg1[m]
                            == reg0[m]) && reg1[registry_index(reg0, shape)].0 == shape
                        && reg1[registry_index(reg0, shape)].1.1 == reg0[registry_index(
                        reg0,
                        shape,
                    )].1.1
                } else {
                    reg1 == reg0.push((shape, (1u64, obj.mesh_spec())))
                }
            }),
    {
        let there = self.registry_contains(shape);
        if there {
            self.bump_mesh_count(shape);
        } else {
            let mesh = obj.create_buffer();
            self.buffer.push((shape, (1, mesh)));
            proof {
                let s = self.mesh_registry();
                assert forall|k1: int, k2: int|
                    0 <= k1 < s.len() && 0 <= k2 < s.len() && k1 != k2 implies (#[trigger] s[k1]).0
                    != (#[trigger] s[k2]).0 by {
                    if k1 < s.len() - 1 && k2 < s.len() - 1 {
                        assert(s[k1] == old(self).mesh_registry()[k1]);
                        assert(s[k2] == old(self).mesh_registry()[k2]);
                        assert(old(self).wf());
                    }
                }
                assert(self.batches() == old(self).batches());
                assert(self.model() == old(self).model());
                assert(old(self).wf());
            }
        }
    }

    /// Whether the registry records the shape.
    fn registry_contains(&self, shape: u64) -> (r: bool)
        ensures
            r == registry_has_shape(self.mesh_registry(), shape),
    {
        let n = self.buffer.len();
        let mut k: usize = 0;
        while k < n
            invariant
                n == self.buffer@.len(),
                k <= n,
                forall|m: int| 0 <= m < k ==> (#[trigger] self.buffer@[m]).0 != shape,
            decreases n - k,
        {
            if self.buffer[k].0 == shape {
                return true;
            }
            k += 1;
        }
        false
    }

    /// One frame's reconciliation pass: batches that accumulated nothing
    /// are evicted and their resources freed; the rest keep their order
    /// and get their buffers reconciled.  Returns whether any buffer was
    /// reallocated.
    pub fn prepare(&mut self) -> (r: bool)
        requires
            old(self).wf(),
        ensures
            final(self).wf(),
            final(self).model() == prepare_model(old(self).model()),
            r == prepare_grew(old(self).model()),
            final(self).mesh_registry() == old(self).mesh_registry(),
    {
        let ghost m0 = self.model();
        let n0 = self.data.len();
        let ghost total = n0 as int;
        let mut out: Vec<((u64, String), InstancedData)> = Vec::new();
        let mut grew = false;
        let mut k: usize = 0;
        while self.data.len() > 0
            invariant
                0 <= k,
                k <= total <= usize::MAX,
                k + self.data@.len() == total,
                m0.len() == total,
                self.data@ =~= old(self).data@.skip(k as int),
                models_of(old(self).data@) == m0,
                models_of(out@) == prepare_model(m0.take(k as int)),
                grew == prepare_grew(m0.take(k as int)),
                forall|q: int| 0 <= q < m0.len() ==> (#[trigger] m0[q]).records.len() <= u32::MAX,
                self.mesh_registry() == old(self).mesh_registry(),
            decreases self.data@.len(),
        {
            let ghost mout = models_of(out@);
            let mut e = self.data.remove(0);
            proof {
                assert(old(self).data@.skip(k as int)[0] == old(self).data@[k as int]);
                assert(model_of(e.0, e.1) == m0[k as int]);
                assert(self.data@ =~= old(self).data@.skip(k as int + 1));
                assert(e.1.transform_vec@.len() <= u32::MAX);
            }
            let count = e.1.transform_vec.len();
            let ghost mtk1 = m0.take(k as int + 1);
            proof {
                assert(mtk1.drop_last() =~= m0.take(k as int));
                assert(mtk1.last() == m0[k as int]);
            }
            if count > 0 {
                let g = e.1.prepare_capacity();
                grew = grew || g;
                out.push(e);
                proof {
                    assert(models_of(out@) =~= mout.push(reconciled(m0[k as int])));
                    assert(models_of(out@) =~= prepare_model(mtk1));
                }
            } else {
                proof {
                    assert(models_of(out@) =~= prepare_model(mtk1));
                }
            }
            proof {
                let g1 = prepare_grew(m0.take(k as int));
                let extra = m0[k as int].records.len() > 0 && m0[k as int].records.len() > m0[
                    k as int
                ].capacity;
                assert(prepare_grew(mtk1) == (g1 || extra)) by {
                    if g1 {
                        let w = choose|q: int|
                            0 <= q < m0.take(k as int).len() && (#[trigger] m0.take(
                                k as int,
                            )[q]).records.len() > 0 && m0.take(k as int)[q].records.len() > m0.take(
                                k as int,
                            )[q].capacity;
                        assert((mtk1[w]).records.len() > 0 && mtk1[w].records.len()
                            > mtk1[w].capacity);
                    }
                    if extra {
                        assert((mtk1[k as int]).records.len() > 0 && mtk1[k as int].records.len()
                            > mtk1[k as int].capacity);
                    }
                    if prepare_grew(mtk1) {
                        let w = choose|q: int|
                            0 <= q < mtk1.len() && (#[trigger] mtk1[q]).records.len() > 0
                                && mtk1[q].records.len() > mtk1[q].capacity;
                        if w < k as int {
                            assert((m0.take(k as int)[w]).records.len() > 0 && m0.take(
                                k as int,
                            )[w].records.len() > m0.take(k as int)[w].capacity);
                        }
                    }
                }
            }
            k += 1;
        }
        proof {
            assert(m0.take(total) =~= m0);
        }
        self.data = out;
        proof {
            lemma_prepare_model_wf(m0);
        }
        grew
    }

    /// Starts the next frame: every batch keeps its buffers and binding
    /// group, and its accumulation is reset to zero.
    pub fn clear(&mut self)
        requires
            old(self).wf(),
        ensures
            final(self).wf(),
            final(self).model() == clear_model(old(self).model()),
            final(self).mesh_registry() == old(self).mesh_registry(),
    {
        let ghost m0 = self.model();
        let n = self.data.len();
        let mut k: usize = 0;
        while k < n
            invariant
                n == self.data@.len(),
                k <= n,
                m0.len() == n,
                models_of(old(self).data@) == m0,
                self.mesh_registry() == old(self).mesh_registry(),
                forall|q: int| k <= q < n ==> self.data@[q] == old(self).data@[q],
                forall|q: int|
                    0 <= q < k ==> #[trigger] models_of(self.data@)[q] == clear_model(m0)[q],
            decreases n - k,
        {
            let ghost before = self.data@;
            let mut e = self.data.remove(k);
            e.1.clear();
            let ghost newdata = e;
            self.data.insert(k, e);
            proof {
                assert(self.data@ =~= before.update(k as int, newdata));
                assert(newdata.0 == before[k as int].0);
                assert(model_of(before[k as int].0, before[k as int].1) == m0[k as int]);
                assert(newdata.1.transform_vec@ =~= Seq::<InstanceTransform>::empty());
                assert(models_of(self.data@)[k as int] == clear_model(m0)[k as int]);
                assert forall|q: int| 0 <= q < k implies #[trigger] models_of(self.data@)[q]
                    == clear_model(m0)[q] by {
                    assert(models_of(before)[q] == clear_model(m0)[q]);
                    assert(self.data@[q] == before[q]);
                    assert(models_of(self.data@)[q] == model_of(self.data@[q].0, self.data@[q].1));
                    assert(models_of(before)[q] == model_of(before[q].0, before[q].1));
                }
            }
            k += 1;
        }
        proof {
            let mfin = self.model();
            assert(mfin =~= clear_model(m0));
            assert forall|k1: int, k2: int|
                0 <= k1 < n && 0 <= k2 < n && k1 != k2 implies !((#[trigger] mfin[k1]).shape == (
            #[trigger] mfin[k2]).shape && mfin[k1].texture == mfin[k2].texture) by {
                assert(mfin[k1] == clear_model(m0)[k1]);
                assert(mfin[k2] == clear_model(m0)[k2]);
                assert(old(self).wf());
            }
        }
    }
}

/// Eviction and reconciliation keep batch keys distinct and accumulation
/// counts countable.
pub proof fn lemma_prepare_model_wf(m: Seq<BatchModel>)
    requires
        forall|k1: int, k2: int|
            0 <= k1 < m.len() && 0 <= k2 < m.len() && k1 != k2 ==> !((#[trigger] m[k1]).shape == (
            #[trigger] m[k2]).shape && m[k1].texture == m[k2].texture),
        forall|q: int| 0 <= q < m.len() ==> (#[trigger] m[q]).records.len() <= u32::MAX,
    ensures
        forall|k1: int, k2: int|
            0 <= k1 < prepare_model(m).len() && 0 <= k2 < prepare_model(m).len() && k1 != k2
                ==> !((#[trigger] prepare_model(m)[k1]).shape == (
            #[trigger] prepare_model(m)[k2]).shape && prepare_model(m)[k1].texture
                == prepare_model(m)[k2].texture),
        forall|q: int|
            0 <= q < prepare_model(m).len() ==> (#[trigger] prepare_model(m)[q]).records.len()
                <= u32::MAX,
        forall|q: int|
            0 <= q < prepare_model(m).len() ==> exists|w: int|
                0 <= w < m.len() && (#[trigger] prepare_model(m)[q]) == reconciled(m[w]),
    decreases m.len(),
{
    if m.len() > 0 {
        let pre = m.drop_last();
        lemma_prepare_model_wf(pre);
        let rest = prepare_model(pre);
        let b = m.last();
        let whole = prepare_model(m);
        assert forall|q: int|
            0 <= q < whole.len() implies exists|w: int|
            0 <= w < m.len() && (#[trigger] whole[q]) == reconciled(m[w]) by {
            if b.records.len() > 0 && q == whole.len() - 1 {
                assert(whole[q] == reconciled(m[m.len() - 1]));
            } else {
                assert(whole[q] == rest[q]);
                let w = choose|w: int| 0 <= w < pre.len() && rest[q] == reconciled(pre[w]);
                assert(whole[q] == reconciled(m[w]));
            }
        }
        assert forall|k1: int, k2: int|
            0 <= k1 < whole.len() && 0 <= k2 < whole.len() && k1 != k2 implies !((
        #[trigger] whole[k1]).shape == (#[trigger] whole[k2]).shape && whole[k1].texture
            == whole[k2].texture) by {
            if b.records.len() > 0 {
                if k1 < rest.len() && k2 < rest.len() {
                    assert(whole[k1] == rest[k1] && whole[k2] == rest[k2]);
                } else {
                    let (qin, qlast) = if k1 < rest.len() {
                        (k1, k2)
                    } else {
                        (k2, k1)
                    };
                    assert(whole[qin] == rest[qin]);
                    assert(whole[qlast] == reconciled(b));
                    let w = choose|w: int| 0 <= w < pre.len() && rest[qin] == reconciled(pre[w]);
                    assert(pre[w] == m[w]);
                    assert(!(m[w].shape == m[m.len() - 1].shape && m[w].texture == m[m.len()
                        - 1].texture));
                }
            } else {
                assert(whole[k1] == rest[k1] && whole[k2] == rest[k2]);
            }
        }
    }
}

/// Iterated registration of one key: each record in turn joins the
/// batch for (`shape`, `texture`).
pub open spec fn register_n(
    m: Seq<BatchModel>,
    shape: u64,
    texture: Seq<char>,
    recs: Seq<InstanceTransform>,
) -> Seq<BatchModel>
    decreases recs.len(),
{
    if recs.len() == 0 {
        m
    } else {
        register_model(register_n(m, shape, texture, recs.drop_last()), shape, texture, recs.last())
    }
}

/// Registering any number of instances of one previously unseen key
/// yields exactly one new batch, which accumulates exactly those records;
/// every other batch is untouched.
pub proof fn lemma_register_accumulates(
    m: Seq<BatchModel>,
    shape: u64,
    texture: Seq<char>,
    recs: Seq<InstanceTransform>,
)
    requires
        !model_has_key(m, shape, texture),
        recs.len() > 0,
    ensures
        register_n(m, shape, texture, recs).len() == m.len() + 1,
        forall|q: int| 0 <= q < m.len() ==> #[trigger] register_n(m, shape, texture, recs)[q] == m[q],
        register_n(m, shape, texture, recs).last().shape == shape,
        register_n(m, shape, texture, recs).last().texture == texture,
        register_n(m, shape, texture, recs).last().records == recs,
    decreases recs.len(),
{
    let m2 = register_n(m, shape, texture, recs);
    if recs.len() == 1 {
        assert(register_n(m, shape, texture, recs.drop_last()) == m);
        assert(m2 == m.push(new_batch(shape, texture, recs.last())));
        assert(m2.last().records =~= recs);
    } else {
        lemma_register_accumulates(m, shape, texture, recs.drop_last());
        let m1 = register_n(m, shape, texture, recs.drop_last());
        assert(m1.last().shape == shape && m1.last().texture == texture);
        assert(model_has_key(m1, shape, texture)) by {
            assert(m1[m1.len() - 1].shape == shape && m1[m1.len() - 1].texture == texture);
        }
        let w = model_index(m1, shape, texture);
        assert(0 <= w < m1.len() && m1[w].shape == shape && m1[w].texture == texture);
        assert(w == m1.len() - 1) by {
            if w < m1.len() - 1 {
                assert(m1[w] == m[w]);
                assert(model_has_key(m, shape, texture));
            }
        }
        assert(m2 == m1.update(w, with_record(m1[w], recs.last())));
        assert(m2.last().records =~= recs);
    }
}

/// Registering an instance of one key never touches the batch of another
/// key: its presence and its accumulated records are unchanged.
pub proof fn lemma_register_other_key(
    m: Seq<BatchModel>,
    shape2: u64,
    texture2: Seq<char>,
    rec: InstanceTransform,
    shape: u64,
    texture: Seq<char>,
)
    requires
        !(shape2 == shape && texture2 == texture),
    ensures
        model_has_key(register_model(m, shape2, texture2, rec), shape, texture) == model_has_key(
            m,
            shape,
            texture,
        ),
        forall|q: int|
            0 <= q < m.len() && (#[trigger] m[q]).shape == shape && m[q].texture == texture
                ==> register_model(m, shape2, texture2, rec)[q] == m[q],
{
    let m2 = register_model(m, shape2, texture2, rec);
    if model_has_key(m, shape2, texture2) {
        let w = model_index(m, shape2, texture2);
        assert(0 <= w < m.len() && m[w].shape == shape2 && m[w].texture == texture2);
        assert forall|q: int|
            0 <= q < m.len() && (#[trigger] m[q]).shape == shape && m[q].texture
                == texture implies m2[q] == m[q] by {
            assert(q != w);
        }
        if model_has_key(m, shape, texture) {
            let v = model_index(m, shape, texture);
            assert(m2[v].shape == shape && m2[v].texture == texture);
        }
        if model_has_key(m2, shape, texture) {
            let v = model_index(m2, shape, texture);
            assert(m[v].shape == shape && m[v].texture == texture);
        }
    } else {
        if model_has_key(m, shape, texture) {
            let v = model_index(m, shape, texture);
            assert(m2[v].shape == shape && m2[v].texture == texture);
        }
        if model_has_key(m2, shape, texture) {
            let v = model_index(m2, shape, texture);
            assert(0 <= v < m.len());
            assert(m[v].shape == shape && m[v].texture == texture);
        }
    }
}

/// A batch whose every occurrence accumulated nothing is absent after
/// reconciliation.
pub proof fn lemma_prepare_evicts(m: Seq<BatchModel>, shape: u64, texture: Seq<char>)
    requires
        forall|k: int|
            0 <= k < m.len() && (#[trigger] m[k]).shape == shape && m[k].texture == texture
                ==> m[k].records.len() == 0,
    ensures
        !model_has_key(prepare_model(m), shape, texture),
    decreases m.len(),
{
    if m.len() > 0 {
        lemma_prepare_evicts(m.drop_last(), shape, texture);
        let rest = prepare_model(m.drop_last());
        let b = m.last();
        if b.records.len() > 0 {
            let whole = rest.push(reconciled(b));
            if model_has_key(whole, shape, texture) {
                let w = model_index(whole, shape, texture);
                if w < rest.len() {
                    assert(rest[w].shape == shape && rest[w].texture == texture);
                } else {
                    assert(b.shape == shape && b.texture == texture);
                    assert(m[m.len() - 1].records.len() == 0);
                }
            }
        }
    }
}

/// Clearing leaves every batch with an empty accumulation.
pub proof fn lemma_clear_zeroes(m: Seq<BatchModel>)
    ensures
        clear_model(m).len() == m.len(),
        forall|k: int|
            0 <= k < m.len() ==> (#[trigger] clear_model(m)[k]).records.len() == 0
                && clear_model(m)[k].shape == m[k].shape && clear_model(m)[k].texture
                == m[k].texture,
{
}

/// A batch that receives no registrations in a frame is evicted: after a
/// clear, any amount of registration under a different key, and the
/// frame's reconciliation, no batch carries the idle key.
pub proof fn lemma_idle_batch_evicted(
    m: Seq<BatchModel>,
    shape2: u64,
    texture2: Seq<char>,
    recs: Seq<InstanceTransform>,
    shape: u64,
    texture: Seq<char>,
)
    requires
        !(shape2 == shape && texture2 == texture),
    ensures
        !model_has_key(
            prepare_model(register_n(clear_model(m), shape2, texture2, recs)),
            shape,
            texture,
        ),
    decreases recs.len(),
{
    lemma_clear_zeroes(m);
    lemma_idle_key_stays_zero(clear_model(m), shape2, texture2, recs, shape, texture);
    lemma_prepare_evicts(register_n(clear_model(m), shape2, texture2, recs), shape, texture);
}

/// Registration under one key keeps every other key's accumulations as
/// they were; in particular zero stays zero.
proof fn lemma_idle_key_stays_zero(
    m: Seq<BatchModel>,
    shape2: u64,
    texture2: Seq<char>,
    recs: Seq<InstanceTransform>,
    shape: u64,
    texture: Seq<char>,
)
    requires
        !(shape2 == shape && texture2 == texture),
        forall|k: int|
            0 <= k < m.len() && (#[trigger] m[k]).shape == shape && m[k].texture == texture
                ==> m[k].records.len() == 0,
    ensures
        forall|k: int|
            #![trigger register_n(m, shape2, texture2, recs)[k]]
            0 <= k < register_n(m, shape2, texture2, recs).len() && register_n(
                m,
                shape2,
                texture2,
                recs,
            )[k].shape == shape && register_n(m, shape2, texture2, recs)[k].texture == texture
                ==> register_n(m, shape2, texture2, recs)[k].records.len() == 0,
    decreases recs.len(),
{
    if recs.len() > 0 {
        lemma_idle_key_stays_zero(m, shape2, texture2, recs.drop_last(), shape, texture);
        let m1 = register_n(m, shape2, texture2, recs.drop_last());
        let m2 = register_model(m1, shape2, texture2, recs.last());
        assert forall|k: int|
            0 <= k < m2.len() && (#[trigger] m2[k]).shape == shape && m2[k].texture
                == texture implies m2[k].records.len() == 0 by {
            if model_has_key(m1, shape2, texture2) {
                let w = model_index(m1, shape2, texture2);
                assert(0 <= w < m1.len() && m1[w].shape == shape2 && m1[w].texture == texture2);
                assert(k != w);
                assert(m2[k] == m1[k]);
            } else {
                if k < m1.len() {
                    assert(m2[k] == m1[k]);
                } else {
                    assert(m2[k] == new_batch(shape2, texture2, recs.last()));
                }
            }
        }
    }
}

/// Every batch that survives reconciliation is the reconciled form of
/// some batch that accumulated something.
pub proof fn lemma_prepare_model_origin(m: Seq<BatchModel>)
    ensures
        forall|q: int|
            0 <= q < prepare_model(m).len() ==> exists|w: int|
                0 <= w < m.len() && (#[trigger] prepare_model(m)[q]) == reconciled(m[w]),
    decreases m.len(),
{
    if m.len() > 0 {
        let pre = m.drop_last();
        lemma_prepare_model_origin(pre);
        let rest = prepare_model(pre);
        let b = m.last();
        let whole = prepare_model(m);
        assert forall|q: int|
            0 <= q < whole.len() implies exists|w: int|
            0 <= w < m.len() && (#[trigger] whole[q]) == reconciled(m[w]) by {
            if b.records.len() > 0 && q == whole.len() - 1 {
                assert(whole[q] == reconciled(m[m.len() - 1]));
            } else {
                assert(whole[q] == rest[q]);
                let w = choose|w: int| 0 <= w < pre.len() && rest[q] == reconciled(pre[w]);
                assert(whole[q] == reconciled(m[w]));
            }
        }
    }
}

/// Every batch that survives reconciliation has a nonzero accumulation:
/// the draw pass that follows `prepare` never sees an empty batch.
pub proof fn lemma_prepare_positive(m: Seq<BatchModel>)
    ensures
        forall|q: int|
            0 <= q < prepare_model(m).len() ==> (#[trigger] prepare_model(m)[q]).records.len() > 0,
    decreases m.len(),
{
    if m.len() > 0 {
        lemma_prepare_positive(m.drop_last());
        let rest = prepare_model(m.drop_last());
        let b = m.last();
        let whole = prepare_model(m);
        assert forall|q: int| 0 <= q < whole.len() implies (#[trigger] whole[q]).records.len()
            > 0 by {
            if b.records.len() > 0 && q == whole.len() - 1 {
                assert(whole[q] == reconciled(b));
            } else {
                assert(whole[q] == rest[q]);
            }
        }
    }
}

/// Reconciliation reaches every batch that accumulated something: its
/// buffer's capacity becomes the larger of the old capacity and the
/// accumulation (so it never shrinks), and exactly the accumulated
/// records are uploaded.
pub proof fn lemma_prepare_reconciles(m: Seq<BatchModel>, shape: u64, texture: Seq<char>)
    requires
        forall|k1: int, k2: int|
            0 <= k1 < m.len() && 0 <= k2 < m.len() && k1 != k2 ==> !((#[trigger] m[k1]).shape == (
            #[trigger] m[k2]).shape && m[k1].texture == m[k2].texture),
        forall|q: int| 0 <= q < m.len() ==> (#[trigger] m[q]).records.len() <= u32::MAX,
        model_has_key(m, shape, texture),
        m[model_index(m, shape, texture)].records.len() > 0,
    ensures
        model_has_key(prepare_model(m), shape, texture),
        prepare_model(m)[model_index(prepare_model(m), shape, texture)] == reconciled(
            m[model_index(m, shape, texture)],
        ),
    decreases m.len(),
{
    let v = model_index(m, shape, texture);
    assert(0 <= v < m.len() && m[v].shape == shape && m[v].texture == texture);
    let whole = prepare_model(m);
    let b = m.last();
    let pre = m.drop_last();
    let rest = prepare_model(pre);
    if v == m.len() - 1 {
        assert(whole == rest.push(reconciled(b)));
        assert(model_has_key(whole, shape, texture)) by {
            assert(whole[whole.len() - 1].shape == shape && whole[whole.len() - 1].texture
                == texture);
        }
        let w = model_index(whole, shape, texture);
        assert(0 <= w < whole.len() && whole[w].shape == shape && whole[w].texture == texture);
        assert(w == whole.len() - 1) by {
            if w < rest.len() {
                lemma_prepare_model_origin(pre);
                let u = choose|u: int| 0 <= u < pre.len() && rest[w] == reconciled(pre[u]);
                assert(m[u].shape == shape && m[u].texture == texture);
            }
        }
    } else {
        assert(pre[v] == m[v]);
        assert(model_has_key(pre, shape, texture)) by {
            assert(pre[v].shape == shape && pre[v].texture == texture);
        }
        assert(model_index(pre, shape, texture) == v) by {
            let u = model_index(pre, shape, texture);
            assert(0 <= u < pre.len() && pre[u].shape == shape && pre[u].texture == texture);
            if u != v {
                assert(m[u].shape == shape && m[u].texture == texture);
            }
        }
        lemma_prepare_reconciles(pre, shape, texture);
        let w1 = model_index(rest, shape, texture);
        if b.records.len() > 0 {
            assert(whole == rest.push(reconciled(b)));
            assert(model_has_key(whole, shape, texture)) by {
                assert(whole[w1].shape == shape && whole[w1].texture == texture);
            }
            let w = model_index(whole, shape, texture);
            assert(0 <= w < whole.len() && whole[w].shape == shape && whole[w].texture == texture);
            assert(w == w1) by {
                if w != w1 {
                    if w == whole.len() - 1 {
                        assert(b.shape == shape && b.texture == texture);
                        assert(!(m[v].shape == m[m.len() - 1].shape && m[v].texture == m[m.len()
                            - 1].texture));
                    } else {
                        lemma_prepare_model_wf(pre);
                        assert(!(rest[w].shape == rest[w1].shape && rest[w].texture
                            == rest[w1].texture));
                    }
                }
            }
        } else {
            assert(whole == rest);
            assert(model_has_key(whole, shape, texture)) by {
                assert(whole[w1].shape == shape && whole[w1].texture == texture);
            }
        }
    }
}

} // verus!