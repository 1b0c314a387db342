use matrix_renderer::pipelines::buffers::{BufferContainer, VertexBuffer, Vertex, IntoBytes, Bufferable};
use matrix_renderer::pipelines::group_layout_manager::BindGroupLayoutManager;
use matrix_renderer::pipelines::instance_manager::{
    InstanceManager, InstancedData, VertexStructure, TEXTURE_BIND_SHAPE,
};
use matrix_renderer::renderer::render_object::RenderObject;
use matrix_renderer::pipelines::structures::plain::{Plain, PLAIN_SHAPE};
use matrix_renderer::pipelines::transform::Transform;
use matrix_renderer::renderer::window::WindowSize;
use matrix_renderer::math::trig::{FX_ONE, FX_HALF};

fn object(name: &str) -> RenderObject {
    RenderObject::new(Plain, name.to_string())
}

#[test]
fn layout_cache_is_idempotent() {
    let mut cache = BindGroupLayoutManager::new();
    let a = cache.get_bind_group_layout(10);
    let b = cache.get_bind_group_layout(11);
    let a2 = cache.get_bind_group_layout(10);
    assert_eq!(a.shape, 10);
    assert_eq!(a2.id, a.id);
    assert_ne!(b.id, a.id);
    let g = cache.create_group(11);
    assert_eq!(g.layout.id, b.id);
    assert_eq!(g.layout.shape, 11);
}

#[test]
fn batch_lifecycle() {
    let mut cache = BindGroupLayoutManager::new();
    let mesh = Plain.craete_buffer();
    let mut batch = InstancedData::new(mesh, &mut cache);
    assert_eq!(batch.texture_group().layout.shape, TEXTURE_BIND_SHAPE);
    assert_eq!(batch.transform_buffer().size(), 1);
    assert_eq!(batch.instace_count(), 0);
    let t = Transform::identity();
    batch.push(matrix_renderer::pipelines::transform::InstanceTransform::from_transform(&t));
    batch.push(matrix_renderer::pipelines::transform::InstanceTransform::from_transform(&t));
    assert_eq!(batch.instace_count(), 2);
    let grew = batch.prepare_capacity();
    assert!(grew);
    assert_eq!(batch.transform_buffer().size, 2);
    assert_eq!(batch.transform_buffer().written, 2);
    batch.clear();
    assert_eq!(batch.instace_count(), 0);
    assert_eq!(batch.transform_buffer().size, 2);
    assert_eq!(batch.structure_buffer().draw_count(), 6);
}

#[test]
fn registering_one_key_accumulates_one_batch() {
    let mut mgr = InstanceManager::new();
    let mut cache = BindGroupLayoutManager::new();
    let obj = object("tree");
    let t = Transform::identity();
    for _ in 0..3 {
        mgr.register_object(&obj, &t, &mut cache);
    }
    let data = mgr.iter_data();
    assert_eq!(data.len(), 1);
    assert_eq!(data[0].0 .0, PLAIN_SHAPE);
    assert_eq!(data[0].0 .1, "tree");
    assert_eq!(data[0].1.transform_vec.len(), 3);
    let grew = mgr.prepare();
    assert!(grew);
    let data = mgr.iter_data();
    assert_eq!(data.len(), 1);
    assert_eq!(data[0].1.transform_buffer.size, 3);
    assert_eq!(data[0].1.transform_buffer.written, 3);
}

#[test]
fn distinct_keys_make_distinct_batches() {
    let mut mgr = InstanceManager::new();
    let mut cache = BindGroupLayoutManager::new();
    let a = object("bark");
    let b = object("leaf");
    let t = Transform::identity();
    mgr.register_object(&a, &t, &mut cache);
    mgr.register_object(&b, &t, &mut cache);
    mgr.register_object(&a, &t, &mut cache);
    let data = mgr.iter_data();
    assert_eq!(data.len(), 2);
    assert_eq!(data[0].1.transform_vec.len(), 2);
    assert_eq!(data[1].1.transform_vec.len(), 1);
    // both batches share the one mesh of their shape
    assert_eq!(
        data[0].1.buffer.buffer.size,
        data[1].1.buffer.buffer.size
    );
}

#[test]
fn capacity_grows_and_uploads_exactly() {
    let mut mgr = InstanceManager::new();
    let mut cache = BindGroupLayoutManager::new();
    let obj = object("tree");
    let t = Transform::identity();
    mgr.register_object(&obj, &t, &mut cache);
    mgr.register_object(&obj, &t, &mut cache);
    assert!(mgr.prepare());
    {
        let data = mgr.iter_data();
        assert_eq!(data[0].1.transform_buffer.size, 2);
        assert_eq!(data[0].1.transform_buffer.written, 2);
    }
    // register the same two again without clearing: the accumulation is
    // now four, and prepare grows the buffer to it and uploads exactly it
    mgr.register_object(&obj, &t, &mut cache);
    mgr.register_object(&obj, &t, &mut cache);
    assert!(mgr.prepare());
    {
        let data = mgr.iter_data();
        assert_eq!(data[0].1.transform_vec.len(), 4);
        assert_eq!(data[0].1.transform_buffer.size, 4);
        assert_eq!(data[0].1.transform_buffer.written, 4);
    }
    // a smaller frame reuses the buffer without growing
    mgr.clear();
    mgr.register_object(&obj, &t, &mut cache);
    assert!(!mgr.prepare());
    let data = mgr.iter_data();
    assert_eq!(data[0].1.transform_buffer.size, 4);
    assert_eq!(data[0].1.transform_buffer.written, 1);
}

#[test]
fn idle_batch_is_evicted() {
    let mut mgr = InstanceManager::new();
    let mut cache = BindGroupLayoutManager::new();
    let a = object("bark");
    let b = object("leaf");
    let t = Transform::identity();
    mgr.register_object(&a, &t, &mut cache);
    mgr.register_object(&b, &t, &mut cache);
    mgr.prepare();
    assert_eq!(mgr.iter_data().len(), 2);
    // next frame: only "leaf" is registered; "bark" gets nothing
    mgr.clear();
    mgr.register_object(&b, &t, &mut cache);
    mgr.prepare();
    let data = mgr.iter_data();
    assert_eq!(data.len(), 1);
    assert_eq!(data[0].0 .1, "leaf");
}

#[test]
fn clearing_resets_counts_but_keeps_batches() {
    let mut mgr = InstanceManager::new();
    let mut cache = BindGroupLayoutManager::new();
    let obj = object("tree");
    let t = Transform::identity();
    mgr.register_object(&obj, &t, &mut cache);
    mgr.prepare();
    mgr.clear();
    let data = mgr.iter_data();
    assert_eq!(data.len(), 1);
    assert_eq!(data[0].1.transform_vec.len(), 0);
    assert_eq!(data[0].1.transform_buffer.size, 1);
}

#[test]
fn render_object_accessors() {
    let obj = object("tree");
    assert_eq!(obj.structure_type_id(), PLAIN_SHAPE);
    assert_eq!(obj.texture_name(), "tree");
    let mesh = obj.create_buffer();
    assert_eq!(mesh.buffer.size, 4);
    assert_eq!(mesh.index_buffer.unwrap().size, 6);
}

#[test]
fn plain_quad_geometry() {
    let v = Plain.vertices();
    assert_eq!(v.len(), 4);
    assert_eq!(v[0].position, [-FX_HALF, FX_HALF, 0]);
    assert_eq!(v[2].position, [FX_HALF, -FX_HALF, 0]);
    assert_eq!(v[1].texture_pos, [FX_ONE, 0]);
    let idx = Plain.indices();
    assert_eq!(idx, vec![0, 2, 1, 0, 3, 2]);
    assert_eq!(Plain.type_tag(), PLAIN_SHAPE);
    assert_eq!(v[0].size(), 1);
    assert_eq!(v.size(), 4);
    assert_eq!(<Vertex as Bufferable>::describe(), 5);
}

#[test]
fn buffer_containers() {
    let b = BufferContainer::create_with_size(8);
    assert_eq!(b.size(), 8);
    assert_eq!(b.written, 0);
    let c = BufferContainer::create_buffer(3);
    assert_eq!(c.written, 3);
    let grown = c.clone_data_with_size(5);
    assert_eq!(grown.size, 5);
    assert_eq!(grown.written, 3);
    let shrunk = c.clone_data_with_size(2);
    assert_eq!(shrunk.written, 2);
    let vb = VertexBuffer::new(b, None);
    assert_eq!(vb.draw_count(), 8);
}

#[test]
fn window_size_aspect() {
    let w = WindowSize::new(800, 600);
    assert_eq!(w.width, 800);
    // 800/600 in fixed point, rounded toward zero
    assert_eq!(w.aspect_fx(), Some(800 * 65536 / 600));
    let z = WindowSize::new(800, 0);
    assert_eq!(z.aspect_fx(), None);
}
