use navagfx_engine::assets::texture::Texture2DCoordinates;
use navagfx_engine::assets::AssetHandle;
use navagfx_engine::assets::AssetsStorage;
use navagfx_engine::graphics::renderer2d::BufferUpdate;
use navagfx_engine::graphics::renderer2d::DrawCall;
use navagfx_engine::graphics::renderer2d::Renderer2D;
use navagfx_engine::graphics::renderer2d::SurfaceError;
use navagfx_engine::graphics::renderer2d::SurfaceRecovery;
use navagfx_engine::graphics::renderer2d::MAX_QUAD;
use navagfx_engine::graphics::renderer2d::QUAD_INDICES;
use navagfx_engine::graphics::shapes::Quad;

struct Texture;

type Renderer = Renderer2D<Texture, f32, [f64; 4]>;

const WHITE: [f32; 4] = [1.0, 1.0, 1.0, 1.0];
const RED: [f32; 4] = [1.0, 0.0, 0.0, 1.0];
const CLEAR: [f64; 4] = [0.1, 0.1, 0.2, 1.0];
const CAMERA: [f32; 16] = [1.0, 0.0, 0.0, 0.0, 0.0, 1.0, 0.0, 0.0, 0.0, 0.0, 1.0, 0.0, 0.0, 0.0, 0.0, 1.0];

fn transform(position: [f32; 2], size: [f32; 2], _rotation: f32) -> [f32; 16] {
    [size[0], 0.0, 0.0, 0.0, 0.0, size[1], 0.0, 0.0, 0.0, 0.0, 1.0, 0.0, position[0], position[1], 0.0, 1.0]
}

fn textures(count: usize) -> Vec<AssetHandle<Texture>> {
    let mut storage = AssetsStorage::new();
    (0..count).map(|_| storage.store_asset(Texture)).collect()
}

fn renderer(white: AssetHandle<Texture>) -> Renderer {
    Renderer2D::new(white, Texture2DCoordinates::full(0.0, 1.0), CLEAR)
}

fn quad(x: f32, depth: i32) -> Quad<f32> {
    let mut quad = Quad::new([x, 0.0], [1.0, 1.0], 0.0, WHITE, transform);
    quad.set_z_index(depth);
    quad
}

fn atlas() -> Texture2DCoordinates<f32> {
    Texture2DCoordinates::new(0.25, 0.5, 0.125, 0.0625)
}

fn keys(plan: &[DrawCall<Texture>]) -> Vec<(u32, i32, usize)> {
    plan.iter().map(|call| (call.texture.id(), call.depth, call.instance_count)).collect()
}

#[test]
fn a_new_renderer_is_idle_and_empty() {
    let handles = textures(1);
    let renderer = renderer(handles[0]);
    assert!(!renderer.is_recording());
    assert_eq!(renderer.batch_count(), 0);
    assert_eq!(renderer.camera(), None);
    assert_eq!(*renderer.clear_color(), CLEAR);
    assert!(renderer.white_texture() == handles[0]);
}

#[test]
fn begin_opens_a_frame_with_its_colour_and_camera() {
    let handles = textures(1);
    let mut renderer = renderer(handles[0]);
    renderer.begin([0.0, 0.0, 0.0, 1.0], CAMERA);
    assert!(renderer.is_recording());
    assert_eq!(*renderer.clear_color(), [0.0, 0.0, 0.0, 1.0]);
    assert_eq!(renderer.camera(), Some(CAMERA));
}

#[test]
fn an_empty_frame_has_no_draw_calls() {
    let handles = textures(1);
    let mut renderer = renderer(handles[0]);
    renderer.begin(CLEAR, CAMERA);
    let plan = renderer.submit(Ok(())).unwrap();
    assert!(plan.is_empty());
    assert!(!renderer.is_recording());
}

#[test]
fn same_texture_and_depth_accumulate_into_one_batch() {
    let handles = textures(2);
    let mut renderer = renderer(handles[0]);
    renderer.begin(CLEAR, CAMERA);
    renderer.draw_quad_textured(&mut quad(1.0, 4), handles[1], atlas(), transform);
    renderer.draw_quad_textured(&mut quad(2.0, 4), handles[1], atlas(), transform);
    assert_eq!(renderer.batch_count(), 1);
    let plan = renderer.submit(Ok(())).unwrap();
    assert_eq!(plan.len(), 1);
    assert!(plan[0].texture == handles[1]);
    assert_eq!(plan[0].depth, 4);
    assert_eq!(plan[0].instance_count, 2);
    assert_eq!(plan[0].batch, 0);
    let instances = renderer.instances(plan[0].batch);
    assert_eq!(instances.len(), 2);
    assert_eq!(instances[0].model[12], 1.0);
    assert_eq!(instances[1].model[12], 2.0);
}

#[test]
fn lower_depth_is_drawn_first() {
    let handles = textures(2);
    let mut renderer = renderer(handles[0]);
    renderer.begin(CLEAR, CAMERA);
    renderer.draw_quad_textured(&mut quad(1.0, 0), handles[1], atlas(), transform);
    renderer.draw_quad_textured(&mut quad(2.0, -100), handles[1], atlas(), transform);
    assert_eq!(renderer.batch_count(), 2);
    let plan = renderer.submit(Ok(())).unwrap();
    assert_eq!(keys(&plan), vec![(1, -100, 1), (1, 0, 1)]);
    assert_eq!(plan[0].batch, 1);
    assert_eq!(plan[1].batch, 0);
}

#[test]
fn draw_calls_are_sorted_by_depth_whatever_the_drawing_order() {
    let handles = textures(2);
    let mut renderer = renderer(handles[0]);
    renderer.begin(CLEAR, CAMERA);
    for depth in [5, -2, 9, 0, i32::MIN, 3, i32::MAX, -2, 5] {
        renderer.draw_quad_textured(&mut quad(0.0, depth), handles[1], atlas(), transform);
    }
    let plan = renderer.submit(Ok(())).unwrap();
    assert_eq!(
        keys(&plan),
        vec![(1, i32::MIN, 1), (1, -2, 2), (1, 0, 1), (1, 3, 1), (1, 5, 2), (1, 9, 1), (1, i32::MAX, 1)]
    );
}

#[test]
fn equal_depths_are_drawn_in_the_order_of_first_use() {
    let handles = textures(4);
    let mut renderer = renderer(handles[0]);
    renderer.begin(CLEAR, CAMERA);
    renderer.draw_quad_textured(&mut quad(0.0, 1), handles[3], atlas(), transform);
    renderer.draw_quad_textured(&mut quad(0.0, 1), handles[1], atlas(), transform);
    renderer.draw_quad_textured(&mut quad(0.0, 0), handles[2], atlas(), transform);
    renderer.draw_quad_textured(&mut quad(0.0, 1), handles[2], atlas(), transform);
    renderer.draw_quad_textured(&mut quad(0.0, 1), handles[3], atlas(), transform);
    let plan = renderer.submit(Ok(())).unwrap();
    assert_eq!(keys(&plan), vec![(2, 0, 1), (3, 1, 2), (1, 1, 1), (2, 1, 1)]);

    renderer.begin(CLEAR, CAMERA);
    renderer.draw_quad_textured(&mut quad(0.0, 1), handles[2], atlas(), transform);
    renderer.draw_quad_textured(&mut quad(0.0, 1), handles[3], atlas(), transform);
    let plan = renderer.submit(Ok(())).unwrap();
    assert_eq!(keys(&plan), vec![(3, 1, 1), (2, 1, 1)]);
}

#[test]
fn different_textures_at_one_depth_are_separate_batches() {
    let handles = textures(3);
    let mut renderer = renderer(handles[0]);
    renderer.begin(CLEAR, CAMERA);
    renderer.draw_quad_textured(&mut quad(0.0, 7), handles[1], atlas(), transform);
    renderer.draw_quad_textured(&mut quad(0.0, 7), handles[2], atlas(), transform);
    renderer.draw_quad_textured(&mut quad(0.0, 7), handles[1], atlas(), transform);
    let plan = renderer.submit(Ok(())).unwrap();
    assert_eq!(keys(&plan), vec![(1, 7, 2), (2, 7, 1)]);
    assert_eq!(renderer.batch_key(0).1, 7);
    assert!(renderer.batch_key(0).0 == handles[1]);
    assert!(renderer.batch_key(1).0 == handles[2]);
}

#[test]
fn begin_twice_keeps_only_what_was_drawn_after_the_second() {
    let handles = textures(2);
    let mut renderer = renderer(handles[0]);
    renderer.begin(CLEAR, CAMERA);
    renderer.draw_quad_textured(&mut quad(1.0, 0), handles[1], atlas(), transform);
    renderer.draw_quad_textured(&mut quad(2.0, 3), handles[1], atlas(), transform);
    renderer.begin(CLEAR, CAMERA);
    assert_eq!(renderer.batch_count(), 2);
    assert!(renderer.instances(0).is_empty());
    assert!(renderer.instances(1).is_empty());
    renderer.draw_quad_textured(&mut quad(9.0, 3), handles[1], atlas(), transform);
    let plan = renderer.submit(Ok(())).unwrap();
    assert_eq!(keys(&plan), vec![(1, 3, 1)]);
    assert_eq!(renderer.instances(plan[0].batch)[0].model[12], 9.0);
}

#[test]
fn begin_empties_the_batches_of_a_submitted_frame_too() {
    let handles = textures(2);
    let mut renderer = renderer(handles[0]);
    renderer.begin(CLEAR, CAMERA);
    renderer.draw_quad_textured(&mut quad(1.0, 0), handles[1], atlas(), transform);
    renderer.submit(Ok(())).unwrap();
    assert_eq!(renderer.instances(0).len(), 1);
    renderer.begin(CLEAR, CAMERA);
    assert_eq!(renderer.batch_count(), 1);
    assert!(renderer.instances(0).is_empty());
    assert_eq!(renderer.buffer_capacity(0), Some(1));
    let plan = renderer.submit(Ok(())).unwrap();
    assert!(plan.is_empty());
}

#[test]
fn a_batch_gets_its_buffer_on_its_first_draw_call() {
    let handles = textures(2);
    let mut renderer = renderer(handles[0]);
    renderer.begin(CLEAR, CAMERA);
    for x in 0..3 {
        renderer.draw_quad_textured(&mut quad(x as f32, 0), handles[1], atlas(), transform);
    }
    assert_eq!(renderer.buffer_capacity(0), None);
    let plan = renderer.submit(Ok(())).unwrap();
    assert_eq!(plan[0].buffer, BufferUpdate::Allocate);
    assert_eq!(plan[0].instance_count, 3);
    assert_eq!(renderer.buffer_capacity(0), Some(3));
}

#[test]
fn a_buffer_that_is_too_small_is_created_anew_once_and_then_reused() {
    let handles = textures(2);
    let mut renderer = renderer(handles[0]);
    renderer.begin(CLEAR, CAMERA);
    for x in 0..2 {
        renderer.draw_quad_textured(&mut quad(x as f32, 0), handles[1], atlas(), transform);
    }
    renderer.submit(Ok(())).unwrap();
    assert_eq!(renderer.buffer_capacity(0), Some(2));

    renderer.begin(CLEAR, CAMERA);
    for x in 0..5 {
        renderer.draw_quad_textured(&mut quad(x as f32, 0), handles[1], atlas(), transform);
    }
    let plan = renderer.submit(Ok(())).unwrap();
    assert_eq!(plan.len(), 1);
    assert_eq!(plan[0].buffer, BufferUpdate::Reallocate);
    assert_eq!(plan[0].instance_count, 5);
    assert_eq!(renderer.buffer_capacity(0), Some(5));

    renderer.begin(CLEAR, CAMERA);
    for x in 0..4 {
        renderer.draw_quad_textured(&mut quad(x as f32, 0), handles[1], atlas(), transform);
    }
    let plan = renderer.submit(Ok(())).unwrap();
    assert_eq!(plan[0].buffer, BufferUpdate::Overwrite);
    assert_eq!(plan[0].instance_count, 4);
    assert_eq!(renderer.buffer_capacity(0), Some(5));

    renderer.begin(CLEAR, CAMERA);
    for x in 0..5 {
        renderer.draw_quad_textured(&mut quad(x as f32, 0), handles[1], atlas(), transform);
    }
    let plan = renderer.submit(Ok(())).unwrap();
    assert_eq!(plan[0].buffer, BufferUpdate::Overwrite);
    assert_eq!(renderer.buffer_capacity(0), Some(5));
}

#[test]
fn an_empty_batch_is_not_drawn_and_keeps_its_buffer() {
    let handles = textures(3);
    let mut renderer = renderer(handles[0]);
    renderer.begin(CLEAR, CAMERA);
    renderer.draw_quad_textured(&mut quad(0.0, 0), handles[1], atlas(), transform);
    renderer.draw_quad_textured(&mut quad(0.0, 0), handles[2], atlas(), transform);
    renderer.submit(Ok(())).unwrap();
    renderer.begin(CLEAR, CAMERA);
    renderer.draw_quad_textured(&mut quad(0.0, 0), handles[2], atlas(), transform);
    let plan = renderer.submit(Ok(())).unwrap();
    assert_eq!(keys(&plan), vec![(2, 0, 1)]);
    assert_eq!(plan[0].batch, 1);
    assert_eq!(renderer.buffer_capacity(0), Some(1));
    assert_eq!(renderer.buffer_capacity(1), Some(1));
}

#[test]
fn draw_quad_uses_the_white_texture_and_the_full_rectangle() {
    let handles = textures(3);
    let mut renderer = renderer(handles[2]);
    renderer.begin(CLEAR, CAMERA);
    let mut red = Quad::new([10.0, 10.0], [20.0, 20.0], 0.0, WHITE, transform);
    red.color = RED;
    renderer.draw_quad(&mut red, transform);
    let plan = renderer.submit(Ok(())).unwrap();
    assert_eq!(plan.len(), 1);
    assert!(plan[0].texture == handles[2]);
    assert_eq!(plan[0].depth, 0);
    let instance = &renderer.instances(plan[0].batch)[0];
    assert_eq!(instance.tex_coords_offset, [0.0, 0.0]);
    assert_eq!(instance.tex_coords_size, [1.0, 1.0]);
    assert_eq!(instance.color, RED);
    assert_eq!(instance.color, red.get_color());
    assert_eq!(
        instance.model,
        [20.0, 0.0, 0.0, 0.0, 0.0, 20.0, 0.0, 0.0, 0.0, 0.0, 1.0, 0.0, 10.0, 10.0, 0.0, 1.0]
    );
}

#[test]
fn draw_quad_and_draw_quad_textured_share_the_white_batch() {
    let handles = textures(2);
    let mut renderer = renderer(handles[0]);
    renderer.begin(CLEAR, CAMERA);
    renderer.draw_quad(&mut quad(1.0, 2), transform);
    renderer.draw_quad_textured(&mut quad(2.0, 2), handles[0], atlas(), transform);
    let plan = renderer.submit(Ok(())).unwrap();
    assert_eq!(keys(&plan), vec![(0, 2, 2)]);
    let instances = renderer.instances(0);
    assert_eq!(instances[0].tex_coords_size, [1.0, 1.0]);
    assert_eq!(instances[1].tex_coords_size, [0.0625, 0.125]);
    assert_eq!(instances[1].tex_coords_offset, [0.5, 0.25]);
}

#[test]
fn drawing_takes_the_transform_from_the_cache_of_the_quad() {
    let handles = textures(1);
    let mut renderer = renderer(handles[0]);
    renderer.begin(CLEAR, CAMERA);
    let mut moving = Quad::new([1.0, 1.0], [2.0, 2.0], 0.0, WHITE, transform);
    renderer.draw_quad(&mut moving, |_, _, _| [9.0; 16]);
    moving.set_position([5.0, 5.0]);
    renderer.draw_quad(&mut moving, transform);
    assert!(!moving.transform_needs_update());
    renderer.draw_quad(&mut moving, |_, _, _| [9.0; 16]);
    let instances = renderer.instances(0);
    assert_eq!(instances[0].model[12], 1.0);
    assert_eq!(instances[1].model[12], 5.0);
    assert_eq!(instances[2].model[12], 5.0);
}

#[test]
fn a_frame_that_was_not_acquired_is_dropped() {
    let handles = textures(2);
    let mut renderer = renderer(handles[0]);
    renderer.begin(CLEAR, CAMERA);
    renderer.draw_quad_textured(&mut quad(0.0, 0), handles[1], atlas(), transform);
    let frame = renderer.submit(Err(SurfaceError::Outdated));
    assert_eq!(frame.err(), Some(SurfaceError::Outdated));
    assert!(!renderer.is_recording());
    assert_eq!(renderer.buffer_capacity(0), None);

    renderer.begin(CLEAR, CAMERA);
    renderer.draw_quad_textured(&mut quad(0.0, 0), handles[1], atlas(), transform);
    let plan = renderer.submit(Ok(())).unwrap();
    assert_eq!(keys(&plan), vec![(1, 0, 1)]);
    assert_eq!(plan[0].buffer, BufferUpdate::Allocate);
}

#[test]
fn every_acquisition_error_is_handed_back() {
    let handles = textures(1);
    for error in [
        SurfaceError::Timeout,
        SurfaceError::Outdated,
        SurfaceError::Lost,
        SurfaceError::OutOfMemory,
        SurfaceError::Other,
    ] {
        let mut renderer = renderer(handles[0]);
        renderer.begin(CLEAR, CAMERA);
        assert_eq!(renderer.submit(Err(error)).err(), Some(error));
    }
}

#[test]
fn outdated_and_lost_surfaces_are_configured_again() {
    assert_eq!(SurfaceError::Outdated.recovery(), SurfaceRecovery::Reconfigure);
    assert_eq!(SurfaceError::Lost.recovery(), SurfaceRecovery::Reconfigure);
    assert_eq!(SurfaceError::Timeout.recovery(), SurfaceRecovery::Abandon);
    assert_eq!(SurfaceError::OutOfMemory.recovery(), SurfaceRecovery::Abandon);
    assert_eq!(SurfaceError::Other.recovery(), SurfaceRecovery::Abandon);
}

#[test]
fn the_unit_quad_is_two_triangles() {
    assert_eq!(QUAD_INDICES, [0, 1, 2, 2, 3, 0]);
    assert_eq!(MAX_QUAD, 100_000);
}

#[test]
fn many_batches_and_many_instances() {
    let handles = textures(8);
    let mut renderer = renderer(handles[0]);
    renderer.begin(CLEAR, CAMERA);
    for round in 0..30 {
        for (index, handle) in handles.iter().enumerate() {
            let depth = (index as i32 % 3) - 1;
            renderer.draw_quad_textured(&mut quad(round as f32, depth), *handle, atlas(), transform);
        }
    }
    assert_eq!(renderer.batch_count(), 8);
    let plan = renderer.submit(Ok(())).unwrap();
    assert_eq!(plan.len(), 8);
    for pair in plan.windows(2) {
        assert!(pair[0].depth < pair[1].depth || (pair[0].depth == pair[1].depth && pair[0].batch < pair[1].batch));
    }
    for call in &plan {
        assert_eq!(call.instance_count, 30);
        assert_eq!(renderer.instances(call.batch).len(), 30);
        assert!(renderer.batch_key(call.batch).0 == call.texture);
        assert_eq!(renderer.batch_key(call.batch).1, call.depth);
    }
}

#[test]
fn a_surface_of_no_extent_is_not_configured() {
    assert!(navagfx_engine::graphics::can_configure_surface(1, 1));
    assert!(navagfx_engine::graphics::can_configure_surface(800, 600));
    assert!(!navagfx_engine::graphics::can_configure_surface(0, 600));
    assert!(!navagfx_engine::graphics::can_configure_surface(800, 0));
    assert!(!navagfx_engine::graphics::can_configure_surface(0, 0));
}
