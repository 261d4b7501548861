use navagfx_engine::graphics::shapes::Quad;
use std::cell::Cell;

/// Scale, then rotate about the centre of the quad, then move to position:
/// the matrix in column-major order.
fn transform(position: [f32; 2], size: [f32; 2], rotation: f32) -> [f32; 16] {
    let angle = rotation.to_radians();
    let (sin, cos) = angle.sin_cos();
    let centre = [size[0] * 0.5, size[1] * 0.5];
    let rotated = [-(cos * centre[0] - sin * centre[1]), -(sin * centre[0] + cos * centre[1])];
    let move_x = position[0] + centre[0] + rotated[0];
    let move_y = position[1] + centre[1] + rotated[1];
    [
        size[0] * cos, size[0] * sin, 0.0, 0.0,
        -size[1] * sin, size[1] * cos, 0.0, 0.0,
        0.0, 0.0, 1.0, 0.0,
        move_x, move_y, 0.0, 1.0,
    ]
}

const WHITE: [f32; 4] = [1.0, 1.0, 1.0, 1.0];

#[test]
fn new_quad_holds_what_it_was_built_from() {
    let quad = Quad::new([10.0, 20.0], [30.0, 40.0], 0.0, WHITE, transform);
    assert_eq!(quad.get_position(), [10.0, 20.0]);
    assert_eq!(quad.get_size(), [30.0, 40.0]);
    assert_eq!(quad.get_rotation(), 0.0);
    assert_eq!(quad.get_z_index(), 0);
    assert_eq!(quad.get_color(), WHITE);
    assert_eq!(quad.color, WHITE);
    assert!(!quad.transform_needs_update());
}

#[test]
fn transform_of_an_unrotated_quad_scales_and_moves() {
    let mut quad = Quad::new([10.0, 20.0], [30.0, 40.0], 0.0, WHITE, transform);
    let matrix = quad.get_transform(transform);
    assert_eq!(
        matrix,
        [30.0, 0.0, 0.0, 0.0, 0.0, 40.0, 0.0, 0.0, 0.0, 0.0, 1.0, 0.0, 10.0, 20.0, 0.0, 1.0]
    );
}

#[test]
fn a_quad_rotates_about_its_own_centre() {
    let mut quad = Quad::new([10.0, 10.0], [20.0, 20.0], 180.0, WHITE, transform);
    let matrix = quad.get_transform(transform);
    let corner = [matrix[12], matrix[13]];
    let opposite = [matrix[0] + matrix[4] + matrix[12], matrix[1] + matrix[5] + matrix[13]];
    assert!((corner[0] - 30.0).abs() < 0.001 && (corner[1] - 30.0).abs() < 0.001);
    assert!((opposite[0] - 10.0).abs() < 0.001 && (opposite[1] - 10.0).abs() < 0.001);
    let centre = [0.5 * matrix[0] + 0.5 * matrix[4] + matrix[12], 0.5 * matrix[1] + 0.5 * matrix[5] + matrix[13]];
    assert!((centre[0] - 20.0).abs() < 0.001 && (centre[1] - 20.0).abs() < 0.001);
}

#[test]
fn a_fresh_transform_is_not_computed_again() {
    let calls = Cell::new(0u32);
    let counted = |position: [f32; 2], size: [f32; 2], rotation: f32| {
        calls.set(calls.get() + 1);
        transform(position, size, rotation)
    };
    let mut quad = Quad::new([1.0, 2.0], [3.0, 4.0], 0.0, WHITE, &counted);
    assert_eq!(calls.get(), 1);
    let first = quad.get_transform(&counted);
    let second = quad.get_transform(&counted);
    let third = quad.get_transform(&counted);
    assert_eq!(calls.get(), 1);
    assert_eq!(first, second);
    assert_eq!(second, third);
}

#[test]
fn a_fresh_transform_is_returned_whatever_the_computation_would_give() {
    let mut quad = Quad::new([1.0, 2.0], [3.0, 4.0], 0.0, WHITE, transform);
    let first = quad.get_transform(transform);
    let second = quad.get_transform(|_, _, _| [7.0; 16]);
    assert_eq!(first, second);
}

#[test]
fn every_mutator_makes_the_next_transform_new() {
    let calls = Cell::new(0u32);
    let counted = |position: [f32; 2], size: [f32; 2], rotation: f32| {
        calls.set(calls.get() + 1);
        transform(position, size, rotation)
    };
    let mut quad = Quad::new([0.0, 0.0], [10.0, 10.0], 0.0, WHITE, &counted);
    let start = quad.get_transform(&counted);
    assert_eq!(calls.get(), 1);

    quad.set_position([5.0, 6.0]);
    assert!(quad.transform_needs_update());
    let moved = quad.get_transform(&counted);
    assert_eq!(calls.get(), 2);
    assert_ne!(moved, start);
    assert_eq!(moved[12], 5.0);
    assert_eq!(moved[13], 6.0);
    assert_eq!(quad.get_transform(&counted), moved);
    assert_eq!(calls.get(), 2);

    quad.set_size([20.0, 30.0]);
    let sized = quad.get_transform(&counted);
    assert_eq!(calls.get(), 3);
    assert_eq!(sized[0], 20.0);
    assert_eq!(sized[5], 30.0);
    assert_eq!(quad.get_transform(&counted), sized);
    assert_eq!(calls.get(), 3);

    quad.set_rotation(90.0);
    let turned = quad.get_transform(&counted);
    assert_eq!(calls.get(), 4);
    assert_ne!(turned, sized);
    assert_eq!(quad.get_transform(&counted), turned);
    assert_eq!(calls.get(), 4);

    quad.set_z_index(-3);
    assert!(quad.transform_needs_update());
    let deeper = quad.get_transform(&counted);
    assert_eq!(calls.get(), 5);
    assert_eq!(deeper, turned);
    assert!(!quad.transform_needs_update());
}

#[test]
fn setters_change_one_field_each() {
    let mut quad = Quad::new([1.0, 2.0], [3.0, 4.0], 5.0, WHITE, transform);
    quad.set_position([9.0, 8.0]);
    assert_eq!(quad.get_position(), [9.0, 8.0]);
    assert_eq!(quad.get_size(), [3.0, 4.0]);
    assert_eq!(quad.get_rotation(), 5.0);
    quad.set_size([7.0, 6.0]);
    assert_eq!(quad.get_position(), [9.0, 8.0]);
    assert_eq!(quad.get_size(), [7.0, 6.0]);
    quad.set_rotation(45.0);
    assert_eq!(quad.get_rotation(), 45.0);
    quad.set_z_index(12);
    assert_eq!(quad.get_z_index(), 12);
    assert_eq!(quad.get_size(), [7.0, 6.0]);
    quad.color = [1.0, 0.0, 0.0, 1.0];
    assert_eq!(quad.get_color(), [1.0, 0.0, 0.0, 1.0]);
}

#[test]
fn changing_the_colour_keeps_the_transform() {
    let mut quad = Quad::new([1.0, 2.0], [3.0, 4.0], 0.0, WHITE, transform);
    quad.color = [0.5, 0.5, 0.5, 1.0];
    assert!(!quad.transform_needs_update());
}
