use navagfx_engine::assets::texture::RawRgbaImageData;
use navagfx_engine::assets::texture::SpriteSheetCoordinates;
use navagfx_engine::assets::texture::WHITE_PIXEL;
use navagfx_engine::graphics::renderer2d::quad_index_bytes;
use navagfx_engine::graphics::renderer2d::QUAD_INDICES;

fn ratio(length: u32, extent: u32) -> f32 {
    length as f32 / extent as f32
}

#[test]
fn a_row_of_two_sprites() {
    let sheet = SpriteSheetCoordinates::new(192, 96, (96, 96), ratio);
    assert_eq!(sheet.len(), 2);
    let first = sheet.get_coords(0, 0).unwrap();
    let second = sheet.get_coords(1, 0).unwrap();
    assert_eq!(first.offset, [0.0, 0.0]);
    assert_eq!(first.size, [0.5, 1.0]);
    assert_eq!(second.offset, [0.5, 0.0]);
    assert_eq!(second.size, [0.5, 1.0]);
}

#[test]
fn sprites_are_numbered_row_after_row() {
    let sheet = SpriteSheetCoordinates::new(100, 50, (25, 10), ratio);
    assert_eq!(sheet.len(), 20);
    for y in 0..5usize {
        for x in 0..4usize {
            let by_place = sheet.get_coords(x, y).unwrap();
            let by_index = sheet.get_coords_by_index(y * 4 + x).unwrap();
            assert_eq!(by_place.offset, by_index.offset);
            assert_eq!(by_place.offset, [x as f32 * 0.25, y as f32 * 0.2]);
            assert_eq!(by_place.size, [0.25, 0.2]);
        }
    }
}

#[test]
fn only_whole_sprites_count() {
    let sheet = SpriteSheetCoordinates::new(100, 50, (30, 20), ratio);
    assert_eq!(sheet.len(), 6);
    assert_eq!(sheet.get_coords(2, 1).unwrap().offset, [0.6, 0.4]);
    assert!(sheet.get_coords_by_index(6).is_none());
    assert!(sheet.get_coords(0, 2).is_none());
}

#[test]
fn a_column_past_the_row_is_the_start_of_the_next_row() {
    let sheet = SpriteSheetCoordinates::new(100, 50, (25, 10), ratio);
    assert_eq!(sheet.get_coords(4, 0).unwrap().offset, sheet.get_coords(0, 1).unwrap().offset);
    assert!(sheet.get_coords(4, 4).is_none());
}

#[test]
fn a_sprite_larger_than_the_texture_gives_an_empty_sheet() {
    let wide = SpriteSheetCoordinates::new(10, 10, (20, 5), ratio);
    assert_eq!(wide.len(), 0);
    assert!(wide.get_coords(0, 0).is_none());
    assert!(wide.get_coords(3, 1).is_none());
    let tall = SpriteSheetCoordinates::new(10, 10, (5, 20), ratio);
    assert_eq!(tall.len(), 0);
    assert!(tall.get_coords_by_index(0).is_none());
}

#[test]
fn huge_places_are_absent() {
    let sheet = SpriteSheetCoordinates::new(64, 64, (32, 32), ratio);
    assert_eq!(sheet.len(), 4);
    assert!(sheet.get_coords(usize::MAX, usize::MAX).is_none());
    assert!(sheet.get_coords(1, usize::MAX).is_none());
    assert!(sheet.get_coords(usize::MAX, 1).is_none());
    assert!(sheet.get_coords_by_index(usize::MAX).is_none());
}

#[test]
fn the_white_pixel_is_one_opaque_white_pixel() {
    let image = RawRgbaImageData::white_pixel();
    assert_eq!(image.pixels, &[255u8, 255, 255, 255]);
    assert_eq!(image.width, 1);
    assert_eq!(image.height, 1);
    assert_eq!(WHITE_PIXEL, [255, 255, 255, 255]);
}

#[test]
fn index_bytes_are_the_indices_in_machine_byte_order() {
    let bytes = quad_index_bytes();
    assert_eq!(bytes.len(), 12);
    let mut expected = Vec::new();
    for index in QUAD_INDICES {
        expected.extend_from_slice(&index.to_ne_bytes());
    }
    assert_eq!(bytes, expected);
    let decoded: Vec<u16> = bytes.chunks(2).map(|pair| u16::from_ne_bytes([pair[0], pair[1]])).collect();
    assert_eq!(decoded, vec![0, 1, 2, 2, 3, 0]);
}
