//! Plain descriptions of texture data: raw pixels and rectangles of
//! texture coordinates.

use vstd::prelude::*;

verus! {

/// The one pixel of the texture that untextured quads are drawn with:
/// white and fully opaque.
pub const WHITE_PIXEL: [u8; 4] = [255, 255, 255, 255];

/// Decoded RGBA pixels, four bytes for each pixel, row after row.
pub struct RawRgbaImageData<'a> {
    pub pixels: &'a [u8],
    pub width: u32,
    pub height: u32,
}

impl RawRgbaImageData<'static> {
    /// The image of one white, fully opaque pixel.
    pub fn white_pixel() -> (image: Self)
        ensures
            image.pixels@ == seq![255u8, 255u8, 255u8, 255u8],
            image.width == 1,
            image.height == 1,
    {
        let image = RawRgbaImageData { pixels: WHITE_PIXEL.as_slice(), width: 1, height: 1 };
        assert(image.pixels@ =~= seq![255u8, 255u8, 255u8, 255u8]);
        image
    }
}

/// A rectangle of a texture, in texture coordinates: where it starts and
/// how far it extends.
pub struct Texture2DCoordinates<S> {
    pub size: [S; 2],
    pub offset: [S; 2],
}

impl<S: Copy> Clone for Texture2DCoordinates<S> {
    fn clone(&self) -> (copy: Self)
        ensures
            copy == *self,
    {
        *self
    }
}

impl<S: Copy> Copy for Texture2DCoordinates<S> {

}

impl<S: Copy> Texture2DCoordinates<S> {
    /// The rectangle whose corner is at (`left`, `top`) and which extends
    /// `right` wide and `bottom` high.
    pub fn new(top: S, left: S, bottom: S, right: S) -> (coords: Self)
        ensures
            coords.size@ == seq![right, bottom],
            coords.offset@ == seq![left, top],
    {
        let coords = Self { size: [right, bottom], offset: [left, top] };
        assert(coords.size@ =~= seq![right, bottom]);
        assert(coords.offset@ =~= seq![left, top]);
        coords
    }

    /// The whole texture: the rectangle that starts at (`zero`, `zero`) and
    /// extends `one` in both directions.
    pub fn full(zero: S, one: S) -> (coords: Self)
        ensures
            coords.size@ == seq![one, one],
            coords.offset@ == seq![zero, zero],
    {
        Self::new(zero, zero, one, one)
    }
}

/// Whether `cell` is the rectangle of the sprite in column `column` of row
/// `row` of a sheet of `sprite_width` by `sprite_height` sprites on a
/// texture of `texture_width` by `texture_height`, where `ratio` turns a
/// length in pixels and the extent of the texture into a texture
/// coordinate.
pub open spec fn is_sprite_cell<S, F: Fn(u32, u32) -> S>(
    ratio: F,
    texture_width: u32,
    texture_height: u32,
    sprite_width: u32,
    sprite_height: u32,
    column: int,
    row: int,
    cell: Texture2DCoordinates<S>,
) -> bool {
    &&& call_ensures(ratio, (sprite_width, texture_width), cell.size@[0])
    &&& call_ensures(ratio, (sprite_height, texture_height), cell.size@[1])
    &&& call_ensures(ratio, ((column * sprite_width) as u32, texture_width), cell.offset@[0])
    &&& call_ensures(ratio, ((row * sprite_height) as u32, texture_height), cell.offset@[1])
}

/// The rectangles of the sprites of a sheet: a texture cut into rows and
/// columns of sprites of one size. The sprites are numbered row after row,
/// from the top left.
pub struct SpriteSheetCoordinates<S> {
    coords: Vec<Texture2DCoordinates<S>>,
    cols: usize,
}

impl<S> View for SpriteSheetCoordinates<S> {
    type V = Seq<Texture2DCoordinates<S>>;

    /// The rectangles in the order of their numbers.
    closed spec fn view(&self) -> Seq<Texture2DCoordinates<S>> {
        self.coords@
    }
}

impl<S: Copy> SpriteSheetCoordinates<S> {
    /// The number of sprites in a row.
    pub closed spec fn cols(&self) -> nat {
        self.cols as nat
    }

    /// Cuts a texture of `texture_width` by `texture_height` pixels into
    /// sprites of `sprite_size`, as many whole sprites as fit into each row
    /// and as many whole rows as fit into the texture.
    pub fn new<F: Fn(u32, u32) -> S>(
        texture_width: u32,
        texture_height: u32,
        sprite_size: (u32, u32),
        ratio: F,
    ) -> (sheet: Self)
        requires
            sprite_size.0 > 0,
            sprite_size.1 > 0,
            forall|length: u32| call_requires(ratio, (length, texture_width)),
            forall|length: u32| call_requires(ratio, (length, texture_height)),
        ensures
            sheet.cols() == texture_width / sprite_size.0,
            sheet@.len() == (texture_height / sprite_size.1) * (texture_width / sprite_size.0),
            forall|i: int|
                0 <= i < sheet@.len() ==> is_sprite_cell(
                    ratio,
                    texture_width,
                    texture_height,
                    sprite_size.0,
                    sprite_size.1,
                    i % (sheet.cols() as int),
                    i / (sheet.cols() as int),
                    #[trigger] sheet@[i],
                ),
            forall|i: int| 0 <= i < sheet@.len() ==> (#[trigger] sheet@[i]).size == sheet@[0].size,
    {
        let (sprite_width, sprite_height) = sprite_size;
        let size = [ratio(sprite_width, texture_width), ratio(sprite_height, texture_height)];
        let mut atlas_coords: Vec<Texture2DCoordinates<S>> = Vec::new();
        let rows = texture_height / sprite_height;
        let cols = texture_width / sprite_width;
        let mut y: u32 = 0;
        while y < rows
            invariant
                y <= rows,
                rows == texture_height / sprite_height,
                cols == texture_width / sprite_width,
                sprite_width > 0,
                sprite_height > 0,
                forall|length: u32| call_requires(ratio, (length, texture_width)),
                forall|length: u32| call_requires(ratio, (length, texture_height)),
                call_ensures(ratio, (sprite_width, texture_width), size@[0]),
                call_ensures(ratio, (sprite_height, texture_height), size@[1]),
                atlas_coords@.len() == y * cols,
                forall|i: int|
                    0 <= i < atlas_coords@.len() ==> is_sprite_cell(
                        ratio,
                        texture_width,
                        texture_height,
                        sprite_width,
                        sprite_height,
                        i % (cols as int),
                        i / (cols as int),
                        #[trigger] atlas_coords@[i],
                    ),
                forall|i: int| 0 <= i < atlas_coords@.len() ==> (#[trigger] atlas_coords@[i]).size == size,
            decreases rows - y,
        {
            let mut x: u32 = 0;
            while x < cols
                invariant
                    x <= cols,
                    y < rows,
                    rows == texture_height / sprite_height,
                    cols == texture_width / sprite_width,
                    sprite_width > 0,
                    sprite_height > 0,
                    forall|length: u32| call_requires(ratio, (length, texture_width)),
                    forall|length: u32| call_requires(ratio, (length, texture_height)),
                    call_ensures(ratio, (sprite_width, texture_width), size@[0]),
                    call_ensures(ratio, (sprite_height, texture_height), size@[1]),
                    atlas_coords@.len() == y * cols + x,
                    forall|i: int|
                        0 <= i < atlas_coords@.len() ==> is_sprite_cell(
                            ratio,
                            texture_width,
                            texture_height,
                            sprite_width,
                            sprite_height,
                            i % (cols as int),
                            i / (cols as int),
                            #[trigger] atlas_coords@[i],
                        ),
                    forall|i: int| 0 <= i < atlas_coords@.len() ==> (#[trigger] atlas_coords@[i]).size == size,
                decreases cols - x,
            {
                proof {
                    lemma_whole_sprites_fit(x as int, sprite_width as int, texture_width as int);
                    lemma_whole_sprites_fit(y as int, sprite_height as int, texture_height as int);
                    lemma_cell_index(x as int, y as int, cols as int);
                }
                let offset = [ratio(x * sprite_width, texture_width), ratio(y * sprite_height, texture_height)];
                let cell = Texture2DCoordinates { size, offset };
                atlas_coords.push(cell);
                x = x + 1;
            }
            proof {
                assert(y * cols + cols == (y + 1) * cols) by (nonlinear_arith);
            }
            y = y + 1;
        }
        Self { coords: atlas_coords, cols: cols as usize }
    }

    /// The rectangle of the sprite in column `x` of row `y`: the sprite
    /// with the number `y * cols + x`, if the sheet has one.
    pub fn get_coords(&self, x: usize, y: usize) -> (coords: Option<Texture2DCoordinates<S>>)
        ensures
            coords == (if y * self.cols() + x < self@.len() {
                Some(self@[y * self.cols() + x])
            } else {
                None
            }),
    {
        let len = self.coords.len();
        assert(self@.len() == len);
        match y.checked_mul(self.cols) {
            Some(start) => match start.checked_add(x) {
                Some(index) => self.get_coords_by_index(index),
                None => None,
            },
            None => None,
        }
    }

    /// The rectangle of the sprite with the number `index`, if the sheet
    /// has one.
    pub fn get_coords_by_index(&self, index: usize) -> (coords: Option<Texture2DCoordinates<S>>)
        ensures
            coords == (if index < self@.len() {
                Some(self@[index as int])
            } else {
                None
            }),
    {
        if index < self.coords.len() {
            Some(self.coords[index])
        } else {
            None
        }
    }

    /// The number of sprites.
    pub fn len(&self) -> (len: usize)
        ensures
            len == self@.len(),
    {
        self.coords.len()
    }
}

/// The first `count` sprites of a row end within the row, if `count` is
/// less than the number of whole sprites that fit.
proof fn lemma_whole_sprites_fit(count: int, sprite: int, texture: int)
    requires
        sprite > 0,
        texture >= 0,
        0 <= count < texture / sprite,
    ensures
        0 <= count * sprite <= texture,
{
    assert(texture / sprite * sprite <= texture) by (nonlinear_arith)
        requires
            sprite > 0,
            texture >= 0,
    ;
    assert(count * sprite <= texture / sprite * sprite) by (nonlinear_arith)
        requires
            sprite > 0,
            0 <= count < texture / sprite,
    ;
    assert(0 <= count * sprite) by (nonlinear_arith)
        requires
            sprite > 0,
            0 <= count,
    ;
}

/// The sprite with the number `row * cols + column` is the one in column
/// `column` of row `row`.
proof fn lemma_cell_index(column: int, row: int, cols: int)
    requires
        0 <= column < cols,
        0 <= row,
    ensures
        (row * cols + column) % cols == column,
        (row * cols + column) / cols == row,
{
    vstd::arithmetic::div_mod::lemma_fundamental_div_mod_converse(row * cols + column, cols, row, column);
}

} // verus!
