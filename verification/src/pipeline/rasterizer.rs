//! Tiles, their depth test, the binning of triangles into tiles and the
//! blit of tiles into the screen.
//!
//! Depths are unsigned keys that are ordered like the depths they stand
//! for: a smaller key is closer to the viewer. The largest key marks a
//! pixel that nothing has been drawn on.
use crate::algorithm::{lemma_cell_in_grid, lemma_cells_apart, lemma_pixel_offset};
use crate::graphics::screen::Screen;
use vstd::arithmetic::div_mod::{
    lemma_fundamental_div_mod, lemma_fundamental_div_mod_converse, lemma_mod_pos_bound,
};
use vstd::prelude::*;

verus! {

/// Depth key of a pixel that nothing has been drawn on. No fragment is
/// closer than itself, so a fragment with this key is never drawn.
pub const FARTHEST: u64 = 0xffff_ffff_ffff_ffff;

/// Number of tiles of side `tile_size` that it takes to span `extent`
/// pixels.
pub open spec fn tiles_across(extent: nat, tile_size: nat) -> nat
    recommends
        tile_size > 0,
{
    ((extent + tile_size - 1) / (tile_size as int)) as nat
}

/// Bounding box of a triangle in screen pixels, both ends included.
#[derive(Clone, Copy, Debug, PartialEq, Eq, Structural)]
pub struct Aabb {
    /// First column.
    pub min_x: usize,
    /// Last column.
    pub max_x: usize,
    /// First row.
    pub min_y: usize,
    /// Last row.
    pub max_y: usize,
}

/// A triangle as one tile sees it: where it starts in the index list, and
/// the part of its bounding box that falls into the tile, in the tile's own
/// coordinates, both ends included.
#[derive(Clone, Copy, Debug, PartialEq, Eq, Structural)]
pub struct BinnedTriangle {
    /// First column inside the tile.
    pub min_x: usize,
    /// First row inside the tile.
    pub min_y: usize,
    /// Last column inside the tile.
    pub max_x: usize,
    /// Last row inside the tile.
    pub max_y: usize,
    /// Position of the triangle's first index in the index list.
    pub triangle_start: usize,
}

impl BinnedTriangle {
    /// A binned triangle with every field zero.
    pub fn new() -> (binned: BinnedTriangle)
        ensures
            binned == (BinnedTriangle {
                min_x: 0,
                min_y: 0,
                max_x: 0,
                max_y: 0,
                triangle_start: 0,
            }),
    {
        BinnedTriangle { min_x: 0, min_y: 0, max_x: 0, max_y: 0, triangle_start: 0 }
    }
}

/// Mathematical content of a [`Tile`].
pub struct TileView {
    /// Side of the tile, in pixels.
    pub size: nat,
    /// Depth key of each pixel, row by row.
    pub depth: Seq<u64>,
    /// Four colour bytes of each pixel, row by row.
    pub color: Seq<u8>,
}

impl TileView {
    /// Both buffers hold `size * size` pixels.
    pub open spec fn wf(self) -> bool {
        &&& self.depth.len() == self.size * self.size
        &&& self.color.len() == 4 * (self.size * self.size)
    }

    /// Position of the pixel at column `x`, row `y` in the depth buffer.
    pub open spec fn index(self, x: int, y: int) -> int {
        x + y * self.size
    }

    /// The pixel lies inside the tile.
    pub open spec fn contains(self, x: int, y: int) -> bool {
        0 <= x < self.size && 0 <= y < self.size
    }

    /// Depth key of the pixel at column `x`, row `y`.
    pub open spec fn depth_at(self, x: int, y: int) -> u64 {
        self.depth[self.index(x, y)]
    }

    /// The four colour bytes of the pixel at column `x`, row `y`.
    pub open spec fn pixel(self, x: int, y: int) -> Seq<u8> {
        self.color.subrange(4 * self.index(x, y), 4 * self.index(x, y) + 4)
    }

    /// Something has been drawn on the pixel since the tile was cleared.
    pub open spec fn covered(self, x: int, y: int) -> bool {
        self.depth_at(x, y) != FARTHEST
    }

    /// The depth test: a fragment is drawn where it lies inside the tile
    /// and is strictly closer than what the pixel holds.
    pub open spec fn accepts(self, x: int, y: int, depth: u64) -> bool {
        self.contains(x, y) && depth < self.depth_at(x, y)
    }

    /// The tile after a fragment of the given depth and colour was offered
    /// to the pixel at column `x`, row `y`.
    pub open spec fn plot(self, x: int, y: int, depth: u64, rgba: Seq<u8>) -> TileView {
        if self.accepts(x, y, depth) {
            let first = 4 * self.index(x, y);
            TileView {
                size: self.size,
                depth: self.depth.update(self.index(x, y), depth),
                color: Seq::new(
                    self.color.len(),
                    |i: int|
                        if first <= i < first + 4 {
                            rgba[i - first]
                        } else {
                            self.color[i]
                        },
                ),
            }
        } else {
            self
        }
    }

    /// No pixel has been drawn on.
    pub open spec fn is_clear(self) -> bool {
        forall|i: int| 0 <= i < self.depth.len() ==> self.depth[i] == FARTHEST
    }

    /// Every colour byte is zero.
    pub open spec fn is_black(self) -> bool {
        forall|i: int| 0 <= i < self.color.len() ==> self.color[i] == 0
    }

    /// What the tile shows at column `x`, row `y`: the pixel's colour where
    /// something was drawn, the background elsewhere.
    pub open spec fn shown(self, x: int, y: int, background: Seq<u8>) -> Seq<u8> {
        if self.covered(x, y) {
            self.pixel(x, y)
        } else {
            background
        }
    }
}

/// Colour and depth scratch of one square region of the screen.
#[derive(Clone)]
pub struct Tile {
    size: usize,
    depth_buf: Vec<u64>,
    frame_buf: Vec<u8>,
}

impl View for Tile {
    type V = TileView;

    closed spec fn view(&self) -> TileView {
        TileView { size: self.size as nat, depth: self.depth_buf@, color: self.frame_buf@ }
    }
}

impl Tile {
    /// Both buffers hold `size * size` pixels.
    pub open spec fn wf(&self) -> bool {
        self@.wf()
    }

    /// A cleared tile of the given side with all colour bytes zero.
    pub fn new(size: usize) -> (tile: Tile)
        requires
            4 * (size * size) <= usize::MAX,
        ensures
            tile.wf(),
            tile@.size == size,
            tile@.is_clear(),
            tile@.is_black(),
    {
        assert(0 <= size * size <= 4 * (size * size)) by (nonlinear_arith)
            requires
                0 <= size,
        ;
        let pixels = size * size;
        let mut depth_buf: Vec<u64> = Vec::with_capacity(pixels);
        let mut frame_buf: Vec<u8> = Vec::with_capacity(4 * pixels);
        let mut i: usize = 0;
        while i < pixels
            invariant
                i <= pixels,
                4 * pixels <= usize::MAX,
                depth_buf@.len() == i,
                frame_buf@.len() == 4 * i,
                forall|k: int| 0 <= k < i ==> depth_buf@[k] == FARTHEST,
                forall|k: int| 0 <= k < 4 * i ==> frame_buf@[k] == 0,
            decreases pixels - i,
        {
            depth_buf.push(FARTHEST);
            frame_buf.push(0);
            frame_buf.push(0);
            frame_buf.push(0);
            frame_buf.push(0);
            i += 1;
        }
        Tile { size, depth_buf, frame_buf }
    }

    /// Forgets what was drawn: every depth goes back to [`FARTHEST`]. The
    /// colour bytes stay; a cleared pixel no longer shows them.
    pub fn clear(&mut self)
        requires
            old(self).wf(),
        ensures
            final(self).wf(),
            final(self)@.size == old(self)@.size,
            final(self)@.color == old(self)@.color,
            final(self)@.is_clear(),
    {
        let pixels = self.depth_buf.len();
        let mut i: usize = 0;
        while i < pixels
            invariant
                i <= pixels,
                self.depth_buf@.len() == pixels,
                self.size == old(self).size,
                self.frame_buf == old(self).frame_buf,
                forall|k: int| 0 <= k < i ==> self.depth_buf@[k] == FARTHEST,
            decreases pixels - i,
        {
            self.depth_buf[i] = FARTHEST;
            i += 1;
        }
    }

    /// Offers a fragment to the pixel at column `x`, row `y`. Where it
    /// passes the depth test the pixel takes its depth and colour;
    /// otherwise, and outside the tile, nothing changes.
    pub fn write_fragment(&mut self, x: usize, y: usize, depth: u64, rgba: [u8; 4]) -> (drawn: bool)
        requires
            old(self).wf(),
        ensures
            final(self).wf(),
            drawn == old(self)@.accepts(x as int, y as int, depth),
            final(self)@ == old(self)@.plot(x as int, y as int, depth, rgba@),
    {
        if x >= self.size || y >= self.size {
            return false;
        }
        let pixels = self.depth_buf.len();
        let bytes = self.frame_buf.len();
        proof {
            lemma_cell_in_grid(x as int, y as int, self.size as int);
        }
        let index = x + y * self.size;
        if depth < self.depth_buf[index] {
            self.depth_buf[index] = depth;
            self.frame_buf[4 * index] = rgba[0];
            self.frame_buf[4 * index + 1] = rgba[1];
            self.frame_buf[4 * index + 2] = rgba[2];
            self.frame_buf[4 * index + 3] = rgba[3];
            assert(self@.color =~= old(self)@.plot(x as int, y as int, depth, rgba@).color);
            true
        } else {
            false
        }
    }

    /// Whether a fragment of the given depth would be drawn at column `x`,
    /// row `y`.
    pub fn passes(&self, x: usize, y: usize, depth: u64) -> (drawn: bool)
        requires
            self.wf(),
        ensures
            drawn == self@.accepts(x as int, y as int, depth),
    {
        if x >= self.size || y >= self.size {
            return false;
        }
        let pixels = self.depth_buf.len();
        proof {
            lemma_cell_in_grid(x as int, y as int, self.size as int);
        }
        depth < self.depth_buf[x + y * self.size]
    }

    /// What the tile shows at column `x`, row `y`: the pixel's colour where
    /// something was drawn since the last clear, `background` elsewhere.
    pub fn shown(&self, x: usize, y: usize, background: &[u8; 4]) -> (rgba: [u8; 4])
        requires
            self.wf(),
            x < self@.size,
            y < self@.size,
        ensures
            rgba@ == self@.shown(x as int, y as int, background@),
    {
        let pixels = self.depth_buf.len();
        let bytes = self.frame_buf.len();
        proof {
            lemma_cell_in_grid(x as int, y as int, self.size as int);
        }
        let index = x + y * self.size;
        if self.depth_buf[index] != FARTHEST {
            let rgba = [
                self.frame_buf[4 * index],
                self.frame_buf[4 * index + 1],
                self.frame_buf[4 * index + 2],
                self.frame_buf[4 * index + 3],
            ];
            assert(rgba@ =~= self@.pixel(x as int, y as int));
            rgba
        } else {
            *background
        }
    }

    /// Side of the tile, in pixels.
    pub fn size(&self) -> (size: usize)
        ensures
            size == self@.size,
    {
        self.size
    }

    /// Both buffers, for reading and writing in place: the colour bytes
    /// and the depth keys. Their lengths cannot change.
    pub fn get_buffers(&mut self) -> (buffers: (&mut [u8], &mut [u64]))
        ensures
            buffers.0@ == old(self)@.color,
            buffers.1@ == old(self)@.depth,
            final(self)@.size == old(self)@.size,
            final(self)@.color == final(buffers.0)@,
            final(self)@.depth == final(buffers.1)@,
    {
        (self.frame_buf.as_mut_slice(), self.depth_buf.as_mut_slice())
    }
}

/// Mathematical content of a [`Rasterizer`].
pub struct RasterizerView {
    /// Side of a tile, in pixels.
    pub tile_size: nat,
    /// Width of the screen that the tiles cover, in pixels.
    pub width: nat,
    /// Height of the screen that the tiles cover, in pixels.
    pub height: nat,
    /// The tiles, left to right, top to bottom.
    pub tiles: Seq<TileView>,
}

impl RasterizerView {
    /// Number of tiles in a row of the grid.
    pub open spec fn tiles_x(self) -> nat {
        tiles_across(self.width, self.tile_size)
    }

    /// Number of rows of the grid.
    pub open spec fn tiles_y(self) -> nat {
        tiles_across(self.height, self.tile_size)
    }

    /// The grid spans the screen, and every tile has the grid's tile size.
    pub open spec fn wf(self) -> bool {
        &&& self.tile_size > 0
        &&& self.tiles.len() == self.tiles_x() * self.tiles_y()
        &&& forall|i: int|
            0 <= i < self.tiles.len() ==> (#[trigger] self.tiles[i]).wf() && self.tiles[i].size
                == self.tile_size
    }

    /// The tile in column `tx`, row `ty` of the grid.
    pub open spec fn tile(self, tx: int, ty: int) -> TileView {
        self.tiles[tx + ty * self.tiles_x()]
    }

    /// Number of screen columns that the tiles in grid column `tx` cover:
    /// a whole tile, or what is left of the screen's width.
    pub open spec fn columns_of(self, tx: int) -> int {
        if self.tile_size <= self.width - tx * self.tile_size {
            self.tile_size as int
        } else {
            self.width - tx * self.tile_size
        }
    }

    /// Number of screen rows that the tiles in grid row `ty` cover: a whole
    /// tile, or what is left of the screen's height.
    pub open spec fn rows_of(self, ty: int) -> int {
        if self.tile_size <= self.height - ty * self.tile_size {
            self.tile_size as int
        } else {
            self.height - ty * self.tile_size
        }
    }

    /// The screen pixel at column `x`, row `y` is one that the tile in
    /// column `tx`, row `ty` of the grid is blitted to.
    pub open spec fn in_tile(self, x: int, y: int, tx: int, ty: int) -> bool {
        &&& tx * self.tile_size <= x < tx * self.tile_size + self.columns_of(tx)
        &&& ty * self.tile_size <= y < ty * self.tile_size + self.rows_of(ty)
    }

    /// What the tiles show at the screen pixel at column `x`, row `y`.
    pub open spec fn shown(self, x: int, y: int, background: Seq<u8>) -> Seq<u8> {
        let t = self.tile_size as int;
        self.tile(x / t, y / t).shown(x % t, y % t, background)
    }

    /// Last screen column of a bounding box once it is cut off at the
    /// screen's right edge.
    pub open spec fn last_column(self, b: Aabb) -> int {
        if b.max_x < self.width {
            b.max_x as int
        } else {
            self.width - 1
        }
    }

    /// Last screen row of a bounding box once it is cut off at the screen's
    /// bottom edge.
    pub open spec fn last_row(self, b: Aabb) -> int {
        if b.max_y < self.height {
            b.max_y as int
        } else {
            self.height - 1
        }
    }

    /// The bounding box, cut off at the screen's edges, reaches into the
    /// tile in column `tx`, row `ty` of the grid.
    pub open spec fn touches(self, b: Aabb, tx: int, ty: int) -> bool {
        let t = self.tile_size as int;
        &&& tx * t <= self.last_column(b)
        &&& b.min_x < tx * t + t
        &&& ty * t <= self.last_row(b)
        &&& b.min_y < ty * t + t
    }

    /// The entry that the tile in column `tx`, row `ty` gets for a triangle
    /// with bounding box `b` whose indices start at `start`: the box cut
    /// off at the tile's edges, relative to the tile's corner.
    pub open spec fn binned(self, b: Aabb, tx: int, ty: int, start: int) -> BinnedTriangle {
        let t = self.tile_size as int;
        BinnedTriangle {
            min_x: (if b.min_x > tx * t {
                b.min_x - tx * t
            } else {
                0
            }) as usize,
            min_y: (if b.min_y > ty * t {
                b.min_y - ty * t
            } else {
                0
            }) as usize,
            max_x: (if self.last_column(b) - tx * t < t - 1 {
                self.last_column(b) - tx * t
            } else {
                t - 1
            }) as usize,
            max_y: (if self.last_row(b) - ty * t < t - 1 {
                self.last_row(b) - ty * t
            } else {
                t - 1
            }) as usize,
            triangle_start: start as usize,
        }
    }

    /// The bin of the tile in column `tx`, row `ty`: one entry for each
    /// triangle whose bounding box reaches into the tile, in the order of
    /// the triangles. Triangle `k` has bounding box `boxes[k]` and starts at
    /// index `3 * k`.
    pub open spec fn bin(self, boxes: Seq<Aabb>, tx: int, ty: int) -> Seq<BinnedTriangle>
        decreases boxes.len(),
    {
        if boxes.len() == 0 {
            Seq::empty()
        } else {
            let k = boxes.len() - 1;
            let rest = self.bin(boxes.drop_last(), tx, ty);
            if self.touches(boxes[k], tx, ty) {
                rest.push(self.binned(boxes[k], tx, ty, 3 * k))
            } else {
                rest
            }
        }
    }

    /// No pixel of any tile has been drawn on.
    pub open spec fn is_clear(self) -> bool {
        forall|i: int| 0 <= i < self.tiles.len() ==> (#[trigger] self.tiles[i]).is_clear()
    }
}

/// The tiles that the screen is divided into, each with its own colour and
/// depth scratch. Tiles go left to right, top to bottom.
pub struct Rasterizer {
    tile_size: usize,
    width: usize,
    height: usize,
    tiles: Vec<Tile>,
}

impl View for Rasterizer {
    type V = RasterizerView;

    closed spec fn view(&self) -> RasterizerView {
        RasterizerView {
            tile_size: self.tile_size as nat,
            width: self.width as nat,
            height: self.height as nat,
            tiles: Seq::new(self.tiles@.len(), |i: int| self.tiles@[i]@),
        }
    }
}

/// Number of tiles of side `tile_size` that it takes to span `extent`
/// pixels.
pub fn tiles_in(extent: usize, tile_size: usize) -> (n: usize)
    requires
        tile_size > 0,
    ensures
        n == tiles_across(extent as nat, tile_size as nat),
{
    proof {
        lemma_tiles_across(extent as int, tile_size as int);
        lemma_fundamental_div_mod(extent as int, tile_size as int);
        lemma_mod_pos_bound(extent as int, tile_size as int);
        if extent % tile_size != 0 {
            assert(extent / tile_size < extent) by (nonlinear_arith)
                requires
                    extent == tile_size * (extent / tile_size) + (extent % tile_size),
                    0 < extent % tile_size,
                    0 < tile_size,
                    0 <= extent / tile_size,
            ;
        }
    }
    let whole = extent / tile_size;
    if extent % tile_size != 0 {
        whole + 1
    } else {
        whole
    }
}

/// The screen pixel at which tile number `tile_nb` of a grid of
/// `nb_tiles_x` columns starts, as `(x, y)`. Tiles are numbered left to
/// right, top to bottom.
pub fn tile_origin(tile_nb: usize, nb_tiles_x: usize, tile_size: usize) -> (origin: (usize, usize))
    requires
        nb_tiles_x > 0,
        (tile_nb % nb_tiles_x) * tile_size <= usize::MAX,
        (tile_nb / nb_tiles_x) * tile_size <= usize::MAX,
    ensures
        origin.0 == (tile_nb % nb_tiles_x) * tile_size,
        origin.1 == (tile_nb / nb_tiles_x) * tile_size,
{
    ((tile_nb % nb_tiles_x) * tile_size, (tile_nb / nb_tiles_x) * tile_size)
}

impl Rasterizer {
    /// The grid spans the screen, and every tile has the grid's tile size.
    pub open spec fn wf(&self) -> bool {
        self@.wf()
    }

    /// A rasterizer for a screen of `width` by `height` pixels, divided
    /// into cleared tiles of side `tile_size`.
    pub fn new(tile_size: usize, width: usize, height: usize) -> (rasterizer: Rasterizer)
        requires
            tile_size > 0,
            4 * (tile_size * tile_size) <= usize::MAX,
            tiles_across(width as nat, tile_size as nat) * tiles_across(
                height as nat,
                tile_size as nat,
            ) <= usize::MAX,
        ensures
            rasterizer.wf(),
            rasterizer@.tile_size == tile_size,
            rasterizer@.width == width,
            rasterizer@.height == height,
            rasterizer@.is_clear(),
            forall|i: int|
                0 <= i < rasterizer@.tiles.len() ==> (#[trigger] rasterizer@.tiles[i]).is_black(),
    {
        let nb_tiles_x = tiles_in(width, tile_size);
        let nb_tiles_y = tiles_in(height, tile_size);
        let count = nb_tiles_x * nb_tiles_y;
        let mut tiles: Vec<Tile> = Vec::with_capacity(count);
        let mut i: usize = 0;
        while i < count
            invariant
                i <= count,
                4 * (tile_size * tile_size) <= usize::MAX,
                tiles@.len() == i,
                forall|k: int|
                    0 <= k < i ==> (#[trigger] tiles@[k])@.wf() && tiles@[k]@.size == tile_size
                        && tiles@[k]@.is_clear() && tiles@[k]@.is_black(),
            decreases count - i,
        {
            tiles.push(Tile::new(tile_size));
            i += 1;
        }
        Rasterizer { tile_size, width, height, tiles }
    }

    /// Forgets what was drawn in every tile, ready for the next frame.
    pub fn clear(&mut self)
        requires
            old(self).wf(),
        ensures
            final(self).wf(),
            final(self)@.tile_size == old(self)@.tile_size,
            final(self)@.width == old(self)@.width,
            final(self)@.height == old(self)@.height,
            final(self)@.is_clear(),
            forall|i: int|
                0 <= i < old(self)@.tiles.len() ==> (#[trigger] final(self)@.tiles[i]).color == old(self)@.tiles[i].color,
    {
        let count = self.tiles.len();
        let mut i: usize = 0;
        assert forall|k: int| 0 <= k < count implies (#[trigger] self.tiles@[k])@.wf() by {
            assert(self@.tiles[k].wf());
        }
        while i < count
            invariant
                i <= count,
                self.tiles@.len() == count,
                old(self).tiles@.len() == count,
                self.tile_size == old(self).tile_size,
                self.width == old(self).width,
                self.height == old(self).height,
                forall|k: int|
                    0 <= k < count ==> (#[trigger] self.tiles@[k])@.wf() && self.tiles@[k]@.size
                        == old(self).tiles@[k]@.size && self.tiles@[k]@.color == old(self).tiles@[k]@.color,
                forall|k: int| 0 <= k < i ==> (#[trigger] self.tiles@[k])@.is_clear(),
            decreases count - i,
        {
            self.tiles[i].clear();
            i += 1;
        }
        proof {
            assert forall|k: int| 0 <= k < self@.tiles.len() implies (#[trigger] self@.tiles[k]).wf()
                && self@.tiles[k].size == self@.tile_size && self@.tiles[k].is_clear()
                && self@.tiles[k].color == old(self)@.tiles[k].color by {
                assert(self.tiles@[k]@.wf());
                assert(old(self)@.tiles[k].size == old(self)@.tile_size);
            }
        }
    }

    /// Side of a tile, in pixels.
    pub fn tile_size(&self) -> (tile_size: usize)
        ensures
            tile_size == self@.tile_size,
    {
        self.tile_size
    }

    /// Width of the screen that the tiles cover.
    pub fn width(&self) -> (width: usize)
        ensures
            width == self@.width,
    {
        self.width
    }

    /// Height of the screen that the tiles cover.
    pub fn height(&self) -> (height: usize)
        ensures
            height == self@.height,
    {
        self.height
    }

    /// Number of tiles in a row of the grid.
    pub fn nb_tiles_x(&self) -> (n: usize)
        requires
            self.wf(),
        ensures
            n == self@.tiles_x(),
    {
        tiles_in(self.width, self.tile_size)
    }

    /// Number of rows of the grid.
    pub fn nb_tiles_y(&self) -> (n: usize)
        requires
            self.wf(),
        ensures
            n == self@.tiles_y(),
    {
        tiles_in(self.height, self.tile_size)
    }

    /// The tiles, left to right, top to bottom.
    pub fn tiles(&self) -> (tiles: &[Tile])
        ensures
            tiles@.len() == self@.tiles.len(),
            forall|i: int| 0 <= i < tiles@.len() ==> (#[trigger] tiles@[i])@ == self@.tiles[i],
    {
        self.tiles.as_slice()
    }

    /// The tiles, for drawing into them in place. Their number cannot
    /// change; the rasterizer stays well formed as long as every tile keeps
    /// its size.
    pub fn tiles_mut(&mut self) -> (tiles: &mut [Tile])
        ensures
            tiles@.len() == old(self)@.tiles.len(),
            forall|i: int| 0 <= i < tiles@.len() ==> (#[trigger] tiles@[i])@ == old(self)@.tiles[i],
            final(self)@.tile_size == old(self)@.tile_size,
            final(self)@.width == old(self)@.width,
            final(self)@.height == old(self)@.height,
            final(self)@.tiles.len() == final(tiles)@.len(),
            forall|i: int|
                0 <= i < final(tiles)@.len() ==> (#[trigger] final(self)@.tiles[i]) == final(tiles)@[i]@,
    {
        self.tiles.as_mut_slice()
    }

    /// Sorts triangles into the tiles that their bounding boxes reach
    /// into. The result has one bin per tile, in the order of the tiles;
    /// each bin lists its triangles in the order they were given.
    #[verifier::loop_isolation(false)]
    pub fn bin_triangles(&self, boxes: &Vec<Aabb>) -> (bins: Vec<Vec<BinnedTriangle>>)
        requires
            self.wf(),
            3 * boxes@.len() <= usize::MAX,
        ensures
            bins@.len() == self@.tiles.len(),
            forall|tx: int, ty: int|
                0 <= tx < self@.tiles_x() && 0 <= ty < self@.tiles_y() ==> bins@[tx + ty
                    * self@.tiles_x()]@ == #[trigger] self@.bin(boxes@, tx, ty),
    {
        let tile_size = self.tile_size;
        let nb_tiles_x = tiles_in(self.width, tile_size);
        let nb_tiles_y = tiles_in(self.height, tile_size);
        let count = self.tiles.len();
        let ghost view = self@;
        let ghost t = tile_size as int;
        let mut bins: Vec<Vec<BinnedTriangle>> = Vec::with_capacity(count);
        let mut i: usize = 0;
        while i < count
            invariant
                i <= count,
                bins@.len() == i,
                forall|j: int| 0 <= j < i ==> (#[trigger] bins@[j])@ == Seq::<BinnedTriangle>::empty(),
            decreases count - i,
        {
            bins.push(Vec::new());
            i += 1;
        }
        if self.width == 0 || self.height == 0 {
            proof {
                lemma_fundamental_div_mod_converse(t - 1, t, 0, t - 1);
                assert(nb_tiles_x == 0 || nb_tiles_y == 0);
                assert(nb_tiles_x * nb_tiles_y == 0) by (nonlinear_arith)
                    requires
                        nb_tiles_x == 0 || nb_tiles_y == 0,
                ;
            }
            return bins;
        }
        let mut k: usize = 0;
        proof {
            assert forall|tx: int, ty: int|
                0 <= tx < nb_tiles_x && 0 <= ty < nb_tiles_y implies bins@[tx + ty * nb_tiles_x]@
                == #[trigger] view.bin(boxes@.take(0), tx, ty) by {
                lemma_pixel_offset(tx, ty, nb_tiles_x as int, nb_tiles_y as int);
            }
        }
        while k < boxes.len()
            invariant
                k <= boxes@.len(),
                bins@.len() == count,
                forall|tx: int, ty: int|
                    0 <= tx < nb_tiles_x && 0 <= ty < nb_tiles_y ==> bins@[tx + ty * nb_tiles_x]@
                        == #[trigger] view.bin(boxes@.take(k as int), tx, ty),
            decreases boxes@.len() - k,
        {
            let b = boxes[k];
            let ghost prev = boxes@.take(k as int);
            let ghost next = boxes@.take(k + 1);
            let ghost start = 3 * k;
            let max_x = if b.max_x < self.width {
                b.max_x
            } else {
                self.width - 1
            };
            let max_y = if b.max_y < self.height {
                b.max_y
            } else {
                self.height - 1
            };
            let first_tile_x = b.min_x / tile_size;
            let last_tile_x = max_x / tile_size;
            let first_tile_y = b.min_y / tile_size;
            let last_tile_y = max_y / tile_size;
            proof {
                assert(next.drop_last() =~= prev);
                assert(next[k as int] == b);
                lemma_pixel_has_tile(max_x as int, self.width as int, t);
                lemma_pixel_has_tile(max_y as int, self.height as int, t);
                assert forall|tx: int, ty: int| 0 <= tx && 0 <= ty implies (#[trigger] view.touches(
                    b,
                    tx,
                    ty,
                ) <==> first_tile_x <= tx <= last_tile_x && first_tile_y <= ty <= last_tile_y) by {
                    lemma_tile_range(max_x as int, t, tx);
                    lemma_tile_range(b.min_x as int, t, tx);
                    lemma_tile_range(max_y as int, t, ty);
                    lemma_tile_range(b.min_y as int, t, ty);
                }
            }
            let mut tile_y = first_tile_y;
            while tile_y <= last_tile_y
                invariant
                    first_tile_y <= tile_y,
                    tile_y <= last_tile_y + 1 || last_tile_y < first_tile_y,
                    bins@.len() == count,
                    forall|tx: int, ty: int|
                        0 <= tx < nb_tiles_x && 0 <= ty < nb_tiles_y ==> bins@[tx + ty
                            * nb_tiles_x]@ == (if view.touches(b, tx, ty) && ty < tile_y {
                            (#[trigger] view.bin(prev, tx, ty)).push(view.binned(b, tx, ty, start))
                        } else {
                            view.bin(prev, tx, ty)
                        }),
                decreases last_tile_y + 1 - tile_y,
            {
                let mut tile_x = first_tile_x;
                while tile_x <= last_tile_x
                    invariant
                        first_tile_x <= tile_x,
                        tile_x <= last_tile_x + 1 || last_tile_x < first_tile_x,
                        bins@.len() == count,
                        forall|tx: int, ty: int|
                            0 <= tx < nb_tiles_x && 0 <= ty < nb_tiles_y ==> bins@[tx + ty
                                * nb_tiles_x]@ == (if view.touches(b, tx, ty) && (ty < tile_y || (ty
                                == tile_y && tx < tile_x)) {
                                (#[trigger] view.bin(prev, tx, ty)).push(
                                    view.binned(b, tx, ty, start),
                                )
                            } else {
                                view.bin(prev, tx, ty)
                            }),
                    decreases last_tile_x + 1 - tile_x,
                {
                    proof {
                        lemma_tile_range(max_x as int, t, tile_x as int);
                        lemma_tile_range(max_y as int, t, tile_y as int);
                        lemma_pixel_offset(
                            tile_x as int,
                            tile_y as int,
                            nb_tiles_x as int,
                            nb_tiles_y as int,
                        );
                    }
                    let corner_x = tile_x * tile_size;
                    let corner_y = tile_y * tile_size;
                    let binned = BinnedTriangle {
                        min_x: if b.min_x > corner_x {
                            b.min_x - corner_x
                        } else {
                            0
                        },
                        min_y: if b.min_y > corner_y {
                            b.min_y - corner_y
                        } else {
                            0
                        },
                        max_x: if max_x - corner_x < tile_size - 1 {
                            max_x - corner_x
                        } else {
                            tile_size - 1
                        },
                        max_y: if max_y - corner_y < tile_size - 1 {
                            max_y - corner_y
                        } else {
                            tile_size - 1
                        },
                        triangle_start: 3 * k,
                    };
                    assert(binned == view.binned(b, tile_x as int, tile_y as int, start as int));
                    let ghost earlier = bins@;
                    bins[tile_x + tile_y * nb_tiles_x].push(binned);
                    proof {
                        assert forall|tx: int, ty: int|
                            0 <= tx < nb_tiles_x && 0 <= ty < nb_tiles_y implies bins@[tx + ty
                            * nb_tiles_x]@ == (if view.touches(b, tx, ty) && (ty < tile_y || (ty
                            == tile_y && tx < tile_x + 1)) {
                            (#[trigger] view.bin(prev, tx, ty)).push(view.binned(b, tx, ty, start))
                        } else {
                            view.bin(prev, tx, ty)
                        }) by {
                            lemma_pixel_offset(tx, ty, nb_tiles_x as int, nb_tiles_y as int);
                            if tx != tile_x || ty != tile_y {
                                lemma_cells_apart(
                                    tx,
                                    ty,
                                    tile_x as int,
                                    tile_y as int,
                                    nb_tiles_x as int,
                                );
                                assert(bins@[tx + ty * nb_tiles_x] == earlier[tx + ty * nb_tiles_x]);
                            }
                        }
                    }
                    tile_x += 1;
                }
                tile_y += 1;
            }
            proof {
                assert forall|tx: int, ty: int|
                    0 <= tx < nb_tiles_x && 0 <= ty < nb_tiles_y implies bins@[tx + ty
                    * nb_tiles_x]@ == #[trigger] view.bin(next, tx, ty) by {
                    assert(view.bin(prev, tx, ty) == view.bin(prev, tx, ty));
                }
            }
            k += 1;
        }
        assert(boxes@.take(k as int) =~= boxes@);
        bins
    }

    /// Copies one tile into the screen: every screen pixel of the tile's
    /// region takes what the tile shows there, and no other pixel changes.
    /// The region is cut off at the screen's right and bottom edges.
    pub fn blit_tile(&self, tile_x: usize, tile_y: usize, screen: &mut Screen)
        requires
            self.wf(),
            old(screen).wf(),
            old(screen)@.width == self@.width,
            old(screen)@.height == self@.height,
            tile_x < self@.tiles_x(),
            tile_y < self@.tiles_y(),
        ensures
            final(screen).wf(),
            final(screen)@.width == old(screen)@.width,
            final(screen)@.height == old(screen)@.height,
            final(screen)@.bg_color == old(screen)@.bg_color,
            forall|x: int, y: int|
                0 <= x < self@.width && 0 <= y < self@.height ==> #[trigger] final(screen)@.pixel(
                    x,
                    y,
                ) == (if self@.in_tile(x, y, tile_x as int, tile_y as int) {
                    self@.shown(x, y, old(screen)@.bg_color)
                } else {
                    old(screen)@.pixel(x, y)
                }),
    {
        let tile_size = self.tile_size;
        let nb_tiles_x = tiles_in(self.width, tile_size);
        let ghost nb_tiles_y = self@.tiles_y() as int;
        proof {
            lemma_pixel_offset(tile_x as int, tile_y as int, nb_tiles_x as int, nb_tiles_y);
            lemma_tile_starts_inside(tile_x as int, self.width as int, tile_size as int);
            lemma_tile_starts_inside(tile_y as int, self.height as int, tile_size as int);
        }
        let count = self.tiles.len();
        let tile = &self.tiles[tile_x + tile_y * nb_tiles_x];
        assert(tile@ == self@.tile(tile_x as int, tile_y as int));
        assert(tile@.wf() && tile@.size == tile_size) by {
            assert(self@.tiles[tile_x + tile_y * nb_tiles_x].wf());
        }
        let x0 = tile_x * tile_size;
        let y0 = tile_y * tile_size;
        let columns = if tile_size <= self.width - x0 {
            tile_size
        } else {
            self.width - x0
        };
        let rows = if tile_size <= self.height - y0 {
            tile_size
        } else {
            self.height - y0
        };
        let background = *screen.bg_color();
        let ghost view = self@;
        let ghost before = old(screen)@;
        let ghost tx = tile_x as int;
        let ghost ty = tile_y as int;
        let mut row: usize = 0;
        while row < rows
            invariant
                row <= rows <= tile_size,
                columns <= tile_size,
                x0 + columns <= self.width,
                y0 + rows <= self.height,
                x0 == tx * tile_size,
                y0 == ty * tile_size,
                columns == view.columns_of(tx),
                rows == view.rows_of(ty),
                view == self@,
                view.tile_size == tile_size,
                tile_size > 0,
                tile@ == view.tile(tx, ty),
                tile@.wf(),
                tile@.size == tile_size,
                background@ == before.bg_color,
                screen.wf(),
                screen@.width == before.width == view.width,
                screen@.height == before.height == view.height,
                screen@.bg_color == before.bg_color,
                forall|x: int, y: int|
                    0 <= x < view.width && 0 <= y < view.height ==> #[trigger] screen@.pixel(x, y)
                        == (if view.in_tile(x, y, tx, ty) && y < y0 + row {
                        view.shown(x, y, before.bg_color)
                    } else {
                        before.pixel(x, y)
                    }),
            decreases rows - row,
        {
            let mut column: usize = 0;
            while column < columns
                invariant
                    row < rows <= tile_size,
                    column <= columns <= tile_size,
                    x0 + columns <= self.width,
                    y0 + rows <= self.height,
                    x0 == tx * tile_size,
                    y0 == ty * tile_size,
                    columns == view.columns_of(tx),
                    rows == view.rows_of(ty),
                    view == self@,
                    view.tile_size == tile_size,
                    tile_size > 0,
                    tile@ == view.tile(tx, ty),
                    tile@.wf(),
                    tile@.size == tile_size,
                    background@ == before.bg_color,
                    screen.wf(),
                    screen@.width == before.width == view.width,
                    screen@.height == before.height == view.height,
                    screen@.bg_color == before.bg_color,
                    forall|x: int, y: int|
                        0 <= x < view.width && 0 <= y < view.height ==> #[trigger] screen@.pixel(
                            x,
                            y,
                        ) == (if view.in_tile(x, y, tx, ty) && (y < y0 + row || (y == y0 + row && x
                            < x0 + column)) {
                            view.shown(x, y, before.bg_color)
                        } else {
                            before.pixel(x, y)
                        }),
                decreases columns - column,
            {
                let rgba = tile.shown(column, row, &background);
                proof {
                    lemma_block_of(x0 + column, tile_size as int, tx);
                    lemma_block_of(y0 + row, tile_size as int, ty);
                }
                screen.put_pixel(x0 + column, y0 + row, rgba);
                column += 1;
            }
            row += 1;
        }
    }

    /// Copies every tile into the screen. Afterwards each screen pixel
    /// shows what its tile holds for it: the colour of the closest fragment
    /// drawn there since the last clear, or the background.
    pub fn blit(&self, screen: &mut Screen)
        requires
            self.wf(),
            old(screen).wf(),
            old(screen)@.width == self@.width,
            old(screen)@.height == self@.height,
        ensures
            final(screen).wf(),
            final(screen)@.width == old(screen)@.width,
            final(screen)@.height == old(screen)@.height,
            final(screen)@.bg_color == old(screen)@.bg_color,
            forall|x: int, y: int|
                0 <= x < self@.width && 0 <= y < self@.height ==> #[trigger] final(screen)@.pixel(
                    x,
                    y,
                ) == self@.shown(x, y, old(screen)@.bg_color),
    {
        let nb_tiles_x = tiles_in(self.width, self.tile_size);
        let nb_tiles_y = tiles_in(self.height, self.tile_size);
        let ghost view = self@;
        let ghost before = old(screen)@;
        let ghost t = self.tile_size as int;
        let mut tile_y: usize = 0;
        while tile_y < nb_tiles_y
            invariant
                tile_y <= nb_tiles_y,
                nb_tiles_x == view.tiles_x(),
                nb_tiles_y == view.tiles_y(),
                view == self@,
                view.wf(),
                t == view.tile_size,
                screen.wf(),
                screen@.width == before.width == view.width,
                screen@.height == before.height == view.height,
                screen@.bg_color == before.bg_color,
                forall|x: int, y: int|
                    0 <= x < view.width && 0 <= y < view.height ==> #[trigger] screen@.pixel(x, y)
                        == (if y / t < tile_y {
                        view.shown(x, y, before.bg_color)
                    } else {
                        before.pixel(x, y)
                    }),
            decreases nb_tiles_y - tile_y,
        {
            let mut tile_x: usize = 0;
            while tile_x < nb_tiles_x
                invariant
                    tile_y < nb_tiles_y,
                    tile_x <= nb_tiles_x,
                    nb_tiles_x == view.tiles_x(),
                    nb_tiles_y == view.tiles_y(),
                    view == self@,
                    view.wf(),
                    t == view.tile_size,
                    screen.wf(),
                    screen@.width == before.width == view.width,
                    screen@.height == before.height == view.height,
                    screen@.bg_color == before.bg_color,
                    forall|x: int, y: int|
                        0 <= x < view.width && 0 <= y < view.height ==> #[trigger] screen@.pixel(
                            x,
                            y,
                        ) == (if y / t < tile_y || (y / t == tile_y && x / t < tile_x) {
                            view.shown(x, y, before.bg_color)
                        } else {
                            before.pixel(x, y)
                        }),
                decreases nb_tiles_x - tile_x,
            {
                let ghost earlier = screen@;
                self.blit_tile(tile_x, tile_y, screen);
                proof {
                    assert forall|x: int, y: int|
                        0 <= x < view.width && 0 <= y < view.height implies #[trigger] screen@.pixel(
                        x,
                        y,
                    ) == (if y / t < tile_y || (y / t == tile_y && x / t < tile_x + 1) {
                        view.shown(x, y, before.bg_color)
                    } else {
                        before.pixel(x, y)
                    }) by {
                        lemma_tile_of_pixel(view, x, y, tile_x as int, tile_y as int);
                        assert(earlier.pixel(x, y) == (if y / t < tile_y || (y / t == tile_y && x
                            / t < tile_x) {
                            view.shown(x, y, before.bg_color)
                        } else {
                            before.pixel(x, y)
                        }));
                    }
                }
                tile_x += 1;
            }
            proof {
                assert forall|x: int, y: int|
                    0 <= x < view.width && 0 <= y < view.height implies #[trigger] screen@.pixel(
                    x,
                    y,
                ) == (if y / t < tile_y + 1 {
                    view.shown(x, y, before.bg_color)
                } else {
                    before.pixel(x, y)
                }) by {
                    lemma_pixel_has_tile(x, view.width as int, t);
                }
            }
            tile_y += 1;
        }
        proof {
            assert forall|x: int, y: int|
                0 <= x < view.width && 0 <= y < view.height implies #[trigger] screen@.pixel(x, y)
                == view.shown(x, y, before.bg_color) by {
                lemma_pixel_has_tile(y, view.height as int, t);
            }
        }
    }

    /// Whether every tile has the grid's tile size, as it has unless a tile
    /// was replaced through [`Rasterizer::tiles_mut`].
    pub fn is_consistent(&self) -> (consistent: bool)
        requires
            self@.tile_size > 0,
            forall|i: int| 0 <= i < self@.tiles.len() ==> (#[trigger] self@.tiles[i]).wf(),
        ensures
            consistent == self.wf(),
    {
        let nb_tiles_x = tiles_in(self.width, self.tile_size);
        let nb_tiles_y = tiles_in(self.height, self.tile_size);
        let count = self.tiles.len();
        let expected = match nb_tiles_x.checked_mul(nb_tiles_y) {
            Some(n) => n,
            None => {
                return false;
            },
        };
        if count != expected {
            return false;
        }
        let mut i: usize = 0;
        while i < count
            invariant
                i <= count,
                count == self.tiles@.len(),
                count == self@.tiles_x() * self@.tiles_y(),
                self@.tile_size > 0,
                forall|k: int| 0 <= k < self@.tiles.len() ==> (#[trigger] self@.tiles[k]).wf(),
                forall|k: int| 0 <= k < i ==> (#[trigger] self@.tiles[k]).size == self@.tile_size,
            decreases count - i,
        {
            if self.tiles[i].size() != self.tile_size {
                assert(self@.tiles[i as int].size != self@.tile_size);
                return false;
            }
            i += 1;
        }
        true
    }
}

/// The number of tiles that span an extent, by whole tiles and a rest.
pub proof fn lemma_tiles_across(extent: int, t: int)
    requires
        0 <= extent,
        0 < t,
    ensures
        tiles_across(extent as nat, t as nat) == extent / t + (if extent % t == 0 {
            0int
        } else {
            1int
        }),
{
    lemma_fundamental_div_mod(extent, t);
    lemma_mod_pos_bound(extent, t);
    let q = extent / t;
    let r = extent % t;
    assert(t * q == q * t) by (nonlinear_arith);
    if r == 0 {
        lemma_fundamental_div_mod_converse(extent + t - 1, t, q, t - 1);
    } else {
        assert((q + 1) * t == q * t + t) by (nonlinear_arith);
        lemma_fundamental_div_mod_converse(extent + t - 1, t, q + 1, r - 1);
    }
}

/// A pixel lies in block `q` of a row of blocks of size `t` exactly when
/// dividing its coordinate by `t` gives `q`; the remainder is its place in
/// the block.
pub proof fn lemma_block_of(x: int, t: int, q: int)
    requires
        0 <= x,
        0 < t,
    ensures
        (q * t <= x < q * t + t) <==> x / t == q,
        x / t == q ==> x % t == x - q * t,
        0 <= x % t < t,
{
    lemma_fundamental_div_mod(x, t);
    lemma_mod_pos_bound(x, t);
    assert(t * (x / t) == (x / t) * t) by (nonlinear_arith);
    if q * t <= x < q * t + t {
        lemma_fundamental_div_mod_converse(x, t, q, x - q * t);
    }
}

/// Every pixel of an extent lies in one of the tiles that span it.
pub proof fn lemma_pixel_has_tile(x: int, extent: int, t: int)
    requires
        0 <= x < extent,
        0 < t,
    ensures
        0 <= x / t < tiles_across(extent as nat, t as nat),
{
    let n = (extent + t - 1) / t;
    lemma_fundamental_div_mod(extent + t - 1, t);
    lemma_mod_pos_bound(extent + t - 1, t);
    lemma_fundamental_div_mod(x, t);
    lemma_mod_pos_bound(x, t);
    assert(0 <= x / t < n) by (nonlinear_arith)
        requires
            0 < t,
            0 <= x,
            x == t * (x / t) + x % t,
            0 <= x % t < t,
            extent + t - 1 == t * n + (extent + t - 1) % t,
            0 <= (extent + t - 1) % t < t,
            x < extent,
    ;
}

/// Every tile that spans an extent starts inside it.
pub proof fn lemma_tile_starts_inside(q: int, extent: int, t: int)
    requires
        0 <= extent,
        0 < t,
        0 <= q < tiles_across(extent as nat, t as nat),
    ensures
        0 <= q * t < extent,
{
    let n = (extent + t - 1) / t;
    lemma_fundamental_div_mod(extent + t - 1, t);
    lemma_mod_pos_bound(extent + t - 1, t);
    assert(0 <= q * t < extent) by (nonlinear_arith)
        requires
            0 < t,
            0 <= q < n,
            extent + t - 1 == t * n + (extent + t - 1) % t,
            0 <= (extent + t - 1) % t < t,
    ;
}

/// Comparing a coordinate with the edges of block `q` of size `t` is
/// comparing `q` with the coordinate divided by `t`.
pub proof fn lemma_tile_range(v: int, t: int, q: int)
    requires
        0 <= v,
        0 < t,
    ensures
        q * t <= v <==> q <= v / t,
        v < q * t + t <==> v / t <= q,
{
    lemma_fundamental_div_mod(v, t);
    lemma_mod_pos_bound(v, t);
    let d = v / t;
    let r = v % t;
    assert((q * t <= v <==> q <= d) && (v < q * t + t <==> d <= q)) by (nonlinear_arith)
        requires
            0 < t,
            v == t * d + r,
            0 <= r < t,
    ;
}

/// A screen pixel is blitted from the tile whose grid position is the
/// pixel's position divided by the tile size, and from no other.
pub proof fn lemma_tile_of_pixel(view: RasterizerView, x: int, y: int, tx: int, ty: int)
    requires
        view.tile_size > 0,
        0 <= x < view.width,
        0 <= y < view.height,
    ensures
        view.in_tile(x, y, tx, ty) <==> (x / (view.tile_size as int) == tx && y / (
        view.tile_size as int) == ty),
{
    lemma_block_of(x, view.tile_size as int, tx);
    lemma_block_of(y, view.tile_size as int, ty);
}

/// The regions that the tiles are blitted to divide the screen among them:
/// every screen pixel lies in the region of one tile of the grid, the one
/// at the pixel's position divided by the tile size, and in no other
/// tile's region. A region is `columns_of` pixels wide and `rows_of` pixels
/// high, never empty and never more than a tile.
pub proof fn lemma_tile_regions_partition(view: RasterizerView, x: int, y: int, tx: int, ty: int)
    requires
        view.tile_size > 0,
        0 <= x < view.width,
        0 <= y < view.height,
    ensures
        0 <= x / (view.tile_size as int) < view.tiles_x(),
        0 <= y / (view.tile_size as int) < view.tiles_y(),
        view.in_tile(x, y, x / (view.tile_size as int), y / (view.tile_size as int)),
        view.in_tile(x, y, tx, ty) ==> tx == x / (view.tile_size as int) && ty == y / (
        view.tile_size as int),
        view.in_tile(x, y, tx, ty) ==> 0 < view.columns_of(tx) <= view.tile_size && 0
            < view.rows_of(ty) <= view.tile_size,
{
    let t = view.tile_size as int;
    lemma_pixel_has_tile(x, view.width as int, t);
    lemma_pixel_has_tile(y, view.height as int, t);
    lemma_tile_of_pixel(view, x, y, x / t, y / t);
    lemma_tile_of_pixel(view, x, y, tx, ty);
}

/// The depth test is monotone: once a fragment of depth `first` was
/// offered to a pixel, a later fragment is drawn there only if it is
/// strictly closer than `first`.
pub proof fn lemma_depth_test_monotone(
    tile: TileView,
    x: int,
    y: int,
    first: u64,
    first_rgba: Seq<u8>,
    second: u64,
)
    requires
        tile.wf(),
        tile.contains(x, y),
    ensures
        tile.plot(x, y, first, first_rgba).accepts(x, y, second) ==> second < first,
        tile.plot(x, y, first, first_rgba).depth_at(x, y) <= first,
        tile.plot(x, y, first, first_rgba).depth_at(x, y) <= tile.depth_at(x, y),
{
    lemma_cell_in_grid(x, y, tile.size as int);
}

/// Two fragments of different depths leave a tile the same in whichever
/// order they are offered; so do two fragments for different pixels.
pub proof fn lemma_plot_commutes(
    tile: TileView,
    x1: int,
    y1: int,
    d1: u64,
    c1: Seq<u8>,
    x2: int,
    y2: int,
    d2: u64,
    c2: Seq<u8>,
)
    requires
        tile.wf(),
        d1 != d2 || x1 != x2 || y1 != y2,
    ensures
        tile.plot(x1, y1, d1, c1).plot(x2, y2, d2, c2) == tile.plot(x2, y2, d2, c2).plot(
            x1,
            y1,
            d1,
            c1,
        ),
{
    let a = tile.plot(x1, y1, d1, c1).plot(x2, y2, d2, c2);
    let b = tile.plot(x2, y2, d2, c2).plot(x1, y1, d1, c1);
    if tile.contains(x1, y1) {
        lemma_cell_in_grid(x1, y1, tile.size as int);
    }
    if tile.contains(x2, y2) {
        lemma_cell_in_grid(x2, y2, tile.size as int);
    }
    if tile.contains(x1, y1) && tile.contains(x2, y2) && (x1 != x2 || y1 != y2) {
        lemma_cells_apart(x1, y1, x2, y2, tile.size as int);
    }
    assert(a.depth =~= b.depth);
    assert(a.color =~= b.color);
}

} // verus!
