//! Built-in resources.
use crate::resources::mesh::{indices_in_range, valid_triangles};
use crate::resources::texture::{Format, Texture};
use vstd::prelude::*;

verus! {

/// Textures that can be had without a file.
#[derive(Clone, Copy, Debug, PartialEq, Eq, Structural)]
pub enum DefaultTexture {
    /// Black and white squares, white in the top left corner.
    Checkered {
        /// Width of the texture, in pixels.
        width: u32,
        /// Height of the texture, in pixels.
        height: u32,
        /// Number of squares along the width. The squares are as wide as
        /// it takes to cover the width with that many, and as high.
        nb_squares_width: u32,
    },
}

/// Side of the squares of a checkered texture: the width divided by the
/// number of squares, rounded up.
pub open spec fn square_side(width: nat, nb_squares_width: nat) -> nat
    recommends
        nb_squares_width > 0,
{
    (width / nb_squares_width + if width % nb_squares_width != 0 {
        1nat
    } else {
        0nat
    }) as nat
}

/// Value of every channel of the pixel at `row`, `column` of a checkered
/// texture with squares of the given side: white where the pixel's row and
/// column both fall into an even square or both into an odd one.
pub open spec fn square_color(row: int, column: int, side: int) -> u8 {
    if (column % (2 * side) < side) == (row % (2 * side) < side) {
        255
    } else {
        0
    }
}

/// Builds the default textures.
pub struct TextureLoader {
    sampling: u32,
}

impl TextureLoader {
    /// A loader that keeps every pixel of what it loads.
    pub fn new() -> (loader: TextureLoader)
        ensures
            loader.sampling_of() == 1,
    {
        TextureLoader { sampling: 1 }
    }

    /// The interval at which the loader samples what it loads; 1 keeps
    /// every pixel.
    pub closed spec fn sampling_of(&self) -> u32 {
        self.sampling
    }

    /// The interval at which the loader samples what it loads.
    pub fn sampling(&self) -> (sampling: u32)
        ensures
            sampling == self.sampling_of(),
    {
        self.sampling
    }

    /// Builds a default texture, in `RGB24`.
    pub fn load_default_texture(&self, texture: DefaultTexture) -> (result: Texture)
        requires
            texture matches DefaultTexture::Checkered { width, height, nb_squares_width } ==> {
                &&& nb_squares_width > 0
                &&& 3 * (width * height) <= usize::MAX
            },
        ensures
            result.wf(),
            result@.format == Format::RGB24,
            texture matches DefaultTexture::Checkered { width, height, nb_squares_width } ==> {
                &&& result@.width == width
                &&& result@.height == height
                &&& forall|row: int, column: int, channel: int|
                    0 <= row < height && 0 <= column < width && 0 <= channel < 3
                        ==> #[trigger] result@.pixels[3 * (column + row * width) + channel]
                        == square_color(
                        row,
                        column,
                        square_side(width as nat, nb_squares_width as nat) as int,
                    )
            },
    {
        match texture {
            DefaultTexture::Checkered { width, height, nb_squares_width } => {
                let mut side: u64 = (width / nb_squares_width) as u64;
                if width % nb_squares_width != 0 {
                    side += 1;
                }
                let columns = width as usize;
                let rows = height as usize;
                assert(columns * rows * 3 == 3 * (width * height)) by (nonlinear_arith)
                    requires
                        columns == width,
                        rows == height,
                ;
                assert(columns * rows <= columns * rows * 3) by (nonlinear_arith)
                    requires
                        0 <= columns,
                        0 <= rows,
                ;
                let mut pixels: Vec<u8> = Vec::with_capacity(columns * rows * 3);
                let mut row: usize = 0;
                while row < rows
                    invariant
                        row <= rows,
                        columns == width,
                        rows == height,
                        side == square_side(width as nat, nb_squares_width as nat),
                        side <= 0x1_0000_0000,
                        nb_squares_width > 0,
                        pixels@.len() == 3 * (row * columns),
                        forall|r: int, c: int, channel: int|
                            0 <= r < row && 0 <= c < columns && 0 <= channel < 3
                                ==> #[trigger] pixels@[3 * (c + r * columns) + channel]
                                == square_color(r, c, side as int),
                    decreases rows - row,
                {
                    let mut column: usize = 0;
                    while column < columns
                        invariant
                            row < rows,
                            column <= columns,
                            columns == width,
                            rows == height,
                            side == square_side(width as nat, nb_squares_width as nat),
                            side <= 0x1_0000_0000,
                            nb_squares_width > 0,
                            pixels@.len() == 3 * (column + row * columns),
                            forall|r: int, c: int, channel: int|
                                0 <= r < row && 0 <= c < columns && 0 <= channel < 3
                                    ==> #[trigger] pixels@[3 * (c + r * columns) + channel]
                                    == square_color(r, c, side as int),
                            forall|c: int, channel: int|
                                0 <= c < column && 0 <= channel < 3 ==> #[trigger] pixels@[3 * (c
                                    + row * columns) + channel] == square_color(
                                    row as int,
                                    c,
                                    side as int,
                                ),
                        decreases columns - column,
                    {
                        proof {
                            lemma_square_side_positive(width as nat, nb_squares_width as nat);
                        }
                        let x_left = (column as u64) % (2 * side) < side;
                        let y_lower = (row as u64) % (2 * side) < side;
                        let color: u8 = if x_left == y_lower {
                            255
                        } else {
                            0
                        };
                        let ghost earlier = pixels@;
                        pixels.push(color);
                        pixels.push(color);
                        pixels.push(color);
                        proof {
                            assert forall|r: int, c: int, channel: int|
                                0 <= r < row && 0 <= c < columns && 0 <= channel < 3 implies #[trigger]
                                pixels@[3 * (c + r * columns) + channel] == square_color(
                                r,
                                c,
                                side as int,
                            ) by {
                                lemma_cell_before_row(c, r, columns as int, row as int);
                                assert(pixels@[3 * (c + r * columns) + channel] == earlier[3 * (c
                                    + r * columns) + channel]);
                            }
                            assert forall|c: int, channel: int|
                                0 <= c < column + 1 && 0 <= channel < 3 implies #[trigger] pixels@[3
                                * (c + row * columns) + channel] == square_color(
                                row as int,
                                c,
                                side as int,
                            ) by {
                                if c < column {
                                    assert(pixels@[3 * (c + row * columns) + channel] == earlier[3
                                        * (c + row * columns) + channel]);
                                }
                            }
                        }
                        column += 1;
                    }
                    proof {
                        assert((row + 1) * columns == columns + row * columns) by (nonlinear_arith);
                    }
                    row += 1;
                }
                assert(rows * columns == columns * rows) by (nonlinear_arith);
                match Texture::from_pixels(columns, rows, &pixels, Format::RGB24) {
                    Ok(texture) => {
                        assert forall|r: int, c: int, channel: int|
                            0 <= r < height && 0 <= c < width && 0 <= channel < 3 implies #[trigger]
                            texture@.pixels[3 * (c + r * width) + channel] == square_color(
                            r,
                            c,
                            square_side(width as nat, nb_squares_width as nat) as int,
                        ) by {
                            assert(pixels@[3 * (c + r * columns) + channel] == square_color(
                                r,
                                c,
                                side as int,
                            ));
                        }
                        texture
                    },
                    Err(_) => Texture::new(columns, rows, Format::RGB24),
                }
            },
        }
    }
}

/// Coordinates of corner `k` of the unit cube, each 0 or 1.
pub open spec fn corner_of(k: int) -> (int, int, int) {
    if k == 0 {
        (0, 0, 0)
    } else if k == 1 {
        (1, 0, 0)
    } else if k == 2 {
        (1, 0, 1)
    } else if k == 3 {
        (0, 0, 1)
    } else if k == 4 {
        (0, 1, 0)
    } else if k == 5 {
        (1, 1, 0)
    } else if k == 6 {
        (1, 1, 1)
    } else {
        (0, 1, 1)
    }
}

/// One of four values, by place.
pub open spec fn pick(k: int, first: int, second: int, third: int, fourth: int) -> int {
    if k == 0 {
        first
    } else if k == 1 {
        second
    } else if k == 2 {
        third
    } else {
        fourth
    }
}

/// The corner of the unit cube at which vertex `k` of a face stands. The
/// faces come in the order -X, +X, -Y, +Y, -Z, +Z.
pub open spec fn face_corner_of(face: int, k: int) -> int {
    if face == 0 {
        pick(k, 4, 0, 3, 7)
    } else if face == 1 {
        pick(k, 1, 5, 6, 2)
    } else if face == 2 {
        pick(k, 0, 1, 2, 3)
    } else if face == 3 {
        pick(k, 5, 4, 7, 6)
    } else if face == 4 {
        pick(k, 4, 5, 1, 0)
    } else {
        pick(k, 3, 2, 6, 7)
    }
}

/// The direction in which a face of the cube looks.
pub open spec fn face_normal_of(face: int) -> (int, int, int) {
    if face == 0 {
        (-1, 0, 0)
    } else if face == 1 {
        (1, 0, 0)
    } else if face == 2 {
        (0, -1, 0)
    } else if face == 3 {
        (0, 1, 0)
    } else if face == 4 {
        (0, 0, -1)
    } else {
        (0, 0, 1)
    }
}

/// Texture coordinates of vertex `k` of a face, each 0 or 1.
pub open spec fn face_uv_of(k: int) -> (int, int) {
    if k == 0 {
        (0, 0)
    } else if k == 1 {
        (1, 0)
    } else if k == 2 {
        (1, 1)
    } else {
        (0, 1)
    }
}

/// Place within a face's four vertices of index `j` of the face's two
/// triangles.
pub open spec fn quad_corner_of(j: int) -> int {
    if j == 0 || j == 5 {
        0
    } else if j == 1 {
        1
    } else if j == 4 {
        3
    } else {
        2
    }
}

/// The triangles of `nb_faces` four-cornered faces whose vertices are
/// listed face by face: two to a face, the first over the face's vertices
/// 0, 1, 2 and the second over 2, 3, 0.
pub open spec fn quad_triangles_of(nb_faces: nat) -> Seq<usize> {
    Seq::new(6 * nb_faces, |j: int| (4 * (j / 6) + quad_corner_of(j % 6)) as usize)
}

/// The cross product of `b - a` and `c - a`.
pub open spec fn winding(a: (int, int, int), b: (int, int, int), c: (int, int, int)) -> (
    int,
    int,
    int,
) {
    let u = (b.0 - a.0, b.1 - a.1, b.2 - a.2);
    let v = (c.0 - a.0, c.1 - a.1, c.2 - a.2);
    (u.1 * v.2 - u.2 * v.1, u.2 * v.0 - u.0 * v.2, u.0 * v.1 - u.1 * v.0)
}

/// Coordinates of corner `k` of the unit cube, each 0 or 1.
pub fn cube_corner(k: usize) -> (corner: (u8, u8, u8))
    requires
        k < 8,
    ensures
        (corner.0 as int, corner.1 as int, corner.2 as int) == corner_of(k as int),
{
    let x: u8 = if k == 1 || k == 2 || k == 5 || k == 6 {
        1
    } else {
        0
    };
    let y: u8 = if k >= 4 {
        1
    } else {
        0
    };
    let z: u8 = if k == 2 || k == 3 || k == 6 || k == 7 {
        1
    } else {
        0
    };
    (x, y, z)
}

/// The corners of the unit cube at which the four vertices of a face
/// stand. The faces come in the order -X, +X, -Y, +Y, -Z, +Z.
pub fn face_corners(face: usize) -> (corners: [usize; 4])
    requires
        face < 6,
    ensures
        forall|k: int| 0 <= k < 4 ==> corners@[k] == face_corner_of(face as int, k),
        forall|k: int| 0 <= k < 4 ==> corners@[k] < 8,
{
    if face == 0 {
        [4, 0, 3, 7]
    } else if face == 1 {
        [1, 5, 6, 2]
    } else if face == 2 {
        [0, 1, 2, 3]
    } else if face == 3 {
        [5, 4, 7, 6]
    } else if face == 4 {
        [4, 5, 1, 0]
    } else {
        [3, 2, 6, 7]
    }
}

/// Texture coordinates of vertex `k` of a face, each 0 or 1.
pub fn face_uv(k: usize) -> (uv: (u8, u8))
    requires
        k < 4,
    ensures
        (uv.0 as int, uv.1 as int) == face_uv_of(k as int),
{
    if k == 0 {
        (0, 0)
    } else if k == 1 {
        (1, 0)
    } else if k == 2 {
        (1, 1)
    } else {
        (0, 1)
    }
}

/// The triangles of `nb_faces` four-cornered faces whose vertices are
/// listed face by face.
pub fn quad_triangles(nb_faces: usize) -> (triangles: Vec<usize>)
    requires
        6 * nb_faces <= usize::MAX,
    ensures
        triangles@ == quad_triangles_of(nb_faces as nat),
        valid_triangles(triangles@, 4 * nb_faces as nat),
{
    let mut triangles: Vec<usize> = Vec::with_capacity(6 * nb_faces);
    let mut face: usize = 0;
    while face < nb_faces
        invariant
            face <= nb_faces,
            6 * nb_faces <= usize::MAX,
            triangles@ == quad_triangles_of(face as nat),
            indices_in_range(triangles@, 4 * face as nat),
        decreases nb_faces - face,
    {
        let first = 4 * face;
        let ghost earlier = triangles@;
        triangles.push(first);
        triangles.push(first + 1);
        triangles.push(first + 2);
        triangles.push(first + 2);
        triangles.push(first + 3);
        triangles.push(first);
        proof {
            let grown = quad_triangles_of((face + 1) as nat);
            assert(triangles@.len() == grown.len());
            assert forall|j: int| 0 <= j < grown.len() implies triangles@[j] == grown[j] by {
                if j < 6 * face {
                    assert(triangles@[j] == earlier[j]);
                }
            }
            assert(triangles@ =~= grown);
            assert forall|j: int| 0 <= j < triangles@.len() implies #[trigger] triangles@[j] < 4 * (
            face + 1) by {
                if j < 6 * face {
                    assert(earlier[j] < 4 * face);
                }
            }
        }
        face += 1;
    }
    triangles
}

/// Both triangles of every face of the default cube go counter-clockwise
/// for a viewer outside the cube: the cross product of their first two
/// edges is the direction in which the face looks.
pub proof fn lemma_cube_faces_wind_outward(face: int)
    requires
        0 <= face < 6,
    ensures
        winding(
            corner_of(face_corner_of(face, 0)),
            corner_of(face_corner_of(face, 1)),
            corner_of(face_corner_of(face, 2)),
        ) == face_normal_of(face),
        winding(
            corner_of(face_corner_of(face, 2)),
            corner_of(face_corner_of(face, 3)),
            corner_of(face_corner_of(face, 0)),
        ) == face_normal_of(face),
{
    let a = corner_of(face_corner_of(face, 0));
    let b = corner_of(face_corner_of(face, 1));
    let c = corner_of(face_corner_of(face, 2));
    let d = corner_of(face_corner_of(face, 3));
    if face == 0 {
        lemma_winding_of_corners(
            0,
            1,
            0,
            0,
            0,
            0,
            0,
            0,
            1,
            0,
            1,
            1,
        );
        assert(a == (0int, 1int, 0int) && b == (0int, 0int, 0int) && c == (0int, 0int, 1int) && d == (0int, 1int, 1int));
    } else if face == 1 {
        lemma_winding_of_corners(
            1,
            0,
            0,
            1,
            1,
            0,
            1,
            1,
            1,
            1,
            0,
            1,
        );
        assert(a == (1int, 0int, 0int) && b == (1int, 1int, 0int) && c == (1int, 1int, 1int) && d == (1int, 0int, 1int));
    } else if face == 2 {
        lemma_winding_of_corners(
            0,
            0,
            0,
            1,
            0,
            0,
            1,
            0,
            1,
            0,
            0,
            1,
        );
        assert(a == (0int, 0int, 0int) && b == (1int, 0int, 0int) && c == (1int, 0int, 1int) && d == (0int, 0int, 1int));
    } else if face == 3 {
        lemma_winding_of_corners(
            1,
            1,
            0,
            0,
            1,
            0,
            0,
            1,
            1,
            1,
            1,
            1,
        );
        assert(a == (1int, 1int, 0int) && b == (0int, 1int, 0int) && c == (0int, 1int, 1int) && d == (1int, 1int, 1int));
    } else if face == 4 {
        lemma_winding_of_corners(
            0,
            1,
            0,
            1,
            1,
            0,
            1,
            0,
            0,
            0,
            0,
            0,
        );
        assert(a == (0int, 1int, 0int) && b == (1int, 1int, 0int) && c == (1int, 0int, 0int) && d == (0int, 0int, 0int));
    } else {
        lemma_winding_of_corners(
            0,
            0,
            1,
            1,
            0,
            1,
            1,
            1,
            1,
            0,
            1,
            1,
        );
        assert(a == (0int, 0int, 1int) && b == (1int, 0int, 1int) && c == (1int, 1int, 1int) && d == (0int, 1int, 1int));
    }
}

/// The windings of the two triangles of a face, from the coordinates of
/// its four corners.
proof fn lemma_winding_of_corners(
    ax: int,
    ay: int,
    az: int,
    bx: int,
    by: int,
    bz: int,
    cx: int,
    cy: int,
    cz: int,
    dx: int,
    dy: int,
    dz: int,
)
    requires
        0 <= ax <= 1 && 0 <= ay <= 1 && 0 <= az <= 1,
        0 <= bx <= 1 && 0 <= by <= 1 && 0 <= bz <= 1,
        0 <= cx <= 1 && 0 <= cy <= 1 && 0 <= cz <= 1,
        0 <= dx <= 1 && 0 <= dy <= 1 && 0 <= dz <= 1,
    ensures
        winding((ax, ay, az), (bx, by, bz), (cx, cy, cz)) == (
            unit_product(by - ay, cz - az) - unit_product(bz - az, cy - ay),
            unit_product(bz - az, cx - ax) - unit_product(bx - ax, cz - az),
            unit_product(bx - ax, cy - ay) - unit_product(by - ay, cx - ax),
        ),
        winding((cx, cy, cz), (dx, dy, dz), (ax, ay, az)) == (
            unit_product(dy - cy, az - cz) - unit_product(dz - cz, ay - cy),
            unit_product(dz - cz, ax - cx) - unit_product(dx - cx, az - cz),
            unit_product(dx - cx, ay - cy) - unit_product(dy - cy, ax - cx),
        ),
{
    assert forall|u: int, v: int| -1 <= u <= 1 && -1 <= v <= 1 implies #[trigger] (u * v)
        == unit_product(u, v) by {
        assert(u * v == unit_product(u, v)) by (nonlinear_arith)
            requires
                -1 <= u <= 1,
                -1 <= v <= 1,
                unit_product(u, v) == (if u == 0 || v == 0 {
                    0int
                } else if u == v {
                    1int
                } else {
                    -1int
                }),
        ;
    }
}

/// The product of two numbers that are each -1, 0 or 1.
spec fn unit_product(u: int, v: int) -> int {
    if u == 0 || v == 0 {
        0
    } else if u == v {
        1
    } else {
        -1
    }
}

/// A texture with a column has squares with a side.
proof fn lemma_square_side_positive(width: nat, nb_squares_width: nat)
    requires
        width > 0,
        nb_squares_width > 0,
    ensures
        square_side(width, nb_squares_width) > 0,
{
    vstd::arithmetic::div_mod::lemma_fundamental_div_mod(width as int, nb_squares_width as int);
    vstd::arithmetic::div_mod::lemma_mod_pos_bound(width as int, nb_squares_width as int);
    vstd::arithmetic::div_mod::lemma_div_pos_is_pos(width as int, nb_squares_width as int);
    if width % nb_squares_width == 0 {
        assert(width / nb_squares_width > 0) by (nonlinear_arith)
            requires
                width == nb_squares_width * (width / nb_squares_width),
                width > 0,
                nb_squares_width > 0,
        ;
    }
}

/// A cell of an earlier row comes before the cells of row `row`.
proof fn lemma_cell_before_row(c: int, r: int, columns: int, row: int)
    requires
        0 <= c < columns,
        0 <= r < row,
    ensures
        0 <= c + r * columns < row * columns,
{
    assert(0 <= r * columns && c + r * columns < row * columns) by (nonlinear_arith)
        requires
            0 <= c < columns,
            0 <= r < row,
    ;
}

} // verus!
