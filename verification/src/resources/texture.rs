//! Textures and the catalog that owns them.
use std::collections::HashMap;
use vstd::hash_map::StringHashMap;
use vstd::prelude::*;

verus! {

/// Pixel format of a texture.
#[derive(Copy, Clone, Debug, PartialEq, Eq, Structural)]
pub enum Format {
    /// 8 bits for red, green, blue and alpha, in that order.
    RGBA32,
    /// 8 bits for red, green and blue, in that order.
    RGB24,
}

impl Format {
    /// Number of bytes that one pixel takes in this format.
    pub open spec fn channels(self) -> nat {
        match self {
            Format::RGBA32 => 4,
            Format::RGB24 => 3,
        }
    }

    /// Number of bytes that one pixel takes in this format.
    pub fn nb_channels(self) -> (n: usize)
        ensures
            n == self.channels(),
    {
        match self {
            Format::RGBA32 => 4,
            Format::RGB24 => 3,
        }
    }
}

/// What can go wrong when a texture is built or registered.
#[derive(Debug)]
pub enum TextureError {
    /// The byte buffer does not hold `width * height * channels` bytes.
    MismatchedPixelDataSize {
        /// Number of bytes the dimensions and format call for.
        expected: usize,
        /// Number of bytes that were given.
        actual: usize,
    },
    /// The catalog already holds a texture of this name.
    NameAlreadyExists {
        /// The name that was offered.
        name: String,
        /// Id under which the name is registered.
        existing_id: u32,
    },
}

/// Mathematical content of a [`Texture`].
pub struct TextureView {
    /// Pixels per row.
    pub width: nat,
    /// Number of rows.
    pub height: nat,
    /// Layout of one pixel.
    pub format: Format,
    /// All pixels, row by row, top row first.
    pub pixels: Seq<u8>,
}

impl TextureView {
    /// The byte count agrees with the dimensions and the format.
    pub open spec fn wf(self) -> bool {
        self.pixels.len() == self.width * self.height * self.format.channels()
    }

    /// Index of the pixel that a lookup at column `x`, row `y` reads: both
    /// coordinates are clamped to the last column and row.
    pub open spec fn clamped_index(self, x: int, y: int) -> int
        recommends
            self.width > 0,
            self.height > 0,
    {
        let cx = if x < self.width { x } else { self.width - 1 };
        let cy = if y < self.height { y } else { self.height - 1 };
        cx + cy * self.width
    }

    /// Channels of the pixel at column `x`, row `y`, after clamping.
    pub open spec fn texel(self, x: int, y: int) -> Seq<u8> {
        let first = self.clamped_index(x, y) * self.format.channels();
        self.pixels.subrange(first, first + self.format.channels())
    }
}

/// The value of byte `i` in a blank texture: opaque black in `RGBA32`, black
/// in `RGB24`.
pub open spec fn blank_byte(format: Format, i: int) -> u8 {
    if format == Format::RGBA32 && i % 4 == 3 {
        255
    } else {
        0
    }
}

/// A 2D image: packed pixels, left to right, top to bottom.
#[derive(Clone)]
pub struct Texture {
    pixels: Vec<u8>,
    width: usize,
    height: usize,
    format: Format,
}

impl View for Texture {
    type V = TextureView;

    closed spec fn view(&self) -> TextureView {
        TextureView {
            width: self.width as nat,
            height: self.height as nat,
            format: self.format,
            pixels: self.pixels@,
        }
    }
}

impl Texture {
    /// The byte count agrees with the dimensions and the format.
    pub open spec fn wf(&self) -> bool {
        self@.wf()
    }

    /// A black texture; fully opaque where the format has an alpha channel.
    pub fn new(width: usize, height: usize, format: Format) -> (texture: Texture)
        requires
            width * height * format.channels() <= usize::MAX,
        ensures
            texture.wf(),
            texture@.width == width,
            texture@.height == height,
            texture@.format == format,
            forall|i: int| 0 <= i < texture@.pixels.len() ==> texture@.pixels[i] == blank_byte(format, i),
    {
        let channels = format.nb_channels();
        proof {
            lemma_product_bounds(width as int, height as int, channels as int);
        }
        let total = width * height * channels;
        let mut pixels: Vec<u8> = Vec::with_capacity(total);
        let mut i: usize = 0;
        while i < total
            invariant
                i <= total,
                pixels@.len() == i,
                forall|k: int| 0 <= k < i ==> pixels@[k] == blank_byte(format, k),
            decreases total - i,
        {
            let byte: u8 = match format {
                Format::RGBA32 => if i % 4 == 3 { 255 } else { 0 },
                Format::RGB24 => 0,
            };
            pixels.push(byte);
            i += 1;
        }
        Texture { pixels, width, height, format }
    }

    /// A texture over a copy of `pixels`, if their number fits the
    /// dimensions and the format.
    pub fn from_pixels(width: usize, height: usize, pixels: &Vec<u8>, format: Format) -> (result:
        Result<Texture, TextureError>)
        requires
            width * height * format.channels() <= usize::MAX,
        ensures
            result is Ok <==> pixels@.len() == width * height * format.channels(),
            result matches Ok(texture) ==> {
                &&& texture.wf()
                &&& texture@.width == width
                &&& texture@.height == height
                &&& texture@.format == format
                &&& texture@.pixels == pixels@
            },
            result matches Err(error) ==> error == (TextureError::MismatchedPixelDataSize {
                expected: (width * height * format.channels()) as usize,
                actual: pixels.len(),
            }),
    {
        let channels = format.nb_channels();
        proof {
            lemma_product_bounds(width as int, height as int, channels as int);
        }
        let expected = width * height * channels;
        if expected != pixels.len() {
            return Err(TextureError::MismatchedPixelDataSize { expected, actual: pixels.len() });
        }
        let copy = pixels.clone();
        Ok(Texture { pixels: copy, width, height, format })
    }

    /// The channels of the pixel at column `x`, row `y`. A coordinate past
    /// the last column or row reads the last one.
    pub fn pixel_at(&self, x: usize, y: usize) -> (texel: &[u8])
        requires
            self.wf(),
            self@.width > 0,
            self@.height > 0,
        ensures
            texel@ == self@.texel(x as int, y as int),
            texel@.len() == self@.format.channels(),
    {
        let channels = self.format.nb_channels();
        let cx = if x < self.width { x } else { self.width - 1 };
        let cy = if y < self.height { y } else { self.height - 1 };
        let total = self.pixels.len();
        proof {
            lemma_pixel_in_bounds(
                cx as int,
                cy as int,
                self.width as int,
                self.height as int,
                channels as int,
            );
            assert(total == self.width * self.height * channels);
        }
        let index = (cx + cy * self.width) * channels;
        vstd::slice::slice_subrange(self.pixels.as_slice(), index, index + channels)
    }

    /// Number of channels per pixel.
    pub fn nb_chanels(&self) -> (n: u32)
        ensures
            n == self@.format.channels(),
    {
        match self.format {
            Format::RGBA32 => 4,
            Format::RGB24 => 3,
        }
    }

    /// The packed pixel bytes.
    pub fn pixels(&self) -> (pixels: &Vec<u8>)
        ensures
            pixels@ == self@.pixels,
    {
        &self.pixels
    }

    /// Pixels per row.
    pub fn width(&self) -> (width: usize)
        ensures
            width == self@.width,
    {
        self.width
    }

    /// Number of rows.
    pub fn height(&self) -> (height: usize)
        ensures
            height == self@.height,
    {
        self.height
    }

    /// Pixel format.
    pub fn format(&self) -> (format: &Format)
        ensures
            *format == self@.format,
    {
        &self.format
    }
}

/// Mathematical content of a [`TextureCatalog`].
pub struct CatalogView {
    /// The id that the next registered texture receives.
    pub next_id: nat,
    /// Id of each registered name.
    pub ids: Map<Seq<char>, u32>,
    /// Texture of each id that was handed out.
    pub textures: Map<u32, Texture>,
}

impl CatalogView {
    /// Ids run from 1 up to, not including, `next_id`; every id has one
    /// texture and one name, and no two names share an id.
    pub open spec fn wf(self) -> bool {
        &&& 1 <= self.next_id <= u32::MAX
        &&& forall|id: u32| self.textures.contains_key(id) <==> 1 <= id < self.next_id
        &&& forall|id: u32| self.textures.contains_key(id) ==> (#[trigger] self.textures[id]).wf()
        &&& forall|name: Seq<char>| #[trigger]
            self.ids.contains_key(name) ==> 1 <= self.ids[name] < self.next_id
        &&& forall|a: Seq<char>, b: Seq<char>|
            self.ids.contains_key(a) && self.ids.contains_key(b) && self.ids[a] == self.ids[b] ==> a
                == b
        &&& forall|id: u32| #[trigger] self.textures.contains_key(id) ==> self.is_named(id)
    }

    /// Some name is registered under `id`.
    pub open spec fn is_named(self, id: u32) -> bool {
        exists|name: Seq<char>| #[trigger] self.ids.contains_key(name) && self.ids[name] == id
    }
}

/// Owns the textures and hands out their ids, starting at 1. Id 0 is never
/// given to a texture.
pub struct TextureCatalog {
    next_id: u32,
    textures: HashMap<u32, Texture>,
    texture_ids: StringHashMap<u32>,
}

impl View for TextureCatalog {
    type V = CatalogView;

    closed spec fn view(&self) -> CatalogView {
        CatalogView {
            next_id: self.next_id as nat,
            ids: self.texture_ids@,
            textures: self.textures@,
        }
    }
}

impl TextureCatalog {
    /// The catalog's maps agree with each other and with the id counter.
    pub open spec fn wf(&self) -> bool {
        self@.wf()
    }

    /// Whether the counter can still hand out an id.
    pub fn has_room(&self) -> (room: bool)
        ensures
            room == (self@.next_id < u32::MAX),
    {
        self.next_id < u32::MAX
    }

    /// An empty catalog whose first id will be 1.
    pub fn new() -> (catalog: TextureCatalog)
        ensures
            catalog.wf(),
            catalog@.next_id == 1,
            catalog@.ids == Map::<Seq<char>, u32>::empty(),
            catalog@.textures == Map::<u32, Texture>::empty(),
    {
        TextureCatalog { next_id: 1, textures: HashMap::new(), texture_ids: StringHashMap::new() }
    }

    /// Registers `texture` under `name` and returns its fresh id. A name
    /// that is already registered is refused, and the catalog stays as it
    /// was.
    pub fn add_texture(&mut self, name: String, texture: Texture) -> (result: Result<
        u32,
        TextureError,
    >)
        requires
            old(self).wf(),
            texture.wf(),
            old(self)@.next_id < u32::MAX,
        ensures
            final(self).wf(),
            result is Err <==> old(self)@.ids.contains_key(name@),
            result matches Err(error) ==> {
                &&& final(self)@ == old(self)@
                &&& error matches TextureError::NameAlreadyExists { name: refused, existing_id }
                &&& refused@ == name@
                &&& existing_id == old(self)@.ids[name@]
            },
            result matches Ok(id) ==> {
                &&& id == old(self)@.next_id
                &&& final(self)@.next_id == id + 1
                &&& final(self)@.ids == old(self)@.ids.insert(name@, id)
                &&& final(self)@.textures == old(self)@.textures.insert(id, texture)
            },
    {
        let found = copied_id(self.texture_ids.get(name.as_str()));
        if let Some(existing_id) = found {
            return Err(TextureError::NameAlreadyExists { name, existing_id });
        }
        let id = self.next_id;
        let ghost key = name@;
        self.texture_ids.insert(name, id);
        self.textures.insert(id, texture);
        self.next_id = id + 1;
        proof {
            let before = old(self)@;
            let after = self@;
            assert(after.ids == before.ids.insert(key, id));
            assert(after.textures == before.textures.insert(id, texture));
            assert(forall|x: u32| after.textures.contains_key(x) <==> 1 <= x < after.next_id);
            assert(after.ids.contains_key(key) && after.ids[key] == id);
            assert forall|other: u32| #[trigger]
                after.textures.contains_key(other) implies after.is_named(other) by {
                if other == id {
                    assert(after.ids.contains_key(key) && after.ids[key] == other);
                } else {
                    assert(before.textures.contains_key(other));
                    assert(before.is_named(other));
                    let n = choose|n: Seq<char>| #[trigger]
                        before.ids.contains_key(n) && before.ids[n] == other;
                    assert(after.ids.contains_key(n) && after.ids[n] == other);
                }
            }
        }
        Ok(id)
    }

    /// The texture registered under `id`, if there is one.
    pub fn texture_from_id(&self, id: u32) -> (texture: Option<&Texture>)
        ensures
            texture is Some <==> self@.textures.contains_key(id),
            texture matches Some(found) ==> *found == self@.textures[id],
    {
        self.textures.get(&id)
    }

    /// The id registered under `name`, if there is one.
    pub fn id_from_name(&self, name: &str) -> (id: Option<u32>)
        ensures
            id is Some <==> self@.ids.contains_key(name@),
            id matches Some(found) ==> found == self@.ids[name@],
    {
        copied_id(self.texture_ids.get(name))
    }

    /// The texture that a draw call with this optional id samples: none
    /// when the draw call names no texture or an id that was never handed
    /// out.
    pub fn texture_for(&self, id: Option<u32>) -> (texture: Option<&Texture>)
        ensures
            texture is Some <==> id is Some && self@.textures.contains_key(id->0),
            texture matches Some(found) ==> *found == self@.textures[id->0],
    {
        match id {
            Some(id) => self.textures.get(&id),
            None => None,
        }
    }

    /// The map from id to texture.
    pub fn textures(&self) -> (textures: &HashMap<u32, Texture>)
        ensures
            textures@ == self@.textures,
    {
        &self.textures
    }

    /// The map from name to id.
    pub fn textures_ids(&self) -> (ids: &StringHashMap<u32>)
        ensures
            ids@ == self@.ids,
    {
        &self.texture_ids
    }
}

/// The id behind an optional reference.
fn copied_id(id: Option<&u32>) -> (copy: Option<u32>)
    ensures
        copy is Some <==> id is Some,
        copy matches Some(value) ==> value == *id->0,
{
    match id {
        Some(value) => Some(*value),
        None => None,
    }
}

/// A product of three factors bounds the product of the first two.
proof fn lemma_product_bounds(w: int, h: int, c: int)
    requires
        0 <= w,
        0 <= h,
        1 <= c,
    ensures
        0 <= w * h <= w * h * c,
{
    assert(0 <= w * h <= w * h * c) by (nonlinear_arith)
        requires
            0 <= w,
            0 <= h,
            1 <= c,
    ;
}

/// The bytes of a pixel inside the grid lie inside the buffer.
proof fn lemma_pixel_in_bounds(x: int, y: int, w: int, h: int, c: int)
    requires
        0 <= x < w,
        0 <= y < h,
        1 <= c,
    ensures
        0 <= y * w <= x + y * w < w * h <= w * h * c,
        0 <= (x + y * w) * c,
        (x + y * w) * c + c <= w * h * c,
{
    assert(0 <= y * w && x + y * w + 1 <= w * h) by (nonlinear_arith)
        requires
            0 <= x < w,
            0 <= y < h,
    ;
    assert((x + y * w) * c + c <= w * h * c && 0 <= (x + y * w) * c && w * h <= w * h * c)
        by (nonlinear_arith)
        requires
            0 <= x + y * w,
            x + y * w + 1 <= w * h,
            1 <= c,
    ;
}

} // verus!
