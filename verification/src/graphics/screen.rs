//! The frame that the renderer draws into.
use crate::algorithm::{lemma_cells_apart, lemma_pixel_offset};
use vstd::prelude::*;

verus! {

/// Mathematical content of a [`Screen`].
pub struct ScreenView {
    /// Pixels per row.
    pub width: nat,
    /// Number of rows.
    pub height: nat,
    /// Colour of a pixel that nothing was drawn on: red, green, blue, alpha.
    pub bg_color: Seq<u8>,
    /// Four bytes per pixel, row by row, top row first.
    pub frame: Seq<u8>,
}

impl ScreenView {
    /// The frame holds four bytes for each pixel.
    pub open spec fn wf(self) -> bool {
        &&& self.bg_color.len() == 4
        &&& self.frame.len() == 4 * (self.width * self.height)
    }

    /// Position in the frame of the first byte of the pixel at column `x`,
    /// row `y`.
    pub open spec fn offset(self, x: int, y: int) -> int {
        4 * (x + y * self.width)
    }

    /// The four bytes of the pixel at column `x`, row `y`.
    pub open spec fn pixel(self, x: int, y: int) -> Seq<u8> {
        self.frame.subrange(self.offset(x, y), self.offset(x, y) + 4)
    }

    /// Every pixel shows the background colour.
    pub open spec fn is_blank(self) -> bool {
        forall|i: int| 0 <= i < self.frame.len() ==> self.frame[i] == self.bg_color[i % 4]
    }
}

/// A frame of `width * height` RGBA pixels and the colour it is cleared to.
pub struct Screen {
    width: usize,
    height: usize,
    bg_color: [u8; 4],
    frame: Vec<u8>,
}

impl View for Screen {
    type V = ScreenView;

    closed spec fn view(&self) -> ScreenView {
        ScreenView {
            width: self.width as nat,
            height: self.height as nat,
            bg_color: self.bg_color@,
            frame: self.frame@,
        }
    }
}

/// The colour a new screen is cleared to.
pub open spec fn default_background() -> Seq<u8> {
    seq![42u8, 0u8, 23u8, 255u8]
}

impl Screen {
    /// The frame holds four bytes for each pixel.
    pub open spec fn wf(&self) -> bool {
        self@.wf()
    }

    /// A screen of the given size, cleared to the default background.
    pub fn new(width: usize, height: usize) -> (screen: Screen)
        requires
            4 * (width * height) <= usize::MAX,
        ensures
            screen.wf(),
            screen@.width == width,
            screen@.height == height,
            screen@.bg_color == default_background(),
            screen@.is_blank(),
    {
        let bg_color: [u8; 4] = [42, 0, 23, 255];
        assert(bg_color@ =~= default_background());
        assert(width * height <= 4 * (width * height)) by (nonlinear_arith)
            requires
                0 <= width,
                0 <= height,
        ;
        let total = 4 * (width * height);
        let mut frame: Vec<u8> = Vec::with_capacity(total);
        let mut i: usize = 0;
        while i < total
            invariant
                i <= total,
                frame@.len() == i,
                forall|k: int| 0 <= k < i ==> frame@[k] == bg_color@[k % 4],
            decreases total - i,
        {
            frame.push(bg_color[i % 4]);
            i += 1;
        }
        Screen { width, height, bg_color, frame }
    }

    /// Sets every pixel to the background colour.
    pub fn screen_clear(&mut self)
        requires
            old(self).wf(),
        ensures
            final(self).wf(),
            final(self)@.width == old(self)@.width,
            final(self)@.height == old(self)@.height,
            final(self)@.bg_color == old(self)@.bg_color,
            final(self)@.is_blank(),
    {
        let total = self.frame.len();
        let mut i: usize = 0;
        while i < total
            invariant
                i <= total,
                self.frame@.len() == total,
                self.width == old(self).width,
                self.height == old(self).height,
                self.bg_color == old(self).bg_color,
                forall|k: int| 0 <= k < i ==> self.frame@[k] == self.bg_color@[k % 4],
            decreases total - i,
        {
            let byte = self.bg_color[i % 4];
            self.frame[i] = byte;
            i += 1;
        }
    }

    /// Changes the background colour. The frame keeps its pixels until it
    /// is next cleared.
    pub fn set_bg_color(&mut self, color: [u8; 4])
        ensures
            final(self)@ == (ScreenView { bg_color: color@, ..old(self)@ }),
    {
        self.bg_color = color;
    }

    /// Overwrites the pixel at column `x`, row `y`.
    pub fn put_pixel(&mut self, x: usize, y: usize, rgba: [u8; 4])
        requires
            old(self).wf(),
            x < old(self)@.width,
            y < old(self)@.height,
        ensures
            final(self).wf(),
            final(self)@.width == old(self)@.width,
            final(self)@.height == old(self)@.height,
            final(self)@.bg_color == old(self)@.bg_color,
            final(self)@.pixel(x as int, y as int) == rgba@,
            forall|u: int, v: int|
                0 <= u < old(self)@.width && 0 <= v < old(self)@.height && (u != x || v != y)
                    ==> #[trigger] final(self)@.pixel(u, v) == old(self)@.pixel(u, v),
    {
        let total = self.frame.len();
        proof {
            lemma_pixel_offset(x as int, y as int, self.width as int, self.height as int);
            assert(total == 4 * (self.width * self.height));
        }
        let first = 4 * (x + y * self.width);
        self.frame[first] = rgba[0];
        self.frame[first + 1] = rgba[1];
        self.frame[first + 2] = rgba[2];
        self.frame[first + 3] = rgba[3];
        assert(self@.pixel(x as int, y as int) =~= rgba@);
        assert forall|u: int, v: int|
            0 <= u < old(self)@.width && 0 <= v < old(self)@.height && (u != x || v != y) implies #[trigger]
            self@.pixel(u, v) == old(self)@.pixel(u, v) by {
            lemma_pixel_offset(u, v, self.width as int, self.height as int);
            lemma_cells_apart(x as int, y as int, u, v, self.width as int);
            assert(self@.pixel(u, v) =~= old(self)@.pixel(u, v));
        }
    }

    /// Pixels per row.
    pub fn width(&self) -> (width: usize)
        ensures
            width == self@.width,
    {
        self.width
    }

    /// Number of rows.
    pub fn height(&self) -> (height: usize)
        ensures
            height == self@.height,
    {
        self.height
    }

    /// The background colour.
    pub fn bg_color(&self) -> (color: &[u8; 4])
        ensures
            color@ == self@.bg_color,
    {
        &self.bg_color
    }

    /// The frame: four bytes per pixel, row by row, top row first.
    pub fn frame(&self) -> (frame: &Vec<u8>)
        ensures
            frame@ == self@.frame,
    {
        &self.frame
    }
}

} // verus!
