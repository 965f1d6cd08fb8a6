//! The pixel sink: a plain-text image made of a three-line header and one
//! line per pixel, filled in scan order from the top-left corner.

use crate::decimal::push_decimal;
use crate::layout::{
    header_text, image_text, lemma_header_lines, lemma_image_lines, lemma_image_text_injective,
    lemma_pixels_text_len, line_count, pixel_text, pixels_text, Pixel, NEWLINE, SPACE,
};
use crate::scan::{lemma_scan_in_bounds, scan_position};
use vstd::prelude::*;

verus! {

/// What a sink stands for: where it is to be stored, the size it was made
/// for, and the pixels it has taken so far.
pub struct PPMImage {
    pub path: Seq<char>,
    pub width: u32,
    pub height: u32,
    pub pixels: Seq<Pixel>,
}

impl PPMImage {
    /// The number of pixels of a whole image.
    pub open spec fn area(self) -> nat {
        (self.width as nat) * (self.height as nat)
    }

    /// Whether the image holds each of its pixels, and no more.
    pub open spec fn complete(self) -> bool {
        self.pixels.len() == self.area()
    }

    /// The file's text: the header, then the pixels' lines.
    pub open spec fn text(self) -> Seq<u8> {
        image_text(self.width, self.height, self.pixels)
    }

    /// The position of the pixel that is due next, if one is.
    pub open spec fn next_position(self) -> Option<(u32, u32)> {
        if self.pixels.len() < self.area() {
            Some(scan_position(self.width, self.height, self.pixels.len()))
        } else {
            None
        }
    }

    /// The text of a complete image is the header for its size, three lines
    /// long, followed by one line for each of its `width * height` pixels and
    /// nothing else.
    pub proof fn lemma_complete_text(self)
        requires
            self.complete(),
        ensures
            self.text() == header_text(self.width, self.height) + pixels_text(self.pixels),
            line_count(header_text(self.width, self.height)) == 3,
            line_count(pixels_text(self.pixels)) == self.width * self.height,
            line_count(self.text()) == 3 + self.width * self.height,
    {
        lemma_header_lines(self.width, self.height);
        lemma_image_lines(self.width, self.height, self.pixels);
    }

    /// The text says what the image is: two images with the same text have
    /// the same size and the same pixels.
    pub proof fn lemma_text_injective(self, other: PPMImage)
        requires
            self.text() == other.text(),
        ensures
            self.width == other.width,
            self.height == other.height,
            self.pixels == other.pixels,
    {
        lemma_image_text_injective(
            self.width,
            self.height,
            self.pixels,
            other.width,
            other.height,
            other.pixels,
        );
    }
}

/// A pixel sink in the plain-text format. It gathers the file's text in
/// memory; storing it is left to the caller.
pub struct PPMFile {
    path: String,
    width: u32,
    height: u32,
    text: Vec<u8>,
    written: u64,
    pixels: Ghost<Seq<Pixel>>,
}

impl View for PPMFile {
    type V = PPMImage;

    closed spec fn view(&self) -> PPMImage {
        PPMImage { path: self.path@, width: self.width, height: self.height, pixels: self.pixels@ }
    }
}

impl PPMFile {
    /// The sink holds exactly the text of what it stands for.
    pub closed spec fn wf(&self) -> bool {
        &&& self.text@ == self@.text()
        &&& self.written == self.pixels@.len()
    }

    /// A sink for an image of the given size, to be stored at `p`. It holds
    /// the header and no pixel.
    pub fn create(p: &str, width: u32, height: u32) -> (ppm: PPMFile)
        ensures
            ppm.wf(),
            ppm@ == (PPMImage { path: p@, width, height, pixels: Seq::empty() }),
    {
        let mut ppm = PPMFile {
            path: p.to_owned(),
            width,
            height,
            text: Vec::new(),
            written: 0,
            pixels: Ghost(Seq::empty()),
        };
        ppm.write_header();
        ppm
    }

    fn write_header(&mut self)
        requires
            old(self).text@.len() == 0,
        ensures
            final(self).text@ == header_text(old(self).width, old(self).height),
            final(self).path == old(self).path,
            final(self).width == old(self).width,
            final(self).height == old(self).height,
            final(self).written == old(self).written,
            final(self).pixels == old(self).pixels,
    {
        self.text.push(0x50);
        self.text.push(0x33);
        self.text.push(NEWLINE);
        push_decimal(&mut self.text, self.width);
        self.text.push(SPACE);
        push_decimal(&mut self.text, self.height);
        self.text.push(NEWLINE);
        self.text.push(0x32);
        self.text.push(0x35);
        self.text.push(0x35);
        self.text.push(NEWLINE);
        assert(self.text@ =~= header_text(self.width, self.height));
    }

    /// Takes the next pixel in scan order and appends its line to the text;
    /// what the text held before stays as it was.
    pub fn write_next_pixel(&mut self, r: u8, g: u8, b: u8)
        requires
            old(self).wf(),
        ensures
            final(self).wf(),
            final(self)@ == (PPMImage { pixels: old(self)@.pixels.push((r, g, b)), ..old(self)@ }),
            final(self)@.text() == old(self)@.text() + pixel_text((r, g, b)),
    {
        proof {
            lemma_pixels_text_len(self.pixels@);
        }
        let ghost before = self.pixels@;
        push_decimal(&mut self.text, r as u32);
        self.text.push(SPACE);
        push_decimal(&mut self.text, g as u32);
        self.text.push(SPACE);
        push_decimal(&mut self.text, b as u32);
        self.text.push(SPACE);
        self.text.push(NEWLINE);
        let len: usize = self.text.len();
        assert(len >= 7 * (self.written + 1));
        self.written = self.written + 1;
        proof {
            self.pixels@ = before.push((r, g, b));
            assert(self.pixels@.drop_last() =~= before);
            assert(self.text@ =~= header_text(self.width, self.height) + (pixels_text(before)
                + pixel_text((r, g, b))));
        }
    }

    /// The width that the sink was made for.
    pub fn width(&self) -> (width: u32)
        ensures
            width == self@.width,
    {
        self.width
    }

    /// The height that the sink was made for.
    pub fn height(&self) -> (height: u32)
        ensures
            height == self@.height,
    {
        self.height
    }

    /// Where the image is to be stored.
    pub fn path(&self) -> (path: &str)
        ensures
            path@ == self@.path,
    {
        self.path.as_str()
    }

    /// The file's text as it stands: the header and a line for each pixel
    /// taken so far.
    pub fn contents(&self) -> (text: &Vec<u8>)
        requires
            self.wf(),
        ensures
            text@ == self@.text(),
    {
        &self.text
    }

    /// The number of pixels taken so far.
    pub fn pixels_written(&self) -> (count: u64)
        requires
            self.wf(),
        ensures
            count == self@.pixels.len(),
    {
        self.written
    }

    /// Whether the sink has taken each pixel of its image, and no more.
    pub fn is_complete(&self) -> (done: bool)
        requires
            self.wf(),
        ensures
            done == self@.complete(),
    {
        let w: u64 = self.width as u64;
        let h: u64 = self.height as u64;
        assert(w * h <= u64::MAX) by (nonlinear_arith)
            requires
                w <= u32::MAX,
                h <= u32::MAX,
        ;
        self.written == w * h
    }

    /// The position of the pixel that is due next: its column from the left
    /// and its row from the bottom. `None` once every pixel has been taken.
    pub fn next_pixel(&self) -> (next: Option<(u32, u32)>)
        requires
            self.wf(),
        ensures
            next == self@.next_position(),
    {
        let w: u64 = self.width as u64;
        let h: u64 = self.height as u64;
        assert(w * h <= u64::MAX) by (nonlinear_arith)
            requires
                w <= u32::MAX,
                h <= u32::MAX,
        ;
        if self.written < w * h {
            proof {
                lemma_scan_in_bounds(self.width, self.height, self.written as nat);
            }
            let x: u64 = self.written % w;
            let row: u64 = self.written / w;
            Some((x as u32, self.height - 1 - (row as u32)))
        } else {
            None
        }
    }
}

} // verus!
