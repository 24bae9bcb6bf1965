//! The pixel buffer and its plain-text pixel-map form.

use crate::color::{lemma_ppm_tokens, Rgb};
use crate::decimal::{decimal, lemma_decimal_is_word, lemma_decimal_value, push_decimal};
use crate::tokens::{is_closed, is_word, lemma_closed_word, lemma_tokens_concat, tokens};
use vstd::arithmetic::div_mod::{lemma_fundamental_div_mod, lemma_fundamental_div_mod_converse};
use vstd::prelude::*;
use vstd::string::StringExecFns;

verus! {

/// The header of a pixel map: the format's magic word, the width, the height
/// and the largest channel value, ended by a line feed.
pub open spec fn header(width: u32, height: u32) -> Seq<char> {
    seq!['P', '3', ' '] + decimal(width as nat) + seq![' '] + decimal(height as nat)
        + seq![' ', '2', '5', '5', '\n']
}

/// The text of a run of pixels: each pixel's text in turn, with nothing between.
pub open spec fn pixels_text(pixels: Seq<Rgb>) -> Seq<char>
    decreases pixels.len(),
{
    if pixels.len() == 0 {
        Seq::empty()
    } else {
        pixels_text(pixels.drop_last()) + pixels.last().ppm()
    }
}

/// The tokens of the header: the magic word, the width, the height and the
/// largest channel value.
pub open spec fn header_tokens(width: u32, height: u32) -> Seq<Seq<char>> {
    seq![seq!['P', '3'], decimal(width as nat), decimal(height as nat), seq!['2', '5', '5']]
}

/// The channels of a run of pixels in decimal notation, three for each pixel
/// in turn.
pub open spec fn pixels_channels(pixels: Seq<Rgb>) -> Seq<Seq<char>>
    decreases pixels.len(),
{
    if pixels.len() == 0 {
        Seq::empty()
    } else {
        pixels_channels(pixels.drop_last()) + pixels.last().channels()
    }
}

/// The column of the pixel stored at `index` in a row-major buffer.
pub open spec fn column_of(width: u32, index: int) -> u32 {
    (index % width as int) as u32
}

/// The row of the pixel stored at `index` in a row-major buffer.
pub open spec fn row_of(width: u32, index: int) -> u32 {
    (index / width as int) as u32
}

/// The place of pixel (`col`, `row`) in a row-major buffer.
pub open spec fn index_of(width: u32, col: u32, row: u32) -> int {
    row * width + col
}

/// Whether `pixels` holds one result of `shade` for every pixel of a `width`
/// by `height` grid, row after row from the top, each row from the left.
pub open spec fn rendered<F: Fn(u32, u32) -> Rgb>(
    shade: F,
    width: u32,
    height: u32,
    pixels: Seq<Rgb>,
) -> bool {
    &&& pixels.len() == width * height
    &&& forall|i: int|
        0 <= i < pixels.len() ==> call_ensures(
            shade,
            (column_of(width, i), row_of(width, i)),
            #[trigger] pixels[i],
        )
}

/// A raster image: its dimensions and its pixels in row-major order.
#[derive(Debug)]
pub struct PPMImage {
    pub width: u32,
    pub height: u32,
    pub pixels: Vec<Rgb>,
}

impl PPMImage {
    /// Whether the buffer holds exactly one pixel for each place of the grid.
    pub open spec fn is_complete(&self) -> bool {
        self.pixels@.len() == self.width * self.height
    }

    /// The image as pixel-map text: the header, then every pixel.
    pub open spec fn text(&self) -> Seq<char> {
        header(self.width, self.height) + pixels_text(self.pixels@)
    }

    /// An image of the given dimensions with no pixel yet.
    pub fn new(width: u32, height: u32) -> (image: PPMImage)
        ensures
            image.width == width,
            image.height == height,
            image.pixels@ == Seq::<Rgb>::empty(),
    {
        PPMImage { width, height, pixels: Vec::new() }
    }

    /// Replaces the pixels by one call of `shade` per place of the grid, with
    /// the column and the row as arguments, in row-major order.
    pub fn render<F: Fn(u32, u32) -> Rgb>(&mut self, shade: F)
        requires
            forall|col: u32, row: u32|
                col < old(self).width && row < old(self).height ==> call_requires(
                    shade,
                    (col, row),
                ),
        ensures
            final(self).width == old(self).width,
            final(self).height == old(self).height,
            final(self).is_complete(),
            rendered(shade, old(self).width, old(self).height, final(self).pixels@),
    {
        let width = self.width;
        let height = self.height;
        let mut pixels: Vec<Rgb> = Vec::new();
        let mut row: u32 = 0;
        while row < height
            invariant
                row <= height,
                pixels@.len() == row * width,
                forall|c: u32, r: u32| c < width && r < height ==> call_requires(shade, (c, r)),
                forall|i: int|
                    0 <= i < pixels@.len() ==> call_ensures(
                        shade,
                        (column_of(width, i), row_of(width, i)),
                        #[trigger] pixels@[i],
                    ),
            decreases height - row,
        {
            let mut col: u32 = 0;
            while col < width
                invariant
                    col <= width,
                    row < height,
                    pixels@.len() == row * width + col,
                    forall|c: u32, r: u32|
                        c < width && r < height ==> call_requires(shade, (c, r)),
                    forall|i: int|
                        0 <= i < pixels@.len() ==> call_ensures(
                            shade,
                            (column_of(width, i), row_of(width, i)),
                            #[trigger] pixels@[i],
                        ),
                decreases width - col,
            {
                let color = shade(col, row);
                proof {
                    lemma_row_major(width, col, row);
                }
                pixels.push(color);
                col += 1;
            }
            assert((row + 1) * width == row * width + width) by (nonlinear_arith);
            row += 1;
        }
        assert(row * width == width * height) by (nonlinear_arith)
            requires
                row == height,
        ;
        self.pixels = pixels;
    }

    /// Renders the image as pixel-map text.
    pub fn to_text(&self) -> (text: String)
        ensures
            text@ == self.text(),
    {
        proof {
            reveal_strlit("P3 ");
            reveal_strlit(" ");
            reveal_strlit(" 255\n");
        }
        let mut text = String::new();
        text.append("P3 ");
        push_decimal(&mut text, self.width);
        text.append(" ");
        push_decimal(&mut text, self.height);
        text.append(" 255\n");
        assert(text@ =~= header(self.width, self.height));
        let mut i: usize = 0;
        while i < self.pixels.len()
            invariant
                i <= self.pixels@.len(),
                text@ == header(self.width, self.height) + pixels_text(self.pixels@.take(i as int)),
            decreases self.pixels@.len() - i,
        {
            let pixel = self.pixels[i].to_ppm();
            text.append(pixel.as_str());
            proof {
                let done = self.pixels@.take(i + 1);
                assert(done.drop_last() =~= self.pixels@.take(i as int));
                assert(done.last() == self.pixels@[i as int]);
                assert(text@ =~= header(self.width, self.height) + pixels_text(done));
            }
            i += 1;
        }
        assert(self.pixels@.take(i as int) =~= self.pixels@);
        text
    }
}

/// In a row-major buffer the pixel of column `col` and row `row` is stored at
/// place `row * width + col`, and at no other.
pub proof fn lemma_row_major(width: u32, col: u32, row: u32)
    requires
        col < width,
    ensures
        0 <= index_of(width, col, row),
        column_of(width, index_of(width, col, row)) == col,
        row_of(width, index_of(width, col, row)) == row,
{
    assert(0 <= row * width) by (nonlinear_arith);
    lemma_fundamental_div_mod_converse(row * width + col, width as int, row as int, col as int);
}

/// Every place of a row-major buffer of `width * height` pixels is the place
/// of one pixel of the grid.
pub proof fn lemma_row_major_place(width: u32, height: u32, index: int)
    requires
        0 <= index < width * height,
    ensures
        column_of(width, index) < width,
        row_of(width, index) < height,
        index_of(width, column_of(width, index), row_of(width, index)) == index,
{
    let w = width as int;
    assert(w > 0) by (nonlinear_arith)
        requires
            0 <= index < w * height,
            w >= 0,
    ;
    lemma_fundamental_div_mod(index, w);
    let q = index / w;
    let r = index % w;
    assert(0 <= r < w);
    assert(0 <= q < height) by (nonlinear_arith)
        requires
            index == w * q + r,
            0 <= r < w,
            0 <= index < w * height,
    ;
    assert(q * w == w * q) by (nonlinear_arith);
}

/// A rendered buffer holds at place `row * width + col` a result of the
/// shader for column `col` and row `row`.
pub proof fn lemma_rendered_pixel<F: Fn(u32, u32) -> Rgb>(
    shade: F,
    width: u32,
    height: u32,
    pixels: Seq<Rgb>,
    col: u32,
    row: u32,
)
    requires
        rendered(shade, width, height, pixels),
        col < width,
        row < height,
    ensures
        0 <= index_of(width, col, row) < pixels.len(),
        call_ensures(shade, (col, row), pixels[index_of(width, col, row)]),
{
    lemma_row_major(width, col, row);
    assert(row * width + col < width * height) by (nonlinear_arith)
        requires
            col < width,
            row < height,
    ;
}

/// Rendering is repeatable: where the shader allows one result only for each
/// pixel, two buffers rendered over the same grid hold the same pixels.
pub proof fn lemma_rendered_unique<F: Fn(u32, u32) -> Rgb>(
    shade: F,
    width: u32,
    height: u32,
    first: Seq<Rgb>,
    second: Seq<Rgb>,
)
    requires
        rendered(shade, width, height, first),
        rendered(shade, width, height, second),
        forall|col: u32, row: u32, a: Rgb, b: Rgb|
            call_ensures(shade, (col, row), a) && call_ensures(shade, (col, row), b) ==> a == b,
    ensures
        first == second,
{
    assert forall|i: int| 0 <= i < first.len() implies first[i] == second[i] by {
        assert(call_ensures(shade, (column_of(width, i), row_of(width, i)), first[i]));
        assert(call_ensures(shade, (column_of(width, i), row_of(width, i)), second[i]));
    }
    assert(first =~= second);
}

/// Rendering and writing out is repeatable: two images of the same dimensions,
/// rendered by a shader that allows one result only for each pixel, have the
/// same text.
pub proof fn lemma_render_repeatable<F: Fn(u32, u32) -> Rgb>(
    shade: F,
    first: PPMImage,
    second: PPMImage,
)
    requires
        first.width == second.width,
        first.height == second.height,
        rendered(shade, first.width, first.height, first.pixels@),
        rendered(shade, second.width, second.height, second.pixels@),
        forall|col: u32, row: u32, a: Rgb, b: Rgb|
            call_ensures(shade, (col, row), a) && call_ensures(shade, (col, row), b) ==> a == b,
    ensures
        first.pixels@ == second.pixels@,
        first.text() == second.text(),
{
    lemma_rendered_unique(shade, first.width, first.height, first.pixels@, second.pixels@);
}

/// The header splits into the magic word, the width, the height and the
/// largest channel value, and what follows it starts afresh.
pub proof fn lemma_header_tokens(width: u32, height: u32)
    ensures
        tokens(header(width, height)) == header_tokens(width, height),
        is_closed(header(width, height)),
{
    let magic = seq!['P', '3'];
    let limit = seq!['2', '5', '5'];
    let wide = decimal(width as nat);
    let high = decimal(height as nat);
    lemma_decimal_is_word(width as nat);
    lemma_decimal_is_word(height as nat);
    assert(is_word(magic));
    assert(is_word(limit));
    lemma_closed_word(magic, ' ');
    lemma_closed_word(wide, ' ');
    lemma_closed_word(high, ' ');
    lemma_closed_word(limit, '\n');
    lemma_tokens_concat(magic.push(' '), wide.push(' '));
    lemma_tokens_concat(magic.push(' ') + wide.push(' '), high.push(' '));
    lemma_tokens_concat(magic.push(' ') + wide.push(' ') + high.push(' '), limit.push('\n'));
    assert(header(width, height) =~= magic.push(' ') + wide.push(' ') + high.push(' ')
        + limit.push('\n'));
    assert(seq![magic] + seq![wide] + seq![high] + seq![limit] =~= header_tokens(width, height));
}

/// The channels of a run of pixels come three to a pixel, in the order of the
/// pixels, red before green before blue.
pub proof fn lemma_pixels_channels(pixels: Seq<Rgb>)
    ensures
        pixels_channels(pixels).len() == 3 * pixels.len(),
        forall|i: int|
            0 <= i < pixels.len() ==> {
                &&& pixels_channels(pixels)[3 * i] == decimal(#[trigger] pixels[i].red as nat)
                &&& pixels_channels(pixels)[3 * i + 1] == decimal(pixels[i].green as nat)
                &&& pixels_channels(pixels)[3 * i + 2] == decimal(pixels[i].blue as nat)
            },
    decreases pixels.len(),
{
    if pixels.len() > 0 {
        let front = pixels.drop_last();
        lemma_pixels_channels(front);
        assert forall|i: int| 0 <= i < pixels.len() implies {
            &&& pixels_channels(pixels)[3 * i] == decimal(#[trigger] pixels[i].red as nat)
            &&& pixels_channels(pixels)[3 * i + 1] == decimal(pixels[i].green as nat)
            &&& pixels_channels(pixels)[3 * i + 2] == decimal(pixels[i].blue as nat)
        } by {
            if i < front.len() {
                assert(front[i] == pixels[i]);
            }
        }
    }
}

/// The text of a run of pixels splits into the channels of the pixels, and
/// what follows it starts afresh.
pub proof fn lemma_pixels_text_tokens(pixels: Seq<Rgb>)
    ensures
        tokens(pixels_text(pixels)) == pixels_channels(pixels),
        is_closed(pixels_text(pixels)),
    decreases pixels.len(),
{
    if pixels.len() > 0 {
        lemma_pixels_text_tokens(pixels.drop_last());
        lemma_ppm_tokens(pixels.last());
        lemma_tokens_concat(pixels_text(pixels.drop_last()), pixels.last().ppm());
    }
}

/// The text of an image starts with its header and splits into the four
/// tokens of the header and then three numbers for each pixel: for a complete
/// image, three times its width times its height.
pub proof fn lemma_text_tokens(image: PPMImage)
    ensures
        image.text().subrange(0, header(image.width, image.height).len() as int) == header(
            image.width,
            image.height,
        ),
        tokens(image.text()) == header_tokens(image.width, image.height) + pixels_channels(
            image.pixels@,
        ),
        tokens(image.text()).len() == 4 + 3 * image.pixels@.len(),
        image.is_complete() ==> tokens(image.text()).len() == 4 + 3 * (image.width
            * image.height),
{
    let head = header(image.width, image.height);
    lemma_header_tokens(image.width, image.height);
    lemma_pixels_text_tokens(image.pixels@);
    lemma_pixels_channels(image.pixels@);
    lemma_tokens_concat(head, pixels_text(image.pixels@));
    assert(image.text().subrange(0, head.len() as int) =~= head);
}

/// The text loses nothing: two images with the same text have the same
/// dimensions and the same pixels.
pub proof fn lemma_text_determines_image(first: PPMImage, second: PPMImage)
    requires
        first.text() == second.text(),
    ensures
        first.width == second.width,
        first.height == second.height,
        first.pixels@ == second.pixels@,
{
    lemma_text_tokens(first);
    lemma_text_tokens(second);
    let a = header_tokens(first.width, first.height) + pixels_channels(first.pixels@);
    let b = header_tokens(second.width, second.height) + pixels_channels(second.pixels@);
    assert(a == b);
    assert(a.len() == b.len());
    assert(first.pixels@.len() == second.pixels@.len());
    assert(a[1] == decimal(first.width as nat));
    assert(b[1] == decimal(second.width as nat));
    assert(a[2] == decimal(first.height as nat));
    assert(b[2] == decimal(second.height as nat));
    lemma_decimal_value(first.width as nat);
    lemma_decimal_value(second.width as nat);
    lemma_decimal_value(first.height as nat);
    lemma_decimal_value(second.height as nat);
    lemma_pixels_channels(first.pixels@);
    lemma_pixels_channels(second.pixels@);
    assert forall|i: int| 0 <= i < first.pixels@.len() implies first.pixels@[i]
        == second.pixels@[i] by {
        let p = first.pixels@[i];
        let q = second.pixels@[i];
        assert(a[4 + 3 * i] == decimal(p.red as nat));
        assert(b[4 + 3 * i] == decimal(q.red as nat));
        assert(a[4 + 3 * i + 1] == decimal(p.green as nat));
        assert(b[4 + 3 * i + 1] == decimal(q.green as nat));
        assert(a[4 + 3 * i + 2] == decimal(p.blue as nat));
        assert(b[4 + 3 * i + 2] == decimal(q.blue as nat));
        lemma_decimal_value(p.red as nat);
        lemma_decimal_value(q.red as nat);
        lemma_decimal_value(p.green as nat);
        lemma_decimal_value(q.green as nat);
        lemma_decimal_value(p.blue as nat);
        lemma_decimal_value(q.blue as nat);
    }
    assert(first.pixels@ =~= second.pixels@);
}

} // verus!
