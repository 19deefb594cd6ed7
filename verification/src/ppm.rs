//! The binary PPM (`P6`) encoding of an image, and the direct sampling of
//! output pixels from the source grid.

use vstd::prelude::*;
use vstd::arithmetic::div_mod::{
    lemma_div_multiples_vanish_quotient, lemma_fundamental_div_mod,
    lemma_fundamental_div_mod_converse, lemma_mod_pos_bound,
};
use vstd::utf8::encode_utf8;

use crate::image::{drawable, Image, ImageView};
use crate::model::{Color, Resolution};
use crate::text::{decimal_ascii, push_decimal_ascii, push_str_bytes};

verus! {

/// The header of a binary PPM file: `P6`, the width and height, and the
/// maximum channel value 255, each on its own line.
pub open spec fn header_bytes(output: Resolution) -> Seq<u8> {
    encode_utf8("P6\n"@) + decimal_ascii(output.width as nat) + encode_utf8(" "@) + decimal_ascii(
        output.height as nat,
    ) + encode_utf8("\n"@) + encode_utf8("255\n"@)
}

/// The bytes of a color: red, green, blue.
pub open spec fn color_bytes(c: Color) -> Seq<u8> {
    seq![c.r, c.g, c.b]
}

/// The bytes of a sequence of colors, three per color, in order.
pub open spec fn colors_bytes(colors: Seq<Color>) -> Seq<u8>
    decreases colors.len(),
{
    if colors.len() == 0 {
        seq![]
    } else {
        colors_bytes(colors.drop_last()) + color_bytes(colors.last())
    }
}

/// The source coordinate that output coordinate `pos` samples when the output
/// has `output_size` pixels along that axis and the source `source_size`.
pub open spec fn nearest(pos: nat, output_size: nat, source_size: nat) -> nat {
    pos * source_size / output_size
}

/// With an output that is the source scaled by an integer factor, each output
/// coordinate samples the source coordinate it lands on after dividing by the
/// factor: every source pixel becomes a `scale` by `scale` block.
pub proof fn lemma_nearest_scaled(pos: nat, source_size: nat, scale: nat)
    requires
        source_size > 0,
        scale > 0,
    ensures
        nearest(pos, source_size * scale, source_size) == pos / scale,
{
    lemma_div_multiples_vanish_quotient(source_size as int, pos as int, scale as int);
    assert(pos * source_size == source_size * pos) by (nonlinear_arith);
}

/// Three bytes per color.
pub proof fn lemma_colors_bytes_len(colors: Seq<Color>)
    ensures
        colors_bytes(colors).len() == 3 * colors.len(),
    decreases colors.len(),
{
    if colors.len() > 0 {
        lemma_colors_bytes_len(colors.drop_last());
    }
}

/// Appends the PPM header for an image of the given size.
pub fn write_header(out: &mut Vec<u8>, output: Resolution)
    ensures
        final(out)@ == old(out)@ + header_bytes(output),
{
    push_str_bytes(out, "P6\n");
    push_decimal_ascii(out, output.width as u64);
    push_str_bytes(out, " ");
    push_decimal_ascii(out, output.height as u64);
    push_str_bytes(out, "\n");
    push_str_bytes(out, "255\n");
    assert(final(out)@ =~= old(out)@ + header_bytes(output));
}

/// Appends the three bytes of one pixel.
pub fn write_pixel(out: &mut Vec<u8>, color: Color)
    ensures
        final(out)@ == old(out)@ + color_bytes(color),
{
    out.push(color.r);
    out.push(color.g);
    out.push(color.b);
    assert(final(out)@ =~= old(out)@ + color_bytes(color));
}

/// Appends the bytes of every color, in order.
pub fn write_pixels(out: &mut Vec<u8>, colors: &[Color])
    ensures
        final(out)@ == old(out)@ + colors_bytes(colors@),
{
    let ghost start = out@;
    let mut i: usize = 0;
    assert(colors_bytes(colors@.subrange(0, 0)) =~= Seq::<u8>::empty());
    assert(out@ =~= start + colors_bytes(colors@.subrange(0, 0)));
    while i < colors.len()
        invariant
            i <= colors@.len(),
            out@ == start + colors_bytes(colors@.subrange(0, i as int)),
        decreases colors@.len() - i,
    {
        write_pixel(out, colors[i]);
        i = i + 1;
        assert(colors@.subrange(0, i as int).drop_last() =~= colors@.subrange(0, i - 1));
        assert(out@ =~= start + colors_bytes(colors@.subrange(0, i as int)));
    }
    assert(colors@.subrange(0, colors@.len() as int) =~= colors@);
}

/// A whole PPM file: the header for `output`, then the pixels.
pub fn encode(output: Resolution, colors: &[Color]) -> (out: Vec<u8>)
    ensures
        out@ == header_bytes(output) + colors_bytes(colors@),
        out@.len() == header_bytes(output).len() + 3 * colors@.len(),
{
    proof {
        lemma_colors_bytes_len(colors@);
    }
    let mut out: Vec<u8> = Vec::new();
    write_header(&mut out, output);
    write_pixels(&mut out, colors);
    assert(out@ =~= header_bytes(output) + colors_bytes(colors@));
    out
}

/// Every output coordinate samples a source coordinate inside the source.
pub proof fn lemma_nearest_bound(pos: nat, output_size: nat, source_size: nat)
    requires
        pos < output_size,
    ensures
        nearest(pos, output_size, source_size) < source_size || source_size == 0,
{
    if source_size > 0 {
        assert(pos * source_size < output_size * source_size) by (nonlinear_arith)
            requires
                pos < output_size,
                source_size > 0,
        ;
        assert(pos * source_size / output_size < source_size) by (nonlinear_arith)
            requires
                pos * source_size < output_size * source_size,
                output_size > 0,
        ;
    }
}

/// Row `y` of the output when each output pixel takes the color of the source
/// pixel at the proportional position, rounded down.
pub fn nearest_row(image: &Image, y: usize) -> (row: Vec<Color>)
    requires
        drawable(image@),
        image.output.width > 0,
        image.output.height > 0,
        y < image.output.height,
        y * image.source.height <= usize::MAX,
        (image.output.width - 1) * image.source.width <= usize::MAX,
    ensures
        row@.len() == image.output.width,
        forall|x: int|
            0 <= x < image.output.width ==> #[trigger] row@[x] == image@.palette[image@.pixels[nearest(
                y as nat,
                image.output.height as nat,
                image.source.height as nat,
            ) as int][nearest(x as nat, image.output.width as nat, image.source.width as nat) as int]],
{
    let source_y = y * image.source.height / image.output.height;
    proof {
        lemma_nearest_bound(y as nat, image.output.height as nat, image.source.height as nat);
    }
    let mut row: Vec<Color> = Vec::new();
    let mut x: usize = 0;
    while x < image.output.width
        invariant
            drawable(image@),
            image.output.width > 0,
            (image.output.width - 1) * image.source.width <= usize::MAX,
            source_y == nearest(y as nat, image.output.height as nat, image.source.height as nat),
            source_y < image.source.height,
            x <= image.output.width,
            row@.len() == x,
            forall|i: int|
                0 <= i < x ==> #[trigger] row@[i] == image@.palette[image@.pixels[source_y as int][nearest(
                    i as nat,
                    image.output.width as nat,
                    image.source.width as nat,
                ) as int]],
        decreases image.output.width - x,
    {
        assert(x * image.source.width <= (image.output.width - 1) * image.source.width) by (nonlinear_arith)
            requires
                x <= image.output.width - 1,
        ;
        let source_x = x * image.source.width / image.output.width;
        proof {
            lemma_nearest_bound(x as nat, image.output.width as nat, image.source.width as nat);
            assert(image@.pixels[source_y as int].len() == image.source.width);
        }
        let color = image.color_at(source_x, source_y);
        row.push(color);
        x = x + 1;
    }
    row
}

/// The position of the pixel at column `x` of row `y` in a row-major list of
/// rows `width` pixels wide.
pub open spec fn flat_index(x: int, y: int, width: int) -> int {
    y * width + x
}

/// The color of the output pixel at column `x` of row `y` when every output
/// pixel takes the color of the source pixel at the proportional position,
/// rounded down.
pub open spec fn nearest_color(image: ImageView, x: int, y: int) -> Color {
    image.palette[image.pixels[nearest(
        y as nat,
        image.output.height as nat,
        image.source.height as nat,
    ) as int][nearest(x as nat, image.output.width as nat, image.source.width as nat) as int]]
}

proof fn lemma_flat_index(x: int, y: int, row: int, width: int)
    requires
        0 <= x < width,
        0 <= y,
        0 <= row,
    ensures
        y * width <= flat_index(x, y, width) < (y + 1) * width,
        y < row ==> (y + 1) * width <= row * width,
{
    assert(y * width <= y * width + x < (y + 1) * width) by (nonlinear_arith)
        requires
            0 <= x < width,
    ;
    if y < row {
        assert((y + 1) * width <= row * width) by (nonlinear_arith)
            requires
                y + 1 <= row,
                0 <= width,
        ;
    }
}

/// Every output pixel, row after row, when each takes the color of the source
/// pixel at the proportional position, rounded down.
pub fn nearest_pixels(image: &Image) -> (out: Vec<Color>)
    requires
        drawable(image@),
        image.output.width > 0,
        image.output.height > 0,
        image.output.width * image.output.height <= usize::MAX,
        (image.output.height - 1) * image.source.height <= usize::MAX,
        (image.output.width - 1) * image.source.width <= usize::MAX,
    ensures
        out@.len() == image.output.width * image.output.height,
        out@ == nearest_colors(image@),
        forall|x: int, y: int|
            0 <= x < image.output.width && 0 <= y < image.output.height ==> #[trigger] out@[flat_index(
                x,
                y,
                image.output.width as int,
            )] == nearest_color(image@, x, y),
{
    let width = image.output.width;
    let height = image.output.height;
    let mut out: Vec<Color> = Vec::new();
    let mut y: usize = 0;
    while y < height
        invariant
            drawable(image@),
            width == image.output.width,
            height == image.output.height,
            width > 0,
            width * height <= usize::MAX,
            (height - 1) * image.source.height <= usize::MAX,
            (width - 1) * image.source.width <= usize::MAX,
            y <= height,
            out@.len() == y * width,
            forall|x: int, yy: int|
                0 <= x < width && 0 <= yy < y ==> #[trigger] out@[flat_index(x, yy, width as int)]
                    == nearest_color(image@, x, yy),
        decreases height - y,
    {
        assert(y * image.source.height <= (height - 1) * image.source.height) by (nonlinear_arith)
            requires
                y <= height - 1,
        ;
        let row = nearest_row(image, y);
        let ghost before = out@;
        let mut x: usize = 0;
        while x < row.len()
            invariant
                row@.len() == width,
                x <= width,
                out@.len() == before.len() + x,
                before.len() == y * width,
                forall|i: int| 0 <= i < before.len() ==> #[trigger] out@[i] == before[i],
                forall|i: int| 0 <= i < x ==> #[trigger] out@[before.len() + i] == row@[i],
            decreases width - x,
        {
            out.push(row[x]);
            x = x + 1;
        }
        proof {
            assert forall|xx: int, yy: int|
                0 <= xx < width && 0 <= yy < y + 1 implies #[trigger] out@[flat_index(
                xx,
                yy,
                width as int,
            )] == nearest_color(image@, xx, yy) by {
                lemma_flat_index(xx, yy, y as int, width as int);
                if yy < y {
                    assert(out@[flat_index(xx, yy, width as int)] == before[flat_index(
                        xx,
                        yy,
                        width as int,
                    )]);
                } else {
                    assert(flat_index(xx, yy, width as int) == before.len() + xx);
                    assert(out@[before.len() + xx] == row@[xx]);
                }
            }
            assert(out@.len() == (y + 1) * width) by (nonlinear_arith)
                requires
                    out@.len() == y * width + width,
            ;
        }
        y = y + 1;
    }
    assert(out@.len() == width * height) by (nonlinear_arith)
        requires
            out@.len() == y * width,
            y == height,
    ;
    proof {
        assert forall|i: int| 0 <= i < out@.len() implies #[trigger] out@[i] == nearest_colors(
            image@,
        )[i] by {
            lemma_unflatten(i, width as int, height as int);
            assert(out@[flat_index(i % (width as int), i / (width as int), width as int)]
                == nearest_color(image@, i % (width as int), i / (width as int)));
        }
        assert(out@ =~= nearest_colors(image@));
    }
    out
}

/// Every output pixel of direct sampling, row after row.
pub open spec fn nearest_colors(image: ImageView) -> Seq<Color> {
    Seq::new(
        (image.output.width * image.output.height) as nat,
        |i: int|
            nearest_color(
                image,
                i % (image.output.width as int),
                i / (image.output.width as int),
            ),
    )
}

/// Position `i` of a row-major list of rows `width` pixels wide is column
/// `i % width` of row `i / width`.
proof fn lemma_unflatten(i: int, width: int, height: int)
    requires
        width > 0,
        0 <= i < width * height,
    ensures
        0 <= i % width < width,
        0 <= i / width < height,
        flat_index(i % width, i / width, width) == i,
{
    lemma_fundamental_div_mod(i, width);
    lemma_mod_pos_bound(i, width);
    let y = i / width;
    let x = i % width;
    assert(i == y * width + x) by (nonlinear_arith)
        requires
            i == width * y + x,
    ;
    assert(0 <= y < height) by (nonlinear_arith)
        requires
            i == y * width + x,
            0 <= x < width,
            0 <= i < width * height,
            width > 0,
    ;
}

/// Direct sampling, pixel by pixel: the output pixel at column `x` of row `y`
/// stands at `y * width + x`, rows top to bottom and each row left to right,
/// and takes the palette color of the source symbol at row
/// `y * source height / output height`, column `x * source width / output width`.
pub proof fn lemma_nearest_sampling(image: ImageView, x: int, y: int)
    requires
        0 <= x < image.output.width,
        0 <= y < image.output.height,
    ensures
        nearest_colors(image).len() == image.output.width * image.output.height,
        0 <= y * image.output.width + x < image.output.width * image.output.height,
        nearest_colors(image)[y * image.output.width + x] == image.palette[image.pixels[(y
            * image.source.height) / (image.output.height as int)][(x * image.source.width) / (
        image.output.width as int)]],
{
    let w = image.output.width as int;
    let h = image.output.height as int;
    let i = y * w + x;
    lemma_fundamental_div_mod_converse(i, w, y, x);
    lemma_flat_index(x, y, h, w);
    assert(i < w * h) by (nonlinear_arith)
        requires
            i < (y + 1) * w,
            (y + 1) * w <= h * w,
    ;
    assert(h * w == w * h) by (nonlinear_arith);
}

/// Direct sampling at the source's own size copies the grid: output pixel `i`
/// is the palette color of the symbol at row `i / width`, column `i % width`.
pub proof fn lemma_nearest_identity(image: ImageView, i: int)
    requires
        image.output == image.source,
        0 <= i < image.source.width * image.source.height,
    ensures
        nearest_colors(image)[i] == image.palette[image.pixels[i / (image.source.width as int)][i
            % (image.source.width as int)]],
{
    let w = image.source.width as int;
    let h = image.source.height as int;
    assert(w > 0) by (nonlinear_arith)
        requires
            0 <= i < w * h,
            w >= 0,
    ;
    lemma_unflatten(i, w, h);
    let x = i % w;
    let y = i / w;
    lemma_nearest_sampling(image, x, y);
    lemma_fundamental_div_mod_converse(y * h, h, y, 0);
    lemma_fundamental_div_mod_converse(x * w, w, x, 0);
}

/// The bytes of color `i` are the three bytes at `3 * i` in the encoding of a
/// sequence of colors.
pub proof fn lemma_colors_bytes_at(colors: Seq<Color>, i: int)
    requires
        0 <= i < colors.len(),
    ensures
        colors_bytes(colors).len() == 3 * colors.len(),
        colors_bytes(colors).subrange(3 * i, 3 * i + 3) == color_bytes(colors[i]),
    decreases colors.len(),
{
    lemma_colors_bytes_len(colors);
    let d = colors.drop_last();
    lemma_colors_bytes_len(d);
    if i < colors.len() - 1 {
        lemma_colors_bytes_at(d, i);
        assert(colors_bytes(colors).subrange(3 * i, 3 * i + 3) =~= colors_bytes(d).subrange(
            3 * i,
            3 * i + 3,
        ));
    } else {
        assert(colors_bytes(colors).subrange(3 * i, 3 * i + 3) =~= color_bytes(colors.last()));
    }
}

/// The three bytes of the pixel at column `x` of row `y` in a PPM file for an
/// image of size `output`: they follow the header, row after row, three bytes
/// per pixel.
pub open spec fn pixel_in_file(file: Seq<u8>, output: Resolution, x: int, y: int) -> Seq<u8> {
    let at = header_bytes(output).len() + 3 * (y * output.width + x);
    file.subrange(at, at + 3)
}

/// The whole PPM file for an image: the header, then the pixels, either the
/// `reconstructed` ones when the image is reconstructed or those of direct
/// sampling.
pub fn write(image: &Image, reconstructed: &[Color]) -> (out: Vec<u8>)
    requires
        !image.reconstruction ==> {
            &&& drawable(image@)
            &&& image.output.width > 0
            &&& image.output.height > 0
            &&& image.output.width * image.output.height <= usize::MAX
            &&& (image.output.height - 1) * image.source.height <= usize::MAX
            &&& (image.output.width - 1) * image.source.width <= usize::MAX
        },
    ensures
        out@ == header_bytes(image.output) + colors_bytes(
            if image.reconstruction {
                reconstructed@
            } else {
                nearest_colors(image@)
            },
        ),
        !image.reconstruction ==> forall|x: int, y: int|
            0 <= x < image.output.width && 0 <= y < image.output.height ==> #[trigger] pixel_in_file(
                out@,
                image.output,
                x,
                y,
            ) == color_bytes(
                image@.palette[image@.pixels[(y * image.source.height) / (
                image.output.height as int)][(x * image.source.width) / (
                image.output.width as int)]],
            ),
{
    let mut out: Vec<u8> = Vec::new();
    write_header(&mut out, image.output);
    if image.reconstruction {
        write_pixels(&mut out, reconstructed);
    } else {
        let pixels = nearest_pixels(image);
        write_pixels(&mut out, pixels.as_slice());
        proof {
            let h = header_bytes(image.output);
            let colors = nearest_colors(image@);
            assert forall|x: int, y: int|
                0 <= x < image.output.width && 0 <= y < image.output.height implies #[trigger] pixel_in_file(
                out@,
                image.output,
                x,
                y,
            ) == color_bytes(
                image@.palette[image@.pixels[(y * image.source.height) / (
                image.output.height as int)][(x * image.source.width) / (
                image.output.width as int)]],
            ) by {
                let i = y * image.output.width + x;
                lemma_nearest_sampling(image@, x, y);
                lemma_colors_bytes_at(colors, i);
                assert(out@ == h + colors_bytes(colors));
                assert(pixel_in_file(out@, image.output, x, y) =~= colors_bytes(colors).subrange(
                    3 * i,
                    3 * i + 3,
                ));
            }
        }
    }
    out
}

} // verus!
