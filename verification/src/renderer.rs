//! Rendering decisions: which writer an output file needs, and the bytes that
//! draw the source grid in a terminal with 24-bit background colors.

use vstd::prelude::*;
use vstd::utf8::encode_utf8;

use crate::error::{usage_error, AppError, ErrorView};
use crate::image::Image;
use crate::model::Color;
use crate::text::{decimal_ascii, push_decimal_ascii, push_str_bytes, str_chars};

verus! {

/// How an output file is written.
#[derive(Debug, Clone, Copy, PartialEq, Eq, Structural)]
pub enum OutputFormat {
    /// Binary PPM, written directly.
    Ppm,
    /// Any other format, converted by ImageMagick from a PPM.
    Magick,
}

/// `s` with ASCII uppercase letters made lowercase.
pub open spec fn ascii_lowercase(s: Seq<char>) -> Seq<char> {
    s.map_values(
        |c: char|
            if 65 <= c as u32 <= 90 {
                ((c as u32) + 32) as char
            } else {
                c
            },
    )
}

/// The writer for an output whose file extension is `extension`: PPM when it
/// is `ppm` in any ASCII case, ImageMagick otherwise, and an error when there
/// is no extension.
pub open spec fn format_for(extension: Option<Seq<char>>) -> Result<OutputFormat, ErrorView> {
    match extension {
        None => Err(usage_error("output file must have an extension"@)),
        Some(e) => if ascii_lowercase(e) == "ppm"@ {
            Ok(OutputFormat::Ppm)
        } else {
            Ok(OutputFormat::Magick)
        },
    }
}

/// The characters that become the lowercase letter `lower` when ASCII
/// uppercase letters are made lowercase: `lower` and its uppercase form `upper`.
proof fn lemma_lower_letter(c: char, lower: char, upper: char)
    requires
        97 <= lower as u32 <= 122,
        upper as u32 + 32 == lower as u32,
    ensures
        (if 65 <= c as u32 <= 90 {
            ((c as u32) + 32) as char
        } else {
            c
        }) == lower ==> c == lower || c == upper,
{
    if 65 <= c as u32 <= 90 {
        let v = (c as u32) + 32;
        assert((v as char) as u32 == v);
        if v == lower as u32 {
            assert(c as u32 == upper as u32);
        }
    }
}

/// An output file is written as PPM directly exactly when its extension is
/// `ppm` in any mix of ASCII cases; any other extension goes through
/// ImageMagick.
pub proof fn lemma_ppm_extension(e: Seq<char>)
    ensures
        format_for(Some(e)) is Ok,
        (format_for(Some(e)) == Ok::<OutputFormat, ErrorView>(OutputFormat::Ppm)) <==> (e.len()
            == 3 && (e[0] == 'p' || e[0] == 'P') && (e[1] == 'p' || e[1] == 'P') && (e[2] == 'm'
            || e[2] == 'M')),
{
    reveal_strlit("ppm");
    let l = ascii_lowercase(e);
    if l == "ppm"@ {
        assert(l.len() == 3);
        assert(l[0] == 'p' && l[1] == 'p' && l[2] == 'm');
        assert(l[0] == (if 65 <= e[0] as u32 <= 90 {
            ((e[0] as u32) + 32) as char
        } else {
            e[0]
        }));
        assert(l[2] == (if 65 <= e[2] as u32 <= 90 {
            ((e[2] as u32) + 32) as char
        } else {
            e[2]
        }));
        lemma_lower_letter(e[0], 'p', 'P');
        lemma_lower_letter(e[1], 'p', 'P');
        lemma_lower_letter(e[2], 'm', 'M');
    }
    if e.len() == 3 && (e[0] == 'p' || e[0] == 'P') && (e[1] == 'p' || e[1] == 'P') && (e[2]
        == 'm' || e[2] == 'M') {
        assert(l =~= "ppm"@);
    }
}

/// Chooses how to write an output file from its extension (`None` when the
/// path has none, or when it is not valid Unicode).
pub fn output_format(extension: Option<&str>) -> (r: Result<OutputFormat, AppError>)
    ensures
        match r {
            Ok(f) => format_for(
                match extension {
                    Some(e) => Some(e@),
                    None => None,
                },
            ) == Ok::<OutputFormat, ErrorView>(f),
            Err(e) => format_for(
                match extension {
                    Some(e) => Some(e@),
                    None => None,
                },
            ) == Err::<OutputFormat, ErrorView>(e@),
        },
{
    let extension = match extension {
        Some(e) => e,
        None => {
            return Err(AppError::usage(String::from_str("output file must have an extension")));
        },
    };
    let chars = str_chars(extension);
    let mut lower: Vec<char> = Vec::new();
    let mut i: usize = 0;
    while i < chars.len()
        invariant
            i <= chars@.len(),
            lower@ == ascii_lowercase(chars@.subrange(0, i as int)),
        decreases chars@.len() - i,
    {
        let c = chars[i];
        let u = c as u32;
        let l = if 65 <= u && u <= 90 {
            (u + 32) as u8 as char
        } else {
            c
        };
        lower.push(l);
        i = i + 1;
        assert(lower@ =~= ascii_lowercase(chars@.subrange(0, i as int)));
    }
    assert(chars@.subrange(0, chars@.len() as int) =~= chars@);
    let ppm = str_chars("ppm");
    if crate::text::same_chars(lower.as_slice(), ppm.as_slice()) {
        Ok(OutputFormat::Ppm)
    } else {
        Ok(OutputFormat::Magick)
    }
}

/// The escape sequence that sets a 24-bit background color, then two blanks.
pub open spec fn background_bytes(c: Color) -> Seq<u8> {
    encode_utf8("\x1b[48;2;"@) + decimal_ascii(c.r as nat) + encode_utf8(";"@) + decimal_ascii(
        c.g as nat,
    ) + encode_utf8(";"@) + decimal_ascii(c.b as nat) + encode_utf8("m  "@)
}

/// The bytes for the symbols `row[..n]`.
pub open spec fn row_bytes(row: Seq<char>, palette: Map<char, Color>, n: int) -> Seq<u8>
    decreases n,
{
    if n <= 0 {
        seq![]
    } else {
        row_bytes(row, palette, n - 1) + background_bytes(palette[row[n - 1]])
    }
}

/// The bytes for the rows `pixels[..n]`, each followed by a reset and a line
/// break.
pub open spec fn grid_bytes(pixels: Seq<Seq<char>>, palette: Map<char, Color>, n: int) -> Seq<u8>
    decreases n,
{
    if n <= 0 {
        seq![]
    } else {
        grid_bytes(pixels, palette, n - 1) + row_bytes(pixels[n - 1], palette, pixels[n - 1].len() as int)
            + encode_utf8("\x1b[0m\n"@)
    }
}

/// What the terminal view writes: every row, then a final reset.
pub open spec fn terminal_bytes(pixels: Seq<Seq<char>>, palette: Map<char, Color>) -> Seq<u8> {
    grid_bytes(pixels, palette, pixels.len() as int) + encode_utf8("\x1b[0m"@)
}

/// The escapes of a row's symbols, one per symbol, left to right: the one for
/// symbol `k` paints `palette[row[k]]`.
spec fn row_escapes(row: Seq<char>, palette: Map<char, Color>) -> Seq<Seq<u8>> {
    Seq::new(row.len(), |k: int| background_bytes(palette[row[k]]))
}

/// A row is drawn as the escapes of its symbols in order, left to right.
pub proof fn lemma_row_order(row: Seq<char>, palette: Map<char, Color>)
    ensures
        row_bytes(row, palette, row.len() as int) == Seq::new(
            row.len(),
            |k: int| background_bytes(palette[row[k]]),
        ).flatten(),
{
    lemma_row_prefix(row, palette, row.len() as int);
    assert(Seq::new(row.len(), |k: int| background_bytes(palette[row[k]])).take(row.len() as int)
        =~= Seq::new(row.len(), |k: int| background_bytes(palette[row[k]])));
}

proof fn lemma_row_prefix(row: Seq<char>, palette: Map<char, Color>, n: int)
    requires
        0 <= n <= row.len(),
    ensures
        row_bytes(row, palette, n) == row_escapes(row, palette).take(n).flatten(),
    decreases n,
{
    let e = row_escapes(row, palette);
    if n == 0 {
        assert(e.take(0) =~= Seq::<Seq<u8>>::empty());
    } else {
        lemma_row_prefix(row, palette, n - 1);
        assert(e.take(n) =~= e.take(n - 1).push(background_bytes(palette[row[n - 1]])));
        e.take(n - 1).lemma_flatten_push(background_bytes(palette[row[n - 1]]));
    }
}

/// The terminal view draws the rows top to bottom, each as its symbols'
/// escapes left to right followed by a reset and a line break, and ends with
/// a reset.
pub proof fn lemma_terminal_order(pixels: Seq<Seq<char>>, palette: Map<char, Color>)
    ensures
        terminal_bytes(pixels, palette) == Seq::new(
            pixels.len(),
            |y: int|
                Seq::new(
                    pixels[y].len(),
                    |k: int| background_bytes(palette[pixels[y][k]]),
                ).flatten() + encode_utf8("\x1b[0m\n"@),
        ).flatten() + encode_utf8("\x1b[0m"@),
{
    lemma_grid_prefix(pixels, palette, pixels.len() as int);
    assert(grid_rows(pixels, palette).take(pixels.len() as int) =~= grid_rows(pixels, palette));
    assert(grid_rows(pixels, palette) =~= Seq::new(
        pixels.len(),
        |y: int|
            Seq::new(
                pixels[y].len(),
                |k: int| background_bytes(palette[pixels[y][k]]),
            ).flatten() + encode_utf8("\x1b[0m\n"@),
    ));
}

/// The bytes of each row of the grid, reset and line break included.
spec fn grid_rows(pixels: Seq<Seq<char>>, palette: Map<char, Color>) -> Seq<Seq<u8>> {
    Seq::new(
        pixels.len(),
        |y: int| row_escapes(pixels[y], palette).flatten() + encode_utf8("\x1b[0m\n"@),
    )
}

proof fn lemma_grid_prefix(pixels: Seq<Seq<char>>, palette: Map<char, Color>, n: int)
    requires
        0 <= n <= pixels.len(),
    ensures
        grid_bytes(pixels, palette, n) == grid_rows(pixels, palette).take(n).flatten(),
    decreases n,
{
    let g = grid_rows(pixels, palette);
    if n == 0 {
        assert(g.take(0) =~= Seq::<Seq<u8>>::empty());
    } else {
        lemma_grid_prefix(pixels, palette, n - 1);
        let row = pixels[n - 1];
        lemma_row_order(row, palette);
        assert(row_escapes(row, palette) =~= Seq::new(
            row.len(),
            |k: int| background_bytes(palette[row[k]]),
        ));
        assert(g.take(n) =~= g.take(n - 1).push(g[n - 1]));
        g.take(n - 1).lemma_flatten_push(g[n - 1]);
    }
}

/// Appends the escape sequence that paints two blanks in `color`.
pub fn write_background(out: &mut Vec<u8>, color: Color)
    ensures
        final(out)@ == old(out)@ + background_bytes(color),
{
    push_str_bytes(out, "\x1b[48;2;");
    push_decimal_ascii(out, color.r as u64);
    push_str_bytes(out, ";");
    push_decimal_ascii(out, color.g as u64);
    push_str_bytes(out, ";");
    push_decimal_ascii(out, color.b as u64);
    push_str_bytes(out, "m  ");
    assert(final(out)@ =~= old(out)@ + background_bytes(color));
}

/// The bytes that draw the source grid in a terminal.
pub fn terminal(image: &Image) -> (out: Vec<u8>)
    requires
        forall|y: int, x: int|
            0 <= y < image@.pixels.len() && 0 <= x < image@.pixels[y].len()
                ==> image@.palette.contains_key(#[trigger] image@.pixels[y][x]),
    ensures
        out@ == terminal_bytes(image@.pixels, image@.palette),
        out@ == Seq::new(
            image@.pixels.len(),
            |y: int|
                Seq::new(
                    image@.pixels[y].len(),
                    |k: int| background_bytes(image@.palette[image@.pixels[y][k]]),
                ).flatten() + encode_utf8("\x1b[0m\n"@),
        ).flatten() + encode_utf8("\x1b[0m"@),
{
    let ghost pixels = image@.pixels;
    let ghost palette = image@.palette;
    let mut out: Vec<u8> = Vec::new();
    let mut y: usize = 0;
    while y < image.pixels.len()
        invariant
            y <= image.pixels@.len(),
            pixels == image@.pixels,
            palette == image@.palette,
            forall|j: int, x: int|
                0 <= j < pixels.len() && 0 <= x < pixels[j].len() ==> palette.contains_key(
                    #[trigger] pixels[j][x],
                ),
            out@ == grid_bytes(pixels, palette, y as int),
        decreases image.pixels@.len() - y,
    {
        let row = &image.pixels[y];
        assert(pixels[y as int] == row@);
        let ghost start = out@;
        let mut x: usize = 0;
        while x < row.len()
            invariant
                x <= row@.len(),
                pixels == image@.pixels,
                palette == image@.palette,
                y < pixels.len(),
                pixels[y as int] == row@,
                forall|j: int, i: int|
                    0 <= j < pixels.len() && 0 <= i < pixels[j].len() ==> palette.contains_key(
                        #[trigger] pixels[j][i],
                    ),
                out@ == start + row_bytes(row@, palette, x as int),
            decreases row@.len() - x,
        {
            let symbol = row[x];
            assert(palette.contains_key(pixels[y as int][x as int]));
            let color = match image.palette.get(symbol) {
                Some(c) => c,
                None => {
                    proof {
                        assert(false);
                    }
                    Color { r: 0, g: 0, b: 0 }
                },
            };
            write_background(&mut out, color);
            x = x + 1;
            assert(out@ =~= start + row_bytes(row@, palette, x as int));
        }
        push_str_bytes(&mut out, "\x1b[0m\n");
        y = y + 1;
        assert(out@ =~= grid_bytes(pixels, palette, y as int));
    }
    push_str_bytes(&mut out, "\x1b[0m");
    proof {
        lemma_terminal_order(pixels, palette);
    }
    out
}

} // verus!
