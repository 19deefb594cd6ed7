//! The `.px` document parser: settings (`$name = value`), palette entries
//! (`X = #RRGGBB`), comments (`;`), and the pixel grid that starts at the
//! first line that is neither.

use vstd::prelude::*;
use vstd::utf8::{encode_utf8, is_ascii_chars, is_ascii_chars_encode_utf8};
use vstd::slice::slice_subrange;

use crate::error::{outcome, parse_error, AppError, ErrorView};
use crate::model::{
    color_text, hex_char, string_texts, Color, Document, DocumentView, Palette, Resolution,
};
use crate::renderer::ascii_lowercase;
use crate::text::{
    before_comment, char_rows, chars_eq, chars_to_string, copy_range, decimal, encode_chars,
    find_from, is_ascii_digit, is_name_char, is_valid_name, is_whitespace, is_ws,
    lemma_decimal_value, lemma_find_from, lines_from, parse_unsigned, pieces, push_chars,
    push_decimal, push_str, same_chars, split_all, split_lines, split_once, split_once_at,
    split_whitespace, str_chars, strip_cr, trim, trim_end, trimmed, trimmed_end, trimmed_start,
    unsigned_value, valid_name, word_end, words, words_from,
};

verus! {

// ---------------------------------------------------------------------------
// The specification
// ---------------------------------------------------------------------------

/// The settings read so far.
pub struct Settings {
    pub scale: Option<u32>,
    pub resolution: Option<Resolution>,
    pub auto: Seq<Seq<char>>,
}

/// Everything read so far, and whether the pixel grid has started.
pub struct ParseState {
    pub settings: Settings,
    pub palette: Map<char, Color>,
    pub pixels: Seq<Seq<char>>,
    pub in_grid: bool,
}

/// The state before the first line.
pub open spec fn initial_state() -> ParseState {
    ParseState {
        settings: Settings { scale: None, resolution: None, auto: seq![] },
        palette: Map::empty(),
        pixels: seq![],
        in_grid: false,
    }
}

/// How a character is shown in a message: blanks and line breaks by name.
pub open spec fn display_text(c: char) -> Seq<char> {
    if c == ' ' {
        "space"@
    } else if c == '\t' {
        "\\t"@
    } else if c == '\r' {
        "\\r"@
    } else if c == '\n' {
        "\\n"@
    } else {
        seq![c]
    }
}

/// The value of a hexadecimal digit byte.
pub open spec fn hex_value(b: u8) -> Option<u8> {
    if 48 <= b <= 57 {
        Some((b - 48) as u8)
    } else if 97 <= b <= 102 {
        Some((b - 97 + 10) as u8)
    } else if 65 <= b <= 70 {
        Some((b - 65 + 10) as u8)
    } else {
        None
    }
}

/// The error for a byte that is not a hexadecimal digit; the byte is shown as
/// the character with that code.
pub open spec fn hex_error(line: usize, b: u8) -> ErrorView {
    parse_error(
        line,
        "invalid hexadecimal character '"@ + seq![b as char] + "'; expected #RRGGBB"@,
    )
}

/// The byte written by two hexadecimal digits, high digit first.
pub open spec fn byte_value(high: u8, low: u8, line: usize) -> Result<u8, ErrorView> {
    match hex_value(high) {
        None => Err(hex_error(line, high)),
        Some(h) => match hex_value(low) {
            None => Err(hex_error(line, low)),
            Some(l) => Ok((h * 16 + l) as u8),
        },
    }
}

/// The color `#RRGGBB` that `value` writes; the checks go over the UTF-8
/// bytes of `value`.
pub open spec fn color_value(value: Seq<char>, line: usize) -> Result<Color, ErrorView> {
    let bytes = encode_utf8(value);
    if bytes.len() != 7 || bytes[0] != 35 {
        Err(parse_error(line, "invalid color '"@ + value + "'; expected '#RRGGBB'"@))
    } else {
        match byte_value(bytes[1], bytes[2], line) {
            Err(e) => Err(e),
            Ok(r) => match byte_value(bytes[3], bytes[4], line) {
                Err(e) => Err(e),
                Ok(g) => match byte_value(bytes[5], bytes[6], line) {
                    Err(e) => Err(e),
                    Ok(b) => Ok(Color { r, g, b }),
                },
            },
        }
    }
}

/// Why `symbol` cannot name a palette entry, if it cannot.
pub open spec fn symbol_check(symbol: char, line: usize) -> Result<(), ErrorView> {
    if is_ws(symbol) {
        Err(parse_error(line, "whitespace cannot be used as a palette symbol"@))
    } else if 97 <= symbol as u32 <= 122 {
        Err(parse_error(line, "lowercase letters 'a-z' are reserved"@))
    } else if symbol == '$' || symbol == '=' || symbol == ';' {
        Err(parse_error(line, "'"@ + display_text(symbol) + "' is reserved"@))
    } else {
        Ok(())
    }
}

/// The palette entry that a line `X = #RRGGBB` gives, or `None` for a line
/// without `=`.
pub open spec fn palette_entry(t: Seq<char>, line: usize) -> Result<
    Option<(char, Color)>,
    ErrorView,
> {
    match split_once_at(t, '=') {
        None => Ok(None),
        Some((left, right)) => {
            let symbol = trimmed(left);
            let value = trimmed(right);
            if symbol.len() == 0 {
                Err(parse_error(line, "palette symbol is empty"@))
            } else if symbol.len() > 1 {
                Err(parse_error(line, "palette symbols must contain exactly one character"@))
            } else {
                match symbol_check(symbol[0], line) {
                    Err(e) => Err(e),
                    Ok(_) => match color_value(value, line) {
                        Err(e) => Err(e),
                        Ok(c) => Ok(Some((symbol[0], c))),
                    },
                }
            }
        },
    }
}

/// The resolution `<width> <height>` that `value` writes.
pub open spec fn resolution_value(value: Seq<char>, line: usize) -> Result<Resolution, ErrorView> {
    let parts = words(value);
    if parts.len() != 2 {
        Err(parse_error(line, "'$resolution' expects '<width> <height>'"@))
    } else {
        match unsigned_value(parts[0], usize::MAX as nat) {
            None => Err(parse_error(line, "invalid resolution width"@)),
            Some(w) => match unsigned_value(parts[1], usize::MAX as nat) {
                None => Err(parse_error(line, "invalid resolution height"@)),
                Some(h) => if w == 0 || h == 0 {
                    Err(parse_error(line, "resolution dimensions must be greater than zero"@))
                } else {
                    Ok(Resolution { width: w as usize, height: h as usize })
                },
            },
        }
    }
}

/// The features listed in the pieces `pieces[k..]` of an `$auto` value, added
/// to `acc` without repeats.
pub open spec fn auto_features(pieces: Seq<Seq<char>>, k: int, acc: Seq<Seq<char>>, line: usize) -> Result<
    Seq<Seq<char>>,
    ErrorView,
>
    decreases pieces.len() - k,
{
    if k < 0 || k >= pieces.len() {
        Ok(acc)
    } else {
        let item = trimmed(pieces[k]);
        if item.len() == 0 {
            Err(parse_error(line, "empty item in '$auto'"@))
        } else if !is_valid_name(item) {
            Err(parse_error(line, "invalid auto feature '"@ + item + "'"@))
        } else if item != "resolution"@ && item != "scale"@ {
            Err(parse_error(line, "unknown auto feature '"@ + item + "'"@))
        } else {
            auto_features(
                pieces,
                k + 1,
                if acc.contains(item) {
                    acc
                } else {
                    acc.push(item)
                },
                line,
            )
        }
    }
}

/// The features that an `$auto` value `[item, item, ...]` lists, each once.
pub open spec fn auto_value(value: Seq<char>, line: usize) -> Result<Seq<Seq<char>>, ErrorView> {
    if !(value.len() > 0 && value[0] == '[' && value.last() == ']') {
        Err(parse_error(line, "'$auto' expects '[item, item, ...]'"@))
    } else {
        let inner = trimmed(value.subrange(1, value.len() - 1));
        if inner.len() == 0 {
            Err(parse_error(line, "'$auto' cannot be empty"@))
        } else {
            auto_features(pieces(inner, ','), 0, seq![], line)
        }
    }
}

/// `auto` with the items of `items[k..]` that it lacks added in order.
pub open spec fn merge_features(auto: Seq<Seq<char>>, items: Seq<Seq<char>>, k: int) -> Seq<
    Seq<char>,
>
    decreases items.len() - k,
{
    if k < 0 || k >= items.len() {
        auto
    } else {
        merge_features(
            if auto.contains(items[k]) {
                auto
            } else {
                auto.push(items[k])
            },
            items,
            k + 1,
        )
    }
}

/// The settings after a line `$name = value` (`t`, trimmed, starts with `$`).
pub open spec fn setting_value(t: Seq<char>, line: usize, st: Settings) -> Result<Settings, ErrorView> {
    match split_once_at(t.drop_first(), '=') {
        None => Err(parse_error(line, "expected '$name = value'"@)),
        Some((left, right)) => {
            let name = trimmed(left);
            let value = trimmed(right);
            if name.len() == 0 {
                Err(parse_error(line, "setting name is empty"@))
            } else if !is_valid_name(name) {
                Err(parse_error(line, "invalid setting name '$"@ + name + "'"@))
            } else if value.len() == 0 {
                Err(parse_error(line, "setting '$"@ + name + "' has no value"@))
            } else if name == "scale"@ {
                if st.scale is Some {
                    Err(parse_error(line, "'$scale' is defined more than once"@))
                } else {
                    match unsigned_value(value, u32::MAX as nat) {
                        None => Err(
                            parse_error(line, "invalid '$scale': expected a positive integer"@),
                        ),
                        Some(v) => if v == 0 {
                            Err(parse_error(line, "'$scale' must be greater than zero"@))
                        } else {
                            Ok(Settings { scale: Some(v as u32), ..st })
                        },
                    }
                }
            } else if name == "resolution"@ {
                if st.resolution is Some {
                    Err(parse_error(line, "'$resolution' is defined more than once"@))
                } else {
                    match resolution_value(value, line) {
                        Err(e) => Err(e),
                        Ok(r) => Ok(Settings { resolution: Some(r), ..st }),
                    }
                }
            } else if name == "auto"@ {
                match auto_value(value, line) {
                    Err(e) => Err(e),
                    Ok(items) => Ok(Settings { auto: merge_features(st.auto, items, 0), ..st }),
                }
            } else {
                Err(parse_error(line, "unknown setting '$"@ + name + "'"@))
            }
        },
    }
}

/// The state after the line `raw`, numbered `line`.
pub open spec fn line_step(st: ParseState, raw: Seq<char>, line: usize) -> Result<
    ParseState,
    ErrorView,
> {
    let text = trimmed_end(before_comment(raw));
    let t = trimmed(text);
    if t.len() == 0 {
        Ok(st)
    } else if st.in_grid {
        Ok(ParseState { pixels: st.pixels.push(text), ..st })
    } else if t[0] == '$' {
        match setting_value(t, line, st.settings) {
            Err(e) => Err(e),
            Ok(s) => Ok(ParseState { settings: s, ..st }),
        }
    } else {
        match palette_entry(t, line) {
            Err(e) => Err(e),
            Ok(Some((symbol, color))) => if st.palette.contains_key(symbol) {
                Err(
                    parse_error(
                        line,
                        "palette symbol '"@ + display_text(symbol) + "' is already defined"@,
                    ),
                )
            } else {
                Ok(ParseState { palette: st.palette.insert(symbol, color), ..st })
            },
            Ok(None) => Ok(ParseState { pixels: st.pixels.push(t), in_grid: true, ..st }),
        }
    }
}

/// The state after the lines `lines[k..]`; line `k` has number `k + 1`.
pub open spec fn run_lines(lines: Seq<Seq<char>>, k: int, st: ParseState) -> Result<
    ParseState,
    ErrorView,
>
    decreases lines.len() - k,
{
    if k < 0 || k >= lines.len() {
        Ok(st)
    } else {
        match line_step(st, lines[k], (k + 1) as usize) {
            Err(e) => Err(e),
            Ok(next) => run_lines(lines, k + 1, next),
        }
    }
}

/// The first symbol of `row` from `x` on that the palette lacks.
pub open spec fn check_symbols(row: Seq<char>, palette: Map<char, Color>, r: int, x: int) -> Result<
    (),
    ErrorView,
>
    decreases row.len() - x,
{
    if x < 0 || x >= row.len() {
        Ok(())
    } else if !palette.contains_key(row[x]) {
        Err(
            parse_error(
                (r + 1) as usize,
                "pixel '"@ + display_text(row[x]) + "' at ("@ + decimal(x as nat) + ", "@
                    + decimal(r as nat) + ") has no palette entry"@,
            ),
        )
    } else {
        check_symbols(row, palette, r, x + 1)
    }
}

/// The first row from `r` on with the wrong width or an unknown symbol.
pub open spec fn check_rows(pixels: Seq<Seq<char>>, palette: Map<char, Color>, width: nat, r: int) -> Result<
    (),
    ErrorView,
>
    decreases pixels.len() - r,
{
    if r < 0 || r >= pixels.len() {
        Ok(())
    } else if pixels[r].len() != width {
        Err(
            parse_error(
                (r + 1) as usize,
                "inconsistent row width: expected "@ + decimal(width) + ", found "@ + decimal(
                    pixels[r].len(),
                ),
            ),
        )
    } else {
        match check_symbols(pixels[r], palette, r, 0) {
            Err(e) => Err(e),
            Ok(_) => check_rows(pixels, palette, width, r + 1),
        }
    }
}

/// Whether the grid and palette make a drawable image.
pub open spec fn grid_check(pixels: Seq<Seq<char>>, palette: Map<char, Color>) -> Result<
    (),
    ErrorView,
> {
    if pixels.len() == 0 {
        Err(parse_error(1, "pixel grid is empty"@))
    } else if palette == Map::<char, Color>::empty() {
        Err(parse_error(1, "palette is empty"@))
    } else if pixels[0].len() == 0 {
        Err(parse_error(1, "pixel grid has zero width"@))
    } else {
        check_rows(pixels, palette, pixels[0].len(), 0)
    }
}

/// The document that `source` describes, or the first error in it.
pub open spec fn document_of(source: Seq<char>) -> Result<DocumentView, ErrorView> {
    match run_lines(crate::text::lines(source), 0, initial_state()) {
        Err(e) => Err(e),
        Ok(st) => match grid_check(st.pixels, st.palette) {
            Err(e) => Err(e),
            Ok(_) => Ok(
                DocumentView {
                    scale: st.settings.scale,
                    resolution: st.settings.resolution,
                    auto: st.settings.auto,
                    palette: st.palette,
                    pixels: st.pixels,
                },
            ),
        },
    }
}

// ---------------------------------------------------------------------------
// The parser
// ---------------------------------------------------------------------------

/// A message made of three parts.
fn message3(a: &str, b: &[char], c: &str) -> (s: String)
    ensures
        s@ == a@ + b@ + c@,
{
    let mut text = str_chars(a);
    push_chars(&mut text, b);
    push_str(&mut text, c);
    chars_to_string(text.as_slice())
}

/// A document error with a fixed message.
fn fixed_error(line: usize, message: &str) -> (e: AppError)
    ensures
        e@ == parse_error(line, message@),
{
    AppError::parse(line, String::from_str(message))
}

/// How a character is shown in a message.
fn display_char(value: char) -> (out: Vec<char>)
    ensures
        out@ == display_text(value),
{
    if value == ' ' {
        str_chars("space")
    } else if value == '\t' {
        str_chars("\\t")
    } else if value == '\r' {
        str_chars("\\r")
    } else if value == '\n' {
        str_chars("\\n")
    } else {
        let out = vec![value];
        assert(out@ =~= seq![value]);
        out
    }
}

/// The value of a hexadecimal digit byte.
fn hex_digit(value: u8, line: usize) -> (r: Result<u8, AppError>)
    ensures
        outcome(r) == (match hex_value(value) {
            Some(d) => Ok(d),
            None => Err(hex_error(line, value)),
        }),
{
    if 48 <= value && value <= 57 {
        Ok(value - 48)
    } else if 97 <= value && value <= 102 {
        Ok(value - 97 + 10)
    } else if 65 <= value && value <= 70 {
        Ok(value - 65 + 10)
    } else {
        let shown = vec![value as char];
        assert(shown@ =~= seq![value as char]);
        Err(
            AppError::parse(
                line,
                message3("invalid hexadecimal character '", shown.as_slice(), "'; expected #RRGGBB"),
            ),
        )
    }
}

/// The byte written by two hexadecimal digits.
fn parse_byte(value: &[u8], line: usize) -> (r: Result<u8, AppError>)
    requires
        value@.len() == 2,
    ensures
        outcome(r) == byte_value(value@[0], value@[1], line),
{
    let high = match hex_digit(value[0], line) {
        Ok(h) => h,
        Err(e) => {
            return Err(e);
        },
    };
    let low = match hex_digit(value[1], line) {
        Ok(l) => l,
        Err(e) => {
            return Err(e);
        },
    };
    Ok(high * 16 + low)
}

/// The color `#RRGGBB` that `value` writes.
pub fn parse_color(value: &[char], line: usize) -> (r: Result<Color, AppError>)
    ensures
        outcome(r) == color_value(value@, line),
{
    let bytes = encode_chars(value);
    if bytes.len() != 7 || bytes[0] != 35 {
        return Err(
            AppError::parse(line, message3("invalid color '", value, "'; expected '#RRGGBB'")),
        );
    }
    let r = match parse_byte(slice_subrange(bytes.as_slice(), 1, 3), line) {
        Ok(v) => v,
        Err(e) => {
            return Err(e);
        },
    };
    let g = match parse_byte(slice_subrange(bytes.as_slice(), 3, 5), line) {
        Ok(v) => v,
        Err(e) => {
            return Err(e);
        },
    };
    let b = match parse_byte(slice_subrange(bytes.as_slice(), 5, 7), line) {
        Ok(v) => v,
        Err(e) => {
            return Err(e);
        },
    };
    Ok(Color { r, g, b })
}

/// Checks that `symbol` may name a palette entry.
fn validate_symbol(symbol: char, line: usize) -> (r: Result<(), AppError>)
    ensures
        outcome(r) == symbol_check(symbol, line),
{
    if is_whitespace(symbol) {
        return Err(fixed_error(line, "whitespace cannot be used as a palette symbol"));
    }
    let code = symbol as u32;
    if 97 <= code && code <= 122 {
        return Err(fixed_error(line, "lowercase letters 'a-z' are reserved"));
    }
    if symbol == '$' || symbol == '=' || symbol == ';' {
        let shown = display_char(symbol);
        return Err(AppError::parse(line, message3("'", shown.as_slice(), "' is reserved")));
    }
    Ok(())
}

/// The palette entry on a trimmed line, or `None` when the line has no `=`.
fn parse_palette(line: &[char], line_number: usize) -> (r: Result<Option<(char, Color)>, AppError>)
    ensures
        outcome(r) == palette_entry(line@, line_number),
{
    let (left, right) = match split_once(line, '=') {
        Some(parts) => parts,
        None => {
            return Ok(None);
        },
    };
    let symbol = trim(left.as_slice());
    let value = trim(right.as_slice());
    if symbol.len() == 0 {
        return Err(fixed_error(line_number, "palette symbol is empty"));
    }
    if symbol.len() > 1 {
        return Err(
            fixed_error(line_number, "palette symbols must contain exactly one character"),
        );
    }
    let c = symbol[0];
    match validate_symbol(c, line_number) {
        Ok(()) => {},
        Err(e) => {
            return Err(e);
        },
    }
    match parse_color(value.as_slice(), line_number) {
        Ok(color) => Ok(Some((c, color))),
        Err(e) => Err(e),
    }
}

/// The resolution `<width> <height>`.
fn parse_resolution(value: &[char], line_number: usize) -> (r: Result<Resolution, AppError>)
    ensures
        outcome(r) == resolution_value(value@, line_number),
{
    let parts = split_whitespace(value);
    if parts.len() != 2 {
        return Err(fixed_error(line_number, "'$resolution' expects '<width> <height>'"));
    }
    assert(parts@[0]@ == words(value@)[0]);
    assert(parts@[1]@ == words(value@)[1]);
    let width = match parse_unsigned(parts[0].as_slice(), usize::MAX as u64) {
        Some(w) => w as usize,
        None => {
            return Err(fixed_error(line_number, "invalid resolution width"));
        },
    };
    let height = match parse_unsigned(parts[1].as_slice(), usize::MAX as u64) {
        Some(h) => h as usize,
        None => {
            return Err(fixed_error(line_number, "invalid resolution height"));
        },
    };
    match Resolution::new(width, height) {
        Ok(r) => Ok(r),
        Err(message) => Err(AppError::parse(line_number, message)),
    }
}

/// Whether `items` holds `item`.
fn holds_chars(items: &Vec<Vec<char>>, item: &[char]) -> (b: bool)
    ensures
        b == char_rows(items@).contains(item@),
{
    let mut i: usize = 0;
    while i < items.len()
        invariant
            i <= items@.len(),
            forall|j: int| 0 <= j < i ==> #[trigger] items@[j]@ != item@,
        decreases items@.len() - i,
    {
        if same_chars(items[i].as_slice(), item) {
            assert(char_rows(items@)[i as int] == item@);
            return true;
        }
        i = i + 1;
    }
    assert forall|j: int| 0 <= j < char_rows(items@).len() implies #[trigger] char_rows(items@)[j] != item@ by {
        assert(char_rows(items@)[j] == items@[j]@);
    }
    false
}

/// Whether `items` holds a string with the characters of `item`.
fn holds_string(items: &Vec<String>, item: &[char]) -> (b: bool)
    ensures
        b == string_texts(items@).contains(item@),
{
    let mut i: usize = 0;
    while i < items.len()
        invariant
            i <= items@.len(),
            forall|j: int| 0 <= j < i ==> #[trigger] items@[j]@ != item@,
        decreases items@.len() - i,
    {
        let candidate = str_chars(items[i].as_str());
        if same_chars(candidate.as_slice(), item) {
            assert(string_texts(items@)[i as int] == item@);
            return true;
        }
        i = i + 1;
    }
    assert forall|j: int| 0 <= j < string_texts(items@).len() implies #[trigger] string_texts(items@)[j] != item@ by {
        assert(string_texts(items@)[j] == items@[j]@);
    }
    false
}

/// The features that an `$auto` value `[item, item, ...]` lists.
fn parse_auto(value: &[char], line_number: usize) -> (r: Result<Vec<Vec<char>>, AppError>)
    ensures
        match r {
            Ok(items) => auto_value(value@, line_number) == Ok::<Seq<Seq<char>>, ErrorView>(char_rows(items@)),
            Err(e) => auto_value(value@, line_number) == Err::<Seq<Seq<char>>, ErrorView>(e@),
        },
{
    if !(value.len() > 0 && value[0] == '[' && value[value.len() - 1] == ']') {
        return Err(fixed_error(line_number, "'$auto' expects '[item, item, ...]'"));
    }
    let inner = trim(slice_subrange(value, 1, value.len() - 1));
    if inner.len() == 0 {
        return Err(fixed_error(line_number, "'$auto' cannot be empty"));
    }
    let parts = split_all(inner.as_slice(), ',');
    let ghost ps = char_rows(parts@);
    let mut items: Vec<Vec<char>> = Vec::new();
    assert(char_rows(items@) =~= Seq::<Seq<char>>::empty());
    let mut k: usize = 0;
    while k < parts.len()
        invariant
            k <= parts@.len(),
            ps == char_rows(parts@),
            ps == pieces(inner@, ','),
            inner@ == trimmed(value@.subrange(1, value@.len() - 1)),
            inner@.len() > 0,
            value@.len() > 0 && value@[0] == '[' && value@.last() == ']',
            auto_features(ps, 0, seq![], line_number) == auto_features(ps, k as int, char_rows(items@), line_number),
        decreases parts@.len() - k,
    {
        let item = trim(parts[k].as_slice());
        assert(ps[k as int] == parts@[k as int]@);
        if item.len() == 0 {
            return Err(fixed_error(line_number, "empty item in '$auto'"));
        }
        if !valid_name(item.as_slice()) {
            return Err(
                AppError::parse(line_number, message3("invalid auto feature '", item.as_slice(), "'")),
            );
        }
        if !chars_eq(item.as_slice(), "resolution") && !chars_eq(item.as_slice(), "scale") {
            return Err(
                AppError::parse(line_number, message3("unknown auto feature '", item.as_slice(), "'")),
            );
        }
        let ghost before = char_rows(items@);
        if !holds_chars(&items, item.as_slice()) {
            items.push(item);
            assert(char_rows(items@) =~= before.push(trimmed(ps[k as int])));
        }
        k = k + 1;
    }
    Ok(items)
}

/// Adds to `auto` the features of `items` that it lacks.
fn merge_auto(auto: &mut Vec<String>, items: &Vec<Vec<char>>)
    ensures
        string_texts(final(auto)@) == merge_features(string_texts(old(auto)@), char_rows(items@), 0),
{
    let ghost its = char_rows(items@);
    let mut k: usize = 0;
    while k < items.len()
        invariant
            k <= items@.len(),
            its == char_rows(items@),
            merge_features(string_texts(old(auto)@), its, 0) == merge_features(string_texts(auto@), its, k as int),
        decreases items@.len() - k,
    {
        assert(its[k as int] == items@[k as int]@);
        let ghost before = string_texts(auto@);
        if !holds_string(auto, items[k].as_slice()) {
            let s = chars_to_string(items[k].as_slice());
            auto.push(s);
            assert(string_texts(auto@) =~= before.push(its[k as int]));
        }
        k = k + 1;
    }
}

/// Applies a setting line `$name = value` (trimmed).
fn parse_setting(
    line: &[char],
    line_number: usize,
    scale: &mut Option<u32>,
    resolution: &mut Option<Resolution>,
    auto: &mut Vec<String>,
) -> (r: Result<(), AppError>)
    requires
        line@.len() > 0,
    ensures
        ({
            let before = Settings {
                scale: *old(scale),
                resolution: *old(resolution),
                auto: string_texts(old(auto)@),
            };
            let after = Settings {
                scale: *final(scale),
                resolution: *final(resolution),
                auto: string_texts(final(auto)@),
            };
            match r {
                Ok(_) => setting_value(line@, line_number, before) == Ok::<Settings, ErrorView>(after),
                Err(e) => setting_value(line@, line_number, before) == Err::<Settings, ErrorView>(e@)
                    && *final(scale) == *old(scale) && *final(resolution) == *old(resolution)
                    && final(auto)@ == old(auto)@,
            }
        }),
{
    let content = slice_subrange(line, 1, line.len());
    assert(content@ =~= line@.drop_first());
    let (name_part, value_part) = match split_once(content, '=') {
        Some(parts) => parts,
        None => {
            return Err(fixed_error(line_number, "expected '$name = value'"));
        },
    };
    let name = trim(name_part.as_slice());
    let value = trim(value_part.as_slice());
    if name.len() == 0 {
        return Err(fixed_error(line_number, "setting name is empty"));
    }
    if !valid_name(name.as_slice()) {
        return Err(
            AppError::parse(line_number, message3("invalid setting name '$", name.as_slice(), "'")),
        );
    }
    if value.len() == 0 {
        return Err(
            AppError::parse(line_number, message3("setting '$", name.as_slice(), "' has no value")),
        );
    }
    if chars_eq(name.as_slice(), "scale") {
        if scale.is_some() {
            return Err(fixed_error(line_number, "'$scale' is defined more than once"));
        }
        let parsed = match parse_unsigned(value.as_slice(), u32::MAX as u64) {
            Some(v) => v as u32,
            None => {
                return Err(
                    fixed_error(line_number, "invalid '$scale': expected a positive integer"),
                );
            },
        };
        if parsed == 0 {
            return Err(fixed_error(line_number, "'$scale' must be greater than zero"));
        }
        *scale = Some(parsed);
        Ok(())
    } else if chars_eq(name.as_slice(), "resolution") {
        if resolution.is_some() {
            return Err(fixed_error(line_number, "'$resolution' is defined more than once"));
        }
        match parse_resolution(value.as_slice(), line_number) {
            Ok(r) => {
                *resolution = Some(r);
                Ok(())
            },
            Err(e) => Err(e),
        }
    } else if chars_eq(name.as_slice(), "auto") {
        match parse_auto(value.as_slice(), line_number) {
            Ok(items) => {
                merge_auto(auto, &items);
                Ok(())
            },
            Err(e) => Err(e),
        }
    } else {
        Err(AppError::parse(line_number, message3("unknown setting '$", name.as_slice(), "'")))
    }
}

/// The text of a line before its first `;`.
fn strip_comment(line: &[char]) -> (out: Vec<char>)
    ensures
        out@ == before_comment(line@),
{
    match split_once(line, ';') {
        Some((head, _)) => head,
        None => copy_range(line, 0, line.len()),
    }
}

/// The parser's state between lines.
struct Builder {
    scale: Option<u32>,
    resolution: Option<Resolution>,
    auto: Vec<String>,
    palette: Palette,
    pixels: Vec<Vec<char>>,
    in_grid: bool,
}

impl View for Builder {
    type V = ParseState;

    closed spec fn view(&self) -> ParseState {
        ParseState {
            settings: Settings {
                scale: self.scale,
                resolution: self.resolution,
                auto: string_texts(self.auto@),
            },
            palette: self.palette@,
            pixels: char_rows(self.pixels@),
            in_grid: self.in_grid,
        }
    }
}

/// Reads one line of the document.
fn parse_line(st: &mut Builder, raw: &[char], line_number: usize) -> (r: Result<(), AppError>)
    ensures
        match r {
            Ok(_) => line_step(old(st)@, raw@, line_number) == Ok::<ParseState, ErrorView>(final(st)@),
            Err(e) => line_step(old(st)@, raw@, line_number) == Err::<ParseState, ErrorView>(e@)
                && final(st)@ == old(st)@,
        },
{
    let head = strip_comment(raw);
    let line = trim_end(head.as_slice());
    let trimmed_line = trim(line.as_slice());
    if trimmed_line.len() == 0 {
        return Ok(());
    }
    if st.in_grid {
        let ghost before = char_rows(st.pixels@);
        st.pixels.push(line);
        assert(char_rows(st.pixels@) =~= before.push(trimmed_end(before_comment(raw@))));
        return Ok(());
    }
    if trimmed_line[0] == '$' {
        return parse_setting(
            trimmed_line.as_slice(),
            line_number,
            &mut st.scale,
            &mut st.resolution,
            &mut st.auto,
        );
    }
    match parse_palette(trimmed_line.as_slice(), line_number) {
        Err(e) => Err(e),
        Ok(Some((symbol, color))) => {
            if st.palette.contains_key(symbol) {
                let shown = display_char(symbol);
                Err(
                    AppError::parse(
                        line_number,
                        message3("palette symbol '", shown.as_slice(), "' is already defined"),
                    ),
                )
            } else {
                st.palette.insert(symbol, color);
                Ok(())
            }
        },
        Ok(None) => {
            let ghost before = char_rows(st.pixels@);
            let ghost t = trimmed_line@;
            st.in_grid = true;
            st.pixels.push(trimmed_line);
            assert(char_rows(st.pixels@) =~= before.push(t));
            Ok(())
        },
    }
}

/// Checks the symbols of row `row_index` from position `x` on.
fn validate_row(row: &[char], palette: &Palette, row_index: usize) -> (r: Result<(), AppError>)
    requires
        row_index < usize::MAX,
    ensures
        outcome(r) == check_symbols(row@, palette@, row_index as int, 0),
{
    let mut x: usize = 0;
    while x < row.len()
        invariant
            x <= row@.len(),
            row_index < usize::MAX,
            check_symbols(row@, palette@, row_index as int, 0) == check_symbols(
                row@,
                palette@,
                row_index as int,
                x as int,
            ),
        decreases row@.len() - x,
    {
        let symbol = row[x];
        if !palette.contains_key(symbol) {
            let mut text = str_chars("pixel '");
            let shown = display_char(symbol);
            push_chars(&mut text, shown.as_slice());
            push_str(&mut text, "' at (");
            push_decimal(&mut text, x as u64);
            push_str(&mut text, ", ");
            push_decimal(&mut text, row_index as u64);
            push_str(&mut text, ") has no palette entry");
            return Err(AppError::parse(row_index + 1, chars_to_string(text.as_slice())));
        }
        x = x + 1;
    }
    Ok(())
}

/// Checks that the grid is a non-empty rectangle drawn with palette symbols
/// only, and that the palette is not empty.
fn validate_document(pixels: &Vec<Vec<char>>, palette: &Palette) -> (r: Result<(), AppError>)
    ensures
        outcome(r) == grid_check(char_rows(pixels@), palette@),
{
    let ghost rows = char_rows(pixels@);
    if pixels.len() == 0 {
        return Err(fixed_error(1, "pixel grid is empty"));
    }
    if palette.is_empty() {
        return Err(fixed_error(1, "palette is empty"));
    }
    let width = pixels[0].len();
    assert(rows[0] == pixels@[0]@);
    if width == 0 {
        return Err(fixed_error(1, "pixel grid has zero width"));
    }
    let mut row_index: usize = 0;
    while row_index < pixels.len()
        invariant
            row_index <= pixels@.len(),
            rows == char_rows(pixels@),
            width == rows[0].len(),
            width > 0,
            rows.len() > 0,
            palette@ != Map::<char, Color>::empty(),
            check_rows(rows, palette@, width as nat, 0) == check_rows(
                rows,
                palette@,
                width as nat,
                row_index as int,
            ),
        decreases pixels@.len() - row_index,
    {
        let row = &pixels[row_index];
        assert(rows[row_index as int] == row@);
        if row.len() != width {
            let mut text = str_chars("inconsistent row width: expected ");
            push_decimal(&mut text, width as u64);
            push_str(&mut text, ", found ");
            push_decimal(&mut text, row.len() as u64);
            return Err(AppError::parse(row_index + 1, chars_to_string(text.as_slice())));
        }
        match validate_row(row.as_slice(), palette, row_index) {
            Ok(()) => {},
            Err(e) => {
                return Err(e);
            },
        }
        row_index = row_index + 1;
    }
    Ok(())
}

/// Parses the text of a `.px` document.
pub fn parse(source: &str) -> (r: Result<Document, AppError>)
    ensures
        r matches Ok(d) ==> document_ok(d@),
        match r {
            Ok(d) => document_of(source@) == Ok::<DocumentView, ErrorView>(d@),
            Err(e) => document_of(source@) == Err::<DocumentView, ErrorView>(e@),
        },
{
    let chars = str_chars(source);
    let lines = split_lines(chars.as_slice());
    let ghost ls = char_rows(lines@);
    let mut st = Builder {
        scale: None,
        resolution: None,
        auto: Vec::new(),
        palette: Palette::new(),
        pixels: Vec::new(),
        in_grid: false,
    };
    assert(string_texts(st.auto@) =~= Seq::<Seq<char>>::empty());
    assert(char_rows(st.pixels@) =~= Seq::<Seq<char>>::empty());
    assert(st@ == initial_state());
    let mut index: usize = 0;
    while index < lines.len()
        invariant
            index <= lines@.len(),
            ls == char_rows(lines@),
            ls == crate::text::lines(source@),
            run_lines(ls, 0, initial_state()) == run_lines(ls, index as int, st@),
        decreases lines@.len() - index,
    {
        assert(ls[index as int] == lines@[index as int]@);
        match parse_line(&mut st, lines[index].as_slice(), index + 1) {
            Ok(()) => {},
            Err(e) => {
                return Err(e);
            },
        }
        index = index + 1;
    }
    match validate_document(&st.pixels, &st.palette) {
        Ok(()) => {},
        Err(e) => {
            return Err(e);
        },
    }
    proof {
        lemma_document_ok(source@);
    }
    Ok(
        Document {
            scale: st.scale,
            resolution: st.resolution,
            auto: st.auto,
            palette: st.palette,
            pixels: st.pixels,
        },
    )
}

// ---------------------------------------------------------------------------
// Properties of parsed documents
// ---------------------------------------------------------------------------

/// Whether a document's grid is a non-empty rectangle drawn only with symbols
/// of a non-empty palette.
pub open spec fn well_formed(d: DocumentView) -> bool {
    &&& d.pixels.len() > 0
    &&& d.pixels[0].len() > 0
    &&& d.palette != Map::<char, Color>::empty()
    &&& forall|y: int| 0 <= y < d.pixels.len() ==> #[trigger] d.pixels[y].len() == d.pixels[0].len()
    &&& forall|y: int, x: int|
        0 <= y < d.pixels.len() && 0 <= x < d.pixels[y].len() ==> d.palette.contains_key(
            #[trigger] d.pixels[y][x],
        )
}

/// A character that may name a palette entry: not whitespace, not a lowercase
/// ASCII letter, and not `$`, `=` or `;`.
pub open spec fn symbol_allowed(c: char) -> bool {
    &&& !is_ws(c)
    &&& !(97 <= c as u32 <= 122)
    &&& c != '$'
    &&& c != '='
    &&& c != ';'
}

/// A feature name that `$auto` accepts.
pub open spec fn is_feature(s: Seq<char>) -> bool {
    s == "resolution"@ || s == "scale"@
}

/// A list of known features without repeats.
pub open spec fn features_ok(a: Seq<Seq<char>>) -> bool {
    &&& forall|i: int| 0 <= i < a.len() ==> is_feature(#[trigger] a[i])
    &&& a.no_duplicates()
}

/// Settings as the parser can produce them: a positive scale, a resolution
/// with positive dimensions, and known features without repeats.
pub open spec fn settings_ok(s: Settings) -> bool {
    &&& (s.scale matches Some(v) ==> v > 0)
    &&& (s.resolution matches Some(r) ==> r.width > 0 && r.height > 0)
    &&& features_ok(s.auto)
}

/// What holds of every document that [`parse`] returns.
pub open spec fn document_ok(d: DocumentView) -> bool {
    &&& well_formed(d)
    &&& settings_ok(Settings { scale: d.scale, resolution: d.resolution, auto: d.auto })
    &&& forall|c: char| #[trigger] d.palette.contains_key(c) ==> symbol_allowed(c)
}

/// The parser's state between lines, as the parser can produce it.
pub open spec fn state_ok(st: ParseState) -> bool {
    &&& settings_ok(st.settings)
    &&& forall|c: char| #[trigger] st.palette.contains_key(c) ==> symbol_allowed(c)
}

proof fn lemma_push_feature(acc: Seq<Seq<char>>, item: Seq<char>)
    requires
        features_ok(acc),
        is_feature(item),
    ensures
        features_ok(if acc.contains(item) { acc } else { acc.push(item) }),
{
    if !acc.contains(item) {
        let a = acc.push(item);
        assert forall|i: int| 0 <= i < a.len() implies is_feature(#[trigger] a[i]) by {
            if i < acc.len() {
                assert(a[i] == acc[i]);
            }
        }
        assert forall|i: int, j: int| 0 <= i < a.len() && 0 <= j < a.len() && i != j implies a[i]
            != a[j] by {
            if i < acc.len() && j < acc.len() {
                assert(a[i] == acc[i] && a[j] == acc[j]);
            } else if i < acc.len() {
                assert(a[i] == acc[i]);
                assert(acc.contains(acc[i]));
            } else if j < acc.len() {
                assert(a[j] == acc[j]);
                assert(acc.contains(acc[j]));
            }
        }
    }
}

proof fn lemma_auto_features(pieces: Seq<Seq<char>>, k: int, acc: Seq<Seq<char>>, line: usize)
    requires
        features_ok(acc),
    ensures
        auto_features(pieces, k, acc, line) matches Ok(r) ==> features_ok(r),
    decreases pieces.len() - k,
{
    if 0 <= k < pieces.len() {
        let item = trimmed(pieces[k]);
        if item.len() > 0 && is_valid_name(item) && is_feature(item) {
            lemma_push_feature(acc, item);
            lemma_auto_features(
                pieces,
                k + 1,
                if acc.contains(item) {
                    acc
                } else {
                    acc.push(item)
                },
                line,
            );
        }
    }
}

proof fn lemma_merge_features(auto: Seq<Seq<char>>, items: Seq<Seq<char>>, k: int)
    requires
        features_ok(auto),
        features_ok(items),
    ensures
        features_ok(merge_features(auto, items, k)),
    decreases items.len() - k,
{
    if 0 <= k < items.len() {
        lemma_push_feature(auto, items[k]);
        lemma_merge_features(
            if auto.contains(items[k]) {
                auto
            } else {
                auto.push(items[k])
            },
            items,
            k + 1,
        );
    }
}

proof fn lemma_setting_value(t: Seq<char>, line: usize, st: Settings)
    requires
        settings_ok(st),
    ensures
        setting_value(t, line, st) matches Ok(s) ==> settings_ok(s),
{
    if let Some((left, right)) = split_once_at(t.drop_first(), '=') {
        let value = trimmed(right);
        if let Ok(r) = auto_value(value, line) {
            let inner = trimmed(value.subrange(1, value.len() - 1));
            lemma_auto_features(pieces(inner, ','), 0, seq![], line);
            lemma_merge_features(st.auto, r, 0);
        }
    }
}

proof fn lemma_palette_entry(t: Seq<char>, line: usize)
    ensures
        palette_entry(t, line) matches Ok(Some((c, _))) ==> symbol_allowed(c),
{
}

proof fn lemma_line_step(st: ParseState, raw: Seq<char>, line: usize)
    requires
        state_ok(st),
    ensures
        line_step(st, raw, line) matches Ok(next) ==> state_ok(next),
{
    let text = trimmed_end(before_comment(raw));
    let t = trimmed(text);
    if t.len() > 0 && !st.in_grid {
        if t[0] == '$' {
            lemma_setting_value(t, line, st.settings);
        } else {
            lemma_palette_entry(t, line);
            if let Ok(Some((symbol, color))) = palette_entry(t, line) {
                let p = st.palette.insert(symbol, color);
                assert forall|c: char| #[trigger] p.contains_key(c) implies symbol_allowed(c) by {
                    if c != symbol {
                        assert(st.palette.contains_key(c));
                    }
                }
            }
        }
    }
}

proof fn lemma_run_lines(lines: Seq<Seq<char>>, k: int, st: ParseState)
    requires
        state_ok(st),
    ensures
        run_lines(lines, k, st) matches Ok(end) ==> state_ok(end),
    decreases lines.len() - k,
{
    if 0 <= k < lines.len() {
        lemma_line_step(st, lines[k], (k + 1) as usize);
        if let Ok(next) = line_step(st, lines[k], (k + 1) as usize) {
            lemma_run_lines(lines, k + 1, next);
        }
    }
}

proof fn lemma_check_symbols(row: Seq<char>, palette: Map<char, Color>, r: int, x: int)
    requires
        0 <= x,
        check_symbols(row, palette, r, x) is Ok,
    ensures
        forall|i: int| x <= i < row.len() ==> palette.contains_key(#[trigger] row[i]),
    decreases row.len() - x,
{
    if x < row.len() {
        lemma_check_symbols(row, palette, r, x + 1);
    }
}

proof fn lemma_check_rows(pixels: Seq<Seq<char>>, palette: Map<char, Color>, width: nat, r: int)
    requires
        0 <= r,
        check_rows(pixels, palette, width, r) is Ok,
    ensures
        forall|y: int| r <= y < pixels.len() ==> #[trigger] pixels[y].len() == width,
        forall|y: int, x: int|
            r <= y < pixels.len() && 0 <= x < pixels[y].len() ==> palette.contains_key(
                #[trigger] pixels[y][x],
            ),
    decreases pixels.len() - r,
{
    if r < pixels.len() {
        lemma_check_symbols(pixels[r], palette, r, 0);
        lemma_check_rows(pixels, palette, width, r + 1);
    }
}

proof fn lemma_check_symbols_pass(row: Seq<char>, palette: Map<char, Color>, r: int, x: int)
    requires
        0 <= x,
        forall|i: int| x <= i < row.len() ==> palette.contains_key(#[trigger] row[i]),
    ensures
        check_symbols(row, palette, r, x) == Ok::<(), ErrorView>(()),
    decreases row.len() - x,
{
    if x < row.len() {
        lemma_check_symbols_pass(row, palette, r, x + 1);
    }
}

proof fn lemma_check_rows_pass(pixels: Seq<Seq<char>>, palette: Map<char, Color>, width: nat, r: int)
    requires
        0 <= r,
        forall|y: int| r <= y < pixels.len() ==> #[trigger] pixels[y].len() == width,
        forall|y: int, x: int|
            r <= y < pixels.len() && 0 <= x < pixels[y].len() ==> palette.contains_key(
                #[trigger] pixels[y][x],
            ),
    ensures
        check_rows(pixels, palette, width, r) == Ok::<(), ErrorView>(()),
    decreases pixels.len() - r,
{
    if r < pixels.len() {
        assert forall|i: int| 0 <= i < pixels[r].len() implies palette.contains_key(
            #[trigger] pixels[r][i],
        ) by {}
        lemma_check_symbols_pass(pixels[r], palette, r, 0);
        lemma_check_rows_pass(pixels, palette, width, r + 1);
    }
}

/// The grid passes its checks exactly when it has at least one row, its first
/// row at least one symbol, every row as many symbols as the first, every
/// symbol a palette color, and the palette at least one entry.
pub proof fn lemma_grid_check_exact(pixels: Seq<Seq<char>>, palette: Map<char, Color>)
    ensures
        (grid_check(pixels, palette) is Ok) <==> {
            &&& pixels.len() > 0
            &&& pixels[0].len() > 0
            &&& palette != Map::<char, Color>::empty()
            &&& forall|y: int| 0 <= y < pixels.len() ==> #[trigger] pixels[y].len() == pixels[0].len()
            &&& forall|y: int, x: int|
                0 <= y < pixels.len() && 0 <= x < pixels[y].len() ==> palette.contains_key(
                    #[trigger] pixels[y][x],
                )
        },
{
    if pixels.len() > 0 && pixels[0].len() > 0 && palette != Map::<char, Color>::empty() {
        if check_rows(pixels, palette, pixels[0].len(), 0) is Ok {
            lemma_check_rows(pixels, palette, pixels[0].len(), 0);
        }
        if (forall|y: int| 0 <= y < pixels.len() ==> #[trigger] pixels[y].len() == pixels[0].len())
            && (forall|y: int, x: int|
            0 <= y < pixels.len() && 0 <= x < pixels[y].len() ==> palette.contains_key(
                #[trigger] pixels[y][x],
            )) {
            lemma_check_rows_pass(pixels, palette, pixels[0].len(), 0);
        }
    }
}

/// Every document that parsing accepts has a non-empty rectangular grid whose
/// symbols all have palette colors, a non-empty palette whose symbols are
/// single allowed characters, a positive `$scale`, a `$resolution` with
/// positive dimensions, and only known `$auto` features, each listed once.
pub proof fn lemma_document_ok(source: Seq<char>)
    ensures
        document_of(source) matches Ok(d) ==> document_ok(d),
{
    let init = initial_state();
    assert(init.settings.auto.no_duplicates());
    lemma_run_lines(crate::text::lines(source), 0, init);
    if let Ok(st) = run_lines(crate::text::lines(source), 0, init) {
        if grid_check(st.pixels, st.palette) is Ok {
            lemma_check_rows(st.pixels, st.palette, st.pixels[0].len(), 0);
        }
    }
}

/// The part of a line that the parser reads: the text before its first `;`,
/// without trailing whitespace.
pub open spec fn line_content(raw: Seq<char>) -> Seq<char> {
    trimmed_end(before_comment(raw))
}

proof fn lemma_run_lines_comments(l1: Seq<Seq<char>>, l2: Seq<Seq<char>>, k: int, st: ParseState)
    requires
        l1.len() == l2.len(),
        forall|i: int| 0 <= i < l1.len() ==> line_content(#[trigger] l1[i]) == line_content(l2[i]),
    ensures
        run_lines(l1, k, st) == run_lines(l2, k, st),
    decreases l1.len() - k,
{
    if 0 <= k < l1.len() {
        assert(line_content(l1[k]) == line_content(l2[k]));
        assert(line_step(st, l1[k], (k + 1) as usize) == line_step(st, l2[k], (k + 1) as usize));
        if let Ok(next) = line_step(st, l1[k], (k + 1) as usize) {
            lemma_run_lines_comments(l1, l2, k + 1, next);
        }
    }
}

/// Comments and trailing blanks are ignored: two sources whose lines agree
/// up to each line's first `;`, once trailing whitespace is dropped, give the
/// same document, or the same error.
pub proof fn lemma_comments_ignored(s1: Seq<char>, s2: Seq<char>)
    requires
        crate::text::lines(s1).len() == crate::text::lines(s2).len(),
        forall|i: int|
            0 <= i < crate::text::lines(s1).len() ==> line_content(
                #[trigger] crate::text::lines(s1)[i],
            ) == line_content(crate::text::lines(s2)[i]),
    ensures
        document_of(s1) == document_of(s2),
{
    lemma_run_lines_comments(crate::text::lines(s1), crate::text::lines(s2), 0, initial_state());
}

/// Once `find_from` has found `c` within a prefix, extending the sequence does
/// not move it; when the prefix has no `c` from `i` on, the search continues at
/// the end of the prefix.
proof fn lemma_find_from_extend(l: Seq<char>, rest: Seq<char>, c: char, i: int)
    requires
        0 <= i <= l.len(),
    ensures
        find_from(l, c, i) < l.len() ==> find_from(l + rest, c, i) == find_from(l, c, i),
        find_from(l, c, i) >= l.len() ==> find_from(l + rest, c, i) == find_from(
            l + rest,
            c,
            l.len() as int,
        ),
    decreases l.len() - i,
{
    if i < l.len() {
        assert((l + rest)[i] == l[i]);
        if l[i] != c {
            lemma_find_from_extend(l, rest, c, i + 1);
        }
    }
}

/// Appending a comment ` ;...` to a line does not change what the parser
/// reads of it.
pub proof fn lemma_trailing_comment(l: Seq<char>, comment: Seq<char>)
    ensures
        line_content(l + seq![' ', ';'] + comment) == line_content(l),
{
    let tail = seq![' ', ';'] + comment;
    let x = l + tail;
    assert(x =~= l + seq![' ', ';'] + comment);
    crate::text::lemma_find_from(l, ';', 0);
    lemma_find_from_extend(l, tail, ';', 0);
    let i = find_from(l, ';', 0);
    if i < l.len() {
        assert(x.subrange(0, i) =~= l.subrange(0, i));
    } else {
        assert(x[l.len() as int] == ' ');
        assert(x[l.len() + 1int] == ';');
        assert(find_from(x, ';', l.len() + 1int) == l.len() + 1);
        assert(find_from(x, ';', l.len() as int) == l.len() + 1);
        let head = x.subrange(0, l.len() + 1int);
        assert(head.drop_last() =~= l);
        assert(head.last() == ' ');
        assert(before_comment(l) == l);
        assert(before_comment(x) == head);
    }
}

/// The documented form of comments: appending ` ;` and any text without a
/// line break to lines of a source changes neither the document nor the
/// error.
pub proof fn lemma_trailing_comments_ignored(s1: Seq<char>, s2: Seq<char>)
    requires
        crate::text::lines(s1).len() == crate::text::lines(s2).len(),
        forall|i: int|
            0 <= i < crate::text::lines(s1).len() ==> crate::text::lines(s2)[i]
                == #[trigger] crate::text::lines(s1)[i] || exists|comment: Seq<char>| crate::text::lines(
                s2,
            )[i] == crate::text::lines(s1)[i] + seq![' ', ';'] + comment,
    ensures
        document_of(s1) == document_of(s2),
{
    let l1 = crate::text::lines(s1);
    let l2 = crate::text::lines(s2);
    assert forall|i: int| 0 <= i < l1.len() implies line_content(#[trigger] l1[i]) == line_content(
        l2[i],
    ) by {
        if l2[i] != l1[i] {
            let comment = choose|comment: Seq<char>| l2[i] == l1[i] + seq![' ', ';'] + comment;
            lemma_trailing_comment(l1[i], comment);
        }
    }
    lemma_comments_ignored(s1, s2);
}

/// A hexadecimal digit character is ASCII, and its byte is a digit whose
/// value is the number it stands for.
proof fn lemma_hex_char(n: nat)
    requires
        n < 16,
    ensures
        '\0' <= hex_char(n) <= '\u{7f}',
        hex_value(hex_char(n) as u8) == Some(n as u8),
        48 <= hex_char(n) as u32 <= 57 || 65 <= hex_char(n) as u32 <= 70,
{
    let code: u32 = if n < 10 {
        (n + 48) as u32
    } else {
        (n + 55) as u32
    };
    assert(hex_char(n) as u32 == code);
    assert(hex_char(n) as u8 == code as u8);
}

/// Parsing the text of a color, `#RRGGBB`, gives the color back.
pub proof fn lemma_color_round_trip(c: Color, line: usize)
    ensures
        color_value(color_text(c), line) == Ok::<Color, ErrorView>(c),
{
    let t = color_text(c);
    lemma_hex_char((c.r / 16) as nat);
    lemma_hex_char((c.r % 16) as nat);
    lemma_hex_char((c.g / 16) as nat);
    lemma_hex_char((c.g % 16) as nat);
    lemma_hex_char((c.b / 16) as nat);
    lemma_hex_char((c.b % 16) as nat);
    assert(t.len() == 7);
    assert(t[0] == '#');
    assert(t[1] == hex_char((c.r / 16) as nat));
    assert(t[2] == hex_char((c.r % 16) as nat));
    assert(t[3] == hex_char((c.g / 16) as nat));
    assert(t[4] == hex_char((c.g % 16) as nat));
    assert(t[5] == hex_char((c.b / 16) as nat));
    assert(t[6] == hex_char((c.b % 16) as nat));
    assert(is_ascii_chars(t));
    is_ascii_chars_encode_utf8(t);
    let bytes = encode_utf8(t);
    assert(bytes[0] == 35);
    assert(bytes[1] == hex_char((c.r / 16) as nat) as u8);
    assert(bytes[2] == hex_char((c.r % 16) as nat) as u8);
    assert(bytes[3] == hex_char((c.g / 16) as nat) as u8);
    assert(bytes[4] == hex_char((c.g % 16) as nat) as u8);
    assert(bytes[5] == hex_char((c.b / 16) as nat) as u8);
    assert(bytes[6] == hex_char((c.b % 16) as nat) as u8);
    assert((c.r / 16) * 16 + c.r % 16 == c.r);
    assert((c.g / 16) * 16 + c.g % 16 == c.g);
    assert((c.b / 16) * 16 + c.b % 16 == c.b);
}

/// The text of a color is `#` followed by six digits `0`-`9` or `A`-`F`.
proof fn lemma_color_text_chars(c: Color)
    ensures
        color_text(c).len() == 7,
        color_text(c)[0] == '#',
        forall|i: int|
            1 <= i < 7 ==> (48 <= #[trigger] color_text(c)[i] as u32 <= 57 || 65
                <= color_text(c)[i] as u32 <= 70),
{
    lemma_hex_char((c.r / 16) as nat);
    lemma_hex_char((c.r % 16) as nat);
    lemma_hex_char((c.g / 16) as nat);
    lemma_hex_char((c.g % 16) as nat);
    lemma_hex_char((c.b / 16) as nat);
    lemma_hex_char((c.b % 16) as nat);
    let t = color_text(c);
    assert(t[1] == hex_char((c.r / 16) as nat));
    assert(t[2] == hex_char((c.r % 16) as nat));
    assert(t[3] == hex_char((c.g / 16) as nat));
    assert(t[4] == hex_char((c.g % 16) as nat));
    assert(t[5] == hex_char((c.b / 16) as nat));
    assert(t[6] == hex_char((c.b % 16) as nat));
}

/// The line `X = #RRGGBB` for the symbol `x` and the color `c`.
spec fn entry_line(x: char, c: Color) -> Seq<char> {
    seq![x, ' ', '=', ' '] + color_text(c)
}

/// What is known of the characters of an entry line.
proof fn lemma_entry_line_chars(x: char, c: Color)
    requires
        !is_ws(x),
        x != ';',
    ensures
        entry_line(x, c).len() == 11,
        entry_line(x, c)[0] == x,
        entry_line(x, c)[1] == ' ',
        entry_line(x, c)[2] == '=',
        entry_line(x, c)[3] == ' ',
        entry_line(x, c)[4] == '#',
        !is_ws(entry_line(x, c)[10]),
        entry_line(x, c)[10] != '\r',
        forall|j: int| 0 <= j < 11 ==> #[trigger] entry_line(x, c)[j] != ';',
        forall|j: int| 0 <= j < 11 ==> #[trigger] entry_line(x, c)[j] != '\n',
{
    lemma_color_text_chars(c);
    let t = entry_line(x, c);
    assert(t[10] == color_text(c)[6]);
    assert forall|j: int| 0 <= j < 11 implies #[trigger] t[j] != ';' && t[j] != '\n' by {
        if j >= 4 {
            assert(t[j] == color_text(c)[j - 4]);
        }
    }
}

/// How an entry line splits: at its `=`, into the symbol and the color text,
/// once the blanks around them are trimmed; the line itself has no comment and
/// no surrounding blanks.
proof fn lemma_entry_line_parts(x: char, c: Color)
    requires
        !is_ws(x),
        x != '=',
        x != ';',
    ensures
        split_once_at(entry_line(x, c), '=') matches Some((left, right)) && trimmed(left) == seq![x]
            && trimmed(right) == color_text(c),
        before_comment(entry_line(x, c)) == entry_line(x, c),
        trimmed_end(entry_line(x, c)) == entry_line(x, c),
        trimmed(entry_line(x, c)) == entry_line(x, c),
        entry_line(x, c)[0] == x,
{
    let t = entry_line(x, c);
    lemma_entry_line_chars(x, c);
    lemma_color_text_chars(c);
    // The first `=` is the third character.
    assert(find_from(t, '=', 2) == 2);
    assert(find_from(t, '=', 1) == 2);
    assert(find_from(t, '=', 0) == 2);
    let left = t.subrange(0, 2);
    let right = t.subrange(3, 11);
    assert(left =~= seq![x, ' ']);
    assert(left.drop_last() =~= seq![x]);
    assert(trimmed_end(seq![x]) == seq![x]);
    assert(trimmed_end(left) == seq![x]);
    assert(trimmed_start(seq![x]) == seq![x]);
    assert(trimmed(left) == seq![x]);
    assert(right =~= seq![' '] + color_text(c));
    assert(right.last() == color_text(c)[6]);
    assert(trimmed_end(right) == right);
    assert(right.drop_first() =~= color_text(c));
    assert(trimmed_start(color_text(c)) == color_text(c));
    assert(trimmed(right) == color_text(c));
    // The line has no comment and no surrounding blanks.
    lemma_find_from(t, ';', 0);
    assert(before_comment(t) == t);
    assert(trimmed_end(t) == t);
    assert(trimmed_start(t) == t);
    assert(trimmed(t) == t);
}

/// Any character other than whitespace, a lowercase ASCII letter, `$`, `=` and
/// `;` can name a palette entry: the line `X = #RRGGBB` reads as the entry that
/// maps `X` to that color, and before the grid it adds that entry to a palette
/// that does not have `X` yet; a second entry for `X` is refused.
pub proof fn lemma_palette_symbol(st: ParseState, x: char, c: Color, line: usize)
    requires
        !is_ws(x),
        !(97 <= x as u32 <= 122),
        x != '$',
        x != '=',
        x != ';',
    ensures
        palette_entry(seq![x, ' ', '=', ' '] + color_text(c), line) == Ok::<
            Option<(char, Color)>,
            ErrorView,
        >(Some((x, c))),
        !st.in_grid && !st.palette.contains_key(x) ==> line_step(
            st,
            seq![x, ' ', '=', ' '] + color_text(c),
            line,
        ) == Ok::<ParseState, ErrorView>(ParseState { palette: st.palette.insert(x, c), ..st }),
        !st.in_grid && st.palette.contains_key(x) ==> line_step(
            st,
            seq![x, ' ', '=', ' '] + color_text(c),
            line,
        ) is Err,
{
    lemma_entry_line_parts(x, c);
    lemma_color_round_trip(c, line);
}

/// Lowercase ASCII letters are reserved: the line `x = #RRGGBB` with a
/// lowercase letter `x` is refused.
pub proof fn lemma_lowercase_symbol_refused(x: char, c: Color, line: usize)
    requires
        97 <= x as u32 <= 122,
    ensures
        palette_entry(seq![x, ' ', '=', ' '] + color_text(c), line) == Err::<
            Option<(char, Color)>,
            ErrorView,
        >(parse_error(line, "lowercase letters 'a-z' are reserved"@)),
{
    lemma_entry_line_parts(x, c);
}

/// Once the grid has started, every line that is not blank once its comment
/// is cut off is a row of the grid, as it is written up to the comment and
/// without trailing blanks, whatever it looks like.
pub proof fn lemma_grid_rows_as_written(st: ParseState, raw: Seq<char>, line: usize)
    requires
        st.in_grid,
    ensures
        line_step(st, raw, line) == Ok::<ParseState, ErrorView>(
            if trimmed(trimmed_end(before_comment(raw))).len() == 0 {
                st
            } else {
                ParseState { pixels: st.pixels.push(trimmed_end(before_comment(raw))), ..st }
            },
        ),
{
}

/// Before the grid, the first line that is neither blank, nor a setting
/// (starting with `$`), nor a palette entry (holding `=`) starts the grid: it
/// becomes the first row, trimmed.
pub proof fn lemma_grid_starts(st: ParseState, raw: Seq<char>, line: usize)
    requires
        !st.in_grid,
        trimmed(trimmed_end(before_comment(raw))).len() > 0,
        trimmed(trimmed_end(before_comment(raw)))[0] != '$',
        !trimmed(trimmed_end(before_comment(raw))).contains('='),
    ensures
        line_step(st, raw, line) == Ok::<ParseState, ErrorView>(
            ParseState {
                pixels: st.pixels.push(trimmed(trimmed_end(before_comment(raw)))),
                in_grid: true,
                ..st
            },
        ),
{
    let t = trimmed(trimmed_end(before_comment(raw)));
    lemma_find_from(t, '=', 0);
    let j = find_from(t, '=', 0);
    if j < t.len() {
        assert(t[j] == '=');
        assert(t.contains('='));
    }
}

/// For every symbol that may name a palette entry, the two-line document
/// `X = #RRGGBB` and `X` parses: its palette maps `X` to the color, its grid is
/// the single row `X`, and it has no settings.
pub proof fn lemma_palette_symbol_document(x: char, c: Color)
    requires
        !is_ws(x),
        !(97 <= x as u32 <= 122),
        x != '$',
        x != '=',
        x != ';',
    ensures
        document_of(seq![x, ' ', '=', ' '] + color_text(c) + seq!['\n', x]) == Ok::<
            DocumentView,
            ErrorView,
        >(
            DocumentView {
                scale: None,
                resolution: None,
                auto: seq![],
                palette: Map::empty().insert(x, c),
                pixels: seq![seq![x]],
            },
        ),
{
    let t = entry_line(x, c);
    let s = t + seq!['\n', x];
    lemma_entry_line_chars(x, c);
    // The lines of the document.
    lemma_find_from(s, '\n', 0);
    assert forall|k: int| 0 <= k < 11 implies s[k] != '\n' by {
        assert(s[k] == t[k]);
    }
    assert(s[11] == '\n');
    assert(find_from(s, '\n', 0) == 11);
    assert(s.subrange(0, 11) =~= t);
    assert(strip_cr(t) == t);
    assert(s[12] == x);
    assert(find_from(s, '\n', 13) == 13);
    assert(find_from(s, '\n', 12) == 13);
    assert(s.subrange(12, 13) =~= seq![x]);
    assert(lines_from(s, 13) == Seq::<Seq<char>>::empty());
    assert(lines_from(s, 12) =~= seq![seq![x]]);
    let ls = crate::text::lines(s);
    assert(ls =~= seq![t, seq![x]]);
    // The first line adds the entry, the second starts the grid.
    let st0 = initial_state();
    lemma_palette_symbol(st0, x, c, 1);
    let st1 = ParseState { palette: st0.palette.insert(x, c), ..st0 };
    let row = seq![x];
    assert(find_from(row, ';', 1) == 1);
    assert(find_from(row, ';', 0) == 1);
    assert(before_comment(row) == row);
    assert(row.drop_last() =~= Seq::<char>::empty());
    assert(trimmed_end(row) == row);
    assert(trimmed_start(row) == row);
    assert(trimmed(row) == row);
    assert(find_from(row, '=', 1) == 1);
    assert(find_from(row, '=', 0) == 1);
    assert(palette_entry(row, 2) == Ok::<Option<(char, Color)>, ErrorView>(None));
    let st2 = ParseState { pixels: st1.pixels.push(row), in_grid: true, ..st1 };
    assert(line_step(st1, row, 2) == Ok::<ParseState, ErrorView>(st2));
    assert(run_lines(ls, 2, st2) == Ok::<ParseState, ErrorView>(st2));
    assert(run_lines(ls, 1, st1) == Ok::<ParseState, ErrorView>(st2));
    assert(run_lines(ls, 0, st0) == Ok::<ParseState, ErrorView>(st2));
    // The grid passes the checks.
    assert(st2.pixels =~= seq![row]);
    assert(st2.palette.contains_key(x));
    assert(st2.palette != Map::<char, Color>::empty());
    assert(check_symbols(row, st2.palette, 0, 1) == Ok::<(), ErrorView>(()));
    assert(check_symbols(row, st2.palette, 0, 0) == Ok::<(), ErrorView>(()));
    assert(check_rows(st2.pixels, st2.palette, 1, 1) == Ok::<(), ErrorView>(()));
    assert(check_rows(st2.pixels, st2.palette, 1, 0) == Ok::<(), ErrorView>(()));
    assert(grid_check(st2.pixels, st2.palette) == Ok::<(), ErrorView>(()));
}

/// A hexadecimal digit written in lowercase is ASCII and stands for the same
/// number.
proof fn lemma_hex_char_lower(n: nat)
    requires
        n < 16,
    ensures
        '\0' <= lower_char(hex_char(n)) <= '\u{7f}',
        hex_value(lower_char(hex_char(n)) as u8) == Some(n as u8),
{
    let code: u32 = if n < 10 {
        (n + 48) as u32
    } else {
        (n + 87) as u32
    };
    assert(lower_char(hex_char(n)) as u32 == code);
    assert(lower_char(hex_char(n)) as u8 == code as u8);
}

/// `c` with an ASCII uppercase letter made lowercase.
spec fn lower_char(c: char) -> char {
    if 65 <= c as u32 <= 90 {
        ((c as u32) + 32) as char
    } else {
        c
    }
}

/// Hexadecimal digits may be written in either case: the text `#rrggbb` of a
/// color in lowercase reads as that color too.
pub proof fn lemma_color_lowercase(c: Color, line: usize)
    ensures
        color_value(ascii_lowercase(color_text(c)), line) == Ok::<Color, ErrorView>(c),
{
    let u = color_text(c);
    let t = ascii_lowercase(u);
    assert(u.len() == 7);
    assert forall|i: int| 0 <= i < 7 implies #[trigger] t[i] == lower_char(u[i]) by {}
    lemma_hex_char_lower((c.r / 16) as nat);
    lemma_hex_char_lower((c.r % 16) as nat);
    lemma_hex_char_lower((c.g / 16) as nat);
    lemma_hex_char_lower((c.g % 16) as nat);
    lemma_hex_char_lower((c.b / 16) as nat);
    lemma_hex_char_lower((c.b % 16) as nat);
    assert(t.len() == 7);
    assert(t[0] == '#');
    assert(t[1] == lower_char(hex_char((c.r / 16) as nat)));
    assert(t[2] == lower_char(hex_char((c.r % 16) as nat)));
    assert(t[3] == lower_char(hex_char((c.g / 16) as nat)));
    assert(t[4] == lower_char(hex_char((c.g % 16) as nat)));
    assert(t[5] == lower_char(hex_char((c.b / 16) as nat)));
    assert(t[6] == lower_char(hex_char((c.b % 16) as nat)));
    assert(is_ascii_chars(t));
    is_ascii_chars_encode_utf8(t);
    let bytes = encode_utf8(t);
    assert(bytes[0] == 35);
    assert(bytes[1] == lower_char(hex_char((c.r / 16) as nat)) as u8);
    assert(bytes[2] == lower_char(hex_char((c.r % 16) as nat)) as u8);
    assert(bytes[3] == lower_char(hex_char((c.g / 16) as nat)) as u8);
    assert(bytes[4] == lower_char(hex_char((c.g % 16) as nat)) as u8);
    assert(bytes[5] == lower_char(hex_char((c.b / 16) as nat)) as u8);
    assert(bytes[6] == lower_char(hex_char((c.b % 16) as nat)) as u8);
    assert((c.r / 16) * 16 + c.r % 16 == c.r);
    assert((c.g / 16) * 16 + c.g % 16 == c.g);
    assert((c.b / 16) * 16 + c.b % 16 == c.b);
}

/// The name `scale` is a valid setting name.
proof fn lemma_scale_name()
    ensures
        "scale"@.len() == 5,
        is_valid_name("scale"@),
{
    reveal_strlit("scale");
    let n = "scale"@;
    assert forall|i: int| 1 <= i < n.len() implies is_name_char(#[trigger] n[i]) by {
        if i == 1 {
        } else if i == 2 {
        } else if i == 3 {
        } else {
        }
    }
}

/// Before the grid, the line `$scale = N`, for a number N from 1 to the largest
/// `u32`, sets the scale to N when none is set yet, and changes nothing else.
pub proof fn lemma_scale_setting(st: ParseState, n: nat, line: usize)
    requires
        1 <= n <= u32::MAX,
        !st.in_grid,
        st.settings.scale is None,
    ensures
        line_step(st, "$scale = "@ + decimal(n), line) == Ok::<ParseState, ErrorView>(
            ParseState { settings: Settings { scale: Some(n as u32), ..st.settings }, ..st },
        ),
{
    reveal_strlit("$scale = ");
    reveal_strlit("scale");
    lemma_scale_name();
    lemma_decimal_value(n);
    let d = decimal(n);
    let raw = "$scale = "@ + d;
    assert(raw.len() == 9 + d.len());
    assert forall|i: int| 0 <= i < raw.len() implies #[trigger] raw[i] != ';' by {
        if i >= 9 {
            assert(raw[i] == d[i - 9]);
            assert(is_ascii_digit(d[i - 9]));
        }
    }
    lemma_find_from(raw, ';', 0);
    assert(before_comment(raw) == raw);
    assert(raw.last() == d.last());
    assert(is_ascii_digit(d[d.len() - 1]));
    assert(trimmed_end(raw) == raw);
    assert(raw[0] == '$');
    assert(trimmed_start(raw) == raw);
    assert(trimmed(raw) == raw);
    let u = raw.drop_first();
    assert(u[0] == 's' && u[1] == 'c' && u[2] == 'a' && u[3] == 'l' && u[4] == 'e');
    assert(u[5] == ' ' && u[6] == '=');
    assert(find_from(u, '=', 6) == 6);
    assert(find_from(u, '=', 5) == 6);
    assert(find_from(u, '=', 4) == 6);
    assert(find_from(u, '=', 3) == 6);
    assert(find_from(u, '=', 2) == 6);
    assert(find_from(u, '=', 1) == 6);
    assert(find_from(u, '=', 0) == 6);
    let left = u.subrange(0, 6);
    let right = u.subrange(7, u.len() as int);
    assert(left.drop_last() =~= "scale"@);
    assert(trimmed_end("scale"@) == "scale"@);
    assert(trimmed_end(left) == "scale"@);
    assert(trimmed_start("scale"@) == "scale"@);
    assert(trimmed(left) == "scale"@);
    assert(right =~= seq![' '] + d);
    assert(right.last() == d.last());
    assert(trimmed_end(right) == right);
    assert(right.drop_first() =~= d);
    assert(is_ascii_digit(d[0]));
    assert(trimmed_start(d) == d);
    assert(trimmed(right) == d);
    assert(unsigned_value(d, u32::MAX as nat) == Some(n));
}

/// A run of non-whitespace characters from `i` that stops at `j` is one word.
proof fn lemma_word_end_at(s: Seq<char>, i: int, j: int)
    requires
        0 <= i <= j <= s.len(),
        forall|k: int| i <= k < j ==> !is_ws(#[trigger] s[k]),
        j == s.len() || is_ws(s[j]),
    ensures
        word_end(s, i) == j,
    decreases j - i,
{
    if i < j {
        lemma_word_end_at(s, i + 1, j);
    }
}

/// The words of `W H`, for the numerals of two numbers, are the two numerals.
proof fn lemma_two_numbers(w: nat, h: nat)
    ensures
        words(decimal(w) + seq![' '] + decimal(h)) == seq![decimal(w), decimal(h)],
{
    lemma_decimal_value(w);
    lemma_decimal_value(h);
    let a = decimal(w);
    let b = decimal(h);
    let v = a + seq![' '] + b;
    let n = a.len() as int;
    assert forall|k: int| 0 <= k < n implies !is_ws(#[trigger] v[k]) by {
        assert(v[k] == a[k]);
        assert(is_ascii_digit(a[k]));
    }
    assert(v[n] == ' ');
    lemma_word_end_at(v, 0, n);
    assert forall|k: int| n + 1 <= k < v.len() implies !is_ws(#[trigger] v[k]) by {
        assert(v[k] == b[k - n - 1]);
        assert(is_ascii_digit(b[k - n - 1]));
    }
    lemma_word_end_at(v, n + 1, v.len() as int);
    assert(is_ascii_digit(a[0]));
    assert(v[0] == a[0]);
    assert(is_ascii_digit(b[0]));
    assert(v[n + 1] == b[0]);
    assert(v.subrange(0, n) =~= a);
    assert(v.subrange(n + 1, v.len() as int) =~= b);
    assert(words_from(v, v.len() as int) == Seq::<Seq<char>>::empty());
    assert(words_from(v, n + 1) =~= seq![b]);
    assert(words_from(v, n) == words_from(v, n + 1));
    assert(words_from(v, 0) =~= seq![a, b]);
}

/// The name `resolution` is a valid setting name.
proof fn lemma_resolution_name()
    ensures
        "resolution"@.len() == 10,
        is_valid_name("resolution"@),
{
    reveal_strlit("resolution");
    let n = "resolution"@;
    assert forall|i: int| 1 <= i < n.len() implies is_name_char(#[trigger] n[i]) by {
        if i == 1 {
        } else if i == 2 {
        } else if i == 3 {
        } else if i == 4 {
        } else if i == 5 {
        } else if i == 6 {
        } else if i == 7 {
        } else if i == 8 {
        } else {
        }
    }
}

/// Before the grid, the line `$resolution = W H`, for W and H from 1 to the
/// largest `usize`, sets the resolution to W by H when none is set yet, and
/// changes nothing else.
pub proof fn lemma_resolution_setting(st: ParseState, w: nat, h: nat, line: usize)
    requires
        1 <= w <= usize::MAX,
        1 <= h <= usize::MAX,
        !st.in_grid,
        st.settings.resolution is None,
    ensures
        line_step(st, "$resolution = "@ + decimal(w) + seq![' '] + decimal(h), line) == Ok::<
            ParseState,
            ErrorView,
        >(
            ParseState {
                settings: Settings {
                    resolution: Some(Resolution { width: w as usize, height: h as usize }),
                    ..st.settings
                },
                ..st
            },
        ),
{
    reveal_strlit("$resolution = ");
    reveal_strlit("resolution");
    reveal_strlit("scale");
    lemma_resolution_name();
    lemma_decimal_value(w);
    lemma_decimal_value(h);
    lemma_two_numbers(w, h);
    let a = decimal(w);
    let b = decimal(h);
    let v = a + seq![' '] + b;
    let raw = "$resolution = "@ + a + seq![' '] + b;
    assert(raw =~= "$resolution = "@ + v);
    assert(raw.len() == 14 + v.len());
    assert forall|i: int| 0 <= i < raw.len() implies #[trigger] raw[i] != ';' by {
        if i >= 14 {
            assert(raw[i] == v[i - 14]);
            if i - 14 < a.len() {
                assert(v[i - 14] == a[i - 14]);
                assert(is_ascii_digit(a[i - 14]));
            } else if i - 14 > a.len() {
                assert(v[i - 14] == b[i - 14 - a.len() - 1]);
                assert(is_ascii_digit(b[i - 14 - a.len() - 1]));
            }
        }
    }
    lemma_find_from(raw, ';', 0);
    assert(before_comment(raw) == raw);
    assert(raw.last() == b.last());
    assert(is_ascii_digit(b[b.len() - 1]));
    assert(trimmed_end(raw) == raw);
    assert(raw[0] == '$');
    assert(trimmed_start(raw) == raw);
    assert(trimmed(raw) == raw);
    let u = raw.drop_first();
    assert(u[10] == ' ' && u[11] == '=');
    assert(find_from(u, '=', 11) == 11);
    assert(find_from(u, '=', 10) == 11);
    assert(find_from(u, '=', 9) == 11);
    assert(find_from(u, '=', 8) == 11);
    assert(find_from(u, '=', 7) == 11);
    assert(find_from(u, '=', 6) == 11);
    assert(find_from(u, '=', 5) == 11);
    assert(find_from(u, '=', 4) == 11);
    assert(find_from(u, '=', 3) == 11);
    assert(find_from(u, '=', 2) == 11);
    assert(find_from(u, '=', 1) == 11);
    assert(find_from(u, '=', 0) == 11);
    let left = u.subrange(0, 11);
    let right = u.subrange(12, u.len() as int);
    assert(left.drop_last() =~= "resolution"@);
    assert(trimmed_end("resolution"@) == "resolution"@);
    assert(trimmed_end(left) == "resolution"@);
    assert(trimmed_start("resolution"@) == "resolution"@);
    assert(trimmed(left) == "resolution"@);
    assert(right =~= seq![' '] + v);
    assert(right.last() == b.last());
    assert(trimmed_end(right) == right);
    assert(right.drop_first() =~= v);
    assert(is_ascii_digit(a[0]));
    assert(v[0] == a[0]);
    assert(trimmed_start(v) == v);
    assert(trimmed(right) == v);
    assert("resolution"@ != "scale"@);
    assert(unsigned_value(a, usize::MAX as nat) == Some(w));
    assert(unsigned_value(b, usize::MAX as nat) == Some(h));
    assert(resolution_value(v, line) == Ok::<Resolution, ErrorView>(
        Resolution { width: w as usize, height: h as usize },
    ));
}

/// The name `auto` is a valid setting name.
proof fn lemma_auto_name()
    ensures
        "auto"@.len() == 4,
        is_valid_name("auto"@),
{
    reveal_strlit("auto");
    let n = "auto"@;
    assert forall|i: int| 1 <= i < n.len() implies is_name_char(#[trigger] n[i]) by {
        if i == 1 {
        } else if i == 2 {
        } else {
        }
    }
}

/// Before the grid, the line `$auto = [F]` for a feature F (`resolution` or
/// `scale`) turns F on: it is added after the features already on, unless it
/// is on already, and nothing else changes.
pub proof fn lemma_auto_setting(st: ParseState, f: Seq<char>, line: usize)
    requires
        !st.in_grid,
        f == "resolution"@ || f == "scale"@,
    ensures
        line_step(st, "$auto = ["@ + f + "]"@, line) == Ok::<ParseState, ErrorView>(
            ParseState {
                settings: Settings {
                    auto: if st.settings.auto.contains(f) {
                        st.settings.auto
                    } else {
                        st.settings.auto.push(f)
                    },
                    ..st.settings
                },
                ..st
            },
        ),
{
    reveal_strlit("$auto = [");
    reveal_strlit("]");
    reveal_strlit("auto");
    reveal_strlit("scale");
    reveal_strlit("resolution");
    lemma_auto_name();
    lemma_scale_name();
    lemma_resolution_name();
    // The feature name is letters only.
    assert(is_valid_name(f));
    assert(forall|i: int| 0 <= i < f.len() ==> is_name_char(#[trigger] f[i]));
    let raw = "$auto = ["@ + f + "]"@;
    let n = f.len() as int;
    assert(raw.len() == 10 + n);
    assert forall|k: int| 9 <= k < 9 + n implies #[trigger] raw[k] == f[k - 9] by {}
    assert(raw[9 + n] == ']');
    // No comment.
    assert forall|k: int| 9 <= k < 9 + n implies #[trigger] raw[k] != ';' by {
        assert(is_name_char(f[k - 9]));
    }
    lemma_find_from_skip(raw, ';', 9, 9 + n);
    assert(find_from(raw, ';', 10 + n) == 10 + n);
    assert(find_from(raw, ';', 9 + n) == 10 + n);
    assert(find_from(raw, ';', 8) == find_from(raw, ';', 9));
    assert(find_from(raw, ';', 7) == find_from(raw, ';', 8));
    assert(find_from(raw, ';', 6) == find_from(raw, ';', 7));
    assert(find_from(raw, ';', 5) == find_from(raw, ';', 6));
    assert(find_from(raw, ';', 4) == find_from(raw, ';', 5));
    assert(find_from(raw, ';', 3) == find_from(raw, ';', 4));
    assert(find_from(raw, ';', 2) == find_from(raw, ';', 3));
    assert(find_from(raw, ';', 1) == find_from(raw, ';', 2));
    assert(find_from(raw, ';', 0) == find_from(raw, ';', 1));
    assert(before_comment(raw) == raw);
    assert(trimmed_end(raw) == raw);
    assert(trimmed_start(raw) == raw);
    assert(trimmed(raw) == raw);
    // The setting is split at its `=`.
    let u = raw.drop_first();
    assert(find_from(u, '=', 5) == 5);
    assert(find_from(u, '=', 4) == 5);
    assert(find_from(u, '=', 3) == 5);
    assert(find_from(u, '=', 2) == 5);
    assert(find_from(u, '=', 1) == 5);
    assert(find_from(u, '=', 0) == 5);
    let left = u.subrange(0, 5);
    let right = u.subrange(6, u.len() as int);
    assert(left.drop_last() =~= "auto"@);
    assert(trimmed_end("auto"@) == "auto"@);
    assert(trimmed_end(left) == "auto"@);
    assert(trimmed_start("auto"@) == "auto"@);
    assert(trimmed(left) == "auto"@);
    let value = seq!['['] + f + seq![']'];
    assert(right =~= seq![' '] + value);
    assert(trimmed_end(right) == right);
    assert(right.drop_first() =~= value);
    assert(trimmed_start(value) == value);
    assert(trimmed(right) == value);
    assert("auto"@ != "scale"@);
    assert("auto"@ != "resolution"@);
    // The list holds the one feature.
    assert(value.subrange(1, value.len() - 1) =~= f);
    assert(trimmed_end(f) == f);
    assert(trimmed_start(f) == f);
    assert(trimmed(f) == f);
    lemma_find_from_skip(f, ',', 0, n);
    assert(find_from(f, ',', n) == n);
    assert(find_from(f, ',', 0) == n);
    assert(f.subrange(0, n) =~= f);
    assert(pieces(f, ',') =~= seq![f]);
    assert(auto_features(seq![f], 1, seq![f], line) == Ok::<Seq<Seq<char>>, ErrorView>(
        seq![f],
    ));
    assert(!Seq::<Seq<char>>::empty().contains(f));
    assert(seq![].push(f) =~= seq![f]);
    assert(auto_features(seq![f], 0, seq![], line) == Ok::<Seq<Seq<char>>, ErrorView>(
        seq![f],
    ));
    assert(auto_value(value, line) == Ok::<Seq<Seq<char>>, ErrorView>(seq![f]));
    let a = st.settings.auto;
    let a1 = if a.contains(f) {
        a
    } else {
        a.push(f)
    };
    assert(merge_features(a1, seq![f], 1) == a1);
    assert(merge_features(a, seq![f], 0) == a1);
    assert(raw[0] == '$');
    assert(split_once_at(u, '=') == Some((left, right)));
    assert(setting_value(raw, line, st.settings) == Ok::<Settings, ErrorView>(
        Settings { auto: a1, ..st.settings },
    ));
}

/// A line break at the end of a line does not change what the parser reads
/// of it.
proof fn lemma_trailing_cr(l: Seq<char>)
    ensures
        line_content(strip_cr(l)) == line_content(l),
{
    if l.len() > 0 && l.last() == '\r' {
        let y = l.drop_last();
        let tail = seq!['\r'];
        assert(l =~= y + tail);
        crate::text::lemma_find_from(y, ';', 0);
        lemma_find_from_extend(y, tail, ';', 0);
        let i = find_from(y, ';', 0);
        if i < y.len() {
            assert(l.subrange(0, i) =~= y.subrange(0, i));
        } else {
            assert(l[y.len() as int] == '\r');
            assert(find_from(l, ';', y.len() + 1int) == l.len());
            assert(find_from(l, ';', y.len() as int) == l.len());
            assert(before_comment(y) == y);
            assert(l.subrange(0, l.len() as int) =~= l);
            assert(before_comment(l) == l);
            assert(l.drop_last() =~= y);
        }
    }
}

/// `find_from` passes over a stretch without `c`.
proof fn lemma_find_from_skip(s: Seq<char>, c: char, a: int, b: int)
    requires
        0 <= a <= b <= s.len(),
        forall|k: int| a <= k < b ==> s[k] != c,
    ensures
        find_from(s, c, a) == find_from(s, c, b),
    decreases b - a,
{
    if a < b {
        lemma_find_from_skip(s, c, a + 1, b);
    }
}

/// `find_from` looks only at what follows its start.
proof fn lemma_find_from_suffix(s: Seq<char>, i: int, t: Seq<char>, k: int, c: char)
    requires
        0 <= i <= s.len(),
        0 <= k <= t.len(),
        s.subrange(i, s.len() as int) == t.subrange(k, t.len() as int),
    ensures
        find_from(s, c, i) - i == find_from(t, c, k) - k,
    decreases s.len() - i,
{
    assert(s.subrange(i, s.len() as int).len() == t.subrange(k, t.len() as int).len());
    assert(s.subrange(i, s.len() as int).len() == s.len() - i);
    assert(t.subrange(k, t.len() as int).len() == t.len() - k);
    if i < s.len() {
        assert(s[i] == s.subrange(i, s.len() as int)[0]);
        assert(k < t.len());
        let ts = t.subrange(k, t.len() as int);
        assert(ts[0] == t[k + 0]);
        assert(t[k] == ts[0]);
        if s[i] != c {
            assert(s.subrange(i + 1, s.len() as int) =~= s.subrange(i, s.len() as int).drop_first());
            assert(t.subrange(k + 1, t.len() as int) =~= t.subrange(k, t.len() as int).drop_first());
            lemma_find_from_suffix(s, i + 1, t, k + 1, c);
        }
    } else {
        assert(t.subrange(k, t.len() as int).len() == 0);
    }
}

/// `lines_from` looks only at what follows its start.
proof fn lemma_lines_suffix(s: Seq<char>, i: int, t: Seq<char>, k: int)
    requires
        0 <= i <= s.len(),
        0 <= k <= t.len(),
        s.subrange(i, s.len() as int) == t.subrange(k, t.len() as int),
    ensures
        crate::text::lines_from(s, i) == crate::text::lines_from(t, k),
    decreases s.len() - i,
{
    if i < s.len() {
        lemma_find_from_suffix(s, i, t, k, '\n');
        crate::text::lemma_find_from(s, '\n', i);
        crate::text::lemma_find_from(t, '\n', k);
        let j = find_from(s, '\n', i);
        let jt = find_from(t, '\n', k);
        assert(s.subrange(i, j) =~= s.subrange(i, s.len() as int).subrange(0, j - i));
        assert(t.subrange(k, jt) =~= t.subrange(k, t.len() as int).subrange(0, jt - k));
        if j < s.len() {
            assert(s.subrange(j + 1, s.len() as int) =~= s.subrange(i, s.len() as int).subrange(
                j + 1 - i,
                s.len() - i,
            ));
            assert(t.subrange(jt + 1, t.len() as int) =~= t.subrange(k, t.len() as int).subrange(
                jt + 1 - k,
                t.len() - k,
            ));
            assert(j - i == jt - k);
            assert(s.len() - i == t.len() - k);
            assert(s.subrange(j + 1, s.len() as int) == t.subrange(jt + 1, t.len() as int));
            lemma_lines_suffix(s, j + 1, t, jt + 1);
        }
    } else {
        assert(t.subrange(k, t.len() as int).len() == 0);
    }
}

/// Two lists of lines of which the parser reads the same, line by line.
pub open spec fn same_contents(a: Seq<Seq<char>>, b: Seq<Seq<char>>) -> bool {
    &&& a.len() == b.len()
    &&& forall|k: int| 0 <= k < a.len() ==> line_content(#[trigger] a[k]) == line_content(b[k])
}

/// Whether `p` is where a line of `s` ends: at a line break, or at the end of
/// text whose last line has no line break.
pub open spec fn is_line_end(s: Seq<char>, p: int) -> bool {
    ||| 0 <= p < s.len() && s[p] == '\n'
    ||| p == s.len() && s.len() > 0 && s.last() != '\n'
}

/// `s` with ` ;` and `comment` inserted at position `p`.
pub open spec fn with_comment_at(s: Seq<char>, p: int, comment: Seq<char>) -> Seq<char> {
    s.subrange(0, p) + (seq![' ', ';'] + comment) + s.subrange(p, s.len() as int)
}

proof fn lemma_lines_with_comment(s: Seq<char>, p: int, comment: Seq<char>, i: int)
    requires
        is_line_end(s, p),
        forall|k: int| 0 <= k < comment.len() ==> #[trigger] comment[k] != '\n' && comment[k] != '\r',
        0 <= i <= p,
        p == s.len() ==> i < s.len(),
    ensures
        same_contents(
            crate::text::lines_from(with_comment_at(s, p, comment), i),
            crate::text::lines_from(s, i),
        ),
    decreases p - i,
{
    let ins = seq![' ', ';'] + comment;
    let m = ins.len() as int;
    let l = s.subrange(0, p);
    let rest = s.subrange(p, s.len() as int);
    let s2 = with_comment_at(s, p, comment);
    assert(s =~= l + rest);
    assert(s2 =~= l + (ins + rest));
    assert(forall|k: int| 0 <= k < m ==> #[trigger] s2[p + k] == ins[k]);
    assert forall|k: int| 0 <= k < m implies #[trigger] ins[k] != '\n' by {
        if k >= 2 {
            assert(ins[k] == comment[k - 2]);
        }
    }
    crate::text::lemma_find_from(s, '\n', i);
    crate::text::lemma_find_from(l, '\n', i);
    crate::text::lemma_find_from(s, '\n', p);
    lemma_find_from_extend(l, rest, '\n', i);
    lemma_find_from_extend(l, ins + rest, '\n', i);
    let j = find_from(s, '\n', i);
    if find_from(l, '\n', i) < p {
        // the line ends before the insertion point
        assert(j == find_from(l, '\n', i));
        assert(find_from(s2, '\n', i) == j);
        assert(s2.subrange(i, j) =~= s.subrange(i, j));
        crate::text::lemma_find_from(s2, '\n', i);
        lemma_lines_with_comment(s, p, comment, j + 1);
        let a = crate::text::lines_from(s2, i);
        let b = crate::text::lines_from(s, i);
        let a1 = crate::text::lines_from(s2, j + 1);
        let b1 = crate::text::lines_from(s, j + 1);
        assert(a == seq![strip_cr(s.subrange(i, j))] + a1);
        assert(b == seq![strip_cr(s.subrange(i, j))] + b1);
        assert forall|k: int| 0 <= k < a.len() implies line_content(#[trigger] a[k]) == line_content(
            b[k],
        ) by {
            if k > 0 {
                assert(a[k] == a1[k - 1]);
                assert(b[k] == b1[k - 1]);
            }
        }
    } else {
        // the insertion point ends the line that starts at `i`
        assert(j == find_from(s, '\n', p));
        assert(j == p);
        assert(find_from(s2, '\n', i) == find_from(s2, '\n', p));
        lemma_find_from_skip(s2, '\n', p, p + m);
        let x = s.subrange(i, p);
        assert(s2.subrange(i, p + m) =~= x + ins);
        assert(x + ins =~= x + seq![' ', ';'] + comment);
        lemma_trailing_comment(x, comment);
        if comment.len() > 0 {
            assert((x + ins).last() == comment.last());
        }
        assert(strip_cr(x + ins) == x + ins);
        if p < s.len() {
            assert(s2[p + m] == s[p]);
            assert(find_from(s2, '\n', p + m) == p + m);
            lemma_trailing_cr(x);
            assert(s2.subrange(p + m + 1, s2.len() as int) =~= s.subrange(p + 1, s.len() as int));
            lemma_lines_suffix(s2, p + m + 1, s, p + 1);
            let a = crate::text::lines_from(s2, i);
            let b = crate::text::lines_from(s, i);
            let a1 = crate::text::lines_from(s2, p + m + 1);
            let b1 = crate::text::lines_from(s, p + 1);
            assert(a == seq![x + ins] + a1);
            assert(b == seq![strip_cr(x)] + b1);
            assert forall|k: int| 0 <= k < a.len() implies line_content(#[trigger] a[k])
                == line_content(b[k]) by {
                if k > 0 {
                    assert(a[k] == a1[k - 1]);
                    assert(b[k] == b1[k - 1]);
                }
            }
        } else {
            assert(find_from(s2, '\n', p + m) == s2.len());
            assert(s2.subrange(i, s2.len() as int) =~= x + ins);
            let a = crate::text::lines_from(s2, i);
            let b = crate::text::lines_from(s, i);
            assert(a == seq![x + ins]);
            assert(b == seq![x]);
            assert(line_content(a[0]) == line_content(b[0]));
        }
    }
}

/// The documented form of comments: appending ` ;` and any text without a
/// line break at the end of a line of a source changes neither the document
/// nor the error.
pub proof fn lemma_comment_appended(s: Seq<char>, p: int, comment: Seq<char>)
    requires
        is_line_end(s, p),
        forall|k: int| 0 <= k < comment.len() ==> #[trigger] comment[k] != '\n' && comment[k] != '\r',
    ensures
        document_of(with_comment_at(s, p, comment)) == document_of(s),
{
    lemma_lines_with_comment(s, p, comment, 0);
    let s2 = with_comment_at(s, p, comment);
    lemma_comments_ignored(s2, s);
}

} // verus!
