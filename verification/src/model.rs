//! The data a `.px` document describes: colors, resolutions, the palette and
//! the document itself.

use vstd::prelude::*;

use crate::text::{chars_to_string, char_rows, push_str};
use std::collections::HashMap;
use vstd::utf8::char_u32_cast;

verus! {

/// An RGB color.
#[derive(Debug, Clone, Copy, PartialEq, Eq, Structural)]
pub struct Color {
    pub r: u8,
    pub g: u8,
    pub b: u8,
}

/// The uppercase hexadecimal digit for a value below 16.
pub open spec fn hex_char(n: nat) -> char {
    if n < 10 {
        (n + 48) as char
    } else {
        (n + 55) as char
    }
}

/// The two uppercase hexadecimal digits of a byte.
pub open spec fn hex_byte(b: u8) -> Seq<char> {
    seq![hex_char((b / 16) as nat), hex_char((b % 16) as nat)]
}

/// The text of a color, `#RRGGBB` in uppercase hexadecimal.
pub open spec fn color_text(c: Color) -> Seq<char> {
    seq!['#'] + hex_byte(c.r) + hex_byte(c.g) + hex_byte(c.b)
}

fn push_hex_byte(out: &mut Vec<char>, b: u8)
    ensures
        final(out)@ == old(out)@ + hex_byte(b),
{
    let hi = b / 16;
    let lo = b % 16;
    let c_hi = if hi < 10 {
        (hi + 48) as char
    } else {
        (hi + 55) as char
    };
    let c_lo = if lo < 10 {
        (lo + 48) as char
    } else {
        (lo + 55) as char
    };
    out.push(c_hi);
    out.push(c_lo);
    assert(final(out)@ =~= old(out)@ + hex_byte(b));
}

impl Color {
    /// The squared Euclidean distance between two colors in RGB space.
    pub fn distance_squared(self, other: Self) -> (d: u32)
        ensures
            d == (self.r - other.r) * (self.r - other.r) + (self.g - other.g) * (self.g - other.g)
                + (self.b - other.b) * (self.b - other.b),
    {
        let dr = self.r as i32 - other.r as i32;
        let dg = self.g as i32 - other.g as i32;
        let db = self.b as i32 - other.b as i32;
        assert(0 <= dr * dr <= 65025) by (nonlinear_arith)
            requires
                -255 <= dr <= 255,
        ;
        assert(0 <= dg * dg <= 65025) by (nonlinear_arith)
            requires
                -255 <= dg <= 255,
        ;
        assert(0 <= db * db <= 65025) by (nonlinear_arith)
            requires
                -255 <= db <= 255,
        ;
        (dr * dr + dg * dg + db * db) as u32
    }

    /// The color written as `#RRGGBB`.
    pub fn hex_string(&self) -> (s: String)
        ensures
            s@ == color_text(*self),
    {
        let mut text: Vec<char> = Vec::new();
        text.push('#');
        push_hex_byte(&mut text, self.r);
        push_hex_byte(&mut text, self.g);
        push_hex_byte(&mut text, self.b);
        assert(text@ =~= color_text(*self));
        chars_to_string(text.as_slice())
    }
}

/// The width and height of an image, in pixels.
#[derive(Debug, Clone, Copy, PartialEq, Eq, Structural)]
pub struct Resolution {
    pub width: usize,
    pub height: usize,
}

/// Whether two resolutions have the same aspect ratio, compared by cross
/// multiplication.
pub open spec fn same_ratio(a: Resolution, b: Resolution) -> bool {
    a.width * b.height == a.height * b.width
}

/// Whether the products that [`Resolution::same_aspect_ratio`] computes fit in
/// a `usize`.
pub open spec fn ratio_fits(a: Resolution, b: Resolution) -> bool {
    a.width * b.height <= usize::MAX && a.height * b.width <= usize::MAX
}

/// What [`Resolution::new`] gives: the resolution, or the message of its error.
pub open spec fn new_resolution(width: nat, height: nat) -> Result<Resolution, Seq<char>> {
    if width == 0 || height == 0 {
        Err("resolution dimensions must be greater than zero"@)
    } else {
        Ok(Resolution { width: width as usize, height: height as usize })
    }
}

/// What [`Resolution::scaled`] gives: the resolution, or the message of its
/// error.
pub open spec fn scaled_resolution(r: Resolution, scale: u32) -> Result<Resolution, Seq<char>> {
    if r.width * scale > usize::MAX {
        Err("scaled width overflows usize"@)
    } else if r.height * scale > usize::MAX {
        Err("scaled height overflows usize"@)
    } else {
        new_resolution((r.width * scale) as nat, (r.height * scale) as nat)
    }
}

/// A result with its error message taken by its view.
pub open spec fn message_outcome<T>(r: Result<T, String>) -> Result<T, Seq<char>> {
    match r {
        Ok(v) => Ok(v),
        Err(m) => Err(m@),
    }
}

impl Resolution {
    /// A resolution; both dimensions must be positive.
    pub fn new(width: usize, height: usize) -> (res: Result<Self, String>)
        ensures
            message_outcome(res) == new_resolution(width as nat, height as nat),
            match res {
                Ok(r) => width > 0 && height > 0 && r == (Resolution { width, height }),
                Err(m) => (width == 0 || height == 0) && m@
                    == "resolution dimensions must be greater than zero"@,
            },
    {
        if width == 0 || height == 0 {
            return Err(String::from_str("resolution dimensions must be greater than zero"));
        }
        Ok(Self { width, height })
    }

    /// Both dimensions multiplied by `scale`.
    pub fn scaled(self, scale: u32) -> (res: Result<Self, String>)
        ensures
            message_outcome(res) == scaled_resolution(self, scale),
            match res {
                Ok(r) => {
                    &&& self.width * scale <= usize::MAX
                    &&& self.height * scale <= usize::MAX
                    &&& r.width == self.width * scale
                    &&& r.height == self.height * scale
                    &&& r.width > 0
                    &&& r.height > 0
                },
                Err(m) => if self.width * scale > usize::MAX {
                    m@ == "scaled width overflows usize"@
                } else if self.height * scale > usize::MAX {
                    m@ == "scaled height overflows usize"@
                } else {
                    (self.width * scale == 0 || self.height * scale == 0) && m@
                        == "resolution dimensions must be greater than zero"@
                },
            },
    {
        let scale = scale as usize;
        let width = match self.width.checked_mul(scale) {
            Some(w) => w,
            None => {
                return Err(String::from_str("scaled width overflows usize"));
            },
        };
        let height = match self.height.checked_mul(scale) {
            Some(h) => h,
            None => {
                return Err(String::from_str("scaled height overflows usize"));
            },
        };
        Self::new(width, height)
    }

    /// Whether `self` and `other` have the same aspect ratio.
    pub fn same_aspect_ratio(self, other: Self) -> (b: bool)
        requires
            ratio_fits(self, other),
        ensures
            b == same_ratio(self, other),
    {
        self.width * other.height == self.height * other.width
    }
}

/// Scaling keeps the aspect ratio: a scaled resolution has the same ratio as
/// the one it was scaled from.
pub proof fn lemma_scaled_same_ratio(r: Resolution, scale: u32)
    ensures
        scaled_resolution(r, scale) matches Ok(out) ==> same_ratio(out, r),
{
    if let Ok(out) = scaled_resolution(r, scale) {
        let w = r.width as int;
        let h = r.height as int;
        let s = scale as int;
        assert((w * s) * h == (h * s) * w) by (nonlinear_arith);
    }
}

// ---------------------------------------------------------------------------
// Palette
// ---------------------------------------------------------------------------

/// The palette: which color each symbol stands for. The map is keyed by the
/// symbol's code point, and each entry keeps its symbol next to its color.
#[derive(Debug)]
pub struct Palette {
    entries: HashMap<u32, (char, Color)>,
}

impl View for Palette {
    type V = Map<char, Color>;

    closed spec fn view(&self) -> Map<char, Color> {
        Map::new(
            |c: char| self.entries@.contains_key(c as u32),
            |c: char| self.entries@[c as u32].1,
        )
    }
}

impl Palette {
    /// Every entry is keyed by the code point of its own symbol.
    #[verifier::type_invariant]
    spec fn keyed_by_symbol(self) -> bool {
        forall|k: u32| #[trigger] self.entries@.contains_key(k) ==> self.entries@[k].0 as u32 == k
    }

    /// The empty palette.
    pub fn new() -> (p: Palette)
        ensures
            p@ == Map::<char, Color>::empty(),
    {
        let p = Palette { entries: HashMap::new() };
        assert(p@ =~= Map::<char, Color>::empty());
        p
    }

    /// Maps `symbol` to `color`; tells whether `symbol` was already mapped.
    pub fn insert(&mut self, symbol: char, color: Color) -> (replaced: bool)
        ensures
            final(self)@ == old(self)@.insert(symbol, color),
            replaced == old(self)@.contains_key(symbol),
    {
        proof {
            use_type_invariant(&*self);
        }
        let ghost before = self.entries@;
        let mut entries: HashMap<u32, (char, Color)> = HashMap::new();
        std::mem::swap(&mut entries, &mut self.entries);
        let previous = entries.insert(symbol as u32, (symbol, color));
        let ghost after = entries@;
        proof {
            assert(after == before.insert(symbol as u32, (symbol, color)));
            assert forall|k: u32| #[trigger] after.contains_key(k) implies after[k].0 as u32 == k by {
                if k != symbol as u32 {
                    assert(before.contains_key(k));
                }
            }
        }
        self.entries = entries;
        proof {
            assert(self.entries@ == after);
            assert forall|c: char| #[trigger] self@.contains_key(c) == old(self)@.insert(
                symbol,
                color,
            ).contains_key(c) by {
                char_u32_cast(c, c as u32);
                char_u32_cast(symbol, symbol as u32);
            }
            assert forall|c: char| self@.contains_key(c) implies #[trigger] self@[c] == old(
                self,
            )@.insert(symbol, color)[c] by {
                char_u32_cast(c, c as u32);
                char_u32_cast(symbol, symbol as u32);
            }
            assert(self@ =~= old(self)@.insert(symbol, color));
        }
        previous.is_some()
    }

    /// The color of `symbol`, if the palette has one.
    pub fn get(&self, symbol: char) -> (c: Option<Color>)
        ensures
            c == (if self@.contains_key(symbol) {
                Some(self@[symbol])
            } else {
                None
            }),
    {
        match self.entries.get(&(symbol as u32)) {
            Some(entry) => Some(entry.1),
            None => None,
        }
    }

    /// Whether the palette has a color for `symbol`.
    pub fn contains_key(&self, symbol: char) -> (b: bool)
        ensures
            b == self@.contains_key(symbol),
    {
        self.entries.contains_key(&(symbol as u32))
    }

    /// Whether the palette maps no symbol.
    pub fn is_empty(&self) -> (b: bool)
        ensures
            b == (self@ == Map::<char, Color>::empty()),
    {
        proof {
            use_type_invariant(self);
        }
        let b = self.entries.is_empty();
        proof {
            if b {
                assert(self.entries@.dom() =~= Set::<u32>::empty());
                assert(self@ =~= Map::<char, Color>::empty());
            } else {
                let k = choose|k: u32| self.entries@.contains_key(k);
                let c = self.entries@[k].0;
                assert(self@.contains_key(c));
            }
        }
        b
    }
}

// ---------------------------------------------------------------------------
// Document
// ---------------------------------------------------------------------------

/// The contents of a parsed `.px` document.
#[derive(Debug)]
pub struct Document {
    pub scale: Option<u32>,
    pub resolution: Option<Resolution>,
    pub auto: Vec<String>,
    pub palette: Palette,
    pub pixels: Vec<Vec<char>>,
}

/// The observable content of a [`Document`].
pub struct DocumentView {
    pub scale: Option<u32>,
    pub resolution: Option<Resolution>,
    pub auto: Seq<Seq<char>>,
    pub palette: Map<char, Color>,
    pub pixels: Seq<Seq<char>>,
}

/// The text contents of a list of strings.
pub open spec fn string_texts(v: Seq<String>) -> Seq<Seq<char>> {
    v.map_values(|s: String| s@)
}

impl View for Document {
    type V = DocumentView;

    open spec fn view(&self) -> DocumentView {
        DocumentView {
            scale: self.scale,
            resolution: self.resolution,
            auto: string_texts(self.auto@),
            palette: self.palette@,
            pixels: char_rows(self.pixels@),
        }
    }
}

} // verus!
