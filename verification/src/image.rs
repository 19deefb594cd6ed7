//! An image ready to render: the source grid, the output resolution that the
//! document's settings ask for, and the palette.

use vstd::prelude::*;

use crate::error::{usage_error, AppError, ErrorView};
use crate::model::{
    new_resolution, ratio_fits, same_ratio, scaled_resolution, string_texts, Color, Document,
    DocumentView, Palette, Resolution,
};
use crate::parser::document_ok;
use crate::text::{char_rows, chars_eq, str_chars};

verus! {

/// An image: the source grid, the resolution to render at, and how the output
/// is obtained from the grid.
#[derive(Debug)]
pub struct Image {
    pub source: Resolution,
    pub output: Resolution,
    pub palette: Palette,
    pub pixels: Vec<Vec<char>>,
    pub reconstruction: bool,
    pub auto_resolution: bool,
    pub auto_scale: bool,
}

/// The observable content of an [`Image`].
pub struct ImageView {
    pub source: Resolution,
    pub output: Resolution,
    pub palette: Map<char, Color>,
    pub pixels: Seq<Seq<char>>,
    pub reconstruction: bool,
    pub auto_resolution: bool,
    pub auto_scale: bool,
}

impl View for Image {
    type V = ImageView;

    open spec fn view(&self) -> ImageView {
        ImageView {
            source: self.source,
            output: self.output,
            palette: self.palette@,
            pixels: char_rows(self.pixels@),
            reconstruction: self.reconstruction,
            auto_resolution: self.auto_resolution,
            auto_scale: self.auto_scale,
        }
    }
}

/// Whether every pixel of the grid can be drawn: the grid has `source`'s
/// dimensions, both positive, and every symbol has a palette color.
pub open spec fn drawable(img: ImageView) -> bool {
    &&& img.source.width > 0
    &&& img.source.height > 0
    &&& img.pixels.len() == img.source.height
    &&& forall|y: int| 0 <= y < img.pixels.len() ==> #[trigger] img.pixels[y].len() == img.source.width
    &&& forall|y: int, x: int|
        0 <= y < img.pixels.len() && 0 <= x < img.pixels[y].len() ==> img.palette.contains_key(
            #[trigger] img.pixels[y][x],
        )
}

/// The checks an automatically reconstructed output must pass: it may not be
/// smaller than the source and must keep its aspect ratio.
pub open spec fn target_check(source: Resolution, target: Resolution) -> Result<(), ErrorView> {
    if target.width < source.width || target.height < source.height {
        Err(usage_error("auto resolution cannot reduce the source dimensions"@))
    } else if !same_ratio(target, source) {
        Err(usage_error("auto resolution must preserve the source aspect ratio"@))
    } else {
        Ok(())
    }
}

/// The message for `$auto` asking for `resolution` without `$resolution`.
pub open spec fn missing_resolution() -> Seq<char> {
    "'resolution' is enabled in '$auto', but '$resolution' is missing"@
}

/// The message for `$auto` asking for `scale` without `$scale`.
pub open spec fn missing_scale() -> Seq<char> {
    "'scale' is enabled in '$auto', but '$scale' is missing"@
}

/// A target resolution that automatic reconstruction must reach.
pub open spec fn auto_target(source: Resolution, resolution: Option<Resolution>) -> Result<
    Resolution,
    ErrorView,
> {
    match resolution {
        None => Err(usage_error(missing_resolution())),
        Some(target) => match target_check(source, target) {
            Err(e) => Err(e),
            Ok(_) => Ok(target),
        },
    }
}

/// The source scaled by `scale`, a usage error when that fails.
pub open spec fn scaled_output(source: Resolution, scale: u32) -> Result<Resolution, ErrorView> {
    match scaled_resolution(source, scale) {
        Ok(r) => Ok(r),
        Err(m) => Err(usage_error(m)),
    }
}

/// The output resolution that the settings ask for.
pub open spec fn output_resolution(
    source: Resolution,
    scale: Option<u32>,
    resolution: Option<Resolution>,
    auto_resolution: bool,
    auto_scale: bool,
) -> Result<Resolution, ErrorView> {
    if auto_resolution {
        auto_target(source, resolution)
    } else if auto_scale {
        match scale {
            None => Err(usage_error(missing_scale())),
            Some(s) => scaled_output(source, s),
        }
    } else {
        match resolution {
            Some(r) => Ok(r),
            None => match scale {
                Some(s) => scaled_output(source, s),
                None => Ok(source),
            },
        }
    }
}

/// Whether the aspect-ratio products that an automatic target is checked with
/// fit in a `usize`.
pub open spec fn target_fits(source: Resolution, resolution: Option<Resolution>) -> bool {
    match resolution {
        Some(t) => t.width >= source.width && t.height >= source.height ==> ratio_fits(t, source),
        None => true,
    }
}

/// The size of a document's grid, taken from its first row and its row count.
pub open spec fn grid_size(d: DocumentView) -> Result<Resolution, Seq<char>> {
    new_resolution(d.pixels[0].len(), d.pixels.len())
}

/// The image that a document describes, or why it cannot be made.
pub open spec fn image_of(d: DocumentView) -> Result<ImageView, ErrorView> {
    match grid_size(d) {
        Err(m) => Err(usage_error(m)),
        Ok(source) => {
            let auto_resolution = d.auto.contains("resolution"@);
            let auto_scale = d.auto.contains("scale"@);
            match output_resolution(source, d.scale, d.resolution, auto_resolution, auto_scale) {
                Err(e) => Err(e),
                Ok(output) => Ok(
                    ImageView {
                        source,
                        output,
                        palette: d.palette,
                        pixels: d.pixels,
                        reconstruction: auto_resolution || auto_scale,
                        auto_resolution,
                        auto_scale,
                    },
                ),
            }
        },
    }
}

/// Whether the document can be turned into an image without an arithmetic
/// overflow in the aspect-ratio check.
pub open spec fn image_fits(d: DocumentView) -> bool {
    match grid_size(d) {
        Ok(source) => d.auto.contains("resolution"@) ==> target_fits(source, d.resolution),
        Err(_) => true,
    }
}

/// Whether `auto` lists the feature `name`.
fn has_auto(auto: &Vec<String>, name: &str) -> (b: bool)
    ensures
        b == string_texts(auto@).contains(name@),
{
    let mut i: usize = 0;
    while i < auto.len()
        invariant
            i <= auto@.len(),
            forall|j: int| 0 <= j < i ==> #[trigger] auto@[j]@ != name@,
        decreases auto@.len() - i,
    {
        let item = str_chars(auto[i].as_str());
        if chars_eq(item.as_slice(), name) {
            assert(string_texts(auto@)[i as int] == name@);
            return true;
        }
        i = i + 1;
    }
    assert forall|j: int| 0 <= j < string_texts(auto@).len() implies #[trigger] string_texts(
        auto@,
    )[j] != name@ by {
        assert(string_texts(auto@)[j] == auto@[j]@);
    }
    false
}

/// Checks an automatic target against the source.
fn validate_resolution_target(source: Resolution, target: Resolution) -> (r: Result<(), AppError>)
    requires
        target.width >= source.width && target.height >= source.height ==> ratio_fits(
            target,
            source,
        ),
    ensures
        match r {
            Ok(_) => target_check(source, target) == Ok::<(), ErrorView>(()),
            Err(e) => target_check(source, target) == Err::<(), ErrorView>(e@),
        },
{
    if target.width < source.width || target.height < source.height {
        return Err(
            AppError::usage(String::from_str("auto resolution cannot reduce the source dimensions")),
        );
    }
    if !target.same_aspect_ratio(source) {
        return Err(
            AppError::usage(
                String::from_str("auto resolution must preserve the source aspect ratio"),
            ),
        );
    }
    Ok(())
}

/// The target resolution when `$auto` asks for both `resolution` and `scale`:
/// the resolution decides.
fn resolve_auto_resolution_and_scale(source: Resolution, resolution: Option<Resolution>) -> (r:
    Result<Resolution, AppError>)
    requires
        target_fits(source, resolution),
    ensures
        match r {
            Ok(v) => auto_target(source, resolution) == Ok::<Resolution, ErrorView>(v),
            Err(e) => auto_target(source, resolution) == Err::<Resolution, ErrorView>(e@),
        },
{
    let target = match resolution {
        Some(t) => t,
        None => {
            return Err(
                AppError::usage(
                    String::from_str(
                        "'resolution' is enabled in '$auto', but '$resolution' is missing",
                    ),
                ),
            );
        },
    };
    match validate_resolution_target(source, target) {
        Ok(()) => Ok(target),
        Err(e) => Err(e),
    }
}

/// The source scaled by `scale`.
fn scale_source(source: Resolution, scale: u32) -> (r: Result<Resolution, AppError>)
    ensures
        match r {
            Ok(v) => scaled_output(source, scale) == Ok::<Resolution, ErrorView>(v),
            Err(e) => scaled_output(source, scale) == Err::<Resolution, ErrorView>(e@),
        },
{
    match source.scaled(scale) {
        Ok(v) => Ok(v),
        Err(message) => Err(AppError::usage(message)),
    }
}

/// The output resolution that the settings ask for.
fn resolve_output_resolution(
    source: Resolution,
    scale: Option<u32>,
    resolution: Option<Resolution>,
    auto_resolution: bool,
    auto_scale: bool,
) -> (r: Result<Resolution, AppError>)
    requires
        auto_resolution ==> target_fits(source, resolution),
    ensures
        match r {
            Ok(v) => output_resolution(source, scale, resolution, auto_resolution, auto_scale)
                == Ok::<Resolution, ErrorView>(v),
            Err(e) => output_resolution(source, scale, resolution, auto_resolution, auto_scale)
                == Err::<Resolution, ErrorView>(e@),
        },
{
    if auto_resolution && auto_scale {
        resolve_auto_resolution_and_scale(source, resolution)
    } else if auto_resolution {
        let target = match resolution {
            Some(t) => t,
            None => {
                return Err(
                    AppError::usage(
                        String::from_str(
                            "'resolution' is enabled in '$auto', but '$resolution' is missing",
                        ),
                    ),
                );
            },
        };
        match validate_resolution_target(source, target) {
            Ok(()) => Ok(target),
            Err(e) => Err(e),
        }
    } else if auto_scale {
        let scale = match scale {
            Some(s) => s,
            None => {
                return Err(
                    AppError::usage(
                        String::from_str("'scale' is enabled in '$auto', but '$scale' is missing"),
                    ),
                );
            },
        };
        scale_source(source, scale)
    } else {
        if let Some(resolution) = resolution {
            return Ok(resolution);
        }
        if let Some(scale) = scale {
            return scale_source(source, scale);
        }
        Ok(source)
    }
}

impl Image {
    /// The image that a document describes: its grid as the source, the
    /// output resolution its settings ask for, and whether the output is
    /// reconstructed (`$auto`) or sampled directly.
    pub fn from_document(document: Document) -> (r: Result<Self, AppError>)
        requires
            document@.pixels.len() > 0,
            image_fits(document@),
        ensures
            match r {
                Ok(img) => image_of(document@) == Ok::<ImageView, ErrorView>(img@),
                Err(e) => image_of(document@) == Err::<ImageView, ErrorView>(e@),
            },
            document_ok(document@) ==> (r matches Ok(img) ==> drawable(img@) && img.output.width > 0
                && img.output.height > 0),
    {
        let ghost d = document@;
        assert(d.pixels[0] == document.pixels@[0]@);
        let rows = document.pixels.len();
        let width = document.pixels[0].len();
        proof {
            if document_ok(d) {
                lemma_image_of_drawable(d);
            }
        }
        let source = match Resolution::new(width, rows) {
            Ok(s) => s,
            Err(message) => {
                return Err(AppError::usage(message));
            },
        };
        let auto_resolution = has_auto(&document.auto, "resolution");
        let auto_scale = has_auto(&document.auto, "scale");
        let output = match resolve_output_resolution(
            source,
            document.scale,
            document.resolution,
            auto_resolution,
            auto_scale,
        ) {
            Ok(o) => o,
            Err(e) => {
                return Err(e);
            },
        };
        Ok(
            Self {
                source,
                output,
                palette: document.palette,
                pixels: document.pixels,
                reconstruction: auto_resolution || auto_scale,
                auto_resolution,
                auto_scale,
            },
        )
    }

    /// The color of the source pixel at column `x` of row `y`.
    pub fn color_at(&self, x: usize, y: usize) -> (c: Color)
        requires
            y < self@.pixels.len(),
            x < self@.pixels[y as int].len(),
            self@.palette.contains_key(self@.pixels[y as int][x as int]),
        ensures
            c == self@.palette[self@.pixels[y as int][x as int]],
    {
        assert(self@.pixels[y as int] == self.pixels@[y as int]@);
        let symbol = self.pixels[y][x];
        match self.palette.get(symbol) {
            Some(c) => c,
            None => {
                proof {
                    assert(false);
                }
                Color { r: 0, g: 0, b: 0 }
            },
        }
    }
}

/// With `resolution` in `$auto`, a target at least as wide and as tall as the
/// source, with the source's aspect ratio, is the output resolution, whatever
/// `$scale` and the rest of `$auto` say.
pub proof fn lemma_auto_target_accepted(
    source: Resolution,
    target: Resolution,
    scale: Option<u32>,
    auto_scale: bool,
)
    requires
        target.width >= source.width,
        target.height >= source.height,
        target.width * source.height == target.height * source.width,
    ensures
        output_resolution(source, scale, Some(target), true, auto_scale) == Ok::<
            Resolution,
            ErrorView,
        >(target),
{
}

/// With `resolution` in `$auto`, a given `$resolution` is accepted exactly when
/// it is at least as wide and as tall as the source and has the source's
/// aspect ratio, and then it is the output.
pub proof fn lemma_auto_target_exact(
    source: Resolution,
    target: Resolution,
    scale: Option<u32>,
    auto_scale: bool,
)
    ensures
        (output_resolution(source, scale, Some(target), true, auto_scale) is Ok) <==> (
        target.width >= source.width && target.height >= source.height && target.width
            * source.height == target.height * source.width),
        output_resolution(source, scale, Some(target), true, auto_scale) is Ok
            ==> output_resolution(source, scale, Some(target), true, auto_scale) == Ok::<
            Resolution,
            ErrorView,
        >(target),
{
}

/// Without `$auto`, the output is `$resolution` when it is given; otherwise the
/// source with both dimensions multiplied by `$scale`, when that is given and
/// the products fit; otherwise the source itself. With only `scale` in `$auto`,
/// the output is the scaled source too.
pub proof fn lemma_output_without_auto_resolution(
    source: Resolution,
    scale: Option<u32>,
    resolution: Option<Resolution>,
    auto_scale: bool,
)
    requires
        source.width > 0,
        source.height > 0,
    ensures
        !auto_scale && resolution is Some ==> output_resolution(
            source,
            scale,
            resolution,
            false,
            false,
        ) == Ok::<Resolution, ErrorView>(resolution->0),
        scale is Some && (auto_scale || resolution is None) && scale->0 > 0 && source.width
            * scale->0 <= usize::MAX && source.height * scale->0 <= usize::MAX
            ==> output_resolution(source, scale, resolution, false, auto_scale) == Ok::<
            Resolution,
            ErrorView,
        >(
            Resolution {
                width: (source.width * scale->0) as usize,
                height: (source.height * scale->0) as usize,
            },
        ),
        !auto_scale && resolution is None && scale is None ==> output_resolution(
            source,
            scale,
            resolution,
            false,
            false,
        ) == Ok::<Resolution, ErrorView>(source),
{
    if let Some(s) = scale {
        if s > 0 {
            assert(source.width * s > 0 && source.height * s > 0) by (nonlinear_arith)
                requires
                    s > 0,
                    source.width > 0,
                    source.height > 0,
            ;
        }
    }
}

/// A document whose `$auto` lists `resolution` and whose `$resolution` is at
/// least as wide and as tall as the grid, with the grid's aspect ratio, makes
/// an image: the grid is the source, `$resolution` the output, and the output
/// is reconstructed.
pub proof fn lemma_auto_resolution_image(d: DocumentView, target: Resolution)
    requires
        d.pixels.len() > 0,
        0 < d.pixels[0].len() <= usize::MAX,
        d.pixels.len() <= usize::MAX,
        d.auto.contains("resolution"@),
        d.resolution == Some(target),
        target.width >= d.pixels[0].len(),
        target.height >= d.pixels.len(),
        target.width * d.pixels.len() == target.height * d.pixels[0].len(),
    ensures
        image_of(d) matches Ok(img) && img.output == target && img.reconstruction && img.source
            == (Resolution { width: d.pixels[0].len() as usize, height: d.pixels.len() as usize }),
{
    let source = Resolution { width: d.pixels[0].len() as usize, height: d.pixels.len() as usize };
    assert(grid_size(d) == Ok::<Resolution, Seq<char>>(source));
    lemma_auto_target_accepted(source, target, d.scale, d.auto.contains("scale"@));
}

/// A document as the parser returns it becomes, if its settings allow, a
/// drawable image with a positive output resolution, whose source is the
/// document's grid.
pub proof fn lemma_image_of_drawable(d: DocumentView)
    requires
        document_ok(d),
        d.pixels.len() <= usize::MAX,
        d.pixels[0].len() <= usize::MAX,
    ensures
        image_of(d) matches Ok(img) ==> {
            &&& drawable(img)
            &&& img.source == (Resolution {
                width: d.pixels[0].len() as usize,
                height: d.pixels.len() as usize,
            })
            &&& img.output.width > 0
            &&& img.output.height > 0
        },
{
    if let Ok(img) = image_of(d) {
        let source = grid_size(d)->Ok_0;
        assert(source.width == d.pixels[0].len());
        assert(source.height == d.pixels.len());
        assert(img.pixels == d.pixels);
        assert(img.palette == d.palette);
        assert forall|y: int| 0 <= y < img.pixels.len() implies #[trigger] img.pixels[y].len()
            == img.source.width by {
            assert(d.pixels[y].len() == d.pixels[0].len());
        }
    }
}

} // verus!
