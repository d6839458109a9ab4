//! Writing an open document out as a file.
//!
//! Every format starts from the same place, a composition read back from the
//! document's own bytes, and differs only in what it is handed to.

use vstd::prelude::*;

use super::error::ViewerError;
use crate::color::Color;
use crate::fixed::{
    reading_text, round_div, round_quotient, usable, Fixed, Reading, ONE,
};
use crate::geometry::Size;
use crate::svg::config::{SvgConfig, SvgUnits, SvgWarning, TextMode};
use crate::text::{decimal_text, push_decimal, texts};

verus! {

/// Points per inch. The unit every size request is normalized through, since
/// it is the unit a plot's own lengths are expressed in.
pub const POINTS_PER_INCH: i64 = 72;

/// The longest edge a texture can have, in pixels.
pub const MAX_TEXTURE_DIMENSION: u32 = 16384;

/// What a file can be written as.
#[derive(Debug, Clone, Copy, PartialEq, Eq, Structural)]
pub enum ExportFormat {
    Png,
    Jpeg,
    Tiff,
    Webp,
    Svg,
    Pdf,
}

/// The extension of a format's files.
pub open spec fn format_extension(f: ExportFormat) -> Seq<char> {
    match f {
        ExportFormat::Png => "png"@,
        ExportFormat::Jpeg => "jpg"@,
        ExportFormat::Tiff => "tiff"@,
        ExportFormat::Webp => "webp"@,
        ExportFormat::Svg => "svg"@,
        ExportFormat::Pdf => "pdf"@,
    }
}

/// The name of a format in a file dialog.
pub open spec fn format_label(f: ExportFormat) -> Seq<char> {
    match f {
        ExportFormat::Png => "PNG image"@,
        ExportFormat::Jpeg => "JPEG image"@,
        ExportFormat::Tiff => "TIFF image"@,
        ExportFormat::Webp => "WebP image"@,
        ExportFormat::Svg => "SVG drawing"@,
        ExportFormat::Pdf => "PDF document"@,
    }
}

/// True for the formats that hold pixels.
pub open spec fn holds_pixels(f: ExportFormat) -> bool {
    f != ExportFormat::Svg && f != ExportFormat::Pdf
}

impl ExportFormat {
    /// Filename extension, without the dot.
    pub fn extension(self) -> (r: &'static str)
        ensures
            r@ == format_extension(self),
    {
        match self {
            ExportFormat::Png => "png",
            ExportFormat::Jpeg => "jpg",
            ExportFormat::Tiff => "tiff",
            ExportFormat::Webp => "webp",
            ExportFormat::Svg => "svg",
            ExportFormat::Pdf => "pdf",
        }
    }

    /// Name for a file dialog's format filter.
    pub fn label(self) -> (r: &'static str)
        ensures
            r@ == format_label(self),
    {
        match self {
            ExportFormat::Png => "PNG image",
            ExportFormat::Jpeg => "JPEG image",
            ExportFormat::Tiff => "TIFF image",
            ExportFormat::Webp => "WebP image",
            ExportFormat::Svg => "SVG drawing",
            ExportFormat::Pdf => "PDF document",
        }
    }

    /// Whether the format holds pixels, and therefore needs the GPU and a
    /// resolution.
    pub fn is_raster(self) -> (r: bool)
        ensures
            r == holds_pixels(self),
    {
        match self {
            ExportFormat::Png => true,
            ExportFormat::Jpeg => true,
            ExportFormat::Tiff => true,
            ExportFormat::Webp => true,
            ExportFormat::Svg => false,
            ExportFormat::Pdf => false,
        }
    }
}

/// Unit the requested width and height are expressed in.
#[derive(Debug, Clone, Copy, PartialEq, Eq, Structural)]
pub enum SizeUnit {
    /// Pixels, resolved against the requested dpi.
    Px,
    /// Inches.
    In,
    /// Millimeters.
    Mm,
    /// Points.
    Pt,
}

/// A request to write the current document out.
#[derive(Debug, Clone, Copy)]
pub struct ExportSpec {
    /// Which writer to use.
    pub format: ExportFormat,
    /// Requested width, in [`ExportSpec::unit`].
    pub width: Reading,
    /// Requested height, in [`ExportSpec::unit`].
    pub height: Reading,
    /// What `width` and `height` mean.
    pub unit: SizeUnit,
    /// Resolution for a raster format, and the scale a pixel size is
    /// resolved against for any format.
    pub dpi: Reading,
    /// JPEG quality, 1 to 100. Ignored by every other format.
    pub jpeg_quality: u8,
    /// Emit SVG text as filled outlines rather than as `<text>` elements.
    pub outline_text: bool,
    /// Embed the fonts an SVG's `<text>` refers to.
    pub embed_fonts: bool,
}

/// The size request, normalized to the one unit that decides layout.
#[derive(Debug, Clone, Copy, PartialEq, Eq, Structural)]
pub struct Extent {
    pub width_pt: Fixed,
    pub height_pt: Fixed,
}

/// A length in points: a pixel is an inch over the resolution, an inch is 72
/// points, and a millimeter is an inch over 25.4.
pub open spec fn in_points(value: Fixed, unit: SizeUnit, dpi: Fixed) -> Fixed {
    match unit {
        SizeUnit::Px => value.spec_scaled(72 * ONE, dpi.nanos as int),
        SizeUnit::In => value.spec_scaled(72, 1),
        SizeUnit::Mm => value.spec_scaled(720, 254),
        SizeUnit::Pt => value,
    }
}

/// A request's length in points, when what was requested is positive and
/// finite; one too short to tell from nothing comes to none.
pub open spec fn points_wanted(value: Reading, unit: SizeUnit, dpi: Fixed) -> Option<Fixed> {
    match value {
        Reading::Finite(v) => if v.nanos > 0 {
            Some(in_points(v, unit, dpi))
        } else {
            None
        },
        _ => None,
    }
}

/// What is said of a resolution that nothing can be solved at.
pub open spec fn unusable_resolution(dpi: Reading) -> Seq<char> {
    reading_text(dpi) + " is not a usable resolution"@
}

/// What a size request comes to: its extent, or why it is refused.
pub open spec fn extent_of(spec: ExportSpec) -> Result<Extent, Seq<char>> {
    match usable(spec.dpi) {
        None => Err(unusable_resolution(spec.dpi)),
        Some(dpi) => match (
            points_wanted(spec.width, spec.unit, dpi),
            points_wanted(spec.height, spec.unit, dpi),
        ) {
            (Some(width_pt), Some(height_pt)) => Ok(Extent { width_pt, height_pt }),
            _ => Err("export width and height must both be positive"@),
        },
    }
}

/// True when a result is the expected one: the same value, or a rejection
/// with the expected message.
pub open spec fn answers<T>(r: Result<T, ViewerError>, expected: Result<T, Seq<char>>) -> bool {
    match (r, expected) {
        (Ok(a), Ok(b)) => a == b,
        (Err(ViewerError::Rejected(m)), Err(text)) => m@ == text,
        _ => false,
    }
}

fn to_points(value: Reading, unit: SizeUnit, dpi: Fixed) -> (r: Option<Fixed>)
    requires
        dpi.nanos > 0,
    ensures
        r == points_wanted(value, unit, dpi),
{
    match value {
        Reading::Finite(v) => {
            let points = match unit {
                SizeUnit::Px => v.scaled(72 * ONE, dpi.nanos),
                SizeUnit::In => v.scaled(72, 1),
                SizeUnit::Mm => v.scaled(720, 254),
                SizeUnit::Pt => v,
            };
            if v.nanos > 0 {
                Some(points)
            } else {
                None
            }
        },
        _ => None,
    }
}

/// The rejection of a resolution that nothing can be solved at.
pub fn reject_resolution(dpi: Reading) -> (r: ViewerError)
    ensures
        r is Rejected,
        r->Rejected_0@ == unusable_resolution(dpi),
{
    let mut m = String::new();
    dpi.show(&mut m);
    m.append(" is not a usable resolution");
    assert(m@ =~= unusable_resolution(dpi));
    ViewerError::Rejected(m)
}

/// Pixels along a length of `points` at `dpi`, to the nearest.
pub open spec fn pixels_along(points: Fixed, dpi: Fixed) -> int {
    round_div(points.nanos * dpi.nanos, 72 * (ONE as int * ONE as int))
}

/// What is said of a picture that no texture could hold.
pub open spec fn too_large(w: int, h: int) -> Seq<char> {
    decimal_text(w as nat) + " × "@ + decimal_text(h as nat)
        + " px is past the 16384 px a texture can hold; reduce the size or the resolution"@
}

/// The pixel size of an extent, each edge at least one, or why no texture
/// could hold it.
pub open spec fn pixels_of(extent: Extent, dpi: Fixed) -> Result<(u32, u32), Seq<char>> {
    let w = pixels_along(extent.width_pt, dpi);
    let h = pixels_along(extent.height_pt, dpi);
    if w > MAX_TEXTURE_DIMENSION || h > MAX_TEXTURE_DIMENSION {
        Err(too_large(w, h))
    } else {
        Ok(
            (
                if w < 1 {
                    1u32
                } else {
                    w as u32
                },
                if h < 1 {
                    1u32
                } else {
                    h as u32
                },
            ),
        )
    }
}

fn count_pixels(points: Fixed, dpi: Fixed) -> (r: u64)
    requires
        points.nanos >= 0,
        dpi.nanos > 0,
    ensures
        r as int == pixels_along(points, dpi),
{
    assert(0 <= points.nanos * dpi.nanos <= 0x3fff_ffff_ffff_ffff_ffff_ffff_ffff_ffff)
        by (nonlinear_arith)
        requires
            0 <= points.nanos <= 0x7fff_ffff_ffff_ffff,
            0 < dpi.nanos <= 0x7fff_ffff_ffff_ffff,
    ;
    let product: i128 = points.nanos as i128 * dpi.nanos as i128;
    let unit: i128 = 72_000_000_000_000_000_000;
    assert(unit == 72 * (ONE as int * ONE as int));
    let q: i128 = round_quotient(product, unit);
    assert(q < 0x1_0000_0000_0000_0000) by {
        let n = product as int + unit as int / 2;
        assert(n / (unit as int) < 0x1_0000_0000_0000_0000) by (nonlinear_arith)
            requires
                0 <= n <= 0x5000_0000_0000_0000_0000_0000_0000_0000,
                unit == 72_000_000_000_000_000_000i128,
        ;
    }
    q as u64
}

impl Extent {
    /// Resolve a spec's width and height into points.
    pub fn resolve(spec: &ExportSpec) -> (r: Result<Extent, ViewerError>)
        ensures
            answers(r, extent_of(*spec)),
    {
        let dpi = match spec.dpi.positive() {
            Some(dpi) => dpi,
            None => return Err(reject_resolution(spec.dpi)),
        };
        let width = to_points(spec.width, spec.unit, dpi);
        let height = to_points(spec.height, spec.unit, dpi);
        match (width, height) {
            (Some(width_pt), Some(height_pt)) => Ok(Extent { width_pt, height_pt }),
            _ => Err(
                ViewerError::Rejected("export width and height must both be positive".to_owned()),
            ),
        }
    }

    /// Pixel dimensions at `dpi`, refused if no texture could hold them.
    ///
    /// Checked here rather than left to the renderer because the message a
    /// person needs names the limit, and because the alternative is
    /// discovering it after allocating most of a gigabyte.
    pub fn pixels(self, dpi: Fixed) -> (r: Result<(u32, u32), ViewerError>)
        requires
            self.width_pt.nanos >= 0,
            self.height_pt.nanos >= 0,
            dpi.nanos > 0,
        ensures
            answers(r, pixels_of(self, dpi)),
    {
        let w = count_pixels(self.width_pt, dpi);
        let h = count_pixels(self.height_pt, dpi);
        if w > MAX_TEXTURE_DIMENSION as u64 || h > MAX_TEXTURE_DIMENSION as u64 {
            let mut m = String::new();
            push_decimal(&mut m, w);
            m.append(" × ");
            push_decimal(&mut m, h);
            m.append(
                " px is past the 16384 px a texture can hold; reduce the size or the resolution",
            );
            assert(m@ =~= too_large(w as int, h as int));
            return Err(ViewerError::Rejected(m));
        }
        let width: u32 = if w < 1 {
            1
        } else {
            w as u32
        };
        let height: u32 = if h < 1 {
            1
        } else {
            h as u32
        };
        Ok((width, height))
    }
}

/// Which encoder a raster export is handed to.
#[derive(Debug, Clone, Copy, PartialEq, Eq, Structural)]
pub enum RasterEncoder {
    /// Balanced compression.
    Png,
    /// At a quality from 1 to 100, over the background.
    Jpeg { quality: u8 },
    /// Deflate compression.
    Tiff,
    Webp,
}

/// What a vector export is handed to.
#[derive(Debug)]
pub enum VectorWriter {
    Svg(SvgConfig),
    Pdf,
}

/// What an export does once nothing stands in its way.
#[derive(Debug)]
pub enum ExportPlan {
    /// Draw `width` by `height` pixels at `dpi` and encode them.
    Raster { width: u32, height: u32, dpi: Fixed, encoder: RasterEncoder },
    /// Lay the document out at `extent` and write it.
    Vector { extent: Extent, writer: VectorWriter },
}

/// A quality brought into the range an encoder takes.
pub open spec fn quality_of(q: u8) -> u8 {
    if q < 1 {
        1
    } else if q > 100 {
        100
    } else {
        q
    }
}

/// The encoder for a raster format.
pub open spec fn encoder_of(format: ExportFormat, quality: u8) -> RasterEncoder {
    match format {
        ExportFormat::Jpeg => RasterEncoder::Jpeg { quality: quality_of(quality) },
        ExportFormat::Tiff => RasterEncoder::Tiff,
        ExportFormat::Webp => RasterEncoder::Webp,
        _ => RasterEncoder::Png,
    }
}

/// What is said of a raster format where there is no renderer.
pub open spec fn no_renderer(format: ExportFormat) -> Seq<char> {
    "cannot write a "@ + format_label(format)
        + " without a working GPU adapter; SVG and PDF need none"@
}

/// True when `config` is how an export of `spec` over `background` writes
/// SVG: in points, without picking, and with the text the spec asks for.
pub open spec fn is_export_config(config: SvgConfig, spec: ExportSpec, background: Color) -> bool {
    &&& config.background == Some(background)
    &&& config.units == SvgUnits::Pt
    &&& !config.pick_ids
    &&& config.text == (if spec.outline_text {
        TextMode::Outline
    } else {
        TextMode::Text
    })
    &&& config.embed_fonts == spec.embed_fonts
    &&& config.decimals == 3
    &&& config.id_prefix is None
}

/// True when `r` is what an export decides: the size is refused first, then
/// a document that no longer reads, then a picture that is too large, and a
/// missing renderer last.
pub open spec fn is_export_decision(
    r: Result<ExportPlan, ViewerError>,
    spec: ExportSpec,
    reread: Result<(), ViewerError>,
    renderer: bool,
    background: Color,
) -> bool {
    match extent_of(spec) {
        Err(text) => r is Err && r->Err_0 is Rejected && r->Err_0->Rejected_0@ == text,
        Ok(extent) => match reread {
            Err(e) => r == Err::<ExportPlan, ViewerError>(e),
            Ok(()) => if holds_pixels(spec.format) {
                match pixels_of(extent, spec.dpi->Finite_0) {
                    Err(text) => r is Err && r->Err_0 is Rejected && r->Err_0->Rejected_0@ == text,
                    Ok((width, height)) => if renderer {
                        r == Ok::<ExportPlan, ViewerError>(
                            ExportPlan::Raster {
                                width,
                                height,
                                dpi: spec.dpi->Finite_0,
                                encoder: encoder_of(spec.format, spec.jpeg_quality),
                            },
                        )
                    } else {
                        r is Err && r->Err_0 is Rejected && r->Err_0->Rejected_0@ == no_renderer(
                            spec.format,
                        )
                    },
                }
            } else {
                &&& r is Ok
                &&& r->Ok_0 is Vector
                &&& r->Ok_0->extent == extent
                &&& match r->Ok_0->writer {
                    VectorWriter::Svg(config) => spec.format == ExportFormat::Svg
                        && is_export_config(config, spec, background),
                    VectorWriter::Pdf => spec.format == ExportFormat::Pdf,
                }
            },
        },
    }
}

fn export_config(spec: &ExportSpec, background: Color) -> (config: SvgConfig)
    ensures
        is_export_config(config, *spec, background),
{
    let mode = if spec.outline_text {
        TextMode::Outline
    } else {
        TextMode::Text
    };
    SvgConfig::new().background(Some(background)).units(SvgUnits::Pt).pick_ids(false).text(
        mode,
    ).embed_fonts(spec.embed_fonts)
}

/// Decide what writing a document as `spec` asks takes.
///
/// `reread` is how reading a fresh composition from the document's own bytes
/// went, and `renderer` says whether there is a working one: only a raster
/// format needs it, so a machine that cannot rasterize at all can still
/// export SVG and PDF. The size is checked before the renderer, so a request
/// no device could satisfy is reported as the size problem it is rather than
/// as a missing adapter.
pub fn export(
    spec: &ExportSpec,
    reread: Result<(), ViewerError>,
    renderer: bool,
    background: Color,
) -> (r: Result<ExportPlan, ViewerError>)
    ensures
        is_export_decision(r, *spec, reread, renderer, background),
{
    let extent = match Extent::resolve(spec) {
        Ok(extent) => extent,
        Err(e) => return Err(e),
    };
    if let Err(e) = reread {
        return Err(e);
    }
    if spec.format.is_raster() {
        let dpi = match spec.dpi {
            Reading::Finite(dpi) => dpi,
            _ => return Err(reject_resolution(spec.dpi)),
        };
        let (width, height) = match extent.pixels(dpi) {
            Ok(size) => size,
            Err(e) => return Err(e),
        };
        if !renderer {
            let mut m = String::new();
            m.append("cannot write a ");
            m.append(spec.format.label());
            m.append(" without a working GPU adapter; SVG and PDF need none");
            assert(m@ =~= no_renderer(spec.format));
            return Err(ViewerError::Rejected(m));
        }
        let q = spec.jpeg_quality;
        let quality: u8 = if q < 1 {
            1
        } else if q > 100 {
            100
        } else {
            q
        };
        let encoder = match spec.format {
            ExportFormat::Jpeg => RasterEncoder::Jpeg { quality },
            ExportFormat::Tiff => RasterEncoder::Tiff,
            ExportFormat::Webp => RasterEncoder::Webp,
            _ => RasterEncoder::Png,
        };
        Ok(ExportPlan::Raster { width, height, dpi, encoder })
    } else {
        let writer = match spec.format {
            ExportFormat::Svg => VectorWriter::Svg(export_config(spec, background)),
            _ => VectorWriter::Pdf,
        };
        Ok(ExportPlan::Vector { extent, writer })
    }
}

/// What was written.
#[derive(Debug)]
pub struct ExportReport {
    /// Where it landed.
    pub path: String,
    /// Format it was written in.
    pub format: ExportFormat,
    /// Pixel width for a raster format; rounded point width for a vector one.
    pub width: u32,
    /// Pixel height for a raster format; rounded point height for a vector
    /// one.
    pub height: u32,
    /// Resolution the layout was solved against.
    pub dpi: Fixed,
    /// Size of the file.
    pub bytes: u64,
    /// Whatever the writer could not express exactly.
    pub warnings: Vec<String>,
}

/// A positive length to the nearest whole number that fits.
pub open spec fn whole_points(x: Fixed) -> u32 {
    let v = round_div(x.nanos as int, ONE as int);
    if v > u32::MAX {
        u32::MAX
    } else if v < 0 {
        0
    } else {
        v as u32
    }
}

fn round_points(x: Fixed) -> (r: u32)
    ensures
        r == whole_points(x),
{
    let v: i128 = round_quotient(x.nanos as i128, ONE as i128);
    if v > u32::MAX as i128 {
        u32::MAX
    } else if v < 0 {
        0
    } else {
        v as u32
    }
}

/// The size a plan's layout is solved at, and the resolution. Both vector
/// writers are handed points and a dpi of 72, so a length in the theme, a
/// coordinate in the file and the page's own size are all the same unit.
pub open spec fn layout_of(plan: ExportPlan) -> (Size, Fixed) {
    match plan {
        ExportPlan::Raster { width, height, dpi, .. } => (
            Size {
                width: Fixed { nanos: (width * ONE) as i64 },
                height: Fixed { nanos: (height * ONE) as i64 },
            },
            dpi,
        ),
        ExportPlan::Vector { extent, .. } => (
            Size { width: extent.width_pt, height: extent.height_pt },
            Fixed { nanos: (72 * ONE) as i64 },
        ),
    }
}

impl ExportPlan {
    /// The size and resolution to lay the document out at.
    pub fn layout(&self) -> (r: (Size, Fixed))
        requires
            self is Raster ==> self->width <= MAX_TEXTURE_DIMENSION && self->height
                <= MAX_TEXTURE_DIMENSION,
        ensures
            r == layout_of(*self),
    {
        match self {
            ExportPlan::Raster { width, height, dpi, .. } => (
                Size {
                    width: Fixed { nanos: *width as i64 * ONE },
                    height: Fixed { nanos: *height as i64 * ONE },
                },
                *dpi,
            ),
            ExportPlan::Vector { extent, .. } => (
                Size { width: extent.width_pt, height: extent.height_pt },
                Fixed { nanos: 72 * ONE },
            ),
        }
    }

    /// What to report once `bytes` bytes have been written to `path`.
    pub fn report(
        &self,
        format: ExportFormat,
        path: String,
        bytes: u64,
        warnings: Vec<String>,
    ) -> (r: ExportReport)
        ensures
            r.path == path,
            r.format == format,
            r.bytes == bytes,
            r.warnings == warnings,
            match self {
                ExportPlan::Raster { width, height, dpi, .. } => r.width == width && r.height
                    == height && r.dpi == dpi,
                ExportPlan::Vector { extent, .. } => r.width == whole_points(extent.width_pt)
                    && r.height == whole_points(extent.height_pt) && r.dpi.nanos == 72 * ONE,
            },
    {
        match self {
            ExportPlan::Raster { width, height, dpi, .. } => ExportReport {
                path,
                format,
                width: *width,
                height: *height,
                dpi: *dpi,
                bytes,
                warnings,
            },
            ExportPlan::Vector { extent, .. } => ExportReport {
                path,
                format,
                width: round_points(extent.width_pt),
                height: round_points(extent.height_pt),
                dpi: Fixed { nanos: 72 * ONE },
                bytes,
                warnings,
            },
        }
    }
}

/// The name of a warning.
pub open spec fn warning_name(w: SvgWarning) -> Seq<char> {
    match w {
        SvgWarning::SweepGradient => "SweepGradient"@,
        SvgWarning::UnsupportedCompose => "UnsupportedCompose"@,
        SvgWarning::AsymmetricCaps => "AsymmetricCaps"@,
        SvgWarning::RadialFocalRadius => "RadialFocalRadius"@,
        SvgWarning::ImageBrushUnsupported => "ImageBrushUnsupported"@,
        SvgWarning::NonFiniteCoordinate => "NonFiniteCoordinate"@,
        SvgWarning::UnbalancedLayers => "UnbalancedLayers"@,
        SvgWarning::UnbalancedScopes => "UnbalancedScopes"@,
        SvgWarning::TextWithoutSource => "TextWithoutSource"@,
        SvgWarning::MissingPngFeature => "MissingPngFeature"@,
        SvgWarning::UnembeddableImage => "UnembeddableImage"@,
        SvgWarning::FontNotEmbeddable => "FontNotEmbeddable"@,
    }
}

fn name_of(w: SvgWarning) -> (r: &'static str)
    ensures
        r@ == warning_name(w),
{
    match w {
        SvgWarning::SweepGradient => "SweepGradient",
        SvgWarning::UnsupportedCompose => "UnsupportedCompose",
        SvgWarning::AsymmetricCaps => "AsymmetricCaps",
        SvgWarning::RadialFocalRadius => "RadialFocalRadius",
        SvgWarning::ImageBrushUnsupported => "ImageBrushUnsupported",
        SvgWarning::NonFiniteCoordinate => "NonFiniteCoordinate",
        SvgWarning::UnbalancedLayers => "UnbalancedLayers",
        SvgWarning::UnbalancedScopes => "UnbalancedScopes",
        SvgWarning::TextWithoutSource => "TextWithoutSource",
        SvgWarning::MissingPngFeature => "MissingPngFeature",
        SvgWarning::UnembeddableImage => "UnembeddableImage",
        SvgWarning::FontNotEmbeddable => "FontNotEmbeddable",
    }
}

/// Turn a writer's warning list into text the export report can carry.
pub fn describe(warnings: &Vec<SvgWarning>) -> (out: Vec<String>)
    ensures
        texts(out@) == warnings@.map_values(|w: SvgWarning| warning_name(w)),
{
    let mut out: Vec<String> = Vec::new();
    let mut i: usize = 0;
    while i < warnings.len()
        invariant
            i <= warnings@.len(),
            out@.len() == i,
            forall|j: int| 0 <= j < i ==> (#[trigger] out@[j])@ == warning_name(warnings@[j]),
        decreases warnings@.len() - i,
    {
        out.push(name_of(warnings[i]).to_owned());
        i = i + 1;
    }
    assert(texts(out@) =~= warnings@.map_values(|w: SvgWarning| warning_name(w)));
    out
}

/// A size past what a texture can hold is refused as a size problem whether
/// or not there is a renderer to miss.
pub proof fn lemma_impossible_size_is_reported_as_one(
    r: Result<ExportPlan, ViewerError>,
    spec: ExportSpec,
    renderer: bool,
    background: Color,
)
    requires
        is_export_decision(r, spec, Ok(()), renderer, background),
        holds_pixels(spec.format),
        extent_of(spec) is Ok,
        pixels_of(extent_of(spec)->Ok_0, spec.dpi->Finite_0) is Err,
    ensures
        r is Err,
        r->Err_0 is Rejected,
        r->Err_0->Rejected_0@ == pixels_of(extent_of(spec)->Ok_0, spec.dpi->Finite_0)->Err_0,
{
}

/// A vector export needs no renderer: without one it decides exactly what it
/// decides with one.
pub proof fn lemma_vector_export_needs_no_renderer(
    r: Result<ExportPlan, ViewerError>,
    spec: ExportSpec,
    reread: Result<(), ViewerError>,
    background: Color,
)
    requires
        !holds_pixels(spec.format),
    ensures
        is_export_decision(r, spec, reread, true, background) == is_export_decision(
            r,
            spec,
            reread,
            false,
            background,
        ),
{
}

proof fn lemma_round_div_exact(q: int, d: int)
    requires
        d > 0,
    ensures
        round_div(q * d, d) == q,
{
    let n = if q >= 0 {
        q
    } else {
        -q
    };
    assert((n * d + d / 2) / d == n) by (nonlinear_arith)
        requires
            n >= 0,
            d > 0,
    ;
    assert(q >= 0 ==> q * d >= 0) by (nonlinear_arith)
        requires
            d > 0,
    ;
    assert(q < 0 ==> q * d < 0 && -(q * d) == n * d) by (nonlinear_arith)
        requires
            d > 0,
            n == (if q >= 0 {
                q
            } else {
                -q
            }),
    ;
}

/// An inch, 25.4 millimeters, 72 points and a resolution's worth of pixels
/// are one length: wherever the numbers name the same length exactly, they
/// come to the same points.
pub proof fn lemma_units_agree(inches: Fixed, mm: Fixed, pt: Fixed, px: Fixed, dpi: Fixed)
    requires
        mm.nanos * 10 == inches.nanos * 254,
        pt.nanos == inches.nanos * 72,
        px.nanos * ONE == inches.nanos * dpi.nanos,
        dpi.nanos > 0,
    ensures
        in_points(mm, SizeUnit::Mm, dpi) == in_points(inches, SizeUnit::In, dpi),
        in_points(pt, SizeUnit::Pt, dpi) == in_points(inches, SizeUnit::In, dpi),
        in_points(px, SizeUnit::Px, dpi) == in_points(inches, SizeUnit::In, dpi),
{
    let n = inches.nanos as int;
    let d = dpi.nanos as int;
    lemma_round_div_exact(n * 72, 1);
    assert(mm.nanos * 720 == n * 72 * 254);
    lemma_round_div_exact(n * 72, 254);
    assert(px.nanos * (72 * ONE) == n * 72 * d) by (nonlinear_arith)
        requires
            px.nanos * ONE == n * d,
    ;
    lemma_round_div_exact(n * 72, d);
}

/// A size in pixels is the one in points at the resolution, to the nearest
/// pixel, along each edge by itself; no picture is less than a pixel, and one
/// is refused exactly when an edge is longer than a texture can hold.
pub proof fn lemma_pixels_span_the_points(extent: Extent, dpi: Fixed)
    requires
        extent.width_pt.nanos >= 0,
        extent.height_pt.nanos >= 0,
        dpi.nanos > 0,
    ensures
        ({
            let inch = 72_000_000_000_000_000_000int;
            let across = extent.width_pt.nanos * dpi.nanos;
            let down = extent.height_pt.nanos * dpi.nanos;
            match pixels_of(extent, dpi) {
                Ok((w, h)) => {
                    &&& 1 <= w <= 16384 && 1 <= h <= 16384
                    &&& 2 * across >= inch ==> -inch <= 2 * (w * inch - across) <= inch
                    &&& 2 * across < inch ==> w == 1
                    &&& 2 * down >= inch ==> -inch <= 2 * (h * inch - down) <= inch
                    &&& 2 * down < inch ==> h == 1
                },
                Err(_) => 2 * across >= 32769 * inch || 2 * down >= 32769 * inch,
            }
        }),
{
    let inch = 72_000_000_000_000_000_000int;
    let across = extent.width_pt.nanos * dpi.nanos;
    let down = extent.height_pt.nanos * dpi.nanos;
    crate::fixed::lemma_rounding_is_nearest(across, inch);
    crate::fixed::lemma_rounding_is_nearest(down, inch);
    assert(across >= 0) by (nonlinear_arith)
        requires
            across == extent.width_pt.nanos * dpi.nanos,
            extent.width_pt.nanos >= 0,
            dpi.nanos > 0,
    ;
    assert(down >= 0) by (nonlinear_arith)
        requires
            down == extent.height_pt.nanos * dpi.nanos,
            extent.height_pt.nanos >= 0,
            dpi.nanos > 0,
    ;
}

/// A length in any unit comes to the points it is long, to within a billionth:
/// 72 to the inch, 25.4 millimeters to the inch, and a resolution's worth of
/// pixels to the inch.
pub proof fn lemma_points_are_a_length(value: Fixed, unit: SizeUnit, dpi: Fixed)
    requires
        dpi.nanos > 0,
        -9_000_000_000_000_000 <= value.nanos <= 9_000_000_000_000_000,
        dpi.nanos >= 72_000_000,
    ensures
        ({
            let pt = in_points(value, unit, dpi).nanos;
            match unit {
                SizeUnit::Px => -dpi.nanos <= 2 * (pt * dpi.nanos - value.nanos * 72_000_000_000)
                    <= dpi.nanos,
                SizeUnit::In => pt == value.nanos * 72,
                SizeUnit::Mm => -254 <= 2 * (pt * 254 - value.nanos * 720) <= 254,
                SizeUnit::Pt => pt == value.nanos,
            }
        }),
{
    let d = dpi.nanos as int;
    let v = value.nanos as int;
    let hi = i64::MAX as int;
    let lo = i64::MIN as int;
    crate::fixed::lemma_scaling_is_nearest(value, 72_000_000_000, d);
    crate::fixed::lemma_scaling_is_nearest(value, 72, 1);
    crate::fixed::lemma_scaling_is_nearest(value, 720, 254);
    assert(lo * d <= v * 72_000_000_000 <= hi * d) by (nonlinear_arith)
        requires
            -9_000_000_000_000_000 <= v <= 9_000_000_000_000_000,
            d >= 72_000_000,
            hi == 0x7fff_ffff_ffff_ffff,
            lo == -0x8000_0000_0000_0000,
    ;
}

} // verus!
