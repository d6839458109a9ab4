//! How large a thumbnail is.
//!
//! The layout is solved at the document's natural point size and the result
//! scaled to fit, rather than solved again for the thumbnail's box: a
//! thumbnail is a picture of the plot rather than the plot laid out for a
//! tiny window.

use vstd::prelude::*;

use crate::color::Color;
use crate::fixed::{clamp_to_range, clamped, round_div, round_quotient, Fixed, Reading, ONE};
use crate::text::{decimal_text, push_decimal};

verus! {

/// Largest thumbnail edge this will produce. Anything past it is a caller
/// mistake rather than a request worth honoring.
pub const MAX_EDGE: u32 = 4096;

/// The least point size a hint may name, in billionths of a point.
pub const LEAST_HINT: i64 = 36_000_000_000;

/// The greatest point size a hint may name, in billionths of a point.
pub const GREATEST_HINT: i64 = 4_000_000_000_000;

/// Anything that can go wrong.
#[derive(Debug)]
pub enum ThumbnailError {
    /// The bytes are not a document this build can read, and why.
    Document(String),
    /// No usable GPU adapter, a frame too large, a readback that failed.
    Backend(String),
    /// A size no thumbnail should be.
    Size(u32),
}

/// What an error says to a person.
pub open spec fn thumbnail_error_text(e: ThumbnailError) -> Seq<char> {
    match e {
        ThumbnailError::Document(m) => "not a readable plot document: "@ + m@,
        ThumbnailError::Backend(m) => "rendering failed: "@ + m@,
        ThumbnailError::Size(n) => decimal_text(n as nat)
            + " is not a usable thumbnail size (1..=4096)"@,
    }
}

impl ThumbnailError {
    /// What the error says to a person.
    pub fn message(&self) -> (out: String)
        ensures
            out@ == thumbnail_error_text(*self),
    {
        let mut out = String::new();
        match self {
            ThumbnailError::Document(m) => {
                out.append("not a readable plot document: ");
                out.append(m.as_str());
            },
            ThumbnailError::Backend(m) => {
                out.append("rendering failed: ");
                out.append(m.as_str());
            },
            ThumbnailError::Size(n) => {
                push_decimal(&mut out, *n as u64);
                out.append(" is not a usable thumbnail size (1..=4096)");
            },
        }
        assert(out@ =~= thumbnail_error_text(*self));
        out
    }
}

/// What a document says about how it wants to be shown.
#[derive(Debug, Clone, Copy)]
pub struct DocumentFacts {
    /// The size hint, in points.
    pub size: Option<(Reading, Reading)>,
    /// The background hint.
    pub background: Option<Color>,
    /// The paper color of the document's theme.
    pub paper: Color,
}

/// True when one edge of a size hint is worth obeying.
pub open spec fn edge_usable(r: Reading) -> bool {
    match r {
        Reading::Finite(x) => LEAST_HINT <= x.nanos <= GREATEST_HINT,
        _ => false,
    }
}

/// The point size a document is laid out at: its own hint where that is
/// worth obeying, and 600 by 450 otherwise.
pub open spec fn natural_size_of(size: Option<(Reading, Reading)>) -> (Fixed, Fixed) {
    match size {
        Some((Reading::Finite(w), Reading::Finite(h))) => if edge_usable(Reading::Finite(w))
            && edge_usable(Reading::Finite(h)) {
            (w, h)
        } else {
            (Fixed { nanos: 600_000_000_000 }, Fixed { nanos: 450_000_000_000 })
        },
        _ => (Fixed { nanos: 600_000_000_000 }, Fixed { nanos: 450_000_000_000 }),
    }
}

/// Whether one edge of a size hint is worth obeying.
fn is_edge_usable(r: Reading) -> (b: bool)
    ensures
        b == edge_usable(r),
{
    match r {
        Reading::Finite(x) => LEAST_HINT <= x.nanos && x.nanos <= GREATEST_HINT,
        _ => false,
    }
}

/// Whether a size hint is one worth obeying.
pub fn usable(size: (Reading, Reading)) -> (b: bool)
    ensures
        b == (edge_usable(size.0) && edge_usable(size.1)),
{
    is_edge_usable(size.0) && is_edge_usable(size.1)
}

/// The point size a document is laid out at.
pub fn natural_size(size: Option<(Reading, Reading)>) -> (r: (Fixed, Fixed))
    ensures
        r == natural_size_of(size),
        LEAST_HINT <= r.0.nanos <= GREATEST_HINT,
        LEAST_HINT <= r.1.nanos <= GREATEST_HINT,
{
    if let Some((w, h)) = size {
        if usable((w, h)) {
            if let (Reading::Finite(w), Reading::Finite(h)) = (w, h) {
                return (w, h);
            }
        }
    }
    (Fixed { nanos: 600_000_000_000 }, Fixed { nanos: 450_000_000_000 })
}

/// The background a picture is drawn over: the writer's own, or the theme's
/// paper. Always opaque.
pub open spec fn picture_background(facts: DocumentFacts) -> Color {
    let color = match facts.background {
        Some(c) => c,
        None => facts.paper,
    };
    Color { alpha: Fixed { nanos: ONE }, ..color }
}

/// The background a picture is drawn over.
pub fn background_for(facts: &DocumentFacts) -> (c: Color)
    ensures
        c == picture_background(*facts),
{
    let color = match facts.background {
        Some(c) => c,
        None => facts.paper,
    };
    color.with_alpha(Fixed { nanos: ONE })
}

/// How a thumbnail is drawn.
#[derive(Debug, Clone, Copy, PartialEq, Eq, Structural)]
pub struct ThumbnailPlan {
    /// Width in pixels.
    pub width: u32,
    /// Height in pixels.
    pub height: u32,
    /// Resolution the layout is solved against.
    pub dpi: Fixed,
    /// The color it is cleared to.
    pub background: Color,
}

/// True when the box is tighter across than down for a picture of this
/// aspect.
pub open spec fn tighter_across(w: Fixed, h: Fixed, max_width: u32, max_height: u32) -> bool {
    max_width * h.nanos <= max_height * w.nanos
}

/// An edge in proportion to the one that reaches its limit: `of` for `to`
/// as `limit`, to the nearest pixel, at least one and at most `most`.
pub open spec fn proportional(of: Fixed, to: Fixed, limit: u32, most: u32) -> u32 {
    let v = round_div(of.nanos * limit, to.nanos as int);
    if v < 1 {
        1
    } else if v > most {
        most
    } else {
        v as u32
    }
}

/// 72 points per inch, scaled as `limit` pixels for `to` points.
pub open spec fn density(to: Fixed, limit: u32) -> Fixed {
    Fixed { nanos: clamped(round_div(limit * 72 * (ONE as int * ONE as int), to.nanos as int)) }
}

/// The size and resolution of a picture that fits the box: the edge for
/// which the box is tighter reaches it, and the other follows the aspect.
pub open spec fn fitted(w: Fixed, h: Fixed, max_width: u32, max_height: u32) -> (u32, u32, Fixed) {
    if tighter_across(w, h, max_width, max_height) {
        (max_width, proportional(h, w, max_width, max_height), density(w, max_width))
    } else {
        (proportional(w, h, max_height, max_width), max_height, density(h, max_height))
    }
}

/// True for an edge that no thumbnail should have.
pub open spec fn edge_refused(edge: u32) -> bool {
    edge == 0 || edge > MAX_EDGE
}

/// True when `r` says what becomes of a request: a size no thumbnail should
/// have is refused first, then a document that does not read.
pub open spec fn is_plan_for(
    r: Result<ThumbnailPlan, ThumbnailError>,
    read: Result<DocumentFacts, String>,
    max_width: u32,
    max_height: u32,
) -> bool {
    if edge_refused(max_width) {
        r == Err::<ThumbnailPlan, ThumbnailError>(ThumbnailError::Size(max_width))
    } else if edge_refused(max_height) {
        r == Err::<ThumbnailPlan, ThumbnailError>(ThumbnailError::Size(max_height))
    } else {
        match read {
            Err(why) => r == Err::<ThumbnailPlan, ThumbnailError>(ThumbnailError::Document(why)),
            Ok(facts) => {
                let (w, h) = natural_size_of(facts.size);
                let (width, height, dpi) = fitted(w, h, max_width, max_height);
                r == Ok::<ThumbnailPlan, ThumbnailError>(
                    ThumbnailPlan { width, height, dpi, background: picture_background(facts) },
                )
            },
        }
    }
}

fn scaled_edge(of: Fixed, to: Fixed, limit: u32, most: u32) -> (r: u32)
    requires
        0 < of.nanos,
        0 < to.nanos,
        limit <= MAX_EDGE,
    ensures
        r == proportional(of, to, limit, most),
{
    assert(0 <= of.nanos * limit <= 0x7fff_ffff_ffff_ffff * 4096) by (nonlinear_arith)
        requires
            0 < of.nanos <= 0x7fff_ffff_ffff_ffff,
            0 <= limit <= 4096,
    ;
    let v: i128 = round_quotient(of.nanos as i128 * limit as i128, to.nanos as i128);
    if v < 1 {
        1
    } else if v > most as i128 {
        most
    } else {
        v as u32
    }
}

fn pixel_density(to: Fixed, limit: u32) -> (r: Fixed)
    requires
        0 < to.nanos,
        limit <= MAX_EDGE,
    ensures
        r == density(to, limit),
{
    let n: i128 = limit as i128 * 72_000_000_000_000_000_000;
    assert(n == limit * 72 * (ONE as int * ONE as int));
    Fixed { nanos: clamp_to_range(round_quotient(n, to.nanos as i128)) }
}

/// Plan a picture of a document that fits inside `max_width` by
/// `max_height`.
///
/// What a preview pane wants: the box is the pane, which is rarely square,
/// and the plot should fill as much of it as its own aspect allows. One scale
/// serves both axes, chosen so the plot fits in whichever direction is
/// tighter.
pub fn render_boxed(
    read: Result<DocumentFacts, String>,
    max_width: u32,
    max_height: u32,
) -> (r: Result<ThumbnailPlan, ThumbnailError>)
    ensures
        is_plan_for(r, read, max_width, max_height),
{
    if max_width == 0 || max_width > MAX_EDGE {
        return Err(ThumbnailError::Size(max_width));
    }
    if max_height == 0 || max_height > MAX_EDGE {
        return Err(ThumbnailError::Size(max_height));
    }
    let facts = match read {
        Ok(facts) => facts,
        Err(why) => return Err(ThumbnailError::Document(why)),
    };
    let (w, h) = natural_size(facts.size);
    let background = background_for(&facts);
    assert(0 <= max_width * h.nanos <= 4096 * 4_000_000_000_000) by (nonlinear_arith)
        requires
            0 <= max_width <= 4096,
            0 <= h.nanos <= 4_000_000_000_000,
    ;
    assert(0 <= max_height * w.nanos <= 4096 * 4_000_000_000_000) by (nonlinear_arith)
        requires
            0 <= max_height <= 4096,
            0 <= w.nanos <= 4_000_000_000_000,
    ;
    if max_width as i64 * h.nanos <= max_height as i64 * w.nanos {
        Ok(
            ThumbnailPlan {
                width: max_width,
                height: scaled_edge(h, w, max_width, max_height),
                dpi: pixel_density(w, max_width),
                background,
            },
        )
    } else {
        Ok(
            ThumbnailPlan {
                width: scaled_edge(w, h, max_height, max_width),
                height: max_height,
                dpi: pixel_density(h, max_height),
                background,
            },
        )
    }
}

/// Plan a thumbnail of a document neither edge of which exceeds `max_edge`.
///
/// The aspect is the document's own, so the result is usually smaller than
/// `max_edge` in one dimension, which is what every thumbnail consumer
/// expects.
pub fn render(
    read: Result<DocumentFacts, String>,
    max_edge: u32,
) -> (r: Result<ThumbnailPlan, ThumbnailError>)
    ensures
        is_plan_for(r, read, max_edge, max_edge),
{
    render_boxed(read, max_edge, max_edge)
}

/// Neither edge of a picture exceeds its box, neither is empty, and one of
/// them reaches it.
pub proof fn lemma_picture_fits_its_box(w: Fixed, h: Fixed, max_width: u32, max_height: u32)
    requires
        max_width > 0,
        max_height > 0,
    ensures
        ({
            let (width, height, _) = fitted(w, h, max_width, max_height);
            &&& 1 <= width <= max_width
            &&& 1 <= height <= max_height
            &&& width == max_width || height == max_height
        }),
{
}

proof fn lemma_nearest(n: int, d: int)
    requires
        n >= 0,
        d > 0,
    ensures
        -d <= 2 * (round_div(n, d) * d - n) <= d,
{
    let q = (n + d / 2) / d;
    vstd::arithmetic::div_mod::lemma_fundamental_div_mod(n + d / 2, d);
    vstd::arithmetic::div_mod::lemma_mod_bound(n + d / 2, d);
    let r = (n + d / 2) % d;
    assert(q * d == d * q) by (nonlinear_arith);
    assert(q * d == n + d / 2 - r);
}

proof fn lemma_edge_follows(of: Fixed, to: Fixed, limit: u32, most: u32)
    requires
        0 < of.nanos,
        0 < to.nanos,
        limit > 0,
        most > 0,
        limit * of.nanos <= most * to.nanos,
        of.nanos * limit >= to.nanos,
    ensures
        -to.nanos <= proportional(of, to, limit, most) * to.nanos - of.nanos * limit <= to.nanos,
{
    let n = of.nanos * limit;
    let d = to.nanos as int;
    assert(n >= 0) by (nonlinear_arith)
        requires
            n == of.nanos * limit,
            of.nanos > 0,
            limit > 0,
    ;
    let v = round_div(n, d);
    lemma_nearest(n, d);
    assert(n == limit * of.nanos) by (nonlinear_arith)
        requires
            n == of.nanos * limit,
    ;
    assert(n <= most * d);
    let edge = proportional(of, to, limit, most);
    if v > most {
        assert((v - most) * d >= d) by (nonlinear_arith)
            requires
                v - most >= 1,
                d > 0,
        ;
        assert(v * d - most * d >= d) by (nonlinear_arith)
            requires
                (v - most) * d >= d,
        ;
        assert(edge == most);
        assert(edge * d - n <= d);
        assert(edge * d - n >= 0);
    } else if v < 1 {
        assert(v * d <= 0) by (nonlinear_arith)
            requires
                v <= 0,
                d > 0,
        ;
    } else {
        assert(edge == v);
    }
}

/// The aspect of a picture is the document's own, whichever edge the box is
/// tighter for: the other edge is less than a pixel from where the exact
/// proportion would put it, unless it would be shorter than one pixel.
pub proof fn lemma_aspect_is_kept(w: Fixed, h: Fixed, max_width: u32, max_height: u32)
    requires
        0 < w.nanos,
        0 < h.nanos,
        max_width > 0,
        max_height > 0,
    ensures
        ({
            let (width, height, _) = fitted(w, h, max_width, max_height);
            &&& tighter_across(w, h, max_width, max_height) && h.nanos * width >= w.nanos
                ==> -w.nanos <= height * w.nanos - h.nanos * width <= w.nanos
            &&& !tighter_across(w, h, max_width, max_height) && w.nanos * height >= h.nanos
                ==> -h.nanos <= width * h.nanos - w.nanos * height <= h.nanos
        }),
{
    if tighter_across(w, h, max_width, max_height) {
        if h.nanos * max_width >= w.nanos {
            lemma_edge_follows(h, w, max_width, max_height);
        }
    } else if w.nanos * max_height >= h.nanos {
        lemma_edge_follows(w, h, max_height, max_width);
    }
}

/// True when `pixels` at `dpi` pixels to the inch are `points` of 1/72 inch,
/// to a pixel: `pixels * 72 / dpi` lies within `72 / dpi` of them.
pub open spec fn spans(pixels: u32, dpi: Fixed, points: int) -> bool {
    let inch = 72_000_000_000_000_000_000int;
    -inch <= pixels * inch - points * dpi.nanos <= inch
}

/// True when `pixels` at `dpi` pixels to the inch are `points` of 1/72 inch, to
/// a billionth of a pixel to the inch.
pub open spec fn spans_closely(pixels: u32, dpi: Fixed, points: int) -> bool {
    let inch = 72_000_000_000_000_000_000int;
    -points <= pixels * inch - points * dpi.nanos <= points
}

/// True when a picture shows a layout of `w` by `h` billionths of a point, and
/// reaches a box it fits in: at its resolution both its edges are the layout's
/// own, and the one that reaches the box closely so.
pub open spec fn shows_layout(
    plan: ThumbnailPlan,
    w: int,
    h: int,
    max_width: u32,
    max_height: u32,
) -> bool {
    &&& plan.dpi.nanos > 0
    &&& spans(plan.width, plan.dpi, w)
    &&& spans(plan.height, plan.dpi, h)
    &&& 1 <= plan.width <= max_width
    &&& 1 <= plan.height <= max_height
    &&& plan.width == max_width && spans_closely(plan.width, plan.dpi, w) || plan.height
        == max_height && spans_closely(plan.height, plan.dpi, h)
}

proof fn lemma_reaching_edge(to: Fixed, limit: u32)
    requires
        36_000_000_000 <= to.nanos <= 4_000_000_000_000,
        1 <= limit <= 4096,
    ensures
        spans_closely(limit, density(to, limit), to.nanos as int),
        spans(limit, density(to, limit), to.nanos as int),
        density(to, limit).nanos > 0,
{
    let inch = 72_000_000_000_000_000_000int;
    let n = limit * inch;
    let d = to.nanos as int;
    assert(n == limit * 72 * (ONE as int * ONE as int)) by (nonlinear_arith)
        requires
            n == limit * inch,
            inch == 72_000_000_000_000_000_000,
            ONE == 1_000_000_000,
    ;
    lemma_nearest(n, d);
    let v = round_div(n, d);
    assert(inch <= n <= 4096 * inch) by (nonlinear_arith)
        requires
            n == limit * inch,
            1 <= limit <= 4096,
            inch == 72_000_000_000_000_000_000,
    ;
    assert(0 < v <= 0x7fff_ffff_ffff_ffff) by (nonlinear_arith)
        requires
            2 * (v * d - n) <= d,
            -d <= 2 * (v * d - n),
            36_000_000_000 <= d <= 4_000_000_000_000,
            72_000_000_000_000_000_000 <= n <= 4096 * 72_000_000_000_000_000_000,
    ;
    assert(v * d == d * v) by (nonlinear_arith);
}

proof fn lemma_following_edge(of: Fixed, to: Fixed, limit: u32, most: u32)
    requires
        36_000_000_000 <= of.nanos <= 4_000_000_000_000,
        36_000_000_000 <= to.nanos <= 4_000_000_000_000,
        1 <= limit <= 4096,
        1 <= most <= 4096,
        limit * of.nanos <= most * to.nanos,
    ensures
        spans(proportional(of, to, limit, most), density(to, limit), of.nanos as int),
{
    let inch = 72_000_000_000_000_000_000int;
    let a = of.nanos as int;
    let d = to.nanos as int;
    let dpi = density(to, limit).nanos as int;
    let n = a * limit;
    lemma_reaching_edge(to, limit);
    // One unit of the resolution is nothing next to a pixel.
    let e = limit * inch - d * dpi;
    let edge = proportional(of, to, limit, most) as int;
    let v = round_div(n, d);
    assert(n >= 36_000_000_000) by (nonlinear_arith)
        requires
            n == a * limit,
            a >= 36_000_000_000,
            limit >= 1,
    ;
    lemma_nearest(n, d);
    assert(n == limit * a) by (nonlinear_arith)
        requires
            n == a * limit,
    ;
    // How far the edge lies from its exact place, in parts of `d`.
    let off = edge * d - n;
    assert(-d <= 2 * off && off <= d - 18_000_000_000) by {
        if v > most {
            assert(v * d >= most * d + d) by (nonlinear_arith)
                requires
                    v >= most + 1,
                    d > 0,
            ;
        } else if v < 1 {
            assert(edge == 1);
            assert(v * d <= 0) by (nonlinear_arith)
                requires
                    v <= 0,
                    d > 0,
            ;
        } else {
            assert(edge == v);
        }
    }
    // `edge * inch - a * dpi`, taken `d` times.
    let gap = edge * inch - a * dpi;
    assert(gap * d == off * inch + a * e) by (nonlinear_arith)
        requires
            gap == edge * inch - a * dpi,
            off == edge * d - n,
            n == a * limit,
            e == limit * inch - d * dpi,
    ;
    assert(-(a * d) <= a * e <= a * d) by (nonlinear_arith)
        requires
            -d <= e <= d,
            a > 0,
    ;
    assert(a * d <= 4_000_000_000_000 * d) by (nonlinear_arith)
        requires
            a <= 4_000_000_000_000,
            d > 0,
    ;
    assert(a * d <= 16_000_000_000_000_000_000_000_000) by (nonlinear_arith)
        requires
            0 < a <= 4_000_000_000_000,
            0 < d <= 4_000_000_000_000,
    ;
    assert(off * inch <= d * inch - 18_000_000_000 * inch) by (nonlinear_arith)
        requires
            off <= d - 18_000_000_000,
            inch > 0,
    ;
    assert(-(d * inch) <= 2 * (off * inch)) by (nonlinear_arith)
        requires
            -d <= 2 * off,
            inch > 0,
    ;
    assert(d * inch >= 36_000_000_000 * inch) by (nonlinear_arith)
        requires
            d >= 36_000_000_000,
            inch > 0,
    ;
    assert(-(d * inch) <= gap * d <= d * inch);
    assert(-inch <= gap <= inch) by (nonlinear_arith)
        requires
            -(d * inch) <= gap * d <= d * inch,
            d > 0,
    ;
}

/// A picture is one of the plot as the document lays it out, not of the plot
/// laid out for the picture: whichever edge of the box is the tighter one, the
/// pixels at the planned resolution are the point size that the document asks
/// for, or 600 by 450 where it asks for none worth obeying. It is drawn over an
/// opaque background.
pub proof fn lemma_picture_shows_the_natural_layout(
    facts: DocumentFacts,
    max_width: u32,
    max_height: u32,
    plan: ThumbnailPlan,
)
    requires
        1 <= max_width <= 4096,
        1 <= max_height <= 4096,
        is_plan_for(Ok(plan), Ok(facts), max_width, max_height),
    ensures
        match facts.size {
            Some((Reading::Finite(w), Reading::Finite(h))) if 36_000_000_000 <= w.nanos
                <= 4_000_000_000_000 && 36_000_000_000 <= h.nanos <= 4_000_000_000_000 =>
                shows_layout(plan, w.nanos as int, h.nanos as int, max_width, max_height),
            _ => shows_layout(plan, 600_000_000_000, 450_000_000_000, max_width, max_height),
        },
        plan.background.alpha.nanos == 1_000_000_000,
        facts.background is Some ==> plan.background == (Color {
            alpha: plan.background.alpha,
            ..facts.background->0
        }),
        facts.background is None ==> plan.background == (Color {
            alpha: plan.background.alpha,
            ..facts.paper
        }),
{
    let (w, h) = natural_size_of(facts.size);
    lemma_picture_fits_its_box(w, h, max_width, max_height);
    if tighter_across(w, h, max_width, max_height) {
        lemma_reaching_edge(w, max_width);
        lemma_following_edge(h, w, max_width, max_height);
    } else {
        lemma_reaching_edge(h, max_height);
        lemma_following_edge(w, h, max_height, max_width);
    }
}

/// A picture is planned exactly when both edges of its box can be had, from
/// one pixel to 4096, and the document reads; otherwise the first of these
/// that fails is what is reported.
pub proof fn lemma_what_is_refused(
    r: Result<ThumbnailPlan, ThumbnailError>,
    read: Result<DocumentFacts, String>,
    max_width: u32,
    max_height: u32,
)
    requires
        is_plan_for(r, read, max_width, max_height),
    ensures
        r is Ok == (1 <= max_width <= 4096 && 1 <= max_height <= 4096 && read is Ok),
        !(1 <= max_width <= 4096) ==> r->Err_0 == ThumbnailError::Size(max_width),
        1 <= max_width <= 4096 && !(1 <= max_height <= 4096) ==> r->Err_0 == ThumbnailError::Size(
            max_height,
        ),
        1 <= max_width <= 4096 && 1 <= max_height <= 4096 && read is Err ==> r->Err_0
            == ThumbnailError::Document(read->Err_0),
{
}

} // verus!
