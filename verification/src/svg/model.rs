//! What a scene is and what each draw call makes of it, as plain values.

use vstd::prelude::*;

use super::attrs::{
    fill_text, opacity_text, pick_text, stroke_text, stroke_warnings, PickId, PickScope, ScopeMode,
    Stroke,
};
use super::config::{noted, ConfigView, SvgUnits, SvgWarning, TextMode};
use super::font::{FamilyView, FontView, RootView};
use super::fragment::{DefBody, FaceRule};
use super::paint::{
    brush_defs, brush_paint, brush_warnings, defs_text, faces_noted, id_places, ids_of, interned,
    interned_id, named_of, scaled_paint, style_text, stylesheet_text, Brush, DefKind, DefView,
    PaintView,
};
use super::refs::shifted;
use super::text::{
    accepts_run, block_root, block_text, block_with, claims, empty_block, link_view, predicted,
    BlockView, GlyphRun, RunView, TextSource,
};
use super::writer::{attr_text, path_text, transform_text};
use crate::color::{solid_paint, Color};
use crate::fixed::{num_text, Fixed, ONE};
use crate::geometry::{identity, map_path, rect_of, Affine, FillRule, Path, PathEl, Size};
use crate::text::decimal_text;

verus! {

/// A mix function.
#[derive(Debug, Clone, Copy, PartialEq, Eq, Structural)]
pub enum Mix {
    Normal,
    Multiply,
    Screen,
    Overlay,
    Darken,
    Lighten,
    ColorDodge,
    ColorBurn,
    HardLight,
    SoftLight,
    Difference,
    Exclusion,
    Hue,
    Saturation,
    Color,
    Luminosity,
}

/// A Porter-Duff operator.
#[derive(Debug, Clone, Copy, PartialEq, Eq, Structural)]
pub enum Compose {
    Clear,
    Copy,
    Dest,
    SrcOver,
    DestOver,
    SrcIn,
    DestIn,
    SrcOut,
    DestOut,
    SrcAtop,
    DestAtop,
    Xor,
    Plus,
    PlusLighter,
}

/// How a layer joins what lies beneath it.
#[derive(Debug, Clone, Copy, PartialEq, Eq, Structural)]
pub struct BlendMode {
    pub mix: Mix,
    pub compose: Compose,
}

impl Default for BlendMode {
    fn default() -> (r: BlendMode)
        ensures
            r == (BlendMode { mix: Mix::Normal, compose: Compose::SrcOver }),
    {
        BlendMode { mix: Mix::Normal, compose: Compose::SrcOver }
    }
}

/// The CSS `mix-blend-mode` keyword for a mix function.
pub open spec fn mix_text(mix: Mix) -> Seq<char> {
    match mix {
        Mix::Normal => "normal"@,
        Mix::Multiply => "multiply"@,
        Mix::Screen => "screen"@,
        Mix::Overlay => "overlay"@,
        Mix::Darken => "darken"@,
        Mix::Lighten => "lighten"@,
        Mix::ColorDodge => "color-dodge"@,
        Mix::ColorBurn => "color-burn"@,
        Mix::HardLight => "hard-light"@,
        Mix::SoftLight => "soft-light"@,
        Mix::Difference => "difference"@,
        Mix::Exclusion => "exclusion"@,
        Mix::Hue => "hue"@,
        Mix::Saturation => "saturation"@,
        Mix::Color => "color"@,
        Mix::Luminosity => "luminosity"@,
    }
}

/// CSS `mix-blend-mode` keyword for a mix function.
///
/// The enum is exactly the CSS keyword set, so this is a spelling change and
/// nothing more.
pub fn mix_keyword(mix: Mix) -> (r: &'static str)
    ensures
        r@ == mix_text(mix),
{
    match mix {
        Mix::Normal => "normal",
        Mix::Multiply => "multiply",
        Mix::Screen => "screen",
        Mix::Overlay => "overlay",
        Mix::Darken => "darken",
        Mix::Lighten => "lighten",
        Mix::ColorDodge => "color-dodge",
        Mix::ColorBurn => "color-burn",
        Mix::HardLight => "hard-light",
        Mix::SoftLight => "soft-light",
        Mix::Difference => "difference",
        Mix::Exclusion => "exclusion",
        Mix::Hue => "hue",
        Mix::Saturation => "saturation",
        Mix::Color => "color",
        Mix::Luminosity => "luminosity",
    }
}

/// An image as a document can carry it.
#[derive(Debug)]
pub enum ImageSource {
    /// Inlined, defined once and referred to.
    Embedded(DefBody),
    /// Not drawable here, and why.
    Refused(SvgWarning),
}

/// One of the fills a mesh decomposes into.
#[derive(Debug)]
pub struct MeshFill {
    pub path: Path,
    pub brush: Brush,
}

/// What an open `<g>` was opened for.
#[derive(Debug, Clone, Copy, PartialEq, Eq, Structural)]
pub enum GroupKind {
    Layer,
    Scope,
}

/// A pending fill as plain values.
#[verifier::ext_equal]
pub struct PendingView {
    pub path: Seq<PathEl>,
    pub transform: Affine,
    pub rule: FillRule,
    pub paint: PaintView,
    pub pick: PickId,
}

/// A scene as plain values.
#[verifier::ext_equal]
pub struct SceneView {
    pub size: Size,
    pub dpi: Fixed,
    pub config: ConfigView,
    pub body: Seq<char>,
    pub defs: Seq<DefView>,
    pub warnings: Seq<SvgWarning>,
    pub groups: Seq<GroupKind>,
    pub pending: Option<PendingView>,
    pub block: BlockView,
    pub scope_modes: Seq<ScopeMode>,
    pub fonts: Seq<Seq<char>>,
    pub prelude: Seq<char>,
    pub root: RootView,
}

/// A scene nothing has been drawn into.
pub open spec fn fresh_scene(size: Size, dpi: Fixed, config: ConfigView) -> SceneView {
    SceneView {
        size,
        dpi,
        config,
        body: seq![],
        defs: seq![],
        warnings: seq![],
        groups: seq![],
        pending: None,
        block: empty_block(),
        scope_modes: seq![],
        fonts: seq![],
        prelude: seq![],
        root: RootView { family: None, size: None },
    }
}

/// A fill that no stroke joined, as markup; nothing for a path without data.
pub open spec fn pending_text(p: PendingView, dec: nat, on: bool, targeted: bool) -> Seq<char> {
    let d = path_text(p.path, dec);
    if d.len() == 0 {
        seq![]
    } else {
        "<path d=\""@ + d + seq!['"'] + fill_text(p.paint, p.rule, dec) + transform_text(
            p.transform,
            dec,
        ) + pick_text(p.pick, on, targeted) + "/>"@
    }
}

/// A stroked path as markup. With a fill it carries both paints; without
/// one it says that it is not filled.
pub open spec fn stroked_text(
    path: Seq<PathEl>,
    fill: Option<(PaintView, FillRule)>,
    stroke: Stroke,
    paint: PaintView,
    transform: Affine,
    dec: nat,
    pick: Seq<char>,
) -> Seq<char> {
    "<path d=\""@ + path_text(path, dec) + seq!['"'] + (match fill {
        Some((p, rule)) => fill_text(p, rule, dec),
        None => " fill=\"none\""@,
    }) + stroke_text(stroke, paint, dec) + transform_text(transform, dec) + pick + "/>"@
}

impl SceneView {
    /// The ids of the definitions.
    pub open spec fn ids(self) -> Seq<Seq<char>> {
        ids_of(self.defs)
    }

    /// The ids of the definitions, and what references to them are read as.
    pub open spec fn named(self) -> Seq<Seq<char>> {
        named_of(self.defs)
    }

    /// Whether a primitive drawn here belongs to the scope around it.
    pub open spec fn targets(self) -> bool {
        self.scope_modes.len() > 0 && self.scope_modes.last() == ScopeMode::Target
    }

    /// True when a text block is open.
    pub open spec fn block_open(self) -> bool {
        self.block.runs.len() > 0
    }

    /// The scene with its text block written, its own chrome first.
    pub open spec fn flushed_block(self) -> SceneView {
        SceneView {
            body: self.body + self.prelude + block_text(
                self.block.runs,
                self.config.decimals,
                self.config.pick_ids,
                self.targets(),
                self.root,
            ),
            prelude: seq![],
            block: if self.block_open() {
                empty_block()
            } else {
                self.block
            },
            root: block_root(self.block.runs, self.root),
            ..self
        }
    }

    /// The scene with `el` drawn: among the chrome of the open text block,
    /// or in the body.
    pub open spec fn with_element(self, el: Seq<char>) -> SceneView {
        if self.block_open() {
            SceneView { prelude: self.prelude + el, ..self }
        } else {
            SceneView { body: self.body + el, ..self }
        }
    }

    /// The scene with the fill that waited for a stroke written.
    pub open spec fn flushed_pending(self) -> SceneView {
        match self.pending {
            None => self,
            Some(p) => SceneView { pending: None, ..self }.with_element(
                pending_text(p, self.config.decimals, self.config.pick_ids, self.targets()),
            ),
        }
    }

    /// The scene with everything that waited written.
    pub open spec fn settled(self) -> SceneView {
        self.flushed_block().flushed_pending()
    }

    /// The scene once `brush` has been expressed.
    pub open spec fn with_brush(self, brush: Brush) -> SceneView {
        SceneView {
            defs: brush_defs(self.defs, brush, self.config.prefix),
            warnings: brush_warnings(self.warnings, brush),
            ..self
        }
    }

    /// The paint `brush` comes to here.
    pub open spec fn paint_of(self, brush: Brush) -> PaintView {
        brush_paint(self.defs, brush, self.config.prefix)
    }

    /// The scene once a path has been filled.
    ///
    /// A rule that the open text block declared as a decoration is dropped.
    /// Anything else waits for a stroke of the same path.
    #[verifier::opaque]
    pub open spec fn filled(
        self,
        rule: FillRule,
        transform: Affine,
        brush: Brush,
        path: Seq<PathEl>,
        pick: PickId,
    ) -> SceneView {
        let declared = match rect_of(path, transform) {
            Some(r) => claims(self.block.runs, r),
            None => false,
        };
        if self.block_open() && declared {
            self
        } else {
            let ready = (if self.block_open() {
                self
            } else {
                self.flushed_block()
            }).flushed_pending();
            if path.len() == 0 {
                ready
            } else {
                SceneView {
                    pending: Some(
                        PendingView { path, transform, rule, paint: ready.paint_of(brush), pick },
                    ),
                    ..ready.with_brush(brush)
                }
            }
        }
    }

    /// The scene once a path has been stroked.
    ///
    /// A fill of the same path under the same transform that is waiting
    /// becomes one element with the stroke; any other is written first.
    pub open spec fn stroked(
        self,
        stroke: Stroke,
        transform: Affine,
        brush: Brush,
        path: Seq<PathEl>,
        pick: PickId,
    ) -> SceneView {
        let open = if self.block_open() {
            self
        } else {
            self.flushed_block()
        };
        let dec = self.config.decimals;
        let on = self.config.pick_ids;
        match open.pending {
            Some(p) if p.transform == transform && p.path == path => {
                let painted = open.with_brush(brush);
                SceneView {
                    pending: None,
                    warnings: stroke_warnings(painted.warnings, stroke),
                    ..painted
                }.with_element(
                    stroked_text(
                        p.path,
                        Some((p.paint, p.rule)),
                        stroke,
                        open.paint_of(brush),
                        transform,
                        dec,
                        pick_text(p.pick, on, open.targets()),
                    ),
                )
            },
            _ => {
                let ready = open.flushed_pending();
                if path.len() == 0 {
                    ready
                } else {
                    let painted = ready.with_brush(brush);
                    SceneView {
                        warnings: stroke_warnings(painted.warnings, stroke),
                        ..painted
                    }.with_element(
                        stroked_text(
                            path,
                            None,
                            stroke,
                            ready.paint_of(brush),
                            transform,
                            dec,
                            pick_text(pick, on, ready.targets()),
                        ),
                    )
                }
            },
        }
    }

    /// The scene once an image has been drawn: a reference to its one
    /// definition, or a warning.
    pub open spec fn imaged(
        self,
        image: ImageSource,
        transform: Affine,
        alpha: Fixed,
    ) -> SceneView {
        let ready = self.settled();
        match image {
            ImageSource::Embedded(image) => SceneView {
                defs: interned(ready.defs, image@.kind, image@.rest, ready.config.prefix),
                body: ready.body + use_text(
                    interned_id(ready.defs, image@.kind, image@.rest, ready.config.prefix),
                    transform,
                    alpha,
                    ready.config.decimals,
                ),
                ..ready
            },
            ImageSource::Refused(w) => SceneView { warnings: noted(ready.warnings, w), ..ready },
        }
    }

    /// The scene once the first `n` fills of a mesh have been drawn.
    pub open spec fn meshed(
        self,
        fills: Seq<MeshFill>,
        n: nat,
        transform: Affine,
        pick: PickId,
    ) -> SceneView
        decreases n,
    {
        if n == 0 {
            self.settled()
        } else {
            let f = fills[n - 1];
            self.meshed(fills, (n - 1) as nat, transform, pick).filled(
                FillRule::NonZero,
                transform,
                f.brush,
                f.path@,
                pick,
            )
        }
    }

    /// The scene once a run's contours have been drawn. A run without any is
    /// reported, never dropped in silence.
    pub open spec fn outlined(self, run: GlyphRun, pick: PickId) -> SceneView {
        match run.outline {
            None => SceneView {
                warnings: noted(self.warnings, SvgWarning::TextWithoutSource),
                ..self
            },
            Some(path) => {
                let painted = self.with_brush(run.brush);
                SceneView {
                    body: self.body + outline_text(
                        path_text(path@, self.config.decimals),
                        run.style,
                        self.paint_of(run.brush),
                        run.transform,
                        self.config.decimals,
                        pick_text(pick, self.config.pick_ids, self.targets()),
                    ),
                    warnings: match run.style {
                        Some(stroke) => stroke_warnings(painted.warnings, stroke),
                        None => painted.warnings,
                    },
                    ..painted
                }
            },
        }
    }

    /// The scene once a run has been accepted into a text block: the open
    /// one, or a new one when the run belongs elsewhere.
    pub open spec fn with_run(self, run: RunView) -> SceneView {
        let open = if accepts_run(self.block, run.group, run.transform) {
            self
        } else {
            self.flushed_block()
        };
        SceneView { block: block_with(open.block, run), ..open }
    }

    /// The scene once glyphs have been drawn.
    pub open spec fn glyphs_drawn(self, run: GlyphRun, pick: PickId) -> SceneView {
        let ready = self.flushed_pending();
        match run.source {
            Some(src) if ready.config.text == TextMode::Text => {
                if run.glyphs@.len() == 0 {
                    ready
                } else {
                    let painted = ready.with_brush(run.brush);
                    let embed = ready.config.embed_fonts;
                    SceneView {
                        fonts: faces_noted(painted.fonts, rule_text(run.face.rule)),
                        warnings: if embed && run.face.rule is None {
                            noted(painted.warnings, SvgWarning::FontNotEmbeddable)
                        } else {
                            painted.warnings
                        },
                        ..painted
                    }.with_run(run_view(run, src, pick, ready.paint_of(run.brush), embed))
                }
            },
            _ => ready.flushed_block().outlined(run, pick),
        }
    }

    /// The scene once a layer has been opened.
    pub open spec fn layer_pushed(
        self,
        blend: BlendMode,
        alpha: Fixed,
        transform: Affine,
        clip: Seq<PathEl>,
    ) -> SceneView {
        let ready = self.settled();
        let rest = clip_rest(baked(transform, clip), ready.config.decimals);
        let prefix = ready.config.prefix;
        SceneView {
            body: ready.body + layer_text(
                if clip.len() == 0 {
                    None
                } else {
                    Some(interned_id(ready.defs, DefKind::Clip, rest, prefix))
                },
                alpha,
                blend.mix,
                ready.config.decimals,
            ),
            defs: if clip.len() == 0 {
                ready.defs
            } else {
                interned(ready.defs, DefKind::Clip, rest, prefix)
            },
            warnings: if blend.compose != Compose::SrcOver {
                noted(ready.warnings, SvgWarning::UnsupportedCompose)
            } else {
                ready.warnings
            },
            groups: ready.groups.push(GroupKind::Layer),
            ..ready
        }
    }

    /// The scene once the innermost group has been closed, provided it is of
    /// the kind being closed; a warning otherwise.
    pub open spec fn group_closed(self, kind: GroupKind, warning: SvgWarning) -> SceneView {
        if self.groups.len() > 0 && self.groups.last() == kind {
            SceneView { groups: self.groups.drop_last(), body: self.body + "</g>"@, ..self }
        } else {
            SceneView { warnings: noted(self.warnings, warning), ..self }
        }
    }

    /// The scene once a layer has been closed.
    pub open spec fn layer_popped(self) -> SceneView {
        self.settled().group_closed(GroupKind::Layer, SvgWarning::UnbalancedLayers)
    }

    /// The scene once a pick scope has been opened; nothing happens while
    /// picking is off.
    pub open spec fn scope_pushed(self, scope: PickScope) -> SceneView {
        if !self.config.pick_ids {
            self
        } else {
            let ready = self.settled();
            SceneView {
                body: ready.body + scope_text(scope),
                groups: ready.groups.push(GroupKind::Scope),
                scope_modes: ready.scope_modes.push(scope.mode),
                ..ready
            }
        }
    }

    /// The scene once a pick scope has been closed; nothing happens while
    /// picking is off.
    pub open spec fn scope_popped(self) -> SceneView {
        if !self.config.pick_ids {
            self
        } else {
            let ready = self.settled();
            let closed = ready.group_closed(GroupKind::Scope, SvgWarning::UnbalancedScopes);
            if ready.groups.len() > 0 && ready.groups.last() == GroupKind::Scope {
                SceneView {
                    scope_modes: if ready.scope_modes.len() > 0 {
                        ready.scope_modes.drop_last()
                    } else {
                        ready.scope_modes
                    },
                    ..closed
                }
            } else {
                closed
            }
        }
    }
}

/// An optional string as plain values.
pub open spec fn text_option(s: Option<String>) -> Option<Seq<char>> {
    match s {
        Some(s) => Some(s@),
        None => None,
    }
}

/// The text of a face's rule, when it has one.
pub open spec fn rule_text(rule: Option<FaceRule>) -> Option<Seq<char>> {
    match rule {
        Some(rule) => Some(rule@),
        None => None,
    }
}

/// A reference to an image's definition.
pub open spec fn use_text(id: Seq<char>, transform: Affine, alpha: Fixed, dec: nat) -> Seq<char> {
    "<use href=\"#"@ + id + seq!['"'] + layer_opacity_text(alpha, dec) + transform_text(
        transform,
        dec,
    ) + "/>"@
}

/// The opacity of a whole element; one is the default.
pub open spec fn layer_opacity_text(alpha: Fixed, dec: nat) -> Seq<char> {
    if alpha.nanos != ONE {
        opacity_text(" opacity=\""@, Some(alpha), dec)
    } else {
        seq![]
    }
}

/// How contours are painted: stroked when there is a style, filled
/// otherwise.
pub open spec fn contour_text(style: Option<Stroke>, paint: PaintView, dec: nat) -> Seq<char> {
    match style {
        Some(stroke) => " fill=\"none\""@ + stroke_text(stroke, paint, dec),
        None => fill_text(paint, FillRule::NonZero, dec),
    }
}

/// A run's contours as markup.
pub open spec fn outline_text(
    d: Seq<char>,
    style: Option<Stroke>,
    paint: PaintView,
    transform: Affine,
    dec: nat,
    pick: Seq<char>,
) -> Seq<char> {
    "<path d=\""@ + d + seq!['"'] + contour_text(style, paint, dec) + transform_text(
        transform,
        dec,
    ) + pick + "/>"@
}

/// The chain a run names: with inlined faces the resolved one comes first,
/// since an `@font-face` only takes effect if the element references it.
pub open spec fn named_chain(font: FontView, face: Option<Seq<char>>, embed: bool) -> FontView {
    match face {
        Some(name) if embed => FontView {
            families: seq![FamilyView::Named(name)] + font.families,
            ..font
        },
        _ => font,
    }
}

/// What a drawn run contributes to its text block.
pub open spec fn run_view(
    run: GlyphRun,
    src: TextSource,
    pick: PickId,
    paint: PaintView,
    embed: bool,
) -> RunView {
    let first = run.glyphs@[0];
    let scaled = scaled_paint(paint, run.brush_alpha);
    RunView {
        group: src.group,
        text: src.text@,
        x: first.x,
        y: first.y,
        advance: src.advance,
        font_size: run.font_size,
        spec: named_chain(src.font@, text_option(run.face.family), embed),
        rtl: src.rtl,
        link: link_view(src.link),
        underline: src.underline is Some,
        strikethrough: src.strikethrough is Some,
        rules: predicted(src, first.x, first.y),
        fill: if run.style is None {
            Some(scaled)
        } else {
            None
        },
        stroke: match run.style {
            Some(s) => Some((scaled, s.width)),
            None => None,
        },
        transform: run.transform,
        pick,
    }
}

/// A clip with its transform folded in: the transform applies to the clip,
/// not to the layer's contents.
pub open spec fn baked(transform: Affine, clip: Seq<PathEl>) -> Seq<PathEl> {
    if transform == identity() {
        clip
    } else {
        map_path(transform, clip)
    }
}

/// A clip's definition after its name and id.
pub open spec fn clip_rest(clip: Seq<PathEl>, dec: nat) -> Seq<char> {
    " clipPathUnits=\"userSpaceOnUse\"><path d=\""@ + path_text(clip, dec) + "\"/></clipPath>"@
}

/// The clip attribute of a layer.
pub open spec fn clip_attr_text(clip: Option<Seq<char>>) -> Seq<char> {
    match clip {
        Some(id) => " clip-path=\"url(#"@ + id + ")\""@,
        None => seq![],
    }
}

/// The style attribute of a layer.
pub open spec fn layer_style_text(mix: Mix) -> Seq<char> {
    if mix != Mix::Normal {
        " style=\"isolation:isolate;mix-blend-mode:"@ + mix_text(mix) + seq!['"']
    } else {
        " style=\"isolation:isolate\""@
    }
}

/// A layer's start tag.
pub open spec fn layer_text(
    clip: Option<Seq<char>>,
    alpha: Fixed,
    mix: Mix,
    dec: nat,
) -> Seq<char> {
    "<g"@ + clip_attr_text(clip) + layer_opacity_text(alpha, dec) + layer_style_text(mix)
        + seq!['>']
}

/// The name attribute of a pick scope.
pub open spec fn scope_name_text(name: Option<String>) -> Seq<char> {
    match name {
        Some(n) => " data-pick-name=\""@ + attr_text(n@) + seq!['"'],
        None => seq![],
    }
}

/// The index attribute of a pick scope.
pub open spec fn scope_index_text(index: Option<u64>) -> Seq<char> {
    match index {
        Some(i) => " data-pick-index=\""@ + decimal_text(i as nat) + seq!['"'],
        None => seq![],
    }
}

/// A pick scope's start tag.
pub open spec fn scope_text(scope: PickScope) -> Seq<char> {
    "<g data-pick-kind=\""@ + attr_text(scope.kind@) + seq!['"'] + scope_name_text(scope.name)
        + scope_index_text(scope.index) + seq!['>']
}

/// A length on the root element: in pixels, or in points of 1/72 inch. A
/// resolution of zero leaves no finite number of points, which is written as
/// zero.
pub open spec fn root_length_text(x: Fixed, dpi: Fixed, units: SvgUnits, dec: nat) -> Seq<char> {
    match units {
        SvgUnits::Px => num_text(x, dec),
        SvgUnits::Pt => num_text(in_points(x, dpi), dec) + "pt"@,
    }
}

/// `x` pixels at `dpi` pixels per inch, in points.
pub open spec fn in_points(x: Fixed, dpi: Fixed) -> Fixed {
    if dpi.nanos == 0 {
        Fixed { nanos: 0 }
    } else {
        x.spec_scaled(72 * ONE, dpi.nanos as int)
    }
}

/// The size attributes of the root element.
pub open spec fn root_size_text(size: Size, dpi: Fixed, units: SvgUnits, dec: nat) -> Seq<char> {
    "<svg xmlns=\"http://www.w3.org/2000/svg\" width=\""@ + root_length_text(
        size.width,
        dpi,
        units,
        dec,
    ) + "\" height=\""@ + root_length_text(size.height, dpi, units, dec)
        + "\" viewBox=\"0 0 "@ + num_text(size.width, dec) + seq![' '] + num_text(
        size.height,
        dec,
    ) + seq!['"']
}

/// The family every `<text>` inherits, once text has named one.
pub open spec fn root_family_text(root: RootView) -> Seq<char> {
    match root.family {
        Some(f) => " font-family=\""@ + attr_text(f) + seq!['"'],
        None => seq![],
    }
}

/// The size every `<text>` inherits, once text has named one.
pub open spec fn root_font_size_text(root: RootView, dec: nat) -> Seq<char> {
    match root.size {
        Some(s) => " font-size=\""@ + num_text(s, dec) + seq!['"'],
        None => seq![],
    }
}

/// White-space handling and isolation. Only a document with text says
/// anything about white space, in both of its spellings.
pub open spec fn root_style_text(root: RootView) -> Seq<char> {
    if root.family is Some {
        " xml:space=\"preserve\" style=\"isolation:isolate;white-space:pre\">"@
    } else {
        " style=\"isolation:isolate\">"@
    }
}

/// The background, when there is one.
pub open spec fn background_text(color: Option<Color>, size: Size, dec: nat) -> Seq<char> {
    match color {
        Some(c) => {
            let p = solid_paint(c);
            "<rect width=\""@ + num_text(size.width, dec) + "\" height=\""@ + num_text(
                size.height,
                dec,
            ) + "\" fill=\""@ + p.value + seq!['"'] + opacity_text(
                " fill-opacity=\""@,
                p.opacity,
                3,
            ) + "/>"@
        },
        None => seq![],
    }
}

/// `n` end tags of groups.
pub open spec fn closing_text(n: nat) -> Seq<char>
    decreases n,
{
    if n == 0 {
        seq![]
    } else {
        closing_text((n - 1) as nat) + "</g>"@
    }
}

impl SceneView {
    /// True when a layer that was pushed has not been popped.
    pub open spec fn leaves_a_layer_open(self) -> bool {
        self.groups.contains(GroupKind::Layer)
    }

    /// Everything the scene expressed that SVG could not, with the layers
    /// that are left to be closed at write time.
    pub open spec fn reported(self) -> Seq<SvgWarning> {
        if self.leaves_a_layer_open() {
            noted(self.warnings, SvgWarning::UnbalancedLayers)
        } else {
            self.warnings
        }
    }

    /// The root's font once the block still open has been written: it can be
    /// the one that names the font.
    pub open spec fn final_root(self) -> RootView {
        block_root(self.block.runs, self.root)
    }

    /// The root element's start tag.
    pub open spec fn root_open_text(self) -> Seq<char> {
        let dec = self.config.decimals;
        let root = self.final_root();
        root_size_text(self.size, self.dpi, self.config.units, dec) + root_family_text(root)
            + root_font_size_text(root, dec) + root_style_text(root)
    }

    /// The fill still held back at write time.
    pub open spec fn held_fill_text(self) -> Seq<char> {
        match self.pending {
            Some(p) => pending_text(
                p,
                self.config.decimals,
                self.config.pick_ids,
                self.targets(),
            ),
            None => seq![],
        }
    }

    /// The text block still open at write time.
    pub open spec fn held_block_text(self) -> Seq<char> {
        block_text(
            self.block.runs,
            self.config.decimals,
            self.config.pick_ids,
            self.targets(),
            self.root,
        )
    }

    /// Where the document gives ids.
    pub open spec fn id_places(self) -> Seq<int> {
        let style = style_text(stylesheet_text(self.fonts, self.config.embed_fonts));
        shifted(
            id_places(self.defs, self.defs.len()),
            self.root_open_text().len() + 6 + style.len(),
        )
    }

    /// The whole document: the root with the font it hoists, the
    /// definitions, the background, everything drawn, everything held back,
    /// and the end of every element left open.
    pub open spec fn document(self) -> Seq<char> {
        let dec = self.config.decimals;
        self.root_open_text() + defs_text(
            self.defs,
            stylesheet_text(self.fonts, self.config.embed_fonts),
        ) + background_text(self.config.background, self.size, dec) + self.body + self.prelude
            + self.held_block_text() + self.held_fill_text() + closing_text(self.groups.len())
            + "</svg>"@
    }
}

} // verus!
