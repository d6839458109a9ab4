//! The scene: draw calls in, one SVG document out.

use vstd::prelude::*;

use super::attrs::{PickId, PickScope, Stroke};
use super::config::{ConfigView, SvgConfig, SvgUnits, SvgWarning, TextMode};
use super::drawing::Drawing;
use super::laws::{
    brush_is_sound, config_is_sound, glyphs_are_sound, held_in_order, lemma_document_frame,
    lemma_document_is_self_contained, lemma_document_is_well_formed, lemma_fill_is_held_in_order,
    lemma_fill_keeps_config, lemma_fill_keeps_sound, lemma_fresh_scene_is_sound,
    lemma_glyphs_are_held_in_order, lemma_glyphs_keep_sound, lemma_image_keeps_sound,
    lemma_mesh_is_held_in_order, lemma_mesh_keeps_config, lemma_mesh_keeps_sound,
    lemma_pop_layer_keeps_sound, lemma_pop_scope_keeps_sound, lemma_push_layer_keeps_sound,
    lemma_push_scope_keeps_sound, lemma_stroke_is_held_in_order, lemma_stroke_keeps_sound, readable,
    self_contained, sound,
};
use super::markup::{completes, well_formed};
use super::model::{fresh_scene, BlendMode, ImageSource, MeshFill, SceneView};
use super::paint::{defs_in_order, kind_element, Brush, PaintSource};
use super::refs::at;
use super::text::GlyphRun;
use crate::fixed::Fixed;
use crate::geometry::{Affine, FillRule, Path, Size};

verus! {

/// A scene that emits SVG.
///
/// Build it, draw into it, then hand it to [`encode_svg`].
#[derive(Debug)]
pub struct SvgScene {
    drawing: Drawing,
}

impl View for SvgScene {
    type V = SceneView;

    closed spec fn view(&self) -> SceneView {
        self.drawing@
    }
}

/// True when a scene is sound, as long as its options can stand in a
/// document.
pub open spec fn kept(v: SceneView) -> bool {
    config_is_sound(v.config) ==> sound(v)
}

/// What a gradient defines completes its element.
fn vouch_for_brush(brush: &Brush)
    ensures
        brush_is_sound(*brush),
{
    if let PaintSource::Server(body) = &brush.source {
        body.rest();
    }
}

/// What a run is painted with, and its face, can stand in a document.
fn vouch_for_glyphs(run: &GlyphRun)
    ensures
        glyphs_are_sound(*run),
{
    vouch_for_brush(&run.brush);
    if let Some(rule) = &run.face.rule {
        rule.as_str();
    }
}

impl SvgScene {
    #[verifier::type_invariant]
    spec fn stays_sound(self) -> bool {
        kept(self.drawing@) && held_in_order(self.drawing@)
    }

    /// A scene covering `size`, rendered for `dpi`.
    pub fn new(size: Size, dpi: Fixed) -> (r: SvgScene)
        ensures
            r@ == fresh_scene(
                size,
                dpi,
                ConfigView {
                    background: None,
                    decimals: 3,
                    units: SvgUnits::Px,
                    prefix: seq![],
                    pick_ids: false,
                    text: TextMode::Text,
                    embed_fonts: false,
                },
            ),
    {
        SvgScene::with_config(size, dpi, SvgConfig::new())
    }

    /// As [`SvgScene::new`], with emission options.
    pub fn with_config(size: Size, dpi: Fixed, config: SvgConfig) -> (r: SvgScene)
        ensures
            r@ == fresh_scene(size, dpi, config@),
    {
        proof {
            if config_is_sound(config@) {
                lemma_fresh_scene_is_sound(size, dpi, config@);
            }
        }
        SvgScene { drawing: Drawing::with_config(size, dpi, config) }
    }

    /// Take out what was drawn, leaving an empty canvas.
    fn take(&mut self) -> (r: Drawing)
        ensures
            r@ == old(self)@,
            kept(r@),
            held_in_order(r@),
    {
        proof {
            use_type_invariant(&*self);
        }
        let size = self.drawing.size();
        let mut drawing = Drawing::with_config(size, Fixed { nanos: 0 }, SvgConfig::new());
        proof {
            lemma_fresh_scene_is_sound(drawing@.size, drawing@.dpi, drawing@.config);
        }
        core::mem::swap(&mut self.drawing, &mut drawing);
        drawing
    }

    /// Resize between frames. Does not discard drawn content; call
    /// [`SvgScene::clear`] for that.
    pub fn set_size(&mut self, size: Size, dpi: Fixed)
        ensures
            final(self)@ == (SceneView { size, dpi, ..old(self)@ }),
    {
        let mut drawing = self.take();
        drawing.set_size(size, dpi);
        self.drawing = drawing;
    }

    /// The canvas size.
    pub fn size(&self) -> (r: Size)
        ensures
            r == self@.size,
    {
        self.drawing.size()
    }

    /// Everything the scene expressed that SVG could not, each once.
    pub fn warnings(&self) -> (r: Vec<SvgWarning>)
        ensures
            r@ == self@.reported(),
            r@.no_duplicates(),
    {
        self.drawing.warnings()
    }

    /// The emission options in force.
    pub fn config(&self) -> (r: &SvgConfig)
        ensures
            r@ == self@.config,
    {
        self.drawing.config()
    }

    /// Discard everything that was drawn, keeping the canvas and the
    /// options.
    pub fn clear(&mut self)
        ensures
            final(self)@ == fresh_scene(old(self)@.size, old(self)@.dpi, old(self)@.config),
    {
        let mut drawing = self.take();
        drawing.clear();
        proof {
            if config_is_sound(drawing@.config) {
                lemma_fresh_scene_is_sound(drawing@.size, drawing@.dpi, drawing@.config);
            }
        }
        self.drawing = drawing;
    }

    /// Fill `path`.
    ///
    /// A decoration the open text block already declared is dropped rather
    /// than drawn twice, and without flushing the block: a rule arriving
    /// between two runs would otherwise split one piece of text into two
    /// elements.
    pub fn fill(
        &mut self,
        rule: FillRule,
        transform: Affine,
        brush: &Brush,
        path: &Path,
        pick_id: PickId,
    )
        ensures
            final(self)@ == old(self)@.filled(rule, transform, *brush, path@, pick_id),
    {
        vouch_for_brush(brush);
        let mut drawing = self.take();
        proof {
            lemma_fill_is_held_in_order(drawing@, rule, transform, *brush, path@, pick_id);
            lemma_fill_keeps_config(drawing@, rule, transform, *brush, path@, pick_id);
            if config_is_sound(drawing@.config) {
                lemma_fill_keeps_sound(drawing@, rule, transform, *brush, path@, pick_id);
            }
        }
        drawing.fill(rule, transform, brush, path, pick_id);
        self.drawing = drawing;
    }

    /// Stroke `path`, joining the fill it was filled with a moment ago.
    pub fn stroke(
        &mut self,
        stroke: &Stroke,
        transform: Affine,
        brush: &Brush,
        path: &Path,
        pick_id: PickId,
    )
        ensures
            final(self)@ == old(self)@.stroked(*stroke, transform, *brush, path@, pick_id),
    {
        vouch_for_brush(brush);
        let mut drawing = self.take();
        proof {
            lemma_stroke_is_held_in_order(drawing@, *stroke, transform, *brush, path@, pick_id);
            if config_is_sound(drawing@.config) {
                lemma_stroke_keeps_sound(drawing@, *stroke, transform, *brush, path@, pick_id);
            }
        }
        drawing.stroke(stroke, transform, brush, path, pick_id);
        self.drawing = drawing;
    }

    /// Draw an image: inlined once, referenced per draw.
    pub fn draw_image(&mut self, image: &ImageSource, transform: Affine, alpha: Fixed)
        ensures
            final(self)@ == old(self)@.imaged(*image, transform, alpha),
    {
        if let ImageSource::Embedded(body) = image {
            body.rest();
            assert(completes(kind_element(body@.kind), body@.rest));
        }
        let mut drawing = self.take();
        proof {
            if config_is_sound(drawing@.config) {
                lemma_image_keeps_sound(drawing@, *image, transform, alpha);
            }
        }
        drawing.draw_image(image, transform, alpha);
        self.drawing = drawing;
    }

    /// Draw a mesh as the fills it decomposes into.
    pub fn draw_mesh(&mut self, fills: &Vec<MeshFill>, transform: Affine, pick_id: PickId)
        ensures
            final(self)@ == old(self)@.meshed(fills@, fills@.len(), transform, pick_id),
    {
        let mut i: usize = 0;
        while i < fills.len()
            invariant
                i <= fills@.len(),
                forall|j: int| 0 <= j < i ==> brush_is_sound((#[trigger] fills@[j]).brush),
            decreases fills@.len() - i,
        {
            vouch_for_brush(&fills[i].brush);
            i = i + 1;
        }
        let mut drawing = self.take();
        proof {
            lemma_mesh_keeps_config(drawing@, fills@, fills@.len(), transform, pick_id);
            lemma_mesh_is_held_in_order(drawing@, fills@, fills@.len(), transform, pick_id);
            if config_is_sound(drawing@.config) {
                lemma_mesh_keeps_sound(drawing@, fills@, fills@.len(), transform, pick_id);
            }
        }
        drawing.draw_mesh(fills, transform, pick_id);
        self.drawing = drawing;
    }

    /// Draw glyphs as text, or as outlines when there is no source text or
    /// outlines were asked for.
    pub fn draw_glyphs(&mut self, run: &GlyphRun, pick_id: PickId)
        ensures
            final(self)@ == old(self)@.glyphs_drawn(*run, pick_id),
    {
        vouch_for_glyphs(run);
        let mut drawing = self.take();
        proof {
            lemma_glyphs_are_held_in_order(drawing@, *run, pick_id);
            if config_is_sound(drawing@.config) {
                lemma_glyphs_keep_sound(drawing@, *run, pick_id);
            }
        }
        drawing.draw_glyphs(run, pick_id);
        self.drawing = drawing;
    }

    /// Open a layer: clipped, blended and faded as one.
    pub fn push_layer(&mut self, blend: BlendMode, alpha: Fixed, transform: Affine, clip: &Path)
        ensures
            final(self)@ == old(self)@.layer_pushed(blend, alpha, transform, clip@),
    {
        let mut drawing = self.take();
        proof {
            if config_is_sound(drawing@.config) {
                lemma_push_layer_keeps_sound(drawing@, blend, alpha, transform, clip@);
            }
        }
        drawing.push_layer(blend, alpha, transform, clip);
        self.drawing = drawing;
    }

    /// Close the innermost group, which has to be a layer.
    pub fn pop_layer(&mut self)
        ensures
            final(self)@ == old(self)@.layer_popped(),
    {
        let mut drawing = self.take();
        proof {
            if config_is_sound(drawing@.config) {
                lemma_pop_layer_keeps_sound(drawing@);
            }
        }
        drawing.pop_layer();
        self.drawing = drawing;
    }

    /// Open a pick scope.
    pub fn push_pick_scope(&mut self, scope: &PickScope)
        ensures
            final(self)@ == old(self)@.scope_pushed(*scope),
    {
        let mut drawing = self.take();
        proof {
            if config_is_sound(drawing@.config) {
                lemma_push_scope_keeps_sound(drawing@, *scope);
            }
        }
        drawing.push_pick_scope(scope);
        self.drawing = drawing;
    }

    /// Close the innermost group, which has to be a pick scope.
    pub fn pop_pick_scope(&mut self)
        ensures
            final(self)@ == old(self)@.scope_popped(),
    {
        let mut drawing = self.take();
        proof {
            if config_is_sound(drawing@.config) {
                lemma_pop_scope_keeps_sound(drawing@);
            }
        }
        drawing.pop_pick_scope();
        self.drawing = drawing;
    }
}

/// Serialize `scene` as an SVG document.
///
/// Infallible: building a string cannot fail, and a scene expressing
/// something SVG cannot produces [`SvgScene::warnings`] rather than an error.
///
/// Whatever was drawn, the document is one well-formed `<svg>` element, as
/// long as the prefix of its ids can stand in an attribute. As long as that
/// prefix can also be read out of a reference, every id in the document starts
/// with it and is given once, and everything referred to is given.
pub fn encode_svg(scene: &SvgScene) -> (out: String)
    ensures
        out@ == scene@.document(),
        at(out@, 0, "<svg "@),
        at(out@, out@.len() - 6, "</svg>"@),
        config_is_sound(scene@.config) ==> well_formed(out@) && defs_in_order(
            scene@.defs,
            scene@.config.prefix,
        ),
        config_is_sound(scene@.config) && readable(scene@.config.prefix) ==> self_contained(
            out@,
            scene@.config.prefix,
        ),
{
    proof {
        use_type_invariant(scene);
        lemma_document_frame(scene@);
        if config_is_sound(scene@.config) {
            lemma_document_is_well_formed(scene@);
            if readable(scene@.config.prefix) {
                lemma_document_is_self_contained(scene@);
            }
        }
    }
    scene.drawing.to_svg()
}

} // verus!
