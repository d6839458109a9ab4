//! What a scene has drawn so far, and how each call adds to it.
//!
//! The emitter streams: draw calls append to a body and the definitions they
//! need accumulate beside it, with the whole document assembled at write
//! time. Nothing needs a second pass, because definitions are written ahead
//! of the body they were discovered from.

use vstd::prelude::*;

use super::attrs::{
    fill_text, opacity_text, pick_text, stroke_text, stroke_warnings, write_fill_attrs_to,
    write_pick_to, write_stroke_attrs_to, PickId, PickScope, ScopeMode, Stroke,
};
use super::config::{noted, SvgConfig, SvgUnits, SvgWarning, TextMode, Warnings};
use super::font::{FamilyView, FontFamilyEntry, RootFont};
use super::model::{
    background_text, baked, clip_attr_text, clip_rest, closing_text, contour_text, fresh_scene,
    layer_opacity_text, layer_style_text, layer_text, mix_keyword, pending_text, root_family_text,
    root_font_size_text, root_length_text, root_size_text, root_style_text, rule_text, run_view,
    scope_index_text, scope_name_text, scope_text, stroked_text, BlendMode, Compose, GroupKind,
    ImageSource, MeshFill, Mix, PendingView, SceneView,
};
use super::paint::{
    defs_text, faces_noted, resolve, scale_alpha, stylesheet_text, Brush, DefKind, Defs,
    FontRegistry, Paint, PaintView,
};
use super::text::{
    block_with, predicted_rules, write_block, GlyphRun, Link, PendingRun, TextBlock, TextSource,
};
use super::writer::{attr_text, escape_attr, max_places, to_d, transform_attr, transform_text};
use crate::color::{solid, Color};
use crate::fixed::{num, num_text, Fixed, ONE};
use crate::geometry::{axis_aligned_rect, is_identity, Affine, FillRule, Path, Size};
use crate::text::{lemma_append, lemma_append_nothing, push_decimal};

verus! {

/// One pending fill, held back so a stroke of the same path can join it.
#[derive(Debug)]
pub struct PendingFill {
    path: Path,
    transform: Affine,
    rule: FillRule,
    paint: Paint,
    pick: PickId,
}

impl View for PendingFill {
    type V = PendingView;

    closed spec fn view(&self) -> PendingView {
        PendingView {
            path: self.path@,
            transform: self.transform,
            rule: self.rule,
            paint: self.paint@,
            pick: self.pick,
        }
    }
}

/// What a scene holds: the options, the markup drawn, and what is held back.
#[derive(Debug)]
pub struct Drawing {
    size: Size,
    dpi: Fixed,
    config: SvgConfig,
    body: String,
    defs: Defs,
    warnings: Warnings,
    /// Open `<g>` elements, innermost last.
    ///
    /// Tagged rather than a plain count because layers and pick scopes both
    /// emit groups and their stacks are independent. Popping the wrong kind
    /// would emit `</g>` against the wrong element.
    groups: Vec<GroupKind>,
    pending: Option<PendingFill>,
    /// Runs accumulating toward one `<text>` element.
    block: TextBlock,
    /// Modes of the open pick scopes, innermost last.
    scope_modes: Vec<ScopeMode>,
    /// Faces the document referenced, for the `<style>` block.
    fonts: FontRegistry,
    /// Chrome belonging to the open text block, span backgrounds and
    /// borders, held so it can be written ahead of the `<text>` it belongs
    /// to rather than splitting it in two.
    block_prelude: String,
    /// The font hoisted onto the root element for every `<text>` to inherit.
    root_font: RootFont,
}

/// An optional pending fill as plain values.
pub open spec fn pending_view(p: Option<PendingFill>) -> Option<PendingView> {
    match p {
        Some(p) => Some(p@),
        None => None,
    }
}

impl View for Drawing {
    type V = SceneView;

    closed spec fn view(&self) -> SceneView {
        SceneView {
            size: self.size,
            dpi: self.dpi,
            config: self.config@,
            body: self.body@,
            defs: self.defs@,
            warnings: self.warnings@,
            groups: self.groups@,
            pending: pending_view(self.pending),
            block: self.block@,
            scope_modes: self.scope_modes@,
            fonts: self.fonts@,
            prelude: self.block_prelude@,
            root: self.root_font@,
        }
    }
}

/// Write a fill that no stroke joined.
fn write_pending_fill(
    out: &mut String,
    p: &PendingFill,
    decimals: u8,
    pick_ids: bool,
    targeted: bool,
)
    ensures
        final(out)@ == old(out)@ + pending_text(p@, decimals as nat, pick_ids, targeted),
{
    let ghost start = out@;
    let ghost dec = decimals as nat;
    let d = to_d(&p.path, decimals);
    if d.as_str().is_empty() {
        assert(start =~= start + seq![]);
        return;
    }
    let ghost a = "<path d=\""@;
    let ghost b = d@;
    let ghost c = seq!['"'];
    let ghost e = fill_text(p@.paint, p@.rule, dec);
    let ghost f = transform_text(p@.transform, dec);
    let ghost g = pick_text(p@.pick, pick_ids, targeted);
    let ghost h = "/>"@;
    out.append("<path d=\"");
    out.append(d.as_str());
    out.append("\"");
    write_fill_attrs_to(out, &p.paint, p.rule, decimals);
    transform_attr(out, p.transform, decimals);
    write_pick_to(out, p.pick, pick_ids, targeted);
    out.append("/>");
    proof {
        reveal_strlit("\"");
        assert("\""@ =~= c);
        lemma_append(start, a, b);
        lemma_append(start, a + b, c);
        lemma_append(start, a + b + c, e);
        lemma_append(start, a + b + c + e, f);
        lemma_append(start, a + b + c + e + f, g);
        lemma_append(start, a + b + c + e + f + g, h);
    }
}

/// Append the opacity of a whole element, unless it is one.
fn write_layer_opacity(out: &mut String, alpha: Fixed, dec: u8)
    ensures
        final(out)@ == old(out)@ + layer_opacity_text(alpha, dec as nat),
{
    if alpha.nanos != ONE {
        out.append(" opacity=\"");
        num(out, alpha, max_places(dec, 3));
        out.push('"');
    }
    assert(out@ =~= old(out)@ + layer_opacity_text(alpha, dec as nat));
}

fn write_scope_open(out: &mut String, scope: &PickScope)
    ensures
        final(out)@ == old(out)@ + scope_text(*scope),
{
    let ghost start = out@;
    out.append("<g data-pick-kind=\"");
    escape_attr(out, scope.kind.as_str());
    out.push('"');
    let ghost kind_part = "<g data-pick-kind=\""@ + attr_text(scope.kind@) + seq!['"'];
    assert(out@ =~= start + kind_part);
    if let Some(name) = &scope.name {
        out.append(" data-pick-name=\"");
        escape_attr(out, name.as_str());
        out.push('"');
    }
    let ghost name_part = kind_part + scope_name_text(scope.name);
    assert(out@ =~= start + name_part);
    if let Some(index) = scope.index {
        out.append(" data-pick-index=\"");
        push_decimal(out, index);
        out.push('"');
    }
    let ghost index_part = name_part + scope_index_text(scope.index);
    assert(out@ =~= start + index_part);
    out.push('>');
    assert(out@ =~= start + scope_text(*scope));
}

fn write_layer_open(out: &mut String, clip: Option<&str>, alpha: Fixed, mix: Mix, dec: u8)
    ensures
        final(out)@ == old(out)@ + layer_text(
            match clip {
                Some(id) => Some(id@),
                None => None,
            },
            alpha,
            mix,
            dec as nat,
        ),
{
    let ghost start = out@;
    let ghost id: Option<Seq<char>> = match clip {
        Some(id) => Some(id@),
        None => None,
    };
    out.append("<g");
    if let Some(id) = clip {
        out.append(" clip-path=\"url(#");
        out.append(id);
        out.append(")\"");
    }
    let ghost clip_part = "<g"@ + clip_attr_text(id);
    assert(out@ =~= start + clip_part);
    write_layer_opacity(out, alpha, dec);
    let ghost opacity_part = clip_part + layer_opacity_text(alpha, dec as nat);
    assert(out@ =~= start + opacity_part);
    if mix != Mix::Normal {
        out.append(" style=\"isolation:isolate;mix-blend-mode:");
        out.append(mix_keyword(mix));
        out.push('"');
    } else {
        out.append(" style=\"isolation:isolate\"");
    }
    let ghost style_part = opacity_part + layer_style_text(mix);
    assert(out@ =~= start + style_part);
    out.push('>');
    assert(out@ =~= start + layer_text(id, alpha, mix, dec as nat));
}

impl Drawing {
    /// Nothing drawn yet, on a canvas of `size`.
    pub fn with_config(size: Size, dpi: Fixed, config: SvgConfig) -> (r: Drawing)
        ensures
            r@ == fresh_scene(size, dpi, config@),
    {
        let r = Drawing {
            size,
            dpi,
            config,
            body: String::new(),
            defs: Defs::new(),
            warnings: Warnings::new(),
            groups: Vec::new(),
            scope_modes: Vec::new(),
            pending: None,
            block: TextBlock::new(),
            fonts: FontRegistry::new(),
            block_prelude: String::new(),
            root_font: RootFont::new(),
        };
        assert(r@ =~= fresh_scene(size, dpi, config@));
        r
    }

    /// Resize the canvas, keeping what was drawn.
    pub fn set_size(&mut self, size: Size, dpi: Fixed)
        ensures
            final(self)@ == (SceneView { size, dpi, ..old(self)@ }),
    {
        self.size = size;
        self.dpi = dpi;
    }

    /// The canvas size.
    pub fn size(&self) -> (r: Size)
        ensures
            r == self@.size,
    {
        self.size
    }

    /// Everything the scene expressed that SVG could not, each once.
    pub fn warnings(&self) -> (r: Vec<SvgWarning>)
        ensures
            r@ == self@.reported(),
            r@.no_duplicates(),
    {
        let mut out = self.warnings.copied();
        let mut i: usize = 0;
        while i < self.groups.len()
            invariant
                i <= self.groups@.len(),
                out@ == self@.warnings,
                forall|j: int| 0 <= j < i ==> self.groups@[j] != GroupKind::Layer,
            decreases self.groups@.len() - i,
        {
            if self.groups[i] == GroupKind::Layer {
                assert(self@.groups[i as int] == GroupKind::Layer);
                out.note(SvgWarning::UnbalancedLayers);
                return out.into_list();
            }
            i = i + 1;
        }
        out.into_list()
    }

    /// The emission options in force.
    pub fn config(&self) -> (r: &SvgConfig)
        ensures
            r@ == self@.config,
    {
        &self.config
    }

    /// The id prefix, or the empty string.
    fn prefix(&self) -> (r: String)
        ensures
            r@ == self@.config.prefix,
    {
        match &self.config.id_prefix {
            Some(p) => p.clone(),
            None => {
                let r = String::new();
                assert(r@ =~= seq![]);
                r
            },
        }
    }

    /// Discard everything that was drawn, keeping the canvas and the
    /// options.
    pub fn clear(&mut self)
        ensures
            final(self)@ == fresh_scene(old(self)@.size, old(self)@.dpi, old(self)@.config),
    {
        self.block = TextBlock::new();
        self.block_prelude = String::new();
        self.fonts = FontRegistry::new();
        self.body = String::new();
        self.defs = Defs::new();
        self.warnings = Warnings::new();
        self.root_font = RootFont::new();
        self.groups = Vec::new();
        self.scope_modes = Vec::new();
        self.pending = None;
        assert(self@ =~= fresh_scene(old(self)@.size, old(self)@.dpi, old(self)@.config));
    }

    /// Whether a primitive drawn here belongs to the scope around it.
    ///
    /// Inside a scope that is itself the target, a primitive that cannot be
    /// picked on its own is the target, which is how chrome participates
    /// without an id of its own.
    fn innermost_scope_targets(&self) -> (r: bool)
        ensures
            r == self@.targets(),
    {
        let n = self.scope_modes.len();
        n > 0 && self.scope_modes[n - 1] == ScopeMode::Target
    }

    /// True when a text block is open, so its own chrome should be buffered
    /// rather than ending it.
    fn block_open(&self) -> (r: bool)
        ensures
            r == self@.block_open(),
    {
        self.block.runs.len() > 0
    }

    /// Emit the accumulating text block, if any.
    ///
    /// Its own chrome goes first: a span background sits behind its span's
    /// glyphs, and span boxes never overlap, so writing every one of a
    /// block's backgrounds ahead of every one of its runs preserves the
    /// stacking that matters.
    fn flush_block(&mut self)
        ensures
            final(self)@ == old(self)@.flushed_block(),
    {
        let ghost was = self@;
        let targeted = self.innermost_scope_targets();
        let (dec, pick) = (self.config.decimals, self.config.pick_ids);
        self.body.append(self.block_prelude.as_str());
        self.block_prelude = String::new();
        write_block(&mut self.body, &self.block, dec, pick, targeted, &mut self.root_font);
        if self.block.runs.len() > 0 {
            self.block = TextBlock::new();
        }
        assert(self@ =~= was.flushed_block());
    }

    /// Draw `el`: among the chrome of the open text block, or in the body.
    fn emit(&mut self, el: &str)
        ensures
            final(self)@ == old(self)@.with_element(el@),
    {
        let ghost was = self@;
        if self.block_open() {
            self.block_prelude.append(el);
        } else {
            self.body.append(el);
        }
        assert(self@ =~= was.with_element(el@));
    }

    /// Flush any fill waiting for a stroke to join it.
    fn flush_pending(&mut self)
        ensures
            final(self)@ == old(self)@.flushed_pending(),
    {
        let ghost was = self@;
        let targeted = self.innermost_scope_targets();
        let (dec, pick) = (self.config.decimals, self.config.pick_ids);
        match self.pending.take() {
            None => {
                assert(self@ =~= was);
            },
            Some(p) => {
                let mut el = String::new();
                write_pending_fill(&mut el, &p, dec, pick, targeted);
                assert(el@ =~= pending_text(p@, dec as nat, pick, targeted));
                assert(self@ =~= (SceneView { pending: None, ..was }));
                self.emit(el.as_str());
            },
        }
    }

    /// Express `brush`, defining what it refers to.
    fn resolve_brush(&mut self, brush: &Brush) -> (p: Paint)
        ensures
            p@ == old(self)@.paint_of(*brush),
            final(self)@ == old(self)@.with_brush(*brush),
    {
        let ghost was = self@;
        let prefix = self.prefix();
        let p = resolve(brush, &mut self.defs, prefix.as_str(), &mut self.warnings);
        assert(self@ =~= was.with_brush(*brush));
        p
    }

    /// Fill `path`.
    ///
    /// A decoration the open text block already declared is dropped rather
    /// than drawn twice, and without flushing the block: a rule arriving
    /// between two runs would otherwise split one piece of text into two
    /// elements.
    #[verifier::spinoff_prover]
    #[verifier::rlimit(40)]
    pub fn fill(
        &mut self,
        rule: FillRule,
        transform: Affine,
        brush: &Brush,
        path: &Path,
        pick_id: PickId,
    )
        ensures
            final(self)@ == old(self)@.filled(rule, transform, *brush, path@, pick_id),
    {
        let ghost was = self@;
        proof {
            reveal(SceneView::filled);
        }
        if self.block_open() {
            if let Some(r) = axis_aligned_rect(path, transform) {
                if self.block.claims_rule(r) {
                    return;
                }
            }
        } else {
            self.flush_block();
        }
        self.flush_pending();
        if path.elements.len() == 0 {
            return;
        }
        let ghost ready = self@;
        let paint = self.resolve_brush(brush);
        // Held back so a stroke of the same path can become one element
        // rather than a second one stacked on top.
        let held = path.copied();
        self.pending = Some(PendingFill { path: held, transform, rule, paint, pick: pick_id });
        assert(self@ =~= was.filled(rule, transform, *brush, path@, pick_id));
    }

    /// Append a stroked path to a local, so it can land in the body or,
    /// while a text block is open, in that block's prelude.
    fn stroked_element(
        &mut self,
        path: &Path,
        fill: Option<(&Paint, FillRule)>,
        stroke: &Stroke,
        paint: &Paint,
        transform: Affine,
        pick: PickId,
    ) -> (el: String)
        ensures
            el@ == stroked_text(
                path@,
                match fill {
                    Some((p, rule)) => Some((p@, rule)),
                    None => None,
                },
                *stroke,
                paint@,
                transform,
                old(self)@.config.decimals,
                pick_text(pick, old(self)@.config.pick_ids, old(self)@.targets()),
            ),
            final(self)@ == (SceneView {
                warnings: stroke_warnings(old(self)@.warnings, *stroke),
                ..old(self)@
            }),
    {
        let ghost was = self@;
        let dec = self.config.decimals;
        let ghost n = dec as nat;
        let pick_on = self.config.pick_ids;
        let targeted = self.innermost_scope_targets();
        let ghost filled: Option<(PaintView, FillRule)> = match fill {
            Some((p, rule)) => Some((p@, rule)),
            None => None,
        };
        let mut el = String::new();
        let d = to_d(path, dec);
        el.append("<path d=\"");
        el.append(d.as_str());
        el.append("\"");
        let ghost a = "<path d=\""@;
        let ghost b = d@;
        let ghost c = seq!['"'];
        let ghost e = match filled {
            Some((p, rule)) => fill_text(p, rule, n),
            None => " fill=\"none\""@,
        };
        let ghost f = stroke_text(*stroke, paint@, n);
        let ghost g = transform_text(transform, n);
        let ghost h = pick_text(pick, pick_on, targeted);
        match fill {
            Some((p, rule)) => write_fill_attrs_to(&mut el, p, rule, dec),
            None => el.append(" fill=\"none\""),
        }
        write_stroke_attrs_to(&mut el, stroke, paint, dec, &mut self.warnings);
        transform_attr(&mut el, transform, dec);
        write_pick_to(&mut el, pick, pick_on, targeted);
        el.append("/>");
        proof {
            reveal_strlit("\"");
            assert("\""@ =~= c);
            assert(Seq::<char>::empty() + a =~= a);
        }
        assert(self@ =~= (SceneView { warnings: stroke_warnings(was.warnings, *stroke), ..was }));
        el
    }

    /// Stroke `path`.
    ///
    /// A fill of this very path that is waiting is painted on the same
    /// element: two stacked paths would be two objects to an editor, so
    /// nudging the fill would leave its border behind.
    #[verifier::spinoff_prover]
    #[verifier::rlimit(40)]
    pub fn stroke(
        &mut self,
        stroke: &Stroke,
        transform: Affine,
        brush: &Brush,
        path: &Path,
        pick_id: PickId,
    )
        ensures
            final(self)@ == old(self)@.stroked(*stroke, transform, *brush, path@, pick_id),
    {
        let ghost was = self@;
        if !self.block_open() {
            self.flush_block();
        }
        let ghost open = self@;
        let merged = match &self.pending {
            Some(p) => p.transform == transform && p.path.same(path),
            None => false,
        };
        if merged {
            if let Some(p) = self.pending.take() {
                assert(self@ =~= (SceneView { pending: None, ..open }));
                let paint = self.resolve_brush(brush);
                let el = self.stroked_element(
                    &p.path,
                    Some((&p.paint, p.rule)),
                    stroke,
                    &paint,
                    transform,
                    p.pick,
                );
                self.emit(el.as_str());
                assert(self@ =~= was.stroked(*stroke, transform, *brush, path@, pick_id));
            }
        } else {
            self.flush_pending();
            if path.elements.len() == 0 {
                return;
            }
            let paint = self.resolve_brush(brush);
            let el = self.stroked_element(path, None, stroke, &paint, transform, pick_id);
            self.emit(el.as_str());
            assert(self@ =~= was.stroked(*stroke, transform, *brush, path@, pick_id));
        }
    }

    /// Draw an image: inlined once, referenced per draw.
    #[verifier::spinoff_prover]
    #[verifier::rlimit(40)]
    pub fn draw_image(&mut self, image: &ImageSource, transform: Affine, alpha: Fixed)
        ensures
            final(self)@ == old(self)@.imaged(*image, transform, alpha),
    {
        let ghost was = self@;
        self.flush_block();
        self.flush_pending();
        let ghost ready = self@;
        let dec = self.config.decimals;
        match image {
            ImageSource::Embedded(image) => {
                let prefix = self.prefix();
                let id = self.defs.intern(image.kind(), image.rest(), prefix.as_str());
                self.body.append("<use href=\"#");
                self.body.append(id.as_str());
                self.body.push('"');
                let ghost head = "<use href=\"#"@ + id@ + seq!['"'];
                assert(self.body@ =~= ready.body + head);
                write_layer_opacity(&mut self.body, alpha, dec);
                transform_attr(&mut self.body, transform, dec);
                self.body.append("/>");
                proof {
                    let n = dec as nat;
                    let a = layer_opacity_text(alpha, n);
                    let b = transform_text(transform, n);
                    lemma_append(ready.body, head, a);
                    lemma_append(ready.body, head + a, b);
                    lemma_append(ready.body, head + a + b, "/>"@);
                }
            },
            ImageSource::Refused(w) => self.warnings.note(*w),
        }
        assert(self@ =~= was.imaged(*image, transform, alpha));
    }

    /// Draw a mesh as the fills it decomposes into.
    pub fn draw_mesh(&mut self, fills: &Vec<MeshFill>, transform: Affine, pick_id: PickId)
        ensures
            final(self)@ == old(self)@.meshed(fills@, fills@.len(), transform, pick_id),
    {
        let ghost was = self@;
        self.flush_block();
        self.flush_pending();
        let mut i: usize = 0;
        while i < fills.len()
            invariant
                i <= fills@.len(),
                self@ == was.meshed(fills@, i as nat, transform, pick_id),
            decreases fills@.len() - i,
        {
            self.fill(FillRule::NonZero, transform, &fills[i].brush, &fills[i].path, pick_id);
            i = i + 1;
        }
    }

    /// Draw a run as glyph outlines.
    fn write_glyph_outlines(&mut self, run: &GlyphRun, pick_id: PickId)
        ensures
            final(self)@ == old(self)@.outlined(*run, pick_id),
    {
        let ghost was = self@;
        let dec = self.config.decimals;
        let ghost n = dec as nat;
        let pick_on = self.config.pick_ids;
        let targeted = self.innermost_scope_targets();
        match &run.outline {
            None => self.warnings.note(SvgWarning::TextWithoutSource),
            Some(path) => {
                let d = to_d(path, dec);
                let paint = self.resolve_brush(&run.brush);
                let ghost a = "<path d=\""@;
                let ghost c = seq!['"'];
                let ghost e = contour_text(run.style, paint@, n);
                let ghost f = transform_text(run.transform, n);
                let ghost g = pick_text(pick_id, pick_on, targeted);
                self.body.append("<path d=\"");
                self.body.append(d.as_str());
                self.body.append("\"");
                match &run.style {
                    // An outline pass strokes the contours rather than
                    // filling.
                    Some(stroke) => {
                        let ghost before = self.body@;
                        self.body.append(" fill=\"none\"");
                        write_stroke_attrs_to(
                            &mut self.body,
                            stroke,
                            &paint,
                            dec,
                            &mut self.warnings,
                        );
                        proof {
                            lemma_append(
                                before,
                                " fill=\"none\""@,
                                stroke_text(*stroke, paint@, n),
                            );
                        }
                    },
                    None => write_fill_attrs_to(&mut self.body, &paint, FillRule::NonZero, dec),
                }
                transform_attr(&mut self.body, run.transform, dec);
                write_pick_to(&mut self.body, pick_id, pick_on, targeted);
                self.body.append("/>");
                proof {
                    reveal_strlit("\"");
                    assert("\""@ =~= c);
                    let start = was.body;
                    lemma_append(start, a, d@);
                    lemma_append(start, a + d@, c);
                    lemma_append(start, a + d@ + c, e);
                    lemma_append(start, a + d@ + c + e, f);
                    lemma_append(start, a + d@ + c + e + f, g);
                    lemma_append(start, a + d@ + c + e + f + g, "/>"@);
                }
            },
        }
        assert(self@ =~= was.outlined(*run, pick_id));
    }

    /// Draw glyphs as text, or as outlines when there is no source text or
    /// outlines were asked for.
    #[verifier::spinoff_prover]
    #[verifier::rlimit(40)]
    pub fn draw_glyphs(&mut self, run: &GlyphRun, pick_id: PickId)
        ensures
            final(self)@ == old(self)@.glyphs_drawn(*run, pick_id),
    {
        let ghost was = self@;
        self.flush_pending();
        let ghost ready = self@;
        if run.source.is_none() || self.config.text == TextMode::Outline {
            self.flush_block();
            self.write_glyph_outlines(run, pick_id);
            return;
        }
        if let Some(src) = &run.source {
            if run.glyphs.len() == 0 {
                return;
            }
            let embed = self.config.embed_fonts;
            let paint = self.resolve_brush(&run.brush);
            let pending = prepare(run, src, pick_id, paint, embed);
            let ghost painted = self@;
            match &run.face.rule {
                Some(rule) => self.fonts.note(Some(rule.as_str())),
                None => {
                    if embed {
                        self.warnings.note(SvgWarning::FontNotEmbeddable);
                    }
                },
            }
            let ghost noted_scene = SceneView {
                fonts: faces_noted(painted.fonts, rule_text(run.face.rule)),
                warnings: if embed && run.face.rule is None {
                    noted(painted.warnings, SvgWarning::FontNotEmbeddable)
                } else {
                    painted.warnings
                },
                ..painted
            };
            assert(self@ =~= noted_scene);
            // A run of a different block, or under a different transform,
            // starts a new element.
            if !self.block.accepts(pending.group, pending.transform) {
                self.flush_block();
            }
            let ghost open = self@;
            let ghost added = pending@;
            self.block.push(pending);
            assert(self@ =~= (SceneView { block: block_with(open.block, added), ..open }));
            assert(self@ =~= noted_scene.with_run(added));
        }
    }

    /// Open a layer: clipped, blended and faded as one.
    #[verifier::spinoff_prover]
    #[verifier::rlimit(40)]
    pub fn push_layer(&mut self, blend: BlendMode, alpha: Fixed, transform: Affine, clip: &Path)
        ensures
            final(self)@ == old(self)@.layer_pushed(blend, alpha, transform, clip@),
    {
        let ghost was = self@;
        self.flush_block();
        self.flush_pending();
        let ghost ready = self@;
        let dec = self.config.decimals;
        let mut clip_id: Option<String> = None;
        if clip.elements.len() > 0 {
            // The transform applies to the clip, not to the layer's
            // contents, so it is baked into the geometry, which also lets
            // two identically-clipped panels share one definition.
            let d = if is_identity(transform) {
                to_d(clip, dec)
            } else {
                to_d(&clip.transformed(transform), dec)
            };
            let mut rest = String::new();
            rest.append(" clipPathUnits=\"userSpaceOnUse\"><path d=\"");
            rest.append(d.as_str());
            rest.append("\"/></clipPath>");
            assert(rest@ =~= clip_rest(baked(transform, clip@), dec as nat));
            let prefix = self.prefix();
            clip_id = Some(self.defs.intern(DefKind::Clip, rest.as_str(), prefix.as_str()));
        }
        match &clip_id {
            Some(id) => write_layer_open(&mut self.body, Some(id.as_str()), alpha, blend.mix, dec),
            None => write_layer_open(&mut self.body, None, alpha, blend.mix, dec),
        }
        if blend.compose != Compose::SrcOver {
            // Porter-Duff against the backdrop needs `BackgroundImage`,
            // which no renderer ever implemented and Filter Effects removed.
            self.warnings.note(SvgWarning::UnsupportedCompose);
        }
        self.groups.push(GroupKind::Layer);
        assert(self@ =~= was.layer_pushed(blend, alpha, transform, clip@));
    }

    /// Close the innermost `<g>`, provided it is the kind being closed.
    ///
    /// A mismatch means the two stacks were interleaved rather than nested;
    /// emitting `</g>` anyway would close the wrong element, so the pop is
    /// dropped and noted instead. The return says which happened.
    fn close_group(&mut self, kind: GroupKind, warning: SvgWarning) -> (closed: bool)
        ensures
            closed == (old(self)@.groups.len() > 0 && old(self)@.groups.last() == kind),
            final(self)@ == old(self)@.group_closed(kind, warning),
    {
        let ghost was = self@;
        let n = self.groups.len();
        if n == 0 || self.groups[n - 1] != kind {
            self.warnings.note(warning);
            assert(self@ =~= was.group_closed(kind, warning));
            return false;
        }
        self.groups.pop();
        self.body.append("</g>");
        assert(self@ =~= was.group_closed(kind, warning));
        true
    }

    /// Close the innermost group, which has to be a layer.
    pub fn pop_layer(&mut self)
        ensures
            final(self)@ == old(self)@.layer_popped(),
    {
        self.flush_block();
        self.flush_pending();
        self.close_group(GroupKind::Layer, SvgWarning::UnbalancedLayers);
    }

    /// Open a pick scope.
    #[verifier::spinoff_prover]
    #[verifier::rlimit(40)]
    pub fn push_pick_scope(&mut self, scope: &PickScope)
        ensures
            final(self)@ == old(self)@.scope_pushed(*scope),
    {
        let ghost was = self@;
        if !self.config.pick_ids {
            return;
        }
        self.flush_block();
        self.flush_pending();
        write_scope_open(&mut self.body, scope);
        self.groups.push(GroupKind::Scope);
        self.scope_modes.push(scope.mode);
        assert(self@ =~= was.scope_pushed(*scope));
    }

    /// Close the innermost group, which has to be a pick scope.
    pub fn pop_pick_scope(&mut self)
        ensures
            final(self)@ == old(self)@.scope_popped(),
    {
        let ghost was = self@;
        if !self.config.pick_ids {
            return;
        }
        self.flush_block();
        self.flush_pending();
        if self.close_group(GroupKind::Scope, SvgWarning::UnbalancedScopes) {
            self.scope_modes.pop();
        }
        assert(self@ =~= was.scope_popped());
    }
}

/// Append a length on the root element.
fn write_root_length(out: &mut String, x: Fixed, dpi: Fixed, units: SvgUnits, dec: u8)
    ensures
        final(out)@ == old(out)@ + root_length_text(x, dpi, units, dec as nat),
{
    match units {
        SvgUnits::Px => num(out, x, dec),
        SvgUnits::Pt => {
            let points = if dpi.nanos == 0 {
                Fixed { nanos: 0 }
            } else {
                x.scaled(72 * ONE, dpi.nanos)
            };
            num(out, points, dec);
            out.append("pt");
        },
    }
    assert(out@ =~= old(out)@ + root_length_text(x, dpi, units, dec as nat));
}

/// Append the size attributes of the root element.
fn write_root_size(out: &mut String, size: Size, dpi: Fixed, units: SvgUnits, dec: u8)
    ensures
        final(out)@ == old(out)@ + root_size_text(size, dpi, units, dec as nat),
{
    let ghost start = out@;
    let ghost n = dec as nat;
    out.append("<svg xmlns=\"http://www.w3.org/2000/svg\" width=\"");
    write_root_length(out, size.width, dpi, units, dec);
    out.append("\" height=\"");
    write_root_length(out, size.height, dpi, units, dec);
    out.append("\" viewBox=\"0 0 ");
    num(out, size.width, dec);
    out.append(" ");
    num(out, size.height, dec);
    out.append("\"");
    proof {
        reveal_strlit(" ");
        reveal_strlit("\"");
        assert(" "@ =~= seq![' ']);
        assert("\""@ =~= seq!['"']);
        let a = "<svg xmlns=\"http://www.w3.org/2000/svg\" width=\""@;
        let b = root_length_text(size.width, dpi, units, n);
        let c = "\" height=\""@;
        let d = root_length_text(size.height, dpi, units, n);
        let e = "\" viewBox=\"0 0 "@;
        let f = num_text(size.width, n);
        let g = num_text(size.height, n);
        lemma_append(start, a, b);
        lemma_append(start, a + b, c);
        lemma_append(start, a + b + c, d);
        lemma_append(start, a + b + c + d, e);
        lemma_append(start, a + b + c + d + e, f);
        lemma_append(start, a + b + c + d + e + f, " "@);
        lemma_append(start, a + b + c + d + e + f + " "@, g);
        lemma_append(start, a + b + c + d + e + f + " "@ + g, "\""@);
    }
}

/// Append what the root says of fonts and white space, and end its tag.
fn write_root_font(out: &mut String, root: &RootFont, dec: u8)
    ensures
        final(out)@ == old(out)@ + (root_family_text(root@) + root_font_size_text(
            root@,
            dec as nat,
        ) + root_style_text(root@)),
{
    let ghost start = out@;
    // Named once for the whole document; the text that disagrees names its
    // own and the rest inherit these.
    if let Some(family) = &root.family {
        out.append(" font-family=\"");
        escape_attr(out, family.as_str());
        out.push('"');
    }
    let ghost family_part = root_family_text(root@);
    assert(out@ =~= start + family_part);
    if let Some(size) = root.size {
        out.append(" font-size=\"");
        num(out, size, dec);
        out.push('"');
    }
    let ghost size_part = family_part + root_font_size_text(root@, dec as nat);
    assert(out@ =~= start + size_part);
    // Without a declaration, white-space processing collapses runs of
    // spaces, which changes the width `textLength` is claiming. Isolation
    // scopes any `mix-blend-mode` inside to this document.
    if root.family.is_some() {
        out.append(" xml:space=\"preserve\" style=\"isolation:isolate;white-space:pre\">");
    } else {
        out.append(" style=\"isolation:isolate\">");
    }
    assert(out@ =~= start + (size_part + root_style_text(root@)));
}

/// Append the background, when there is one.
fn write_background(out: &mut String, color: Option<Color>, size: Size, dec: u8)
    ensures
        final(out)@ == old(out)@ + background_text(color, size, dec as nat),
{
    let ghost start = out@;
    if let Some(c) = color {
        let p = solid(c);
        out.append("<rect width=\"");
        num(out, size.width, dec);
        out.append("\" height=\"");
        num(out, size.height, dec);
        out.append("\" fill=\"");
        out.append(p.value.as_str());
        out.push('"');
        let ghost head = "<rect width=\""@ + num_text(size.width, dec as nat) + "\" height=\""@
            + num_text(size.height, dec as nat) + "\" fill=\""@ + p.value@ + seq!['"'];
        assert(out@ =~= start + head);
        if let Some(a) = p.opacity {
            out.append(" fill-opacity=\"");
            num(out, a, 3);
            out.push('"');
        }
        let ghost faded = head + opacity_text(" fill-opacity=\""@, p.opacity, 3);
        assert(out@ =~= start + faded);
        out.append("/>");
        assert(out@ =~= start + (faded + "/>"@));
    } else {
        assert(start =~= start + seq![]);
    }
}

impl Drawing {
    /// The root element's start tag, naming the font in `root_font`.
    fn root_open(&self, root_font: &RootFont) -> (out: String)
        requires
            root_font@ == self@.final_root(),
        ensures
            out@ == self@.root_open_text(),
    {
        let dec = self.config.decimals;
        let mut out = String::new();
        write_root_size(&mut out, self.size, self.dpi, self.config.units, dec);
        let ghost size_part = root_size_text(self@.size, self@.dpi, self@.config.units, dec as nat);
        proof {
            let family = root_family_text(root_font@);
            let size = root_font_size_text(root_font@, dec as nat);
            assert(Seq::<char>::empty() + size_part =~= size_part);
            lemma_append(size_part, family + size, root_style_text(root_font@));
            lemma_append(size_part, family, size);
        }
        write_root_font(&mut out, root_font, dec);
        out
    }

    /// Append everything held back: the open text block's chrome, the block
    /// itself, and a fill waiting for a stroke.
    fn write_held(&self, out: &mut String, tail: &str)
        requires
            tail@ == self@.held_block_text(),
        ensures
            final(out)@ == old(out)@ + self@.prelude + self@.held_block_text()
                + self@.held_fill_text(),
    {
        out.append(self.block_prelude.as_str());
        out.append(tail);
        let targeted = self.innermost_scope_targets();
        match &self.pending {
            Some(p) => write_pending_fill(
                out,
                p,
                self.config.decimals,
                self.config.pick_ids,
                targeted,
            ),
            None => {
                proof {
                    lemma_append_nothing(out@);
                }
            },
        }
    }

    /// Append the end of every group left open, and of the document.
    fn write_close(&self, out: &mut String)
        ensures
            final(out)@ == old(out)@ + closing_text(self@.groups.len()) + "</svg>"@,
    {
        let ghost before = out@;
        proof {
            lemma_append_nothing(before);
        }
        let mut i: usize = 0;
        while i < self.groups.len()
            invariant
                i <= self.groups@.len(),
                out@ == before + closing_text(i as nat),
            decreases self.groups@.len() - i,
        {
            out.append("</g>");
            proof {
                lemma_append(before, closing_text(i as nat), "</g>"@);
            }
            i = i + 1;
        }
        out.append("</svg>");
    }

    /// Append the definitions, with the stylesheet that inlines the faces.
    fn write_defs(&self, out: &mut String)
        ensures
            final(out)@ == old(out)@ + defs_text(
                self@.defs,
                stylesheet_text(self@.fonts, self@.config.embed_fonts),
            ),
    {
        // Derived from the whole document, which fonts it used, so it is
        // only known once drawing is done.
        let style = self.fonts.stylesheet(self.config.embed_fonts);
        match &style {
            Some(css) => self.defs.write(out, Some(css.as_str())),
            None => self.defs.write(out, None),
        }
    }

    /// Serialize the whole document.
    #[verifier::spinoff_prover]
    #[verifier::rlimit(40)]
    pub fn to_svg(&self) -> (out: String)
        ensures
            out@ == self@.document(),
    {
        let dec = self.config.decimals;
        let targeted = self.innermost_scope_targets();
        // The block still open at write time can be the one that names the
        // font the root carries, so it is emitted before the header that
        // hoists it. Against a copy rather than the scene's own, so
        // serializing twice gives the same bytes twice.
        let mut root_font = self.root_font.copied();
        let mut tail = String::new();
        write_block(
            &mut tail,
            &self.block,
            dec,
            self.config.pick_ids,
            targeted,
            &mut root_font,
        );
        proof {
            lemma_append_nothing(self@.held_block_text());
        }
        // No `<?xml` declaration: it is optional, and omitting it lets the
        // same bytes serve as a standalone file and as an inline fragment.
        let mut out = self.root_open(&root_font);
        self.write_defs(&mut out);
        write_background(&mut out, self.config.background, self.size, dec);
        out.append(self.body.as_str());
        self.write_held(&mut out, tail.as_str());
        // A scene may leave layers open; closing them keeps the document
        // well-formed, which matters more than the warning.
        self.write_close(&mut out);
        out
    }
}

/// Describe a glyph run for emission, painted with `paint`.
fn prepare(
    run: &GlyphRun,
    src: &TextSource,
    pick_id: PickId,
    paint: Paint,
    embed: bool,
) -> (r: PendingRun)
    requires
        run.glyphs@.len() > 0,
    ensures
        r@ == run_view(*run, *src, pick_id, paint@, embed),
{
    let first = run.glyphs[0];
    let scaled = scale_alpha(paint, run.brush_alpha);
    let (fill, stroke) = match &run.style {
        Some(s) => (None, Some((scaled, s.width))),
        None => (Some(scaled), None),
    };
    let mut spec = src.font.copied();
    if embed {
        if let Some(name) = &run.face.family {
            let ghost before = spec@;
            let ghost inner = spec.families@;
            spec.families.insert(0, FontFamilyEntry::Named(name.clone()));
            assert(spec@.families =~= seq![FamilyView::Named(name@)] + before.families) by {
                assert forall|i: int| 0 <= i < inner.len() implies spec.families@[i + 1]
                    == inner[i] by {}
            }
        }
    }
    let link = match &src.link {
        Some(l) => Some(Link { url: l.url.clone(), safe: l.safe }),
        None => None,
    };
    let r = PendingRun {
        group: src.group,
        text: src.text.clone(),
        x: first.x,
        y: first.y,
        advance: src.advance,
        font_size: run.font_size,
        spec,
        rtl: src.rtl,
        link,
        underline: src.underline.is_some(),
        strikethrough: src.strikethrough.is_some(),
        rules: predicted_rules(src, first.x, first.y),
        fill,
        stroke,
        transform: run.transform,
        pick: pick_id,
    };
    assert(r@ =~= run_view(*run, *src, pick_id, paint@, embed));
    r
}

} // verus!
