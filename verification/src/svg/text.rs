//! Glyph runs to `<text>`: the reason this backend exists.
//!
//! A run is placed by one `x`/`y` anchor plus `textLength` rather than by
//! pinning every character's x: positions derived from this shaping would be
//! wrong for whatever face another machine resolves, while `textLength`
//! claims only what is true regardless of face.
//!
//! Every run of a block goes into one `<text>` as sibling `<tspan>`s, which
//! an editor imports as a single text object.

use vstd::prelude::*;

use super::attrs::{
    paint_attr_text, pick_text, write_paint_attr, write_pick_to, PickId, Stroke,
};
use super::font::{
    font_eq, font_root, font_text, write_font_attrs, FontSpec, FontView, RootFont, RootView,
};
use super::fragment::FaceRule;
use super::paint::{paint_eq, paint_option_view, Brush, Paint, PaintView};
use super::writer::{
    attr_text, content_text, escape_attr, escape_text, transform_attr, transform_text,
};
use crate::fixed::{num, num_text, Fixed};
use crate::geometry::{Affine, Path, Point, Rect};
use crate::text::{lemma_append, lemma_append_nothing};

verus! {

/// Which runs belong to one piece of text.
#[derive(Debug, Clone, Copy, PartialEq, Eq, Structural)]
pub struct TextGroup {
    pub id: u64,
}

/// A hyperlink, and whether its scheme may be followed from a document.
#[derive(Debug)]
pub struct Link {
    pub url: String,
    pub safe: bool,
}

/// A hyperlink as plain values.
#[verifier::ext_equal]
pub struct LinkView {
    pub url: Seq<char>,
    pub safe: bool,
}

/// A decoration line: how far above the baseline its top lies, and how
/// thick it is.
#[derive(Debug, Clone, Copy, PartialEq, Eq, Structural)]
pub struct Rule {
    pub offset: Fixed,
    pub thickness: Fixed,
}

/// The text a glyph run was shaped from.
#[derive(Debug)]
pub struct TextSource {
    pub group: TextGroup,
    pub text: String,
    pub advance: Fixed,
    pub font: FontSpec,
    pub rtl: bool,
    pub link: Option<Link>,
    pub underline: Option<Rule>,
    pub strikethrough: Option<Rule>,
}

/// The face a run was shaped with, as far as a document can refer to it.
#[derive(Debug)]
pub struct Face {
    /// The family the face resolved to, when it has a name.
    pub family: Option<String>,
    /// The `@font-face` rule that inlines it, when it can be inlined.
    pub rule: Option<FaceRule>,
}

/// Glyphs of one face at one size, with the text they came from.
#[derive(Debug)]
pub struct GlyphRun {
    /// Where each glyph stands, on the baseline.
    pub glyphs: Vec<Point>,
    pub source: Option<TextSource>,
    pub brush: Brush,
    pub brush_alpha: Fixed,
    /// How to stroke the contours; `None` fills them.
    pub style: Option<Stroke>,
    pub font_size: Fixed,
    pub transform: Affine,
    pub face: Face,
    /// The contours, when the face has any.
    pub outline: Option<Path>,
}

/// One run held for emission, so that a block can be assembled across
/// several draw calls.
#[derive(Debug)]
pub struct PendingRun {
    pub group: TextGroup,
    pub text: String,
    pub x: Fixed,
    pub y: Fixed,
    pub advance: Fixed,
    pub font_size: Fixed,
    pub spec: FontSpec,
    pub rtl: bool,
    pub link: Option<Link>,
    pub underline: bool,
    pub strikethrough: bool,
    /// Rects the decorations above will arrive as, so they can be dropped
    /// rather than drawn twice.
    pub rules: Vec<Rect>,
    /// Fill paint, when a fill pass contributed this run.
    pub fill: Option<Paint>,
    /// Stroke paint and width, when an outline pass contributed it.
    pub stroke: Option<(Paint, Fixed)>,
    pub transform: Affine,
    pub pick: PickId,
}

/// One run as plain values.
#[verifier::ext_equal]
pub struct RunView {
    pub group: TextGroup,
    pub text: Seq<char>,
    pub x: Fixed,
    pub y: Fixed,
    pub advance: Fixed,
    pub font_size: Fixed,
    pub spec: FontView,
    pub rtl: bool,
    pub link: Option<LinkView>,
    pub underline: bool,
    pub strikethrough: bool,
    pub rules: Seq<Rect>,
    pub fill: Option<PaintView>,
    pub stroke: Option<(PaintView, Fixed)>,
    pub transform: Affine,
    pub pick: PickId,
}

/// An optional link as plain values.
pub open spec fn link_view(link: Option<Link>) -> Option<LinkView> {
    match link {
        Some(l) => Some(LinkView { url: l.url@, safe: l.safe }),
        None => None,
    }
}

/// An optional stroke as plain values.
pub open spec fn halo_view(stroke: Option<(Paint, Fixed)>) -> Option<(PaintView, Fixed)> {
    match stroke {
        Some((p, w)) => Some((p@, w)),
        None => None,
    }
}

impl View for PendingRun {
    type V = RunView;

    open spec fn view(&self) -> RunView {
        RunView {
            group: self.group,
            text: self.text@,
            x: self.x,
            y: self.y,
            advance: self.advance,
            font_size: self.font_size,
            spec: self.spec@,
            rtl: self.rtl,
            link: link_view(self.link),
            underline: self.underline,
            strikethrough: self.strikethrough,
            rules: self.rules@,
            fill: paint_option_view(self.fill),
            stroke: halo_view(self.stroke),
            transform: self.transform,
            pick: self.pick,
        }
    }
}

/// A block of runs accumulating toward one `<text>` element.
#[derive(Debug)]
pub struct TextBlock {
    pub group: Option<TextGroup>,
    pub runs: Vec<PendingRun>,
}

/// A block as plain values.
#[verifier::ext_equal]
pub struct BlockView {
    pub group: Option<TextGroup>,
    pub runs: Seq<RunView>,
}

impl View for TextBlock {
    type V = BlockView;

    open spec fn view(&self) -> BlockView {
        BlockView {
            group: self.group,
            runs: Seq::new(self.runs@.len(), |i: int| self.runs@[i]@),
        }
    }
}

/// The block with nothing in it.
pub open spec fn empty_block() -> BlockView {
    BlockView { group: None, runs: seq![] }
}

/// How far a drawn rule may lie from the predicted one: a twentieth.
pub const RULE_TOLERANCE: i64 = 50_000_000;

/// True when two coordinates of a rule agree.
pub open spec fn rule_near(a: Fixed, b: Fixed) -> bool {
    -RULE_TOLERANCE < a.nanos - b.nanos < RULE_TOLERANCE
}

/// True when two rules agree on every side.
pub open spec fn same_rule(a: Rect, b: Rect) -> bool {
    rule_near(a.x0, b.x0) && rule_near(a.x1, b.x1) && rule_near(a.y0, b.y0) && rule_near(
        a.y1,
        b.y1,
    )
}

/// True when some rule among `rules` is `rect`.
pub open spec fn rule_listed(rules: Seq<Rect>, rect: Rect) -> bool {
    exists|j: int| 0 <= j < rules.len() && same_rule(#[trigger] rules[j], rect)
}

/// True when `rect` is a decoration one of the runs declared.
pub open spec fn claims(runs: Seq<RunView>, rect: Rect) -> bool {
    exists|i: int| 0 <= i < runs.len() && rule_listed((#[trigger] runs[i]).rules, rect)
}

/// True when a run of `group` under `transform` belongs to the block.
pub open spec fn accepts_run(block: BlockView, group: TextGroup, transform: Affine) -> bool {
    block.group == Some(group) && block.runs.len() > 0 && block.runs[0].transform == transform
}

/// True when two runs put the same characters in the same place.
pub open spec fn same_spot(a: RunView, b: RunView) -> bool {
    a.x == b.x && a.y == b.y && a.text == b.text
}

/// The first run, from `i` on, that puts the same characters in the same
/// place; the number of runs when there is none.
pub open spec fn first_same_spot(runs: Seq<RunView>, run: RunView, i: int) -> int
    decreases runs.len() - i,
{
    if i >= runs.len() {
        runs.len() as int
    } else if same_spot(runs[i], run) {
        i
    } else {
        first_same_spot(runs, run, i + 1)
    }
}

/// Two passes over the same characters as one run: each pass contributes its
/// own paint, and the fill pass owns picking and decorations.
pub open spec fn merged_run(existing: RunView, run: RunView) -> RunView {
    let filled = if run.fill is Some {
        RunView {
            fill: run.fill,
            pick: run.pick,
            underline: existing.underline || run.underline,
            strikethrough: existing.strikethrough || run.strikethrough,
            ..existing
        }
    } else {
        existing
    };
    if run.stroke is Some {
        RunView { stroke: run.stroke, ..filled }
    } else {
        filled
    }
}

/// The block with `run` in it.
pub open spec fn block_with(block: BlockView, run: RunView) -> BlockView {
    let i = first_same_spot(block.runs, run, 0);
    if i < block.runs.len() {
        BlockView { runs: block.runs.update(i, merged_run(block.runs[i], run)), ..block }
    } else {
        BlockView { group: Some(run.group), runs: block.runs.push(run) }
    }
}

fn is_rule_near(a: Fixed, b: Fixed) -> (r: bool)
    ensures
        r == rule_near(a, b),
{
    let d: i128 = a.nanos as i128 - b.nanos as i128;
    -(RULE_TOLERANCE as i128) < d && d < RULE_TOLERANCE as i128
}

impl TextBlock {
    /// A block with nothing in it.
    pub fn new() -> (r: TextBlock)
        ensures
            r@ == empty_block(),
    {
        let r = TextBlock { group: None, runs: Vec::new() };
        assert(r@.runs =~= seq![]);
        r
    }

    /// True when `rect` is a decoration one of these runs declared.
    ///
    /// Compared with a tolerance because the rect is rebuilt from the same
    /// numbers by a different route.
    pub fn claims_rule(&self, rect: Rect) -> (r: bool)
        ensures
            r == claims(self@.runs, rect),
    {
        let mut i: usize = 0;
        while i < self.runs.len()
            invariant
                i <= self.runs@.len(),
                forall|k: int| 0 <= k < i ==> !rule_listed((#[trigger] self@.runs[k]).rules, rect),
            decreases self.runs@.len() - i,
        {
            let rules = &self.runs[i].rules;
            assert(self@.runs[i as int].rules == rules@);
            let mut j: usize = 0;
            while j < rules.len()
                invariant
                    i < self.runs@.len(),
                    j <= rules@.len(),
                    self@.runs[i as int].rules == rules@,
                    forall|k: int| 0 <= k < j ==> !same_rule(#[trigger] rules@[k], rect),
                decreases rules@.len() - j,
            {
                let r = rules[j];
                if is_rule_near(r.x0, rect.x0) && is_rule_near(r.x1, rect.x1) && is_rule_near(
                    r.y0,
                    rect.y0,
                ) && is_rule_near(r.y1, rect.y1) {
                    assert(same_rule(rules@[j as int], rect));
                    assert(rule_listed(self@.runs[i as int].rules, rect));
                    return true;
                }
                j = j + 1;
            }
            i = i + 1;
        }
        false
    }

    /// True when a run of `group` under `transform` belongs to the block
    /// currently accumulating.
    pub fn accepts(&self, group: TextGroup, transform: Affine) -> (r: bool)
        ensures
            r == accepts_run(self@, group, transform),
    {
        match self.group {
            Some(g) => self.runs.len() > 0 && g == group && self.runs[0].transform == transform,
            None => false,
        }
    }

    /// Add `run`, merging it into an existing run at the same place.
    ///
    /// The outline pass and the fill pass draw the same characters at the
    /// same position; merging them gives one element with both a `stroke`
    /// and a `fill` rather than two stacked copies of the text, which would
    /// be two objects to an editor.
    pub fn push(&mut self, run: PendingRun)
        ensures
            final(self)@ == block_with(old(self)@, run@),
    {
        let mut i: usize = 0;
        while i < self.runs.len()
            invariant
                i <= self.runs@.len(),
                *self == *old(self),
                first_same_spot(self@.runs, run@, 0) == first_same_spot(
                    self@.runs,
                    run@,
                    i as int,
                ),
            decreases self.runs@.len() - i,
        {
            let here = self.runs[i].x == run.x && self.runs[i].y == run.y && self.runs[i].text
                == run.text;
            assert(here == same_spot(self@.runs[i as int], run@));
            if here {
                let ghost before = self@;
                let ghost was = self.runs@[i as int];
                let existing = &mut self.runs[i];
                if run.fill.is_some() {
                    existing.fill = run.fill;
                    // The fill pass owns picking and decorations.
                    existing.pick = run.pick;
                    existing.underline = existing.underline || run.underline;
                    existing.strikethrough = existing.strikethrough || run.strikethrough;
                }
                if run.stroke.is_some() {
                    existing.stroke = run.stroke;
                }
                assert(self.runs@[i as int]@ == merged_run(was@, run@));
                assert(self@.runs =~= before.runs.update(
                    i as int,
                    merged_run(before.runs[i as int], run@),
                ));
                return;
            }
            i = i + 1;
        }
        let ghost before = self@;
        self.group = Some(run.group);
        self.runs.push(run);
        assert(self@.runs =~= before.runs.push(run@));
    }
}

proof fn lemma_first_same_spot_is_shared(
    runs: Seq<RunView>,
    a: RunView,
    b: RunView,
    i: int,
)
    requires
        0 <= i <= runs.len(),
        same_spot(a, b),
        first_same_spot(runs, a, i) == runs.len(),
    ensures
        first_same_spot(runs.push(a), b, i) == runs.len(),
    decreases runs.len() - i,
{
    let more = runs.push(a);
    if i < runs.len() {
        assert(more[i] == runs[i]);
        lemma_first_same_spot_is_shared(runs, a, b, i + 1);
    } else {
        assert(more[i] == a);
    }
}

/// Two passes over the same characters in the same place, the outline and the
/// fill, make one run that carries both paints.
pub proof fn lemma_passes_over_the_same_text_are_one_run(
    block: BlockView,
    outline: RunView,
    fill: RunView,
)
    requires
        first_same_spot(block.runs, outline, 0) == block.runs.len(),
        same_spot(outline, fill),
        outline.stroke is Some && outline.fill is None,
        fill.fill is Some && fill.stroke is None,
    ensures
        ({
            let after = block_with(block_with(block, outline), fill);
            &&& after.runs.len() == block.runs.len() + 1
            &&& after.runs.last().text == fill.text
            &&& after.runs.last().stroke == outline.stroke
            &&& after.runs.last().fill == fill.fill
            &&& after.runs.last().pick == fill.pick
        }),
{
    lemma_first_same_spot_is_shared(block.runs, outline, fill, 0);
}

/// The rect a decoration rule is drawn as; nothing for one without
/// thickness. The offset is measured upwards, so it is subtracted.
pub open spec fn rule_rects(rule: Option<Rule>, x: Fixed, y: Fixed, advance: Fixed) -> Seq<Rect> {
    match rule {
        Some(r) => if r.thickness.nanos > 0 {
            let top = y.spec_minus(r.offset);
            seq![
                Rect { x0: x, y0: top, x1: x.spec_plus(advance), y1: top.spec_plus(r.thickness) },
            ]
        } else {
            seq![]
        },
        None => seq![],
    }
}

/// The rects a run's decorations are drawn as, the underline first.
pub open spec fn predicted(src: TextSource, x: Fixed, y: Fixed) -> Seq<Rect> {
    rule_rects(src.underline, x, y, src.advance) + rule_rects(
        src.strikethrough,
        x,
        y,
        src.advance,
    )
}

fn push_rule(out: &mut Vec<Rect>, rule: Option<Rule>, x: Fixed, y: Fixed, advance: Fixed)
    ensures
        final(out)@ == old(out)@ + rule_rects(rule, x, y, advance),
{
    if let Some(r) = rule {
        if r.thickness.nanos > 0 {
            let top = y.minus(r.offset);
            out.push(Rect { x0: x, y0: top, x1: x.plus(advance), y1: top.plus(r.thickness) });
        }
    }
    assert(out@ =~= old(out)@ + rule_rects(rule, x, y, advance));
}

/// The rects the shaper will emit for this run's decorations.
///
/// The rules are drawn as ordinary fills, while `text-decoration` is the
/// semantic form. Suppression works by predicting the rect rather than by
/// guessing what a passing rect might mean, so a fill that was not predicted
/// is always drawn.
pub fn predicted_rules(src: &TextSource, x: Fixed, y: Fixed) -> (r: Vec<Rect>)
    ensures
        r@ == predicted(*src, x, y),
{
    let mut r: Vec<Rect> = Vec::new();
    push_rule(&mut r, src.underline, x, y, src.advance);
    push_rule(&mut r, src.strikethrough, x, y, src.advance);
    assert(r@ =~= predicted(*src, x, y));
    r
}

/// Attributes every run in a block agrees on, hoisted to the parent.
pub struct Shared<'a> {
    pub spec: Option<&'a FontSpec>,
    pub font_size: Fixed,
    pub fill: Option<&'a Paint>,
}

/// What a block's runs agree on, as plain values.
#[verifier::ext_equal]
pub struct SharedView {
    pub spec: Option<FontView>,
    pub font_size: Fixed,
    pub fill: Option<PaintView>,
}

impl<'a> View for Shared<'a> {
    type V = SharedView;

    open spec fn view(&self) -> SharedView {
        SharedView {
            spec: match self.spec {
                Some(s) => Some(s@),
                None => None,
            },
            font_size: self.font_size,
            fill: match self.fill {
                Some(p) => Some(p@),
                None => None,
            },
        }
    }
}

/// True when the first `n` runs name one face at one size.
pub open spec fn one_font(runs: Seq<RunView>, n: int) -> bool {
    forall|i: int|
        0 < i < n ==> (#[trigger] runs[i]).spec == runs[i - 1].spec && runs[i].font_size == runs[i
            - 1].font_size
}

/// True when the first `n` runs are filled alike.
pub open spec fn one_fill(runs: Seq<RunView>, n: int) -> bool {
    forall|i: int| 0 < i < n ==> (#[trigger] runs[i]).fill == runs[i - 1].fill
}

/// What a block's runs agree on. The block holds at least one run.
pub open spec fn shared_of(runs: Seq<RunView>) -> SharedView {
    SharedView {
        spec: if one_font(runs, runs.len() as int) {
            Some(runs[0].spec)
        } else {
            None
        },
        font_size: runs[0].font_size,
        fill: if one_fill(runs, runs.len() as int) {
            runs[0].fill
        } else {
            None
        },
    }
}

impl<'a> Shared<'a> {
    /// What the runs of `block` agree on.
    pub fn of(block: &'a TextBlock) -> (r: Shared<'a>)
        requires
            block@.runs.len() > 0,
        ensures
            r@ == shared_of(block@.runs),
    {
        let mut same_font = true;
        let mut same_fill = true;
        let ghost runs = block@.runs;
        let mut i: usize = 1;
        while i < block.runs.len()
            invariant
                1 <= i <= block.runs@.len(),
                runs == block@.runs,
                same_font == one_font(runs, i as int),
                same_fill == one_fill(runs, i as int),
            decreases block.runs@.len() - i,
        {
            let a = &block.runs[i - 1];
            let b = &block.runs[i];
            assert(runs[i as int] == b@);
            assert(runs[i - 1] == a@);
            let fonts_agree = font_eq(&b.spec, &a.spec) && b.font_size == a.font_size;
            let fills_agree = paint_eq(a.fill.as_ref(), b.fill.as_ref());
            assert(one_font(runs, i + 1) == (one_font(runs, i as int) && fonts_agree));
            assert(one_fill(runs, i + 1) == (one_fill(runs, i as int) && fills_agree));
            same_font = same_font && fonts_agree;
            same_fill = same_fill && fills_agree;
            i = i + 1;
        }
        let first = &block.runs[0];
        assert(runs[0] == first@);
        Shared {
            spec: if same_font {
                Some(&first.spec)
            } else {
                None
            },
            font_size: first.font_size,
            fill: if same_fill {
                first.fill.as_ref()
            } else {
                None
            },
        }
    }
}

/// The opening of a link, when there is one that may be followed.
pub open spec fn link_open_text(link: Option<LinkView>) -> Seq<char> {
    match link {
        Some(l) => if l.safe {
            "<a href=\""@ + attr_text(l.url)
                + "\" target=\"_blank\" rel=\"noopener noreferrer\">"@
        } else {
            seq![]
        },
        None => seq![],
    }
}

/// The closing of a link, when there is one that may be followed.
pub open spec fn link_close_text(link: Option<LinkView>) -> Seq<char> {
    match link {
        Some(l) => if l.safe {
            "</a>"@
        } else {
            seq![]
        },
        None => seq![],
    }
}

/// The anchor of a run.
pub open spec fn anchor_text(run: RunView, dec: nat) -> Seq<char> {
    "<tspan x=\""@ + num_text(run.x, dec) + "\" y=\""@ + num_text(run.y, dec) + seq!['"']
}

/// The width a run claims, when it has one.
pub open spec fn length_text(advance: Fixed, dec: nat) -> Seq<char> {
    if advance.nanos > 0 {
        " textLength=\""@ + num_text(advance, dec) + "\" lengthAdjust=\"spacingAndGlyphs\""@
    } else {
        seq![]
    }
}

/// What a run says of its face: nothing when the block says it already.
pub open spec fn run_font_text(
    run: RunView,
    shared: SharedView,
    dec: nat,
    root: RootView,
) -> Seq<char> {
    if shared.spec is None {
        font_text(run.spec, run.font_size, dec, root)
    } else {
        seq![]
    }
}

/// What a run says of its fill: nothing when the block says it already.
pub open spec fn run_fill_text(run: RunView, shared: SharedView, dec: nat) -> Seq<char> {
    match (shared.fill, run.fill) {
        (None, Some(p)) => paint_attr_text("fill"@, p, dec),
        _ => seq![],
    }
}

/// The halo behind a run: painted under the fill, and without a fill where
/// no fill pass came.
pub open spec fn run_stroke_text(run: RunView, dec: nat) -> Seq<char> {
    match run.stroke {
        Some((p, width)) => paint_attr_text("stroke"@, p, dec) + " stroke-width=\""@ + num_text(
            width,
            dec,
        ) + "\" paint-order=\"stroke fill\""@ + if run.fill is None {
            " fill=\"none\""@
        } else {
            seq![]
        },
        None => seq![],
    }
}

/// The decoration lines of a run.
pub open spec fn decoration_text(underline: bool, strikethrough: bool) -> Seq<char> {
    if underline && strikethrough {
        " text-decoration-line=\"underline line-through\""@
    } else if underline {
        " text-decoration-line=\"underline\""@
    } else if strikethrough {
        " text-decoration-line=\"line-through\""@
    } else {
        seq![]
    }
}

/// The direction of a run; left to right is the default.
pub open spec fn direction_text(rtl: bool) -> Seq<char> {
    if rtl {
        " direction=\"rtl\" unicode-bidi=\"bidi-override\""@
    } else {
        seq![]
    }
}

/// Everything in a run's start tag after its anchor.
pub open spec fn run_attrs_text(
    run: RunView,
    shared: SharedView,
    dec: nat,
    pick_ids: bool,
    targeted: bool,
    root: RootView,
) -> Seq<char> {
    length_text(run.advance, dec) + run_font_text(run, shared, dec, root) + run_fill_text(
        run,
        shared,
        dec,
    ) + run_stroke_text(run, dec) + decoration_text(run.underline, run.strikethrough)
        + direction_text(run.rtl) + pick_text(run.pick, pick_ids, targeted)
}

/// One run as markup, wrapped in its link.
pub open spec fn tspan_text(
    run: RunView,
    shared: SharedView,
    dec: nat,
    pick_ids: bool,
    targeted: bool,
    root: RootView,
) -> Seq<char> {
    link_open_text(run.link) + anchor_text(run, dec) + run_attrs_text(
        run,
        shared,
        dec,
        pick_ids,
        targeted,
        root,
    ) + seq!['>'] + content_text(run.text) + "</tspan>"@ + link_close_text(run.link)
}

/// The root once a run has been written.
pub open spec fn tspan_root(run: RunView, shared: SharedView, root: RootView) -> RootView {
    if shared.spec is None {
        font_root(run.spec, run.font_size, root)
    } else {
        root
    }
}

fn write_halo(out: &mut String, run: &PendingRun, decimals: u8)
    ensures
        final(out)@ == old(out)@ + run_stroke_text(run@, decimals as nat),
{
    let ghost start = out@;
    let ghost dec = decimals as nat;
    if let Some((p, width)) = &run.stroke {
        write_paint_attr(out, "stroke", p, decimals);
        let ghost paint_part = paint_attr_text("stroke"@, p@, dec);
        out.append(" stroke-width=\"");
        num(out, *width, decimals);
        // The stroke is a halo behind the glyph, not over it.
        out.append("\" paint-order=\"stroke fill\"");
        let ghost width_part = paint_part + " stroke-width=\""@ + num_text(*width, dec)
            + "\" paint-order=\"stroke fill\""@;
        assert(out@ =~= start + width_part);
        if run.fill.is_none() {
            out.append(" fill=\"none\"");
        }
    }
    assert(out@ =~= start + run_stroke_text(run@, dec));
}

fn write_decoration(out: &mut String, underline: bool, strikethrough: bool)
    ensures
        final(out)@ == old(out)@ + decoration_text(underline, strikethrough),
{
    let ghost start = out@;
    if underline && strikethrough {
        out.append(" text-decoration-line=\"underline line-through\"");
    } else if underline {
        out.append(" text-decoration-line=\"underline\"");
    } else if strikethrough {
        out.append(" text-decoration-line=\"line-through\"");
    }
    assert(out@ =~= start + decoration_text(underline, strikethrough));
}

fn write_length(out: &mut String, advance: Fixed, decimals: u8)
    ensures
        final(out)@ == old(out)@ + length_text(advance, decimals as nat),
{
    if advance.nanos > 0 {
        out.append(" textLength=\"");
        num(out, advance, decimals);
        // Guarantees the run occupies the box the layout solved for,
        // whatever face the viewer resolves.
        out.append("\" lengthAdjust=\"spacingAndGlyphs\"");
    }
    assert(out@ =~= old(out)@ + length_text(advance, decimals as nat));
}

fn write_direction(out: &mut String, rtl: bool)
    ensures
        final(out)@ == old(out)@ + direction_text(rtl),
{
    if rtl {
        out.append(" direction=\"rtl\" unicode-bidi=\"bidi-override\"");
    }
    assert(out@ =~= old(out)@ + direction_text(rtl));
}

fn write_run_font(
    out: &mut String,
    run: &PendingRun,
    shared: &Shared<'_>,
    decimals: u8,
    root: &mut RootFont,
)
    ensures
        final(out)@ == old(out)@ + run_font_text(run@, shared@, decimals as nat, old(root)@),
        final(root)@ == tspan_root(run@, shared@, old(root)@),
{
    if shared.spec.is_none() {
        write_font_attrs(out, &run.spec, run.font_size, decimals, root);
    } else {
        assert(out@ =~= old(out)@ + seq![]);
    }
}

fn write_run_fill(out: &mut String, run: &PendingRun, shared: &Shared<'_>, decimals: u8)
    ensures
        final(out)@ == old(out)@ + run_fill_text(run@, shared@, decimals as nat),
{
    let ghost start = out@;
    assert(start =~= start + seq![]);
    if shared.fill.is_none() {
        if let Some(p) = &run.fill {
            write_paint_attr(out, "fill", p, decimals);
        }
    }
}

fn write_run_attrs(
    out: &mut String,
    run: &PendingRun,
    shared: &Shared<'_>,
    decimals: u8,
    pick_ids: bool,
    targeted: bool,
    root: &mut RootFont,
)
    ensures
        final(out)@ == old(out)@ + run_attrs_text(
            run@,
            shared@,
            decimals as nat,
            pick_ids,
            targeted,
            old(root)@,
        ),
        final(root)@ == tspan_root(run@, shared@, old(root)@),
{
    let ghost start = out@;
    let ghost dec = decimals as nat;
    let ghost a = length_text(run@.advance, dec);
    let ghost b = run_font_text(run@, shared@, dec, root@);
    let ghost c = run_fill_text(run@, shared@, dec);
    let ghost d = run_stroke_text(run@, dec);
    let ghost e = decoration_text(run@.underline, run@.strikethrough);
    let ghost f = direction_text(run@.rtl);
    let ghost g = pick_text(run@.pick, pick_ids, targeted);
    write_length(out, run.advance, decimals);
    write_run_font(out, run, shared, decimals, root);
    write_run_fill(out, run, shared, decimals);
    write_halo(out, run, decimals);
    write_decoration(out, run.underline, run.strikethrough);
    write_direction(out, run.rtl);
    write_pick_to(out, run.pick, pick_ids, targeted);
    proof {
        lemma_append(start, a, b);
        lemma_append(start, a + b, c);
        lemma_append(start, a + b + c, d);
        lemma_append(start, a + b + c + d, e);
        lemma_append(start, a + b + c + d + e, f);
        lemma_append(start, a + b + c + d + e + f, g);
    }
}

fn write_link_open(out: &mut String, link: &Option<Link>)
    ensures
        final(out)@ == old(out)@ + link_open_text(link_view(*link)),
{
    if let Some(l) = link {
        if l.safe {
            out.append("<a href=\"");
            escape_attr(out, l.url.as_str());
            // A document opened from a page would otherwise navigate the
            // embedding one away.
            out.append("\" target=\"_blank\" rel=\"noopener noreferrer\">");
        }
    }
    assert(out@ =~= old(out)@ + link_open_text(link_view(*link)));
}

fn write_link_close(out: &mut String, link: &Option<Link>)
    ensures
        final(out)@ == old(out)@ + link_close_text(link_view(*link)),
{
    if let Some(l) = link {
        if l.safe {
            out.append("</a>");
        }
    }
    assert(out@ =~= old(out)@ + link_close_text(link_view(*link)));
}

fn write_anchor(out: &mut String, run: &PendingRun, decimals: u8)
    ensures
        final(out)@ == old(out)@ + anchor_text(run@, decimals as nat),
{
    out.append("<tspan x=\"");
    num(out, run.x, decimals);
    out.append("\" y=\"");
    num(out, run.y, decimals);
    out.push('"');
    assert(out@ =~= old(out)@ + anchor_text(run@, decimals as nat));
}

/// Emit one run as a `<tspan>`, wrapped in `<a>` when it carries a link.
pub fn write_tspan(
    out: &mut String,
    run: &PendingRun,
    shared: &Shared<'_>,
    decimals: u8,
    pick_ids: bool,
    targeted: bool,
    root: &mut RootFont,
)
    ensures
        final(out)@ == old(out)@ + tspan_text(
            run@,
            shared@,
            decimals as nat,
            pick_ids,
            targeted,
            old(root)@,
        ),
        final(root)@ == tspan_root(run@, shared@, old(root)@),
{
    let ghost start = out@;
    let ghost dec = decimals as nat;
    let ghost a = link_open_text(run@.link);
    let ghost b = anchor_text(run@, dec);
    let ghost c = run_attrs_text(run@, shared@, dec, pick_ids, targeted, root@);
    let ghost d = seq!['>'];
    let ghost e = content_text(run@.text);
    let ghost f = "</tspan>"@;
    let ghost g = link_close_text(run@.link);
    write_link_open(out, &run.link);
    write_anchor(out, run, decimals);
    write_run_attrs(out, run, shared, decimals, pick_ids, targeted, root);
    out.append(">");
    escape_text(out, run.text.as_str());
    out.append("</tspan>");
    write_link_close(out, &run.link);
    proof {
        reveal_strlit(">");
        assert(">"@ =~= d);
        lemma_append(start, a, b);
        lemma_append(start, a + b, c);
        lemma_append(start, a + b + c, d);
        lemma_append(start, a + b + c + d, e);
        lemma_append(start, a + b + c + d + e, f);
        lemma_append(start, a + b + c + d + e + f, g);
    }
}

/// The root once the first `n` runs have been written.
pub open spec fn tspans_root(
    runs: Seq<RunView>,
    n: nat,
    shared: SharedView,
    root: RootView,
) -> RootView
    decreases n,
{
    if n == 0 {
        root
    } else {
        tspan_root(runs[n - 1], shared, tspans_root(runs, (n - 1) as nat, shared, root))
    }
}

/// The first `n` runs as markup, each against the root its predecessors left.
pub open spec fn tspans_text(
    runs: Seq<RunView>,
    n: nat,
    shared: SharedView,
    dec: nat,
    pick_ids: bool,
    targeted: bool,
    root: RootView,
) -> Seq<char>
    decreases n,
{
    if n == 0 {
        seq![]
    } else {
        tspans_text(runs, (n - 1) as nat, shared, dec, pick_ids, targeted, root) + tspan_text(
            runs[n - 1],
            shared,
            dec,
            pick_ids,
            targeted,
            tspans_root(runs, (n - 1) as nat, shared, root),
        )
    }
}

/// The face a block names for all its runs.
pub open spec fn block_font_text(shared: SharedView, dec: nat, root: RootView) -> Seq<char> {
    match shared.spec {
        Some(spec) => font_text(spec, shared.font_size, dec, root),
        None => seq![],
    }
}

/// The root once a block has named its face.
pub open spec fn block_font_root(shared: SharedView, root: RootView) -> RootView {
    match shared.spec {
        Some(spec) => font_root(spec, shared.font_size, root),
        None => root,
    }
}

/// The fill a block names for all its runs.
pub open spec fn block_fill_text(shared: SharedView, dec: nat) -> Seq<char> {
    match shared.fill {
        Some(p) => paint_attr_text("fill"@, p, dec),
        None => seq![],
    }
}

/// A block's start tag.
pub open spec fn block_open_text(runs: Seq<RunView>, dec: nat, root: RootView) -> Seq<char> {
    let shared = shared_of(runs);
    "<text"@ + block_font_text(shared, dec, root) + block_fill_text(shared, dec) + transform_text(
        runs[0].transform,
        dec,
    ) + seq!['>']
}

/// A block as one `<text>` element; nothing when it holds no run.
pub open spec fn block_text(
    runs: Seq<RunView>,
    dec: nat,
    pick_ids: bool,
    targeted: bool,
    root: RootView,
) -> Seq<char> {
    if runs.len() == 0 {
        seq![]
    } else {
        let shared = shared_of(runs);
        block_open_text(runs, dec, root) + tspans_text(
            runs,
            runs.len(),
            shared,
            dec,
            pick_ids,
            targeted,
            block_font_root(shared, root),
        ) + "</text>"@
    }
}

/// The root once a block has been written.
pub open spec fn block_root(runs: Seq<RunView>, root: RootView) -> RootView {
    if runs.len() == 0 {
        root
    } else {
        let shared = shared_of(runs);
        tspans_root(runs, runs.len(), shared, block_font_root(shared, root))
    }
}

/// Append a block's start tag.
fn write_block_open(
    out: &mut String,
    block: &TextBlock,
    shared: &Shared<'_>,
    decimals: u8,
    root: &mut RootFont,
)
    requires
        block@.runs.len() > 0,
        shared@ == shared_of(block@.runs),
    ensures
        final(out)@ == old(out)@ + block_open_text(block@.runs, decimals as nat, old(root)@),
        final(root)@ == block_font_root(shared@, old(root)@),
{
    let ghost start = out@;
    let ghost dec = decimals as nat;
    let ghost a = "<text"@;
    let ghost b = block_font_text(shared@, dec, root@);
    let ghost c = block_fill_text(shared@, dec);
    let first = &block.runs[0];
    assert(block@.runs[0] == first@);
    let ghost d = transform_text(first.transform, dec);
    let ghost e = seq!['>'];
    out.append("<text");
    let ghost after_name = out@;
    if let Some(spec) = shared.spec {
        write_font_attrs(out, spec, shared.font_size, decimals, root);
    } else {
        assert(after_name =~= after_name + seq![]);
    }
    let ghost after_font = out@;
    if let Some(p) = shared.fill {
        write_paint_attr(out, "fill", p, decimals);
    } else {
        assert(after_font =~= after_font + seq![]);
    }
    transform_attr(out, first.transform, decimals);
    out.append(">");
    proof {
        reveal_strlit(">");
        assert(">"@ =~= e);
        lemma_append(start, a, b);
        lemma_append(start, a + b, c);
        lemma_append(start, a + b + c, d);
        lemma_append(start, a + b + c + d, e);
    }
}

/// Emit one block as a single `<text>` element.
///
/// White-space handling is not written here: every `<text>` needs the same
/// declaration, so the root element carries it for all of them. `targeted`
/// says whether the scope this block sits in is itself the pick target; one
/// flag serves the whole block, since pushing a scope flushes the open block
/// first.
#[verifier::spinoff_prover]
#[verifier::rlimit(40)]
pub fn write_block(
    out: &mut String,
    block: &TextBlock,
    decimals: u8,
    pick_ids: bool,
    targeted: bool,
    root: &mut RootFont,
)
    ensures
        final(out)@ == old(out)@ + block_text(
            block@.runs,
            decimals as nat,
            pick_ids,
            targeted,
            old(root)@,
        ),
        final(root)@ == block_root(block@.runs, old(root)@),
{
    let ghost start = out@;
    let ghost dec = decimals as nat;
    let ghost was = root@;
    let ghost runs = block@.runs;
    if block.runs.len() == 0 {
        proof {
            lemma_append_nothing(start);
        }
        return;
    }
    assert(runs[0] == block.runs@[0]@);
    let shared = Shared::of(block);
    write_block_open(out, block, &shared, decimals, root);
    let ghost head = block_open_text(runs, dec, was);
    let ghost claimed = root@;
    let mut i: usize = 0;
    proof {
        lemma_append_nothing(head);
        assert(tspans_text(runs, 0, shared@, dec, pick_ids, targeted, claimed)
            == Seq::<char>::empty());
    }
    while i < block.runs.len()
        invariant
            i <= block.runs@.len(),
            runs == block@.runs,
            dec == decimals as nat,
            out@ == start + (head + tspans_text(
                runs,
                i as nat,
                shared@,
                dec,
                pick_ids,
                targeted,
                claimed,
            )),
            root@ == tspans_root(runs, i as nat, shared@, claimed),
        decreases block.runs@.len() - i,
    {
        assert(runs[i as int] == block.runs@[i as int]@);
        let ghost so_far = tspans_text(runs, i as nat, shared@, dec, pick_ids, targeted, claimed);
        let ghost piece = tspan_text(runs[i as int], shared@, dec, pick_ids, targeted, root@);
        write_tspan(out, &block.runs[i], &shared, decimals, pick_ids, targeted, root);
        proof {
            lemma_append(start, head + so_far, piece);
            lemma_append(head, so_far, piece);
        }
        i = i + 1;
    }
    let ghost body = tspans_text(runs, i as nat, shared@, dec, pick_ids, targeted, claimed);
    out.append("</text>");
    proof {
        lemma_append(start, head + body, "</text>"@);
    }
}

} // verus!
