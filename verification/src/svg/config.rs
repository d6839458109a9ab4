//! What the emitter can be asked for, and what it reports.

use vstd::prelude::*;

use crate::color::Color;

verus! {

/// Something the scene expressed that SVG cannot, or cannot yet.
///
/// Reported rather than returned: a scene is still drawable when one
/// feature degrades, and refusing to write the rest of the picture would
/// help nobody.
#[derive(Debug, Clone, Copy, PartialEq, Eq, Structural)]
#[non_exhaustive]
pub enum SvgWarning {
    /// A sweep gradient was flattened to a solid color. SVG has no conic
    /// paint server in either version.
    SweepGradient,
    /// A layer asked for a Porter-Duff operator other than `SrcOver`.
    /// Expressing it needs the backdrop, which an SVG filter cannot reach.
    UnsupportedCompose,
    /// A stroke set different start and end caps. SVG has one
    /// `stroke-linecap`.
    AsymmetricCaps,
    /// A radial gradient had a non-zero focal radius, written as the SVG 2
    /// `fr` attribute that older consumers ignore.
    RadialFocalRadius,
    /// An image brush was used as a fill or stroke paint.
    ImageBrushUnsupported,
    /// A coordinate was not finite and was written as zero.
    NonFiniteCoordinate,
    /// More layers were pushed than popped; the difference was closed at
    /// write time. Or a layer was popped where none was innermost, and the
    /// group was left alone.
    UnbalancedLayers,
    /// A pick scope was popped where a layer was open, or popped with
    /// nothing open. The group was left alone rather than closing an
    /// element it did not open.
    UnbalancedScopes,
    /// A glyph run arrived with no source text and no outline path to fall
    /// back on.
    TextWithoutSource,
    /// Drawing an image needs a PNG encoder, which this build lacks.
    MissingPngFeature,
    /// An image's pixels were in a layout this backend cannot re-encode.
    UnembeddableImage,
    /// Embedding was asked for, but a face could not be inlined, almost
    /// always because it is a font collection, which `@font-face` cannot
    /// address a member of. Its text still renders in whatever the viewer
    /// resolves the family to.
    FontNotEmbeddable,
}

/// `seen` with `w` recorded, unless it is there already.
pub open spec fn noted(seen: Seq<SvgWarning>, w: SvgWarning) -> Seq<SvgWarning> {
    if seen.contains(w) {
        seen
    } else {
        seen.push(w)
    }
}

/// Warnings collected during a frame, each at most once.
///
/// A twenty-thousand-triangle mesh full of sweep brushes would otherwise
/// report the same fact twenty thousand times.
#[derive(Debug)]
pub struct Warnings {
    list: Vec<SvgWarning>,
}

impl View for Warnings {
    type V = Seq<SvgWarning>;

    closed spec fn view(&self) -> Seq<SvgWarning> {
        self.list@
    }
}

impl Warnings {
    #[verifier::type_invariant]
    spec fn each_once(self) -> bool {
        self.list@.no_duplicates()
    }

    /// No warnings.
    pub fn new() -> (r: Warnings)
        ensures
            r@ == Seq::<SvgWarning>::empty(),
    {
        Warnings { list: Vec::new() }
    }

    /// True when `w` was recorded.
    pub fn contains(&self, w: SvgWarning) -> (r: bool)
        ensures
            r == self@.contains(w),
    {
        let mut i: usize = 0;
        while i < self.list.len()
            invariant
                i <= self.list@.len(),
                forall|j: int| 0 <= j < i ==> self.list@[j] != w,
            decreases self.list@.len() - i,
        {
            if self.list[i] == w {
                assert(self@[i as int] == w);
                return true;
            }
            i = i + 1;
        }
        false
    }

    /// Record `w` if it has not been seen this frame.
    pub fn note(&mut self, w: SvgWarning)
        ensures
            final(self)@ == noted(old(self)@, w),
    {
        if !self.contains(w) {
            proof {
                use_type_invariant(&*self);
                lemma_noting_keeps_warnings_unique(self.list@, w);
            }
            let mut list: Vec<SvgWarning> = Vec::new();
            core::mem::swap(&mut self.list, &mut list);
            list.push(w);
            self.list = list;
        }
    }

    /// The same warnings.
    pub fn copied(&self) -> (r: Warnings)
        ensures
            r@ == self@,
    {
        proof {
            use_type_invariant(self);
        }
        let mut list: Vec<SvgWarning> = Vec::new();
        let mut i: usize = 0;
        while i < self.list.len()
            invariant
                i <= self.list@.len(),
                list@ == self.list@.take(i as int),
            decreases self.list@.len() - i,
        {
            list.push(self.list[i]);
            i = i + 1;
            assert(list@ =~= self.list@.take(i as int));
        }
        assert(list@ =~= self.list@);
        Warnings { list }
    }

    /// Everything recorded, in the order it was first seen.
    pub fn into_list(self) -> (r: Vec<SvgWarning>)
        ensures
            r@ == self@,
            r@.no_duplicates(),
    {
        proof {
            use_type_invariant(&self);
        }
        self.list
    }
}

/// Recording a warning keeps the list free of repeats and forgets nothing,
/// and recording it a second time changes nothing.
pub proof fn lemma_noting_keeps_warnings_unique(seen: Seq<SvgWarning>, w: SvgWarning)
    requires
        seen.no_duplicates(),
    ensures
        noted(seen, w).no_duplicates(),
        noted(seen, w).contains(w),
        noted(noted(seen, w), w) == noted(seen, w),
        forall|v: SvgWarning| #[trigger] seen.contains(v) ==> noted(seen, w).contains(v),
{
    if !seen.contains(w) {
        let next = seen.push(w);
        assert(next[seen.len() as int] == w);
        assert forall|v: SvgWarning| #[trigger] seen.contains(v) implies next.contains(v) by {
            let i = choose|i: int| 0 <= i < seen.len() && seen[i] == v;
            assert(next[i] == v);
        }
    }
}

/// How lengths are written on the root element.
#[derive(Debug, Clone, Copy, PartialEq, Eq, Structural)]
pub enum SvgUnits {
    /// CSS pixels: the `viewBox` units, unadorned.
    Px,
    /// Points, so the file prints at the physical size it was rendered for.
    /// The `viewBox` is unchanged; only `width` and `height` gain a `pt`
    /// suffix.
    Pt,
}

impl Default for SvgUnits {
    fn default() -> (r: SvgUnits)
        ensures
            r == SvgUnits::Px,
    {
        SvgUnits::Px
    }
}

/// Whether text stays text.
#[derive(Debug, Clone, Copy, PartialEq, Eq, Structural)]
pub enum TextMode {
    /// Real `<text>` elements naming their font: editable, and the reason
    /// this backend exists.
    Text,
    /// Glyph outlines as `<path>`. Self-contained and identical in every
    /// viewer, at the cost of text that can no longer be selected, searched
    /// or retyped.
    Outline,
}

impl Default for TextMode {
    fn default() -> (r: TextMode)
        ensures
            r == TextMode::Text,
    {
        TextMode::Text
    }
}

/// Emission options.
#[derive(Debug, Clone)]
#[non_exhaustive]
pub struct SvgConfig {
    /// Painted behind everything as a full-canvas rect. `None` emits no
    /// rect at all.
    pub background: Option<Color>,
    /// Decimal places for coordinates. The linear part of a matrix may use
    /// more.
    pub decimals: u8,
    /// How `width` and `height` are written.
    pub units: SvgUnits,
    /// Prefix every generated id with this.
    ///
    /// Two documents inlined into one page that both define `#lg0` will
    /// have the second's `url(#lg0)` resolve to the first's definition, in
    /// every browser.
    pub id_prefix: Option<String>,
    /// Emit `data-pick-id` for picked primitives, `data-pick-block` for
    /// occluding ones, and `pointer-events="none"` for skipped ones.
    pub pick_ids: bool,
    /// How text is written.
    pub text: TextMode,
    /// Inline the face as `@font-face` rather than only naming the family.
    pub embed_fonts: bool,
}

/// The options as plain values.
#[verifier::ext_equal]
pub struct ConfigView {
    pub background: Option<Color>,
    pub decimals: nat,
    pub units: SvgUnits,
    pub prefix: Seq<char>,
    pub pick_ids: bool,
    pub text: TextMode,
    pub embed_fonts: bool,
}

/// The characters of an id prefix; none when there is no prefix.
pub open spec fn prefix_of(prefix: Option<String>) -> Seq<char> {
    match prefix {
        Some(p) => p@,
        None => seq![],
    }
}

impl View for SvgConfig {
    type V = ConfigView;

    open spec fn view(&self) -> ConfigView {
        ConfigView {
            background: self.background,
            decimals: self.decimals as nat,
            units: self.units,
            prefix: prefix_of(self.id_prefix),
            pick_ids: self.pick_ids,
            text: self.text,
            embed_fonts: self.embed_fonts,
        }
    }
}

impl Default for SvgConfig {
    fn default() -> (r: SvgConfig)
        ensures
            r.background is None,
            r.decimals == 3,
            r.units == SvgUnits::Px,
            r.id_prefix is None,
            !r.pick_ids,
            r.text == TextMode::Text,
            !r.embed_fonts,
    {
        SvgConfig {
            background: None,
            decimals: 3,
            units: SvgUnits::Px,
            id_prefix: None,
            pick_ids: false,
            text: TextMode::Text,
            embed_fonts: false,
        }
    }
}

impl SvgConfig {
    /// Default options.
    pub fn new() -> (r: SvgConfig)
        ensures
            r.background is None,
            r.decimals == 3,
            r.units == SvgUnits::Px,
            r.id_prefix is None,
            !r.pick_ids,
            r.text == TextMode::Text,
            !r.embed_fonts,
    {
        SvgConfig {
            background: None,
            decimals: 3,
            units: SvgUnits::Px,
            id_prefix: None,
            pick_ids: false,
            text: TextMode::Text,
            embed_fonts: false,
        }
    }

    /// Paint `color` behind everything as a full-canvas rect.
    pub fn background(self, color: Option<Color>) -> (r: SvgConfig)
        ensures
            r == (SvgConfig { background: color, ..self }),
    {
        SvgConfig { background: color, ..self }
    }

    /// Set the decimal places coordinates are written to.
    pub fn decimals(self, decimals: u8) -> (r: SvgConfig)
        ensures
            r == (SvgConfig { decimals, ..self }),
    {
        SvgConfig { decimals, ..self }
    }

    /// Set how `width` and `height` are written on the root element.
    pub fn units(self, units: SvgUnits) -> (r: SvgConfig)
        ensures
            r == (SvgConfig { units, ..self }),
    {
        SvgConfig { units, ..self }
    }

    /// Prefix every generated id, so two documents can share a page.
    pub fn id_prefix(self, prefix: &str) -> (r: SvgConfig)
        ensures
            r.id_prefix is Some,
            r.id_prefix->0@ == prefix@,
            r == (SvgConfig { id_prefix: r.id_prefix, ..self }),
    {
        SvgConfig { id_prefix: Some(prefix.to_owned()), ..self }
    }

    /// Emit picking attributes.
    pub fn pick_ids(self, on: bool) -> (r: SvgConfig)
        ensures
            r == (SvgConfig { pick_ids: on, ..self }),
    {
        SvgConfig { pick_ids: on, ..self }
    }

    /// Choose whether text stays text or becomes outlines.
    pub fn text(self, mode: TextMode) -> (r: SvgConfig)
        ensures
            r == (SvgConfig { text: mode, ..self }),
    {
        SvgConfig { text: mode, ..self }
    }

    /// Inline the face bytes rather than only naming the family.
    pub fn embed_fonts(self, on: bool) -> (r: SvgConfig)
        ensures
            r == (SvgConfig { embed_fonts: on, ..self }),
    {
        SvgConfig { embed_fonts: on, ..self }
    }
}

} // verus!
