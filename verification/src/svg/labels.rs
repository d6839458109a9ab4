//! What a document says of the text drawn into it: where every run stands,
//! what it reads, and what it is set and painted with.

use vstd::prelude::*;

use super::attrs::{opacity_text, paint_attr_text, pick_text, PickId};
use super::config::TextMode;
use super::drawn::{drawn, in_target, lemma_text_attrs, says_text};
use super::font::{
    bare_family, entry_text, entry_texts, family_attr_text, family_chain, family_list_text,
    family_name_text, font_text, posture_text, quoted_char, quoted_chars, settings_css,
    settings_text, size_attr_text, spacing_text, stretch_keyword, stretch_value_text, weight_text,
    width_ratio_text, FamilyView, FeatureView, FontStyleKind, FontView, GenericFamilyKind, RootView,
    VariationView,
};
use super::laws::{glyphs_are_sound, held_in_order, sound};
use super::model::{run_view, SceneView};
use super::paint::{scaled_paint, Brush, DefView, PaintView};
use super::reading::{
    is_tag, lemma_content_text_reads_back, lemma_lists_joined, lemma_lists_maybe,
    lemma_lists_nothing, lemma_names, lemma_number_is_quoteless, lemma_openings,
    lemma_quoteless_joined, lemma_transform_reads_back, lists, maybe, moved_by, said, says,
    says_number, silent, tidy_name, unescaped, Attr,
};
use super::refs::quoteless;
use super::shown::{
    lemma_number_attrs, lemma_opacity_attrs, lemma_paint_shows_brush, lemma_pick_attrs, paint_shows,
    picked_as, says_opacity, translucency,
};
use super::text::{
    anchor_text, block_fill_text, block_font_root, block_font_text, block_open_text, block_root,
    block_text, block_with, claims, decoration_text, direction_text, first_same_spot, length_text,
    link_close_text, link_open_text, merged_run, predicted, run_attrs_text, run_fill_text,
    run_font_text, run_stroke_text, same_spot, shared_of, tspan_text, tspans_root, tspans_text,
    BlockView, GlyphRun, Rule, RunView, SharedView, TextSource,
};
use super::writer::{attr_text, content_text, transform_text};
use crate::fixed::{num_text, Fixed};
use crate::geometry::{Affine, Rect};
use crate::numeral::{counts, lemma_count_reads_back, lemma_number_reads_back, writes};
use crate::text::{decimal_text, joined, lemma_append, lemma_append_nothing};

verus! {

/// Where a run stands in a text: what precedes its `<text>`, the tag of that,
/// what precedes the run in it, the run's own tag, what it reads, and what
/// follows it.
pub struct Place {
    pub front: Seq<char>,
    pub head: Seq<char>,
    pub outer: Seq<Attr>,
    pub before: Seq<char>,
    pub tag: Seq<char>,
    pub list: Seq<Attr>,
    pub content: Seq<char>,
    pub behind: Seq<char>,
}

/// True when `s` holds a run at `place`.
pub open spec fn stands_at(s: Seq<char>, place: Place) -> bool {
    &&& is_tag(place.head, "text"@, place.outer, seq!['>'])
    &&& is_tag(place.tag, "tspan"@, place.list, seq!['>'])
    &&& s == place.front + (place.head + place.before + place.tag + place.content + "</tspan>"@
        + place.behind + "</text>"@)
}

/// True when a run reads `text` and is anchored at `(x, y)` under a map.
pub open spec fn reads_at(
    place: Place,
    text: Seq<char>,
    x: Fixed,
    y: Fixed,
    t: Affine,
    dec: nat,
) -> bool {
    &&& moved_by(place.outer, t, dec)
    &&& says_number(place.list, "x"@, x, dec)
    &&& says_number(place.list, "y"@, y, dec)
    &&& super::markup::bracketless(place.content)
    &&& unescaped(place.content) == text
}

/// A run with everything that its own tag says.
pub open spec fn span_says(
    list: Seq<Attr>,
    run: RunView,
    dec: nat,
    on: bool,
    targeted: bool,
) -> bool {
    &&& says_number(list, "x"@, run.x, dec)
    &&& says_number(list, "y"@, run.y, dec)
    &&& fits_length(list, run.advance, dec)
    &&& decorated(list, run.underline, run.strikethrough)
    &&& directed(list, run.rtl)
    &&& picked_as(list, run.pick, on, targeted)
}

/// True when a run claims the width it was laid out at, where it has one.
pub open spec fn fits_length(list: Seq<Attr>, advance: Fixed, dec: nat) -> bool {
    if advance.nanos > 0 {
        says_number(list, "textLength"@, advance, dec) && says(
            list,
            "lengthAdjust"@,
            "spacingAndGlyphs"@,
        )
    } else {
        silent(list, "textLength"@) && silent(list, "lengthAdjust"@)
    }
}

/// True when a run is underlined and struck through as asked.
pub open spec fn decorated(list: Seq<Attr>, underline: bool, strikethrough: bool) -> bool {
    if underline && strikethrough {
        says(list, "text-decoration-line"@, "underline line-through"@)
    } else if underline {
        says(list, "text-decoration-line"@, "underline"@)
    } else if strikethrough {
        says(list, "text-decoration-line"@, "line-through"@)
    } else {
        silent(list, "text-decoration-line"@)
    }
}

/// True when a run goes from right to left as asked.
pub open spec fn directed(list: Seq<Attr>, rtl: bool) -> bool {
    if rtl {
        says(list, "direction"@, "rtl"@) && says(list, "unicode-bidi"@, "bidi-override"@)
    } else {
        silent(list, "direction"@) && silent(list, "unicode-bidi"@)
    }
}

/// True when a text is filled with this paint: in its own tag, or in the one
/// around it.
pub open spec fn text_filled(
    outer: Seq<Attr>,
    list: Seq<Attr>,
    value: Seq<char>,
    opacity: Option<Fixed>,
    dec: nat,
) -> bool {
    ||| says(list, "fill"@, value) && says_opacity(list, "fill-opacity"@, opacity, dec) && silent(
        outer,
        "fill"@,
    )
    ||| says(outer, "fill"@, value) && says_opacity(outer, "fill-opacity"@, opacity, dec) && silent(
        list,
        "fill"@,
    ) && silent(list, "fill-opacity"@)
}

/// True when a text has a halo of this paint and width, behind its fill.
pub open spec fn haloed(
    list: Seq<Attr>,
    value: Seq<char>,
    opacity: Option<Fixed>,
    width: Fixed,
    dec: nat,
) -> bool {
    &&& says(list, "stroke"@, value)
    &&& says_opacity(list, "stroke-opacity"@, opacity, dec)
    &&& says_number(list, "stroke-width"@, width, dec)
    &&& says(list, "paint-order"@, "stroke fill"@)
}

/// True when a text has no halo.
pub open spec fn unhaloed(list: Seq<Attr>) -> bool {
    silent(list, "stroke"@) && silent(list, "stroke-opacity"@) && silent(list, "stroke-width"@)
        && silent(list, "paint-order"@)
}

/// True when `s` is the keyword for a generic family.
pub open spec fn names_generic(s: Seq<char>, kind: GenericFamilyKind) -> bool {
    match kind {
        GenericFamilyKind::Serif => s == "serif"@,
        GenericFamilyKind::SansSerif => s == "sans-serif"@,
        GenericFamilyKind::Mono => s == "monospace"@,
        GenericFamilyKind::Cursive => s == "cursive"@,
        GenericFamilyKind::Fantasy => s == "fantasy"@,
        GenericFamilyKind::SystemUi => s == "system-ui"@,
    }
}

/// What a quoted CSS string says: a backslash makes the next character plain.
pub open spec fn css_unquoted(s: Seq<char>) -> Seq<char>
    decreases s.len(),
{
    if s.len() == 0 {
        seq![]
    } else if s[0] == '\\' && s.len() > 1 {
        seq![s[1]] + css_unquoted(s.skip(2))
    } else {
        seq![s[0]] + css_unquoted(s.skip(1))
    }
}

/// True when `s` is one family in CSS: a generic keyword, a bare identifier,
/// or a name in quotes.
pub open spec fn names_family(s: Seq<char>, family: FamilyView) -> bool {
    match family {
        FamilyView::Generic(kind) => names_generic(s, kind),
        FamilyView::Named(name) => {
            ||| s == name && name.len() > 0 && forall|i: int|
                0 <= i < name.len() ==> ('a' <= #[trigger] name[i] <= 'z' || 'A' <= name[i] <= 'Z'
                    || '0' <= name[i] <= '9' || name[i] == '-' || name[i] == '_')
            ||| s.len() >= 2 && s[0] == '\'' && s.last() == '\'' && css_unquoted(
                s.subrange(1, s.len() - 1),
            ) == name
        },
    }
}

/// True when `s` names these families in this order.
pub open spec fn names_families(s: Seq<char>, families: Seq<FamilyView>) -> bool
    decreases families.len(),
{
    if families.len() == 0 {
        s.len() == 0
    } else if families.len() == 1 {
        names_family(s, families[0])
    } else {
        exists|k: int|
            0 <= k <= s.len() - 2 && s[k] == ',' && s[k + 1] == ' ' && names_families(
                s.take(k),
                families.drop_last(),
            ) && #[trigger] names_family(s.skip(k + 2), families.last())
    }
}

/// The families that are named where these are asked for: a generic one comes
/// last in any case.
pub open spec fn with_fallback(families: Seq<FamilyView>) -> Seq<FamilyView> {
    if families.len() > 0 && families[families.len() - 1] is Generic {
        families
    } else {
        families.push(FamilyView::Generic(GenericFamilyKind::SansSerif))
    }
}

/// True when `s` is what CSS calls a width: a keyword for the nine that have
/// one, and a percentage otherwise.
pub open spec fn names_width(s: Seq<char>, width: Fixed, dec: nat) -> bool {
    if width.nanos == 500_000_000 {
        s == "ultra-condensed"@
    } else if width.nanos == 625_000_000 {
        s == "extra-condensed"@
    } else if width.nanos == 750_000_000 {
        s == "condensed"@
    } else if width.nanos == 875_000_000 {
        s == "semi-condensed"@
    } else if width.nanos == 1_000_000_000 {
        s == "normal"@
    } else if width.nanos == 1_125_000_000 {
        s == "semi-expanded"@
    } else if width.nanos == 1_250_000_000 {
        s == "expanded"@
    } else if width.nanos == 1_500_000_000 {
        s == "extra-expanded"@
    } else if width.nanos == 2_000_000_000 {
        s == "ultra-expanded"@
    } else {
        -90_000_000_000_000_000 <= width.nanos <= 90_000_000_000_000_000 ==> s.len() > 0 && s.last()
            == '%' && writes(s.drop_last(), Fixed { nanos: (width.nanos * 100) as i64 }, dec)
    }
}

/// True when a tag names these families, unless the root names the same or
/// none yet, and is left to.
pub open spec fn named_in(
    list: Seq<Attr>,
    families: Seq<FamilyView>,
    root: Option<Seq<char>>,
) -> bool {
    exists|family: Seq<char>| #[trigger]
        names_families(family, with_fallback(families)) && says_text(
            list,
            "font-family"@,
            match root {
                Some(f) if f != family => Some(family),
                _ => None,
            },
        )
}

/// True when a tag says how heavy a face is; 400 goes without saying.
pub open spec fn weighs(list: Seq<Attr>, weight: u16) -> bool {
    if weight == 400 {
        silent(list, "font-weight"@)
    } else {
        said(list, "font-weight"@).len() == 1 && counts(
            said(list, "font-weight"@)[0],
            weight as int,
        )
    }
}

/// True when a tag says how a face stands; upright goes without saying.
pub open spec fn postured(list: Seq<Attr>, style: FontStyleKind) -> bool {
    match style {
        FontStyleKind::Normal => silent(list, "font-style"@),
        FontStyleKind::Italic => says(list, "font-style"@, "italic"@),
        FontStyleKind::Oblique(angle) => said(list, "font-style"@).len() == 1 && leans(
            said(list, "font-style"@)[0],
            angle,
        ),
    }
}

/// True when a tag says how wide a face is; the normal width goes without
/// saying.
pub open spec fn widened(list: Seq<Attr>, width: Fixed, dec: nat) -> bool {
    if width.nanos == 1_000_000_000 {
        silent(list, "font-stretch"@)
    } else {
        said(list, "font-stretch"@).len() == 1 && names_width(
            said(list, "font-stretch"@)[0],
            width,
            dec,
        )
    }
}

/// True when a tag says how far letters are set apart, in thousandths of the
/// size; none goes without saying.
pub open spec fn spaced(list: Seq<Attr>, tracking: Fixed, size: Fixed, dec: nat) -> bool {
    if tracking.nanos == 0 {
        silent(list, "letter-spacing"@)
    } else {
        said(list, "letter-spacing"@).len() == 1 && exists|x: Fixed| #[trigger]
            writes(said(list, "letter-spacing"@)[0], x, dec) && thousandths(x, tracking, size)
    }
}

/// True when a tag of a feature or an axis can be quoted as it is.
pub open spec fn sayable(tag: Seq<u8>) -> bool {
    forall|i: int|
        0 <= i < tag.len() ==> 0x20 <= #[trigger] tag[i] <= 0x7e && tag[i] != 0x27 && tag[i] != 0x5c
}

/// True when `s` sets what a tag names: the tag in quotes, a space, and a value.
pub open spec fn sets(s: Seq<char>, tag: Seq<u8>) -> bool {
    &&& s.len() > 7
    &&& s[0] == '\'' && s[5] == '\'' && s[6] == ' '
    &&& s[1] == tag[0] as char && s[2] == tag[1] as char && s[3] == tag[2] as char && s[4]
        == tag[3] as char
}

/// True when these settings are the features that can be said, in order.
pub open spec fn features_read(items: Seq<Seq<char>>, fs: Seq<FeatureView>) -> bool
    decreases fs.len(),
{
    if fs.len() == 0 {
        items.len() == 0
    } else if sayable(fs.last().tag) {
        items.len() > 0 && sets(items.last(), fs.last().tag) && counts(
            items.last().skip(7),
            fs.last().value as int,
        ) && features_read(items.drop_last(), fs.drop_last())
    } else {
        features_read(items, fs.drop_last())
    }
}

/// True when these settings are the axes that can be said, in order.
pub open spec fn axes_read(items: Seq<Seq<char>>, vs: Seq<VariationView>, dec: nat) -> bool
    decreases vs.len(),
{
    if vs.len() == 0 {
        items.len() == 0
    } else if sayable(vs.last().tag) {
        items.len() > 0 && sets(items.last(), vs.last().tag) && writes(
            items.last().skip(7),
            vs.last().value,
            dec,
        ) && axes_read(items.drop_last(), vs.drop_last(), dec)
    } else {
        axes_read(items, vs.drop_last(), dec)
    }
}

/// Settings as they are listed, with commas between them; nothing for none.
pub open spec fn settings(fs: Seq<Seq<char>>, vs: Seq<Seq<char>>) -> Option<Seq<char>> {
    let features = "font-feature-settings:"@ + joined(fs, ","@);
    let axes = "font-variation-settings:"@ + joined(vs, ","@);
    if fs.len() > 0 && vs.len() > 0 {
        Some(features + seq![';'] + axes)
    } else if fs.len() > 0 {
        Some(features)
    } else if vs.len() > 0 {
        Some(axes)
    } else {
        None
    }
}

/// True when a tag says the features and the axes of a face.
pub open spec fn tuned(list: Seq<Attr>, font: FontView, dec: nat) -> bool {
    exists|fs: Seq<Seq<char>>, vs: Seq<Seq<char>>| #[trigger]
        features_read(fs, font.features) && #[trigger] axes_read(vs, font.variations, dec)
            && says_text(list, "style"@, settings(fs, vs))
}

proof fn lemma_features_read_back(fs: Seq<FeatureView>, n: nat)
    requires
        n <= fs.len(),
    ensures
        features_read(super::font::feature_items(fs, n), fs.take(n as int)),
    decreases n,
{
    let own = fs.take(n as int);
    if n > 0 {
        let m = (n - 1) as nat;
        lemma_features_read_back(fs, m);
        assert(own.drop_last() =~= fs.take(m as int));
        let before = super::font::feature_items(fs, m);
        let f = fs[m as int];
        let item = super::font::feature_text(f);
        lemma_count_reads_back(f.value as nat);
        assert(item.skip(7) =~= decimal_text(f.value as nat));
        assert(before.push(item).drop_last() =~= before);
        assert(super::font::tag_is_writable(f.tag) == sayable(f.tag)) by {
            assert(forall|i: int|
                0 <= i < f.tag.len() ==> super::font::writable_byte(#[trigger] f.tag[i]) == (0x20
                    <= f.tag[i] <= 0x7e && f.tag[i] != 0x27 && f.tag[i] != 0x5c));
        }
    }
}

proof fn lemma_axes_read_back(vs: Seq<VariationView>, n: nat, dec: nat)
    requires
        n <= vs.len(),
    ensures
        axes_read(super::font::variation_items(vs, n, dec), vs.take(n as int), dec),
    decreases n,
{
    let own = vs.take(n as int);
    if n > 0 {
        let m = (n - 1) as nat;
        lemma_axes_read_back(vs, m, dec);
        assert(own.drop_last() =~= vs.take(m as int));
        let before = super::font::variation_items(vs, m, dec);
        let v = vs[m as int];
        let item = super::font::variation_text(v, dec);
        lemma_number_reads_back(v.value, dec);
        crate::fixed::lemma_num_text_is_plain(v.value, dec);
        assert(item.skip(7) =~= num_text(v.value, dec));
        assert(before.push(item).drop_last() =~= before);
        assert(super::font::tag_is_writable(v.tag) == sayable(v.tag)) by {
            assert(forall|i: int|
                0 <= i < v.tag.len() ==> super::font::writable_byte(#[trigger] v.tag[i]) == (0x20
                    <= v.tag[i] <= 0x7e && v.tag[i] != 0x27 && v.tag[i] != 0x5c));
        }
    }
}

/// The settings of a face as an attribute.
proof fn lemma_settings_attrs(font: FontView, dec: nat) -> (list: Seq<Attr>)
    ensures
        lists(settings_text(font, dec), list),
        tuned(list, font, dec),
        forall|n: Seq<char>| n != "style"@ ==> #[trigger] silent(list, n),
{
    assert(" style=\""@ == seq![' '] + "style"@ + "=\""@ && tidy_name("style"@)) by {
        lemma_openings();
    }
    let fs = super::font::feature_items(font.features, font.features.len());
    let vs = super::font::variation_items(font.variations, font.variations.len(), dec);
    lemma_features_read_back(font.features, font.features.len());
    lemma_axes_read_back(font.variations, font.variations.len(), dec);
    assert(font.features.take(font.features.len() as int) =~= font.features);
    assert(font.variations.take(font.variations.len() as int) =~= font.variations);
    let css: Option<Seq<char>> = if fs.len() == 0 && vs.len() == 0 {
        None
    } else {
        Some(settings_css(fs, vs))
    };
    if css is Some {
        assert(settings_css(fs, vs) =~= settings(fs, vs)->0);
    }
    assert(css == settings(fs, vs));
    assert(features_read(fs, font.features) && axes_read(vs, font.variations, dec));
    lemma_text_attrs(" style=\""@, "style"@, css)
}

/// True when a tag sets text in a face: by family and size, unless the root
/// says the same or is left to, and by weight, posture, width and spacing,
/// each unless it goes without saying.
#[verifier::opaque]
pub open spec fn set_in(
    list: Seq<Attr>,
    font: FontView,
    size: Fixed,
    dec: nat,
    root: RootView,
) -> bool {
    &&& named_in(list, font.families, root.family)
    &&& match root.size {
        Some(s) if s != size => says_number(list, "font-size"@, size, dec),
        _ => silent(list, "font-size"@),
    }
    &&& weighs(list, font.weight)
    &&& postured(list, font.style)
    &&& widened(list, font.width, dec)
    &&& spaced(list, font.tracking, size, dec)
    &&& tuned(list, font, dec)
}

/// True when a tag says nothing of any face.
pub open spec fn unset(list: Seq<Attr>) -> bool {
    silent(list, "font-family"@) && silent(list, "font-size"@) && silent(list, "font-weight"@)
        && silent(list, "font-style"@) && silent(list, "font-stretch"@) && silent(
        list,
        "letter-spacing"@,
    ) && silent(list, "style"@)
}

/// True when `s` leans by an angle, to a tenth of a degree.
pub open spec fn leans(s: Seq<char>, angle: Fixed) -> bool {
    &&& s.len() >= 11
    &&& s.take(8) == "oblique "@
    &&& s.skip(s.len() - 3) == "deg"@
    &&& writes(s.subrange(8, s.len() - 3), angle, 1)
}

/// True when `x` is so many thousandths of a size, to the nearest, where that
/// can be held.
pub open spec fn thousandths(x: Fixed, tracking: Fixed, size: Fixed) -> bool {
    let exact = tracking.nanos * size.nanos;
    let unit = 1_000_000_000_000int;
    -9_000_000_000_000_000_000 * unit <= exact <= 9_000_000_000_000_000_000 * unit ==> -unit <= 2 * (
    x.nanos * unit - exact) <= unit
}

proof fn lemma_quoted_from_front(s: Seq<char>)
    requires
        s.len() > 0,
    ensures
        quoted_chars(s) == quoted_char(s[0]) + quoted_chars(s.skip(1)),
    decreases s.len(),
{
    reveal_with_fuel(quoted_chars, 2);
    let rest = s.skip(1);
    if s.len() == 1 {
        assert(s.drop_last() =~= seq![]);
        assert(quoted_chars(s) =~= quoted_char(s[0]) + quoted_chars(rest));
    } else {
        lemma_quoted_from_front(s.drop_last());
        assert(s.drop_last().skip(1) =~= rest.drop_last());
        assert(quoted_chars(s) =~= quoted_char(s[0]) + quoted_chars(rest));
    }
}

proof fn lemma_quoted_reads_back(s: Seq<char>)
    ensures
        css_unquoted(quoted_chars(s)) == s,
    decreases s.len(),
{
    if s.len() > 0 {
        lemma_quoted_from_front(s);
        lemma_quoted_reads_back(s.skip(1));
        let q = quoted_chars(s);
        let e = quoted_char(s[0]);
        assert(q[0] == e[0]);
        assert(q.skip(e.len() as int) =~= quoted_chars(s.skip(1)));
        if e.len() == 2 {
            assert(q[1] == e[1]);
        }
        assert(seq![s[0]] + s.skip(1) =~= s);
    }
}

proof fn lemma_entry_reads_back(e: FamilyView)
    ensures
        names_family(entry_text(e), e),
{
    if let FamilyView::Named(name) = e {
        let s = family_name_text(name);
        if bare_family(name) {
            assert forall|i: int| 0 <= i < name.len() implies ('a' <= #[trigger] name[i] <= 'z'
                || 'A' <= name[i] <= 'Z' || '0' <= name[i] <= '9' || name[i] == '-' || name[i]
                == '_') by {
                assert(super::font::identifier_char(name[i]));
            }
        } else {
            lemma_quoted_reads_back(name);
            assert(s.subrange(1, s.len() - 1) =~= quoted_chars(name));
        }
    }
}

proof fn lemma_entries_read_back(chain: Seq<FamilyView>)
    ensures
        names_families(joined(entry_texts(chain), ", "@), chain),
    decreases chain.len(),
{
    reveal_strlit(", ");
    let parts = entry_texts(chain);
    let s = joined(parts, ", "@);
    if chain.len() == 1 {
        lemma_entry_reads_back(chain[0]);
    } else if chain.len() > 1 {
        let fewer = chain.drop_last();
        lemma_entries_read_back(fewer);
        lemma_entry_reads_back(chain.last());
        assert(parts.drop_last() =~= entry_texts(fewer));
        let before = joined(entry_texts(fewer), ", "@);
        let k = before.len() as int;
        assert(s =~= before + ", "@ + parts.last());
        assert(s[k] == ',' && s[k + 1] == ' ');
        assert(s.take(k) =~= before);
        assert(s.skip(k + 2) =~= entry_text(chain.last()));
        assert(names_family(s.skip(k + 2), chain.last()));
    }
}

/// A family list reads back as the families that were asked for, in order, and
/// a generic one last.
pub proof fn lemma_family_list_reads_back(families: Seq<FamilyView>)
    ensures
        names_families(family_list_text(families), with_fallback(families)),
{
    lemma_entries_read_back(family_chain(families));
}

proof fn lemma_width_reads_back(width: Fixed, dec: nat)
    ensures
        names_width(stretch_value_text(width, dec), width, dec),
        quoteless(stretch_value_text(width, dec)),
{
    reveal_strlit("ultra-condensed");
    reveal_strlit("extra-condensed");
    reveal_strlit("condensed");
    reveal_strlit("semi-condensed");
    reveal_strlit("normal");
    reveal_strlit("semi-expanded");
    reveal_strlit("expanded");
    reveal_strlit("extra-expanded");
    reveal_strlit("ultra-expanded");
    if stretch_keyword(width) is None {
        let x = width.spec_scaled(100, 1);
        lemma_number_reads_back(x, dec);
        lemma_number_is_quoteless(x, dec);
        lemma_quoteless_joined(num_text(x, dec), seq!['%']);
        let s = stretch_value_text(width, dec);
        assert(s.drop_last() =~= num_text(x, dec));
        if -90_000_000_000_000_000 <= width.nanos <= 90_000_000_000_000_000 {
            assert(x.nanos == width.nanos * 100);
        }
    }
}

proof fn lemma_spacing_is_nearest(tracking: Fixed, size: Fixed)
    ensures
        thousandths(
            tracking.spec_scaled(size.nanos as int, 1000 * crate::fixed::ONE),
            tracking,
            size,
        ),
{
    let unit = 1_000_000_000_000int;
    let n = tracking.nanos * size.nanos;
    let x = tracking.spec_scaled(size.nanos as int, 1000 * crate::fixed::ONE);
    let v = crate::fixed::round_div(n, unit);
    let m = if n >= 0 {
        n
    } else {
        -n
    };
    let q = (m + unit / 2) / unit;
    vstd::arithmetic::div_mod::lemma_fundamental_div_mod(m + unit / 2, unit);
}

/// True for the attributes that a face may have.
pub open spec fn font_name(n: Seq<char>) -> bool {
    n == "font-family"@ || n == "font-size"@ || n == "font-weight"@ || n == "font-style"@ || n
        == "font-stretch"@ || n == "letter-spacing"@ || n == "style"@
}

/// The weight of a face as attributes.
proof fn lemma_weight_attrs(weight: u16) -> (list: Seq<Attr>)
    ensures
        lists(weight_text(weight), list),
        weighs(list, weight),
        forall|n: Seq<char>| n != "font-weight"@ ==> #[trigger] silent(list, n),
{
    assert(" font-weight=\""@ == seq![' '] + "font-weight"@ + "=\""@ && tidy_name("font-weight"@))
        by {
        lemma_openings();
    }
    let digits = decimal_text(weight as nat);
    super::markup::lemma_decimal_is_quiet(weight as nat);
    lemma_count_reads_back(weight as nat);
    lemma_lists_maybe(weight != 400, " font-weight=\""@, "font-weight"@, digits);
    maybe(weight != 400, "font-weight"@, digits)
}

/// The posture of a face as attributes.
proof fn lemma_posture_attrs(style: FontStyleKind) -> (list: Seq<Attr>)
    ensures
        lists(posture_text(style), list),
        postured(list, style),
        forall|n: Seq<char>| n != "font-style"@ ==> #[trigger] silent(list, n),
{
    assert(" font-style=\""@ == seq![' '] + "font-style"@ + "=\""@ && tidy_name("font-style"@)) by {
        lemma_openings();
    }
    lemma_lists_nothing();
    match style {
        FontStyleKind::Normal => seq![],
        FontStyleKind::Italic => {
            reveal_strlit("italic");
            reveal_strlit(" font-style=\"italic\"");
            reveal_strlit(" font-style=\"");
            assert(" font-style=\"italic\""@ =~= " font-style=\""@ + "italic"@ + seq!['"']);
            lemma_lists_maybe(true, " font-style=\""@, "font-style"@, "italic"@);
            maybe(true, "font-style"@, "italic"@)
        },
        FontStyleKind::Oblique(angle) => {
            let n = num_text(angle, 1);
            let v = "oblique "@ + n + "deg"@;
            lemma_number_is_quoteless(angle, 1);
            lemma_number_reads_back(angle, 1);
            assert(n.len() > 0) by {
                crate::fixed::lemma_num_text_is_plain(angle, 1);
            }
            reveal_strlit("oblique ");
            reveal_strlit("deg");
            lemma_quoteless_joined("oblique "@, n);
            lemma_quoteless_joined("oblique "@ + n, "deg"@);
            assert(posture_text(style) == " font-style=\""@ + v + seq!['"']) by {
                reveal_strlit(" font-style=\"oblique ");
                reveal_strlit(" font-style=\"");
                reveal_strlit("deg\"");
                assert(" font-style=\"oblique "@ =~= " font-style=\""@ + "oblique "@);
                assert("deg\""@ =~= "deg"@ + seq!['"']);
                assert(" font-style=\""@ + "oblique "@ + n + ("deg"@ + seq!['"'])
                    =~= " font-style=\""@ + ("oblique "@ + n + "deg"@) + seq!['"']);
            }
            lemma_lists_maybe(true, " font-style=\""@, "font-style"@, v);
            assert(v.take(8) =~= "oblique "@);
            assert(v.skip(v.len() - 3) =~= "deg"@);
            assert(v.subrange(8, v.len() - 3) =~= n);
            assert(leans(v, angle));
            maybe(true, "font-style"@, v)
        },
    }
}

/// The width and the spacing of a face as attributes.
#[verifier::spinoff_prover]
#[verifier::rlimit(40)]
proof fn lemma_breadth_attrs(width: Fixed, tracking: Fixed, size: Fixed, dec: nat) -> (list: Seq<
    Attr,
>)
    ensures
        lists(width_ratio_text(width, dec) + spacing_text(tracking, size, dec), list),
        widened(list, width, dec),
        spaced(list, tracking, size, dec),
        forall|n: Seq<char>|
            n != "font-stretch"@ && n != "letter-spacing"@ ==> #[trigger] silent(list, n),
{
    lemma_names();
    assert(" font-stretch=\""@ == seq![' '] + "font-stretch"@ + "=\""@ && tidy_name(
        "font-stretch"@,
    ) && " letter-spacing=\""@ == seq![' '] + "letter-spacing"@ + "=\""@ && tidy_name(
        "letter-spacing"@,
    )) by {
        lemma_openings();
    }
    let v = stretch_value_text(width, dec);
    lemma_width_reads_back(width, dec);
    lemma_lists_maybe(width.nanos != 1_000_000_000, " font-stretch=\""@, "font-stretch"@, v);
    let a = maybe(width.nanos != 1_000_000_000, "font-stretch"@, v);
    let x = tracking.spec_scaled(size.nanos as int, 1000 * crate::fixed::ONE);
    lemma_spacing_is_nearest(tracking, size);
    let b = lemma_number_attrs(
        tracking.nanos != 0,
        " letter-spacing=\""@,
        "letter-spacing"@,
        x,
        dec,
    );
    lemma_lists_joined(width_ratio_text(width, dec), a, spacing_text(tracking, size, dec), b);
    let list = a + b;
    if tracking.nanos != 0 {
        assert(writes(said(list, "letter-spacing"@)[0], x, dec));
    }
    list
}

/// A face as attributes.
#[verifier::spinoff_prover]
#[verifier::rlimit(60)]
proof fn lemma_font_attrs(font: FontView, size: Fixed, dec: nat, root: RootView) -> (list: Seq<
    Attr,
>)
    ensures
        lists(font_text(font, size, dec, root), list),
        set_in(list, font, size, dec, root),
        forall|n: Seq<char>| !font_name(n) ==> #[trigger] silent(list, n),
{
    lemma_names();
    assert(" font-family=\""@ == seq![' '] + "font-family"@ + "=\""@ && tidy_name("font-family"@)
        && " font-size=\""@ == seq![' '] + "font-size"@ + "=\""@ && tidy_name("font-size"@)) by {
        lemma_openings();
    }
    let family = family_list_text(font.families);
    lemma_family_list_reads_back(font.families);
    let own: Option<Seq<char>> = match root.family {
        Some(f) if f != family => Some(family),
        _ => None,
    };
    let a = lemma_text_attrs(" font-family=\""@, "font-family"@, own);
    let s = family_attr_text(root, family);
    let sized = match root.size {
        Some(other) => other != size,
        None => false,
    };
    let b = lemma_number_attrs(sized, " font-size=\""@, "font-size"@, size, dec);
    let t = size_attr_text(root, size, dec);
    let c = lemma_weight_attrs(font.weight);
    let d = lemma_posture_attrs(font.style);
    let e = lemma_breadth_attrs(font.width, font.tracking, size, dec);
    let f = lemma_settings_attrs(font, dec);
    let u = weight_text(font.weight);
    let w = posture_text(font.style);
    let x = width_ratio_text(font.width, dec);
    let y = spacing_text(font.tracking, size, dec);
    let z = settings_text(font, dec);
    lemma_lists_joined(s, a, t, b);
    lemma_lists_joined(s + t, a + b, u, c);
    lemma_lists_joined(s + t + u, a + b + c, w, d);
    lemma_lists_joined(s + t + u + w, a + b + c + d, x + y, e);
    lemma_lists_joined(s + t + u + w + (x + y), a + b + c + d + e, z, f);
    lemma_append(s + t + u + w, x, y);
    let list = a + b + c + d + e + f;
    assert(said(list, "font-family"@) == said(a, "font-family"@));
    assert(said(list, "font-size"@) == said(b, "font-size"@));
    assert(said(list, "font-weight"@) == said(c, "font-weight"@));
    assert(said(list, "font-style"@) == said(d, "font-style"@));
    assert(said(list, "font-stretch"@) == said(e, "font-stretch"@));
    assert(said(list, "letter-spacing"@) == said(e, "letter-spacing"@));
    assert(said(list, "style"@) == said(f, "style"@));
    lemma_set_in(a, b, c, d, e, f, list, font, size, dec, root, family);
    list
}

proof fn lemma_set_in(
    a: Seq<Attr>,
    b: Seq<Attr>,
    c: Seq<Attr>,
    d: Seq<Attr>,
    e: Seq<Attr>,
    f: Seq<Attr>,
    list: Seq<Attr>,
    font: FontView,
    size: Fixed,
    dec: nat,
    root: RootView,
    family: Seq<char>,
)
    requires
        names_families(family, with_fallback(font.families)),
        says_text(
            a,
            "font-family"@,
            match root.family {
                Some(f) if f != family => Some(family),
                _ => None,
            },
        ),
        match root.size {
            Some(s) if s != size => says_number(b, "font-size"@, size, dec),
            _ => silent(b, "font-size"@),
        },
        weighs(c, font.weight),
        postured(d, font.style),
        widened(e, font.width, dec),
        spaced(e, font.tracking, size, dec),
        tuned(f, font, dec),
        said(list, "font-family"@) == said(a, "font-family"@),
        said(list, "font-size"@) == said(b, "font-size"@),
        said(list, "font-weight"@) == said(c, "font-weight"@),
        said(list, "font-style"@) == said(d, "font-style"@),
        said(list, "font-stretch"@) == said(e, "font-stretch"@),
        said(list, "letter-spacing"@) == said(e, "letter-spacing"@),
        said(list, "style"@) == said(f, "style"@),
    ensures
        set_in(list, font, size, dec, root),
{
    reveal(set_in);
    let (fs, vs) = choose|fs: Seq<Seq<char>>, vs: Seq<Seq<char>>| #[trigger]
        features_read(fs, font.features) && #[trigger] axes_read(vs, font.variations, dec)
            && says_text(f, "style"@, settings(fs, vs));
    assert(says_text(list, "style"@, settings(fs, vs)));
    assert(features_read(fs, font.features) && axes_read(vs, font.variations, dec));
}

/// What a tag is set in is what its attributes say.
proof fn lemma_set_in_like(
    a: Seq<Attr>,
    b: Seq<Attr>,
    font: FontView,
    size: Fixed,
    dec: nat,
    root: RootView,
)
    requires
        set_in(a, font, size, dec, root),
        said(b, "font-family"@) == said(a, "font-family"@),
        said(b, "font-size"@) == said(a, "font-size"@),
        said(b, "font-weight"@) == said(a, "font-weight"@),
        said(b, "font-style"@) == said(a, "font-style"@),
        said(b, "font-stretch"@) == said(a, "font-stretch"@),
        said(b, "letter-spacing"@) == said(a, "letter-spacing"@),
        said(b, "style"@) == said(a, "style"@),
    ensures
        set_in(b, font, size, dec, root),
{
    reveal(set_in);
    let family = choose|family: Seq<char>| #[trigger]
        names_families(family, with_fallback(font.families)) && says_text(
            a,
            "font-family"@,
            match root.family {
                Some(f) if f != family => Some(family),
                _ => None,
            },
        );
    lemma_set_in(a, a, a, a, a, a, b, font, size, dec, root, family);
}

/// A paint under a name as attributes.
proof fn lemma_named_paint_attrs(
    name: Seq<char>,
    beside: Seq<char>,
    p: PaintView,
    dec: nat,
) -> (list: Seq<Attr>)
    requires
        tidy_name(name),
        tidy_name(beside),
        name != beside,
        seq![' '] + name + "-opacity=\""@ == seq![' '] + beside + "=\""@,
        quoteless(p.value),
    ensures
        lists(paint_attr_text(name, p, dec), list),
        says(list, name, p.value),
        says_opacity(list, beside, p.opacity, dec),
        forall|n: Seq<char>| n != name && n != beside ==> #[trigger] silent(list, n),
{
    let opening = seq![' '] + name + "=\""@;
    lemma_lists_maybe(true, opening, name, p.value);
    let a = maybe(true, name, p.value);
    let b = lemma_opacity_attrs(seq![' '] + name + "-opacity=\""@, beside, p.opacity, dec);
    let s = opening + p.value + seq!['"'];
    lemma_lists_joined(
        s,
        a,
        opacity_text(seq![' '] + name + "-opacity=\""@, p.opacity, dec),
        b,
    );
    a + b
}

proof fn lemma_paint_names()
    ensures
        seq![' '] + "fill"@ + "-opacity=\""@ == seq![' '] + "fill-opacity"@ + "=\""@,
        seq![' '] + "stroke"@ + "-opacity=\""@ == seq![' '] + "stroke-opacity"@ + "=\""@,
{
    reveal_strlit("fill");
    reveal_strlit("fill-opacity");
    reveal_strlit("stroke");
    reveal_strlit("stroke-opacity");
    reveal_strlit("-opacity=\"");
    reveal_strlit("=\"");
    assert(seq![' '] + "fill"@ + "-opacity=\""@ =~= seq![' '] + "fill-opacity"@ + "=\""@);
    assert(seq![' '] + "stroke"@ + "-opacity=\""@ =~= seq![' '] + "stroke-opacity"@ + "=\""@);
}

/// A fill of text as attributes, when there is one.
proof fn lemma_text_fill_attrs(fill: Option<PaintView>, dec: nat) -> (list: Seq<Attr>)
    requires
        fill is Some ==> quoteless(fill->0.value),
    ensures
        lists(
            match fill {
                Some(p) => paint_attr_text("fill"@, p, dec),
                None => seq![],
            },
            list,
        ),
        match fill {
            Some(p) => says(list, "fill"@, p.value) && says_opacity(
                list,
                "fill-opacity"@,
                p.opacity,
                dec,
            ),
            None => silent(list, "fill"@) && silent(list, "fill-opacity"@),
        },
        forall|n: Seq<char>| n != "fill"@ && n != "fill-opacity"@ ==> #[trigger] silent(list, n),
{
    lemma_names();
    lemma_paint_names();
    lemma_lists_nothing();
    match fill {
        Some(p) => {
            assert(tidy_name("fill"@) && tidy_name("fill-opacity"@)) by {
                lemma_openings();
            }
            lemma_named_paint_attrs("fill"@, "fill-opacity"@, p, dec)
        },
        None => seq![],
    }
}

/// The start tag of a block whose runs agree on `shared`.
#[verifier::spinoff_prover]
#[verifier::rlimit(60)]
proof fn lemma_block_tag(shared: SharedView, transform: Affine, dec: nat, root: RootView) -> (list:
    Seq<Attr>)
    requires
        shared.fill is Some ==> quoteless(shared.fill->0.value),
    ensures
        is_tag(
            "<text"@ + block_font_text(shared, dec, root) + block_fill_text(shared, dec)
                + transform_text(transform, dec) + seq!['>'],
            "text"@,
            list,
            seq!['>'],
        ),
        moved_by(list, transform, dec),
        match shared.spec {
            Some(font) => set_in(list, font, shared.font_size, dec, root),
            None => unset(list),
        },
        match shared.fill {
            Some(p) => says(list, "fill"@, p.value) && says_opacity(
                list,
                "fill-opacity"@,
                p.opacity,
                dec,
            ),
            None => silent(list, "fill"@) && silent(list, "fill-opacity"@),
        },
        unhaloed(list),
{
    let s = block_font_text(shared, dec, root);
    let t = block_fill_text(shared, dec);
    let u = transform_text(transform, dec);
    let a = lemma_shared_font_attrs(shared, dec, root);
    let b = lemma_text_fill_attrs(shared.fill, dec);
    let c = lemma_transform_reads_back(transform, dec);
    let list = a + b + c;
    lemma_three_parts("<text"@, "text"@, s, a, t, b, u, c);
    lemma_block_said(s, a, t, b, u, c);
    if let Some(font) = shared.spec {
        lemma_set_in_like(a, list, font, shared.font_size, dec, root);
    }
    list
}

/// What each part of a block's tag says is what the tag says.
#[verifier::spinoff_prover]
#[verifier::rlimit(60)]
proof fn lemma_block_said(
    s: Seq<char>,
    a: Seq<Attr>,
    t: Seq<char>,
    b: Seq<Attr>,
    u: Seq<char>,
    c: Seq<Attr>,
)
    requires
        lists(s, a),
        lists(t, b),
        lists(u, c),
        forall|n: Seq<char>| !font_name(n) ==> #[trigger] silent(a, n),
        forall|n: Seq<char>| n != "fill"@ && n != "fill-opacity"@ ==> #[trigger] silent(b, n),
        forall|n: Seq<char>| n != "transform"@ ==> #[trigger] silent(c, n),
    ensures
        ({
            let list = a + b + c;
            &&& said(list, "transform"@) == said(c, "transform"@)
            &&& said(list, "fill"@) == said(b, "fill"@)
            &&& said(list, "fill-opacity"@) == said(b, "fill-opacity"@)
            &&& forall|n: Seq<char>| font_name(n) ==> #[trigger] said(list, n) == said(a, n)
            &&& unhaloed(list)
        }),
{
    lemma_lists_joined(s, a, t, b);
    lemma_lists_joined(s + t, a + b, u, c);
    let list = a + b + c;
    lemma_names();
    assert(silent(a, "transform"@) && silent(b, "transform"@));
    assert(silent(a, "fill"@) && silent(c, "fill"@));
    assert(silent(a, "fill-opacity"@) && silent(c, "fill-opacity"@));
    assert forall|n: Seq<char>| font_name(n) implies #[trigger] said(list, n) == said(a, n) by {
        assert(silent(b, n) && silent(c, n));
    }
}

/// A tag with three lists of attributes.
proof fn lemma_three_parts(
    start: Seq<char>,
    name: Seq<char>,
    s: Seq<char>,
    a: Seq<Attr>,
    t: Seq<char>,
    b: Seq<Attr>,
    u: Seq<char>,
    c: Seq<Attr>,
)
    requires
        lists(s, a),
        lists(t, b),
        lists(u, c),
        start == "<text"@,
        name == "text"@,
    ensures
        is_tag(start + s + t + u + seq!['>'], name, a + b + c, seq!['>']),
        forall|n: Seq<char>| #[trigger]
            said(a + b + c, n) == said(a, n) + said(b, n) + said(c, n),
        forall|n: Seq<char>|
            silent(b, n) && silent(c, n) ==> #[trigger] said(a + b + c, n) == said(a, n),
        forall|n: Seq<char>|
            silent(a, n) && silent(c, n) ==> #[trigger] said(a + b + c, n) == said(b, n),
        forall|n: Seq<char>|
            silent(a, n) && silent(b, n) ==> #[trigger] said(a + b + c, n) == said(c, n),
{
    lemma_lists_joined(s, a, t, b);
    lemma_lists_joined(s + t, a + b, u, c);
    assert("<text"@ == seq!['<'] + "text"@) by {
        reveal_strlit("<text");
        reveal_strlit("text");
        assert("<text"@ =~= seq!['<'] + "text"@);
    }
    lemma_append(start, s, t);
    lemma_append(start, s + t, u);
    assert(lists(s + t + u, a + b + c));
    assert forall|n: Seq<char>| silent(b, n) && silent(c, n) implies #[trigger] said(a + b + c, n)
        == said(a, n) by {
        assert(said(a + b, n) == said(a, n));
    }
    assert forall|n: Seq<char>| silent(a, n) && silent(c, n) implies #[trigger] said(a + b + c, n)
        == said(b, n) by {
        assert(said(a + b, n) == said(b, n));
    }
    assert forall|n: Seq<char>| silent(a, n) && silent(b, n) implies #[trigger] said(a + b + c, n)
        == said(c, n) by {
        assert(said(a + b, n) =~= seq![]);
    }
    assert forall|n: Seq<char>| #[trigger] said(a + b + c, n) == said(a, n) + said(b, n) + said(
        c,
        n,
    ) by {
        assert(said(a + b, n) == said(a, n) + said(b, n));
    }
}

/// The face of a block as attributes, when it has one for all its runs.
proof fn lemma_shared_font_attrs(shared: SharedView, dec: nat, root: RootView) -> (list: Seq<Attr>)
    ensures
        lists(block_font_text(shared, dec, root), list),
        match shared.spec {
            Some(font) => set_in(list, font, shared.font_size, dec, root),
            None => unset(list),
        },
        forall|n: Seq<char>| !font_name(n) ==> #[trigger] silent(list, n),
{
    lemma_lists_nothing();
    match shared.spec {
        Some(font) => lemma_font_attrs(font, shared.font_size, dec, root),
        None => seq![],
    }
}

/// The anchor of a run as attributes.
proof fn lemma_place_attrs(x: Fixed, y: Fixed, dec: nat) -> (list: Seq<Attr>)
    ensures
        lists(
            " x=\""@ + num_text(x, dec) + seq!['"'] + (" y=\""@ + num_text(y, dec) + seq!['"']),
            list,
        ),
        says_number(list, "x"@, x, dec),
        says_number(list, "y"@, y, dec),
        forall|n: Seq<char>| n != "x"@ && n != "y"@ ==> #[trigger] silent(list, n),
{
    lemma_names();
    assert(" x=\""@ == seq![' '] + "x"@ + "=\""@ && tidy_name("x"@) && " y=\""@ == seq![' ']
        + "y"@ + "=\""@ && tidy_name("y"@)) by {
        lemma_openings();
    }
    let a = lemma_number_attrs(true, " x=\""@, "x"@, x, dec);
    let b = lemma_number_attrs(true, " y=\""@, "y"@, y, dec);
    lemma_lists_joined(
        " x=\""@ + num_text(x, dec) + seq!['"'],
        a,
        " y=\""@ + num_text(y, dec) + seq!['"'],
        b,
    );
    a + b
}

/// The width of a run as attributes.
proof fn lemma_length_attrs(advance: Fixed, dec: nat) -> (list: Seq<Attr>)
    ensures
        lists(length_text(advance, dec), list),
        fits_length(list, advance, dec),
        forall|n: Seq<char>|
            n != "textLength"@ && n != "lengthAdjust"@ ==> #[trigger] silent(list, n),
{
    lemma_names();
    lemma_lists_nothing();
    if advance.nanos > 0 {
        assert(" textLength=\""@ == seq![' '] + "textLength"@ + "=\""@ && tidy_name("textLength"@)
            && " lengthAdjust=\""@ == seq![' '] + "lengthAdjust"@ + "=\""@ && tidy_name(
            "lengthAdjust"@,
        )) by {
            lemma_openings();
        }
        let v = "spacingAndGlyphs"@;
        assert(quoteless(v)) by {
            reveal_strlit("spacingAndGlyphs");
        }
        let a = lemma_number_attrs(true, " textLength=\""@, "textLength"@, advance, dec);
        lemma_lists_maybe(true, " lengthAdjust=\""@, "lengthAdjust"@, v);
        let b = maybe(true, "lengthAdjust"@, v);
        let s = " textLength=\""@ + num_text(advance, dec) + seq!['"'];
        let t = " lengthAdjust=\""@ + v + seq!['"'];
        lemma_lists_joined(s, a, t, b);
        assert(length_text(advance, dec) == s + t) by {
            reveal_strlit("\" lengthAdjust=\"spacingAndGlyphs\"");
            reveal_strlit(" lengthAdjust=\"");
            reveal_strlit("spacingAndGlyphs");
            assert("\" lengthAdjust=\"spacingAndGlyphs\""@ =~= seq!['"'] + t);
            lemma_append(" textLength=\""@ + num_text(advance, dec), seq!['"'], t);
        }
        a + b
    } else {
        seq![]
    }
}

/// The halo of a run as attributes.
#[verifier::spinoff_prover]
#[verifier::rlimit(40)]
proof fn lemma_halo_attrs(run: RunView, dec: nat) -> (list: Seq<Attr>)
    requires
        run.stroke is Some ==> quoteless((run.stroke->0).0.value),
    ensures
        lists(run_stroke_text(run, dec), list),
        match run.stroke {
            Some((p, width)) => haloed(list, p.value, p.opacity, width, dec),
            None => unhaloed(list),
        },
        if run.stroke is Some && run.fill is None {
            says(list, "fill"@, "none"@)
        } else {
            silent(list, "fill"@)
        },
        forall|n: Seq<char>|
            n != "stroke"@ && n != "stroke-opacity"@ && n != "stroke-width"@ && n != "paint-order"@
                && n != "fill"@ ==> #[trigger] silent(list, n),
{
    lemma_names();
    lemma_lists_nothing();
    match run.stroke {
        Some((p, width)) => {
            lemma_paint_names();
            assert(tidy_name("stroke"@) && tidy_name("stroke-opacity"@) && " stroke-width=\""@
                == seq![' '] + "stroke-width"@ + "=\""@ && tidy_name("stroke-width"@)
                && " paint-order=\""@ == seq![' '] + "paint-order"@ + "=\""@ && tidy_name(
                "paint-order"@,
            ) && " fill=\""@ == seq![' '] + "fill"@ + "=\""@ && tidy_name("fill"@)) by {
                lemma_openings();
            }
            let order = "stroke fill"@;
            let none = "none"@;
            assert(quoteless(order) && quoteless(none)) by {
                reveal_strlit("stroke fill");
                reveal_strlit("none");
            }
            let a = lemma_named_paint_attrs("stroke"@, "stroke-opacity"@, p, dec);
            let s = paint_attr_text("stroke"@, p, dec);
            let b = lemma_number_attrs(true, " stroke-width=\""@, "stroke-width"@, width, dec);
            let t = " stroke-width=\""@ + num_text(width, dec) + seq!['"'];
            lemma_lists_maybe(true, " paint-order=\""@, "paint-order"@, order);
            let c = maybe(true, "paint-order"@, order);
            let u = " paint-order=\""@ + order + seq!['"'];
            lemma_lists_maybe(run.fill is None, " fill=\""@, "fill"@, none);
            let d = maybe(run.fill is None, "fill"@, none);
            let w: Seq<char> = if run.fill is None {
                " fill=\""@ + none + seq!['"']
            } else {
                seq![]
            };
            lemma_lists_joined(s, a, t, b);
            lemma_lists_joined(s + t, a + b, u, c);
            lemma_lists_joined(s + t + u, a + b + c, w, d);
            assert(run_stroke_text(run, dec) == s + t + u + w) by {
                reveal_strlit("\" paint-order=\"stroke fill\"");
                reveal_strlit(" paint-order=\"");
                reveal_strlit("stroke fill");
                reveal_strlit(" fill=\"none\"");
                reveal_strlit(" fill=\"");
                reveal_strlit("none");
                assert("\" paint-order=\"stroke fill\""@ =~= seq!['"'] + u);
                assert(" fill=\"none\""@ =~= " fill=\""@ + none + seq!['"']);
                let n = num_text(width, dec);
                lemma_append(s, " stroke-width=\""@, n);
                lemma_append(s, " stroke-width=\""@ + n, seq!['"']);
                lemma_append(s + (" stroke-width=\""@ + n), seq!['"'], u);
            }
            a + b + c + d
        },
        None => seq![],
    }
}

/// The decorations of a run as attributes.
proof fn lemma_decoration_attrs(underline: bool, strikethrough: bool) -> (list: Seq<Attr>)
    ensures
        lists(decoration_text(underline, strikethrough), list),
        decorated(list, underline, strikethrough),
        forall|n: Seq<char>| n != "text-decoration-line"@ ==> #[trigger] silent(list, n),
{
    assert(" text-decoration-line=\""@ == seq![' '] + "text-decoration-line"@ + "=\""@
        && tidy_name("text-decoration-line"@)) by {
        lemma_openings();
    }
    lemma_lists_nothing();
    let both = "underline line-through"@;
    let under = "underline"@;
    let through = "line-through"@;
    let opening = " text-decoration-line=\""@;
    assert(quoteless(both) && quoteless(under) && quoteless(through)
        && " text-decoration-line=\"underline line-through\""@ == opening + both + seq!['"']
        && " text-decoration-line=\"underline\""@ == opening + under + seq!['"']
        && " text-decoration-line=\"line-through\""@ == opening + through + seq!['"']) by {
        reveal_strlit("underline line-through");
        reveal_strlit("underline");
        reveal_strlit("line-through");
        reveal_strlit(" text-decoration-line=\"");
        reveal_strlit(" text-decoration-line=\"underline line-through\"");
        reveal_strlit(" text-decoration-line=\"underline\"");
        reveal_strlit(" text-decoration-line=\"line-through\"");
        assert(" text-decoration-line=\"underline line-through\""@ =~= opening + both + seq!['"']);
        assert(" text-decoration-line=\"underline\""@ =~= opening + under + seq!['"']);
        assert(" text-decoration-line=\"line-through\""@ =~= opening + through + seq!['"']);
    }
    let v = if underline && strikethrough {
        both
    } else if underline {
        under
    } else {
        through
    };
    lemma_lists_maybe(underline || strikethrough, opening, "text-decoration-line"@, v);
    maybe(underline || strikethrough, "text-decoration-line"@, v)
}

/// The direction of a run as attributes.
proof fn lemma_direction_attrs(rtl: bool) -> (list: Seq<Attr>)
    ensures
        lists(direction_text(rtl), list),
        directed(list, rtl),
        forall|n: Seq<char>|
            n != "direction"@ && n != "unicode-bidi"@ ==> #[trigger] silent(list, n),
{
    lemma_names();
    lemma_lists_nothing();
    if rtl {
        assert(" direction=\""@ == seq![' '] + "direction"@ + "=\""@ && tidy_name("direction"@)
            && " unicode-bidi=\""@ == seq![' '] + "unicode-bidi"@ + "=\""@ && tidy_name(
            "unicode-bidi"@,
        )) by {
            lemma_openings();
        }
        let s = " direction=\""@ + "rtl"@ + seq!['"'];
        let t = " unicode-bidi=\""@ + "bidi-override"@ + seq!['"'];
        assert(quoteless("rtl"@) && quoteless("bidi-override"@)
            && " direction=\"rtl\" unicode-bidi=\"bidi-override\""@ == s + t) by {
            reveal_strlit("rtl");
            reveal_strlit("bidi-override");
            reveal_strlit(" direction=\"");
            reveal_strlit(" unicode-bidi=\"");
            reveal_strlit(" direction=\"rtl\" unicode-bidi=\"bidi-override\"");
            assert(" direction=\"rtl\" unicode-bidi=\"bidi-override\""@ =~= s + t);
        }
        lemma_lists_maybe(true, " direction=\""@, "direction"@, "rtl"@);
        lemma_lists_maybe(true, " unicode-bidi=\""@, "unicode-bidi"@, "bidi-override"@);
        let a = maybe(true, "direction"@, "rtl"@);
        let b = maybe(true, "unicode-bidi"@, "bidi-override"@);
        lemma_lists_joined(s, a, t, b);
        a + b
    } else {
        seq![]
    }
}

/// What a run's tag says of its fill.
pub open spec fn span_fill(list: Seq<Attr>, run: RunView, shared: SharedView, dec: nat) -> bool {
    match (shared.fill, run.fill) {
        (None, Some(p)) => says(list, "fill"@, p.value) && says_opacity(
            list,
            "fill-opacity"@,
            p.opacity,
            dec,
        ),
        (_, None) if run.stroke is Some => says(list, "fill"@, "none"@) && silent(
            list,
            "fill-opacity"@,
        ),
        _ => silent(list, "fill"@) && silent(list, "fill-opacity"@),
    }
}

/// The names that the first attributes of a run may have.
spec fn early_name(n: Seq<char>) -> bool {
    n == "x"@ || n == "y"@ || n == "textLength"@ || n == "lengthAdjust"@ || font_name(n)
}

/// The names that the other attributes of a run may have.
spec fn late_name(n: Seq<char>) -> bool {
    n == "fill"@ || n == "fill-opacity"@ || n == "stroke"@ || n == "stroke-opacity"@ || n
        == "stroke-width"@ || n == "paint-order"@ || n == "text-decoration-line"@ || n
        == "direction"@ || n == "unicode-bidi"@ || n == "data-pick-id"@ || n == "data-pick-block"@
        || n == "pointer-events"@
}

/// Where a run stands, how wide it is, and its face.
#[verifier::spinoff_prover]
#[verifier::rlimit(60)]
proof fn lemma_early_attrs(run: RunView, shared: SharedView, dec: nat, root: RootView) -> (list:
    Seq<Attr>)
    ensures
        lists(
            " x=\""@ + num_text(run.x, dec) + seq!['"'] + (" y=\""@ + num_text(run.y, dec)
                + seq!['"']) + length_text(run.advance, dec) + run_font_text(
                run,
                shared,
                dec,
                root,
            ),
            list,
        ),
        says_number(list, "x"@, run.x, dec),
        says_number(list, "y"@, run.y, dec),
        fits_length(list, run.advance, dec),
        match shared.spec {
            None => set_in(list, run.spec, run.font_size, dec, root),
            Some(_) => unset(list),
        },
        forall|n: Seq<char>| !early_name(n) ==> #[trigger] silent(list, n),
{
    let own = SharedView {
        spec: if shared.spec is None {
            Some(run.spec)
        } else {
            None
        },
        font_size: run.font_size,
        fill: None,
    };
    let s = " x=\""@ + num_text(run.x, dec) + seq!['"'] + (" y=\""@ + num_text(run.y, dec)
        + seq!['"']);
    let t = length_text(run.advance, dec);
    let u = run_font_text(run, shared, dec, root);
    let a = lemma_place_attrs(run.x, run.y, dec);
    let b = lemma_length_attrs(run.advance, dec);
    let c = lemma_shared_font_attrs(own, dec, root);
    lemma_three_parts("<text"@, "text"@, s, a, t, b, u, c);
    lemma_lists_joined(s, a, t, b);
    lemma_lists_joined(s + t, a + b, u, c);
    let list = a + b + c;
    assert(said(list, "x"@) == said(a, "x"@) && said(list, "y"@) == said(a, "y"@) && said(
        list,
        "textLength"@,
    ) == said(b, "textLength"@) && said(list, "lengthAdjust"@) == said(b, "lengthAdjust"@) && said(
        list,
        "font-family"@,
    ) == said(c, "font-family"@) && said(list, "font-size"@) == said(c, "font-size"@) && said(
        list,
        "font-weight"@,
    ) == said(c, "font-weight"@) && said(list, "font-style"@) == said(c, "font-style"@) && said(
        list,
        "font-stretch"@,
    ) == said(c, "font-stretch"@) && said(list, "letter-spacing"@) == said(c, "letter-spacing"@)
        && said(list, "style"@) == said(c, "style"@)) by {
        lemma_names();
    }
    if shared.spec is None {
        lemma_set_in_like(c, list, run.spec, run.font_size, dec, root);
    }
    assert forall|n: Seq<char>| !early_name(n) implies #[trigger] silent(list, n) by {
        assert(silent(a, n) && silent(b, n) && silent(c, n));
    }
    list
}

/// How a run is painted, decorated, directed and picked.
#[verifier::spinoff_prover]
#[verifier::rlimit(60)]
proof fn lemma_late_attrs(
    run: RunView,
    shared: SharedView,
    dec: nat,
    on: bool,
    targeted: bool,
) -> (list: Seq<Attr>)
    requires
        run.fill is Some ==> quoteless(run.fill->0.value),
        run.stroke is Some ==> quoteless((run.stroke->0).0.value),
    ensures
        lists(
            run_fill_text(run, shared, dec) + run_stroke_text(run, dec) + decoration_text(
                run.underline,
                run.strikethrough,
            ) + direction_text(run.rtl) + pick_text(run.pick, on, targeted),
            list,
        ),
        span_fill(list, run, shared, dec),
        match run.stroke {
            Some((p, width)) => haloed(list, p.value, p.opacity, width, dec),
            None => unhaloed(list),
        },
        decorated(list, run.underline, run.strikethrough),
        directed(list, run.rtl),
        picked_as(list, run.pick, on, targeted),
        forall|n: Seq<char>| !late_name(n) ==> #[trigger] silent(list, n),
{
    let own: Option<PaintView> = if shared.fill is None {
        run.fill
    } else {
        None
    };
    let a = lemma_text_fill_attrs(own, dec);
    let b = lemma_halo_attrs(run, dec);
    let c = lemma_decoration_attrs(run.underline, run.strikethrough);
    let d = lemma_direction_attrs(run.rtl);
    let e = lemma_pick_attrs(run.pick, on, targeted);
    let s = run_fill_text(run, shared, dec);
    let t = run_stroke_text(run, dec);
    let u = decoration_text(run.underline, run.strikethrough);
    let w = direction_text(run.rtl);
    let x = pick_text(run.pick, on, targeted);
    lemma_lists_joined(s, a, t, b);
    lemma_lists_joined(s + t, a + b, u, c);
    lemma_lists_joined(s + t + u, a + b + c, w, d);
    lemma_lists_joined(s + t + u + w, a + b + c + d, x, e);
    let list = a + b + c + d + e;
    lemma_names();
    list
}

/// A run's start tag.
#[verifier::spinoff_prover]
#[verifier::rlimit(60)]
proof fn lemma_span_tag(
    run: RunView,
    shared: SharedView,
    dec: nat,
    on: bool,
    targeted: bool,
    root: RootView,
) -> (list: Seq<Attr>)
    requires
        run.fill is Some ==> quoteless(run.fill->0.value),
        run.stroke is Some ==> quoteless((run.stroke->0).0.value),
    ensures
        is_tag(
            anchor_text(run, dec) + run_attrs_text(run, shared, dec, on, targeted, root)
                + seq!['>'],
            "tspan"@,
            list,
            seq!['>'],
        ),
        span_says(list, run, dec, on, targeted),
        match shared.spec {
            None => set_in(list, run.spec, run.font_size, dec, root),
            Some(_) => unset(list),
        },
        span_fill(list, run, shared, dec),
        match run.stroke {
            Some((p, width)) => haloed(list, p.value, p.opacity, width, dec),
            None => unhaloed(list),
        },
{
    let a = lemma_early_attrs(run, shared, dec, root);
    let b = lemma_late_attrs(run, shared, dec, on, targeted);
    let x = num_text(run.x, dec);
    let y = num_text(run.y, dec);
    let place = " x=\""@ + x + seq!['"'] + (" y=\""@ + y + seq!['"']);
    let s = place + length_text(run.advance, dec) + run_font_text(run, shared, dec, root);
    let p = run_fill_text(run, shared, dec);
    let q = run_stroke_text(run, dec);
    let r = decoration_text(run.underline, run.strikethrough);
    let d = direction_text(run.rtl);
    let e = pick_text(run.pick, on, targeted);
    let t = p + q + r + d + e;
    lemma_lists_joined(s, a, t, b);
    let list = a + b;
    let name = seq!['<'] + "tspan"@;
    assert(anchor_text(run, dec) == name + place) by {
        reveal_strlit("<tspan x=\"");
        reveal_strlit("tspan");
        reveal_strlit(" x=\"");
        reveal_strlit(" y=\"");
        reveal_strlit("\" y=\"");
        assert("<tspan x=\""@ =~= name + " x=\""@);
        assert("\" y=\""@ =~= seq!['"'] + " y=\""@);
        assert(name + " x=\""@ + x + (seq!['"'] + " y=\""@) + y + seq!['"'] =~= name + (" x=\""@
            + x + seq!['"'] + (" y=\""@ + y + seq!['"'])));
    }
    lemma_span_text(
        name,
        place,
        length_text(run.advance, dec),
        run_font_text(run, shared, dec, root),
        p,
        q,
        r,
        d,
        e,
    );
    assert(lists(s + t, list));
    assert(said(list, "x"@) == said(a, "x"@) && said(list, "y"@) == said(a, "y"@) && said(
        list,
        "textLength"@,
    ) == said(a, "textLength"@) && said(list, "lengthAdjust"@) == said(a, "lengthAdjust"@) && said(
        list,
        "font-family"@,
    ) == said(a, "font-family"@) && said(list, "font-size"@) == said(a, "font-size"@) && said(
        list,
        "font-weight"@,
    ) == said(a, "font-weight"@) && said(list, "font-style"@) == said(a, "font-style"@) && said(
        list,
        "font-stretch"@,
    ) == said(a, "font-stretch"@) && said(list, "letter-spacing"@) == said(a, "letter-spacing"@)
        && said(list, "style"@) == said(a, "style"@)
        && said(list, "fill"@) == said(b, "fill"@) && said(list, "fill-opacity"@) == said(
        b,
        "fill-opacity"@,
    ) && said(list, "stroke"@) == said(b, "stroke"@) && said(list, "stroke-opacity"@) == said(
        b,
        "stroke-opacity"@,
    ) && said(list, "stroke-width"@) == said(b, "stroke-width"@) && said(list, "paint-order"@)
        == said(b, "paint-order"@) && said(list, "text-decoration-line"@) == said(
        b,
        "text-decoration-line"@,
    ) && said(list, "direction"@) == said(b, "direction"@) && said(list, "unicode-bidi"@) == said(
        b,
        "unicode-bidi"@,
    ) && said(list, "data-pick-id"@) == said(b, "data-pick-id"@) && said(list, "data-pick-block"@)
        == said(b, "data-pick-block"@) && said(list, "pointer-events"@) == said(
        b,
        "pointer-events"@,
    )) by {
        lemma_names();
    }
    if shared.spec is None {
        lemma_set_in_like(a, list, run.spec, run.font_size, dec, root);
    }
    list
}

proof fn lemma_span_text(
    name: Seq<char>,
    a: Seq<char>,
    b: Seq<char>,
    c: Seq<char>,
    d: Seq<char>,
    e: Seq<char>,
    f: Seq<char>,
    g: Seq<char>,
    h: Seq<char>,
)
    ensures
        (name + a) + (b + c + d + e + f + g + h) == name + ((a + b + c) + (d + e + f + g + h)),
{
    assert((name + a) + (b + c + d + e + f + g + h) =~= name + ((a + b + c) + (d + e + f + g + h)));
}

/// The runs of a block up to one of them, and from it on.
proof fn lemma_spans_around(
    runs: Seq<RunView>,
    n: nat,
    i: int,
    shared: SharedView,
    dec: nat,
    on: bool,
    targeted: bool,
    root: RootView,
) -> (around: (Seq<char>, Seq<char>))
    requires
        0 <= i < n <= runs.len(),
    ensures
        tspans_text(runs, n, shared, dec, on, targeted, root) == around.0 + tspan_text(
            runs[i],
            shared,
            dec,
            on,
            targeted,
            tspans_root(runs, i as nat, shared, root),
        ) + around.1,
        i == n - 1 ==> around.1.len() == 0,
    decreases n,
{
    let m = (n - 1) as nat;
    let before = tspans_text(runs, m, shared, dec, on, targeted, root);
    let last = tspan_text(
        runs[m as int],
        shared,
        dec,
        on,
        targeted,
        tspans_root(runs, m, shared, root),
    );
    if i == m {
        lemma_append_nothing(before + last);
        (before, seq![])
    } else {
        let around = lemma_spans_around(runs, m, i, shared, dec, on, targeted, root);
        let own = tspan_text(
            runs[i],
            shared,
            dec,
            on,
            targeted,
            tspans_root(runs, i as nat, shared, root),
        );
        lemma_append(around.0 + own, around.1, last);
        (around.0, around.1 + last)
    }
}

proof fn lemma_one_fill_is_shared(runs: Seq<RunView>, i: int)
    requires
        0 <= i < runs.len(),
        super::text::one_fill(runs, runs.len() as int),
    ensures
        runs[i].fill == runs[0].fill,
    decreases i,
{
    if i > 0 {
        lemma_one_fill_is_shared(runs, i - 1);
        assert(runs[i].fill == runs[i - 1].fill);
    }
}

proof fn lemma_one_font_is_shared(runs: Seq<RunView>, i: int)
    requires
        0 <= i < runs.len(),
        super::text::one_font(runs, runs.len() as int),
    ensures
        runs[i].spec == runs[0].spec,
        runs[i].font_size == runs[0].font_size,
    decreases i,
{
    if i > 0 {
        lemma_one_font_is_shared(runs, i - 1);
        assert(runs[i].spec == runs[i - 1].spec);
    }
}

/// True when a tag sets text in a face, in a document whose root names a
/// family and a size: what the tag does not say is what the root says.
pub open spec fn set_under(
    list: Seq<Attr>,
    font: FontView,
    size: Fixed,
    dec: nat,
    root: RootView,
) -> bool {
    &&& exists|family: Seq<char>| #[trigger]
        names_families(family, with_fallback(font.families)) && says_text(
            list,
            "font-family"@,
            if root.family == Some(family) {
                None
            } else {
                Some(family)
            },
        )
    &&& if root.size == Some(size) {
        silent(list, "font-size"@)
    } else {
        says_number(list, "font-size"@, size, dec)
    }
    &&& weighs(list, font.weight)
    &&& postured(list, font.style)
    &&& widened(list, font.width, dec)
    &&& spaced(list, font.tracking, size, dec)
    &&& tuned(list, font, dec)
}

/// True when a run is set in a face: in its own tag, or in the one around it.
pub open spec fn text_set_in(
    place: Place,
    font: FontView,
    size: Fixed,
    dec: nat,
    root: RootView,
) -> bool {
    ||| unset(place.outer) && set_under(place.list, font, size, dec, root)
    ||| unset(place.list) && set_under(place.outer, font, size, dec, root)
}

/// What is set in a face against the root as it was is set in it under the
/// root as it is left.
proof fn lemma_set_under(
    list: Seq<Attr>,
    font: FontView,
    size: Fixed,
    dec: nat,
    before: RootView,
    after: RootView,
)
    requires
        set_in(list, font, size, dec, before),
        after.family == super::font::font_root(font, size, before).family,
        after.size == super::font::font_root(font, size, before).size,
    ensures
        set_under(list, font, size, dec, after),
{
    reveal(set_in);
    let own = family_list_text(font.families);
    lemma_family_list_reads_back(font.families);
    let family = choose|family: Seq<char>| #[trigger]
        names_families(family, with_fallback(font.families)) && says_text(
            list,
            "font-family"@,
            match before.family {
                Some(f) if f != family => Some(family),
                _ => None,
            },
        );
    if before.family is None {
        assert(after.family == Some(own));
        assert(says_text(list, "font-family"@, None));
    } else {
        assert(says_text(
            list,
            "font-family"@,
            if after.family == Some(family) {
                None
            } else {
                Some(family)
            },
        ));
    }
}

/// The first run of a block decides what the root is left with.
proof fn lemma_first_run_claims(runs: Seq<RunView>, n: nat, shared: SharedView, root: RootView)
    requires
        n <= runs.len(),
    ensures
        tspans_root(runs, n, shared, root) == if n == 0 || shared.spec is Some {
            root
        } else {
            super::font::font_root(runs[0].spec, runs[0].font_size, root)
        },
    decreases n,
{
    if n > 0 {
        lemma_first_run_claims(runs, (n - 1) as nat, shared, root);
    }
}

/// True when a run is painted as asked: its fill and its halo, where it has
/// them; a run with a halo alone is not filled.
pub open spec fn text_painted(
    place: Place,
    fill: Option<PaintView>,
    stroke: Option<(PaintView, Fixed)>,
    dec: nat,
) -> bool {
    &&& match fill {
        Some(p) => text_filled(place.outer, place.list, p.value, p.opacity, dec),
        None => stroke is Some ==> says(place.list, "fill"@, "none"@),
    }
    &&& match stroke {
        Some((p, width)) => haloed(place.list, p.value, p.opacity, width, dec),
        None => unhaloed(place.list) && unhaloed(place.outer),
    }
}

/// True when a run is inside a link, if it has one that may be followed.
pub open spec fn linked(place: Place, url: Option<Seq<char>>) -> bool {
    match url {
        Some(url) => exists|b: Seq<char>, a: Seq<char>, list: Seq<Attr>| #[trigger]
            is_tag(a, "a"@, list, seq!['>']) && says_text(list, "href"@, Some(url)) && place.before
                == #[trigger] (b + a) && super::refs::at(place.behind, 0, "</a>"@),
        None => true,
    }
}

/// A link that may be followed, as tags.
#[verifier::spinoff_prover]
#[verifier::rlimit(40)]
proof fn lemma_link_tag(url: Seq<char>) -> (list: Seq<Attr>)
    ensures
        is_tag(
            "<a href=\""@ + attr_text(url) + "\" target=\"_blank\" rel=\"noopener noreferrer\">"@,
            "a"@,
            list,
            seq!['>'],
        ),
        says_text(list, "href"@, Some(url)),
{
    lemma_names();
    assert(" href=\""@ == seq![' '] + "href"@ + "=\""@ && tidy_name("href"@) && " target=\""@
        == seq![' '] + "target"@ + "=\""@ && tidy_name("target"@) && " rel=\""@ == seq![' ']
        + "rel"@ + "=\""@ && tidy_name("rel"@)) by {
        lemma_openings();
    }
    let a = lemma_text_attrs(" href=\""@, "href"@, Some(url));
    let s = " href=\""@ + attr_text(url) + seq!['"'];
    let t = " target=\""@ + "_blank"@ + seq!['"'];
    let u = " rel=\""@ + "noopener noreferrer"@ + seq!['"'];
    assert(quoteless("_blank"@) && quoteless("noopener noreferrer"@)) by {
        reveal_strlit("_blank");
        reveal_strlit("noopener noreferrer");
    }
    lemma_lists_maybe(true, " target=\""@, "target"@, "_blank"@);
    lemma_lists_maybe(true, " rel=\""@, "rel"@, "noopener noreferrer"@);
    let b = maybe(true, "target"@, "_blank"@);
    let c = maybe(true, "rel"@, "noopener noreferrer"@);
    lemma_lists_joined(s, a, t, b);
    lemma_lists_joined(s + t, a + b, u, c);
    let name = seq!['<'] + "a"@;
    let tail = "\" target=\"_blank\" rel=\"noopener noreferrer\">"@;
    assert("<a href=\""@ == name + " href=\""@ && tail == seq!['"'] + t + u + seq!['>']) by {
        reveal_strlit("<a href=\"");
        reveal_strlit("a");
        reveal_strlit(" href=\"");
        reveal_strlit("\" target=\"_blank\" rel=\"noopener noreferrer\">");
        reveal_strlit(" target=\"");
        reveal_strlit("_blank");
        reveal_strlit(" rel=\"");
        reveal_strlit("noopener noreferrer");
        assert("<a href=\""@ =~= name + " href=\""@);
        assert(tail =~= seq!['"'] + t + u + seq!['>']);
    }
    let list = a + b + c;
    assert(name + " href=\""@ + attr_text(url) + (seq!['"'] + t + u + seq!['>']) =~= name + (s + t
        + u) + seq!['>']);
    assert(lists(s + t + u, list));
    list
}

/// Every run of a block stands in it, anchored, reading and looking as it was
/// drawn.
#[verifier::spinoff_prover]
#[verifier::rlimit(80)]
proof fn lemma_block_holds_run(
    runs: Seq<RunView>,
    i: int,
    dec: nat,
    on: bool,
    targeted: bool,
    root: RootView,
    ids: Seq<Seq<char>>,
) -> (place: Place)
    requires
        0 <= i < runs.len(),
        super::pieces::runs_are_sound(runs, ids),
    ensures
        place.front.len() == 0,
        stands_at(block_text(runs, dec, on, targeted, root), place),
        reads_at(place, runs[i].text, runs[i].x, runs[i].y, runs[0].transform, dec),
        span_says(place.list, runs[i], dec, on, targeted),
        text_set_in(place, runs[i].spec, runs[i].font_size, dec, block_root(runs, root)),
        text_painted(place, runs[i].fill, runs[i].stroke, dec),
        linked(
            place,
            if runs[i].link is Some && runs[i].link->0.safe {
                Some(runs[i].link->0.url)
            } else {
                None
            },
        ),
        i == runs.len() - 1 ==> place.behind == link_close_text(runs[i].link),
{
    let shared = shared_of(runs);
    let run = runs[i];
    assert(super::pieces::run_is_sound(runs[0], ids));
    assert(super::pieces::run_is_sound(run, ids));
    let outer = lemma_block_tag(shared, runs[0].transform, dec, root);
    let head = block_open_text(runs, dec, root);
    let inner = block_font_root(shared, root);
    let around = lemma_spans_around(runs, runs.len(), i, shared, dec, on, targeted, inner);
    let own = tspans_root(runs, i as nat, shared, inner);
    let list = lemma_span_tag(run, shared, dec, on, targeted, own);
    let open = link_open_text(run.link);
    let close = link_close_text(run.link);
    let tag = anchor_text(run, dec) + run_attrs_text(run, shared, dec, on, targeted, own)
        + seq!['>'];
    let content = content_text(run.text);
    lemma_content_text_reads_back(run.text);
    super::pieces::lemma_content_text_is_bracketless(run.text);
    let place = Place {
        front: seq![],
        head,
        outer,
        before: around.0 + open,
        tag,
        list,
        content,
        behind: close + around.1,
    };
    lemma_block_text_around(
        head,
        around.0,
        open,
        anchor_text(run, dec),
        run_attrs_text(run, shared, dec, on, targeted, own),
        content,
        close,
        around.1,
    );
    assert(stands_at(block_text(runs, dec, on, targeted, root), place));
    lemma_first_run_claims(runs, runs.len(), shared, inner);
    lemma_first_run_claims(runs, i as nat, shared, inner);
    let left = block_root(runs, root);
    if shared.spec is Some {
        lemma_one_font_is_shared(runs, i);
        lemma_set_under(outer, run.spec, run.font_size, dec, root, left);
    } else {
        lemma_set_under(list, run.spec, run.font_size, dec, own, left);
    }
    if super::text::one_fill(runs, runs.len() as int) {
        lemma_one_fill_is_shared(runs, i);
    }
    if run.link is Some && run.link->0.safe {
        let a = lemma_link_tag(run.link->0.url);
        reveal_strlit("</a>");
        assert(place.behind.subrange(0, 4) =~= "</a>"@);
        assert(is_tag(open, "a"@, a, seq!['>']));
        assert(place.before == around.0 + open);
    }
    if i == runs.len() - 1 {
        assert(around.1 =~= seq![]);
        lemma_append_nothing(close);
    }
    place
}

proof fn lemma_block_text_around(
    head: Seq<char>,
    before: Seq<char>,
    open: Seq<char>,
    anchor: Seq<char>,
    attrs: Seq<char>,
    content: Seq<char>,
    close: Seq<char>,
    behind: Seq<char>,
)
    ensures
        head + (before + (open + anchor + attrs + seq!['>'] + content + "</tspan>"@ + close)
            + behind) + "</text>"@ == Seq::<char>::empty() + (head + (before + open) + (anchor + attrs
            + seq!['>']) + content + "</tspan>"@ + (close + behind) + "</text>"@),
{
    assert(head + (before + (open + anchor + attrs + seq!['>'] + content + "</tspan>"@ + close)
        + behind) + "</text>"@ =~= Seq::<char>::empty() + (head + (before + open) + (anchor + attrs
        + seq!['>']) + content + "</tspan>"@ + (close + behind) + "</text>"@));
}

/// True when a run joins the text block that is open: it belongs to the same
/// piece of text, under the same map.
pub open spec fn joins(v: SceneView, src: TextSource, t: Affine) -> bool {
    v.block.runs.len() > 0 && v.block.group == Some(src.group) && v.block.runs[0].transform == t
}

/// What precedes the `<text>` that a run stands in: what was drawn before that
/// was begun.
pub open spec fn before_text(v: SceneView, src: TextSource, t: Affine) -> Seq<char> {
    if joins(v, src, t) {
        v.body + v.prelude + v.held_fill_text()
    } else {
        super::drawn::behind_fill(v)
    }
}

/// The face that is asked for: with faces inlined, the one it resolved to comes
/// first.
pub open spec fn asked_for(run: GlyphRun, src: TextSource, embed: bool) -> FontView {
    match run.face.family {
        Some(name) if embed => FontView {
            families: seq![FamilyView::Named(name@)] + src.font@.families,
            ..src.font@
        },
        _ => src.font@,
    }
}

/// True when an opacity is that of a brush dimmed by `alpha`: the product of
/// the two, to the nearest billionth. An `alpha` of one or more leaves it.
pub open spec fn dimmed(opacity: Option<Fixed>, brush: Brush, alpha: Fixed) -> bool {
    let own = translucency(brush);
    if alpha.nanos >= 1_000_000_000 {
        opacity == own
    } else {
        let base = match own {
            Some(a) => a.nanos as int,
            None => 1_000_000_000,
        };
        0 <= base <= 1_000_000_000 && 0 <= alpha.nanos ==> opacity is Some && -1_000_000_000 <= 2 * (
        opacity->0.nanos * 1_000_000_000 - base * alpha.nanos) <= 1_000_000_000
    }
}

/// True when a run is painted with its brush, dimmed by its own alpha: filled
/// with it, or, where it has a stroke, not filled and with a halo of that
/// width.
pub open spec fn text_shows_brush(
    place: Place,
    run: GlyphRun,
    defs: Seq<DefView>,
    dec: nat,
) -> bool {
    exists|p: PaintView| #[trigger]
        paint_shows(p.value, run.brush, defs) && dimmed(p.opacity, run.brush, run.brush_alpha)
            && text_painted(
            place,
            if run.style is None {
                Some(p)
            } else {
                None
            },
            match run.style {
                Some(stroke) => Some((p, stroke.width)),
                None => None,
            },
            dec,
        )
}

proof fn lemma_dimmed(p: PaintView, brush: Brush, alpha: Fixed)
    requires
        p.opacity == translucency(brush),
    ensures
        dimmed(scaled_paint(p, alpha).opacity, brush, alpha),
{
    let base = match p.opacity {
        Some(a) => a.nanos as int,
        None => 1_000_000_000,
    };
    if alpha.nanos < 1_000_000_000 && 0 <= base <= 1_000_000_000 && 0 <= alpha.nanos {
        let n = base * alpha.nanos;
        assert(0 <= n <= 1_000_000_000_000_000_000) by (nonlinear_arith)
            requires
                n == base * alpha.nanos,
                0 <= base <= 1_000_000_000,
                0 <= alpha.nanos <= 1_000_000_000,
        ;
    }
}

/// A block that takes a run holds it.
proof fn lemma_block_takes(block: BlockView, run: RunView) -> (i: int)
    ensures
        ({
            let after = block_with(block, run).runs;
            &&& 0 <= i < after.len()
            &&& same_spot(after[i], run)
            &&& after[0].transform == if block.runs.len() > 0 {
                block.runs[0].transform
            } else {
                run.transform
            }
            &&& (forall|k: int|
                0 <= k < block.runs.len() ==> !same_spot(#[trigger] block.runs[k], run)) ==> i
                == after.len() - 1 && after[i] == run
        }),
{
    let runs = block.runs;
    let after = block_with(block, run).runs;
    let i = first_same_spot(runs, run, 0);
    lemma_first_same_spot(runs, run, 0);
    if i < runs.len() {
        assert(after[i] == merged_run(runs[i], run));
        i
    } else {
        runs.len() as int
    }
}

proof fn lemma_first_same_spot(runs: Seq<RunView>, run: RunView, i: int)
    requires
        0 <= i <= runs.len(),
    ensures
        i <= first_same_spot(runs, run, i) <= runs.len(),
        first_same_spot(runs, run, i) < runs.len() ==> same_spot(
            runs[first_same_spot(runs, run, i)],
            run,
        ),
    decreases runs.len() - i,
{
    if i < runs.len() && !same_spot(runs[i], run) {
        lemma_first_same_spot(runs, run, i + 1);
    }
}

/// What is drawn once a run of text has been, and where.
#[verifier::spinoff_prover]
#[verifier::rlimit(80)]
proof fn lemma_text_scene(v: SceneView, run: GlyphRun, pick: PickId)
    requires
        sound(v),
        held_in_order(v),
        run.source is Some,
        v.config.text == TextMode::Text,
        run.glyphs@.len() > 0,
    ensures
        ({
            let src = run.source->0;
            let after = v.glyphs_drawn(run, pick);
            &&& drawn(after) == before_text(v, src, run.transform) + after.held_block_text()
            &&& after.config == v.config
            &&& after.scope_modes == v.scope_modes
            &&& after.defs == super::paint::brush_defs(v.defs, run.brush, v.config.prefix)
        }),
{
    let src = run.source->0;
    let after = v.glyphs_drawn(run, pick);
    let ready = v.flushed_pending();
    assert(after.held_fill_text() =~= seq![]);
    lemma_append_nothing(after.body + after.prelude + after.held_block_text());
    if v.block_open() {
        if v.pending is None {
            lemma_append_nothing(v.body + v.prelude);
        } else {
            lemma_append(v.body, v.prelude, v.held_fill_text());
        }
        if joins(v, src, run.transform) {
            assert(after.body + after.prelude == before_text(v, src, run.transform));
        } else {
            lemma_append_nothing(after.body);
            assert(after.prelude =~= seq![]);
            assert(after.body == before_text(v, src, run.transform));
        }
    } else {
        assert(v.prelude =~= seq![]);
        assert(v.held_block_text() =~= seq![]);
        assert(ready.held_block_text() =~= seq![]);
        assert(after.prelude =~= seq![]);
        assert(after.body =~= v.body + v.held_fill_text());
        assert(after.body + after.prelude =~= before_text(v, src, run.transform));
    }
}

/// Text that is drawn stands in the document where its first glyph was put:
/// under the map of the run, the tag that reads its characters is anchored
/// across where that glyph is across, and down where it is down.
#[verifier::spinoff_prover]
#[verifier::rlimit(80)]
pub proof fn lemma_text_stands_where_it_was_put(v: SceneView, run: GlyphRun, pick: PickId)
    requires
        sound(v),
        held_in_order(v),
        glyphs_are_sound(run),
        run.source is Some,
        v.config.text == TextMode::Text,
        run.glyphs@.len() > 0,
    ensures
        ({
            let src = run.source->0;
            let first = run.glyphs@[0];
            exists|place: Place| #[trigger]
                stands_at(drawn(v.glyphs_drawn(run, pick)), place) && reads_at(
                    place,
                    src.text@,
                    first.x,
                    first.y,
                    run.transform,
                    v.config.decimals,
                ) && place.front == before_text(v, src, run.transform)
        }),
{
    let place = lemma_text_place(v, run, pick);
}

/// Text that no other pass has drawn in the same place says everything it was
/// drawn with: how wide it is, what it is set in, how it is painted, decorated,
/// directed, linked and picked. It comes last in the text it joins.
pub proof fn lemma_text_says_what_it_was_drawn_with(v: SceneView, run: GlyphRun, pick: PickId)
    requires
        sound(v),
        held_in_order(v),
        glyphs_are_sound(run),
        run.source is Some,
        v.config.text == TextMode::Text,
        run.glyphs@.len() > 0,
        joins(v, run.source->0, run.transform) ==> forall|k: int|
            0 <= k < v.block.runs.len() ==> (#[trigger] v.block.runs[k]).x != run.glyphs@[0].x
                || v.block.runs[k].y != run.glyphs@[0].y || v.block.runs[k].text
                != run.source->0.text@,
    ensures
        ({
            let src = run.source->0;
            let first = run.glyphs@[0];
            let after = v.glyphs_drawn(run, pick);
            let dec = v.config.decimals;
            exists|place: Place| #[trigger]
                stands_at(drawn(after), place) && reads_at(
                    place,
                    src.text@,
                    first.x,
                    first.y,
                    run.transform,
                    dec,
                ) && fits_length(place.list, src.advance, dec) && decorated(
                    place.list,
                    src.underline is Some,
                    src.strikethrough is Some,
                ) && directed(place.list, src.rtl) && picked_as(
                    place.list,
                    pick,
                    v.config.pick_ids,
                    in_target(v),
                ) && text_set_in(
                    place,
                    asked_for(run, src, v.config.embed_fonts),
                    run.font_size,
                    dec,
                    after.final_root(),
                ) && text_shows_brush(place, run, after.defs, dec) && linked(
                    place,
                    if src.link is Some && src.link->0.safe {
                        Some(src.link->0.url@)
                    } else {
                        None
                    },
                ) && place.behind.len() == if src.link is Some && src.link->0.safe {
                    4
                } else {
                    0int
                }
        }),
{
    let place = lemma_text_place(v, run, pick);
    reveal_strlit("</a>");
}

/// Where a run of text stands once it has been drawn.
#[verifier::spinoff_prover]
#[verifier::rlimit(100)]
proof fn lemma_text_place(v: SceneView, run: GlyphRun, pick: PickId) -> (place: Place)
    requires
        sound(v),
        held_in_order(v),
        glyphs_are_sound(run),
        run.source is Some,
        v.config.text == TextMode::Text,
        run.glyphs@.len() > 0,
    ensures
        ({
            let src = run.source->0;
            let first = run.glyphs@[0];
            let after = v.glyphs_drawn(run, pick);
            let dec = v.config.decimals;
            let fresh = joins(v, src, run.transform) ==> forall|k: int|
                0 <= k < v.block.runs.len() ==> (#[trigger] v.block.runs[k]).x != first.x
                    || v.block.runs[k].y != first.y || v.block.runs[k].text != src.text@;
            &&& stands_at(drawn(after), place)
            &&& place.front == before_text(v, src, run.transform)
            &&& reads_at(place, src.text@, first.x, first.y, run.transform, dec)
            &&& fresh ==> fits_length(place.list, src.advance, dec) && decorated(
                place.list,
                src.underline is Some,
                src.strikethrough is Some,
            ) && directed(place.list, src.rtl) && picked_as(
                place.list,
                pick,
                v.config.pick_ids,
                in_target(v),
            ) && text_set_in(
                place,
                asked_for(run, src, v.config.embed_fonts),
                run.font_size,
                dec,
                after.final_root(),
            ) && text_shows_brush(place, run, after.defs, dec) && linked(
                place,
                if src.link is Some && src.link->0.safe {
                    Some(src.link->0.url@)
                } else {
                    None
                },
            ) && place.behind == link_close_text(super::text::link_view(src.link))
        }),
{
    let src = run.source->0;
    let first = run.glyphs@[0];
    let after = v.glyphs_drawn(run, pick);
    let dec = v.config.decimals;
    let on = v.config.pick_ids;
    let ready = v.flushed_pending();
    lemma_text_scene(v, run, pick);
    super::laws::lemma_glyphs_keep_sound(v, run, pick);
    let paint = v.paint_of(run.brush);
    let entry = run_view(run, src, pick, paint, v.config.embed_fonts);
    lemma_paint_shows_brush(v.defs, run.brush, v.config.prefix);
    lemma_dimmed(paint, run.brush, run.brush_alpha);
    let i = lemma_text_index(v, run, pick);
    let runs = after.block.runs;
    let inner = lemma_block_holds_run(
        runs,
        i,
        dec,
        on,
        after.targets(),
        after.root,
        after.named(),
    );
    let front = before_text(v, src, run.transform);
    let place = Place { front, ..inner };
    lemma_append_nothing(
        inner.head + inner.before + inner.tag + inner.content + "</tspan>"@ + inner.behind
            + "</text>"@,
    );
    assert(stands_at(drawn(after), place));
    if runs[i] == entry {
        let p = scaled_paint(paint, run.brush_alpha);
        assert(paint_shows(p.value, run.brush, after.defs));
        assert(text_painted(inner, entry.fill, entry.stroke, dec));
        assert(text_painted(place, entry.fill, entry.stroke, dec));
        assert(entry.spec == asked_for(run, src, v.config.embed_fonts));
        assert(text_set_in(place, entry.spec, run.font_size, dec, after.final_root()));
        assert(linked(
            place,
            if src.link is Some && src.link->0.safe {
                Some(src.link->0.url@)
            } else {
                None
            },
        ));
    }
    place
}

/// Which run of the block a run of text becomes.
#[verifier::spinoff_prover]
#[verifier::rlimit(80)]
proof fn lemma_text_index(v: SceneView, run: GlyphRun, pick: PickId) -> (i: int)
    requires
        run.source is Some,
        v.config.text == TextMode::Text,
        run.glyphs@.len() > 0,
    ensures
        ({
            let src = run.source->0;
            let first = run.glyphs@[0];
            let runs = v.glyphs_drawn(run, pick).block.runs;
            let entry = run_view(run, src, pick, v.paint_of(run.brush), v.config.embed_fonts);
            let fresh = joins(v, src, run.transform) ==> forall|k: int|
                0 <= k < v.block.runs.len() ==> (#[trigger] v.block.runs[k]).x != first.x
                    || v.block.runs[k].y != first.y || v.block.runs[k].text != src.text@;
            &&& 0 <= i < runs.len()
            &&& runs[i].x == first.x && runs[i].y == first.y && runs[i].text == src.text@
            &&& runs[0].transform == run.transform
            &&& fresh ==> i == runs.len() - 1 && runs[i] == entry
        }),
{
    let src = run.source->0;
    let ready = v.flushed_pending();
    let entry = run_view(run, src, pick, v.paint_of(run.brush), v.config.embed_fonts);
    let painted = ready.with_brush(run.brush);
    let next = SceneView {
        fonts: super::paint::faces_noted(
            painted.fonts,
            super::model::rule_text(run.face.rule),
        ),
        warnings: if v.config.embed_fonts && run.face.rule is None {
            super::config::noted(painted.warnings, super::config::SvgWarning::FontNotEmbeddable)
        } else {
            painted.warnings
        },
        ..painted
    };
    assert(v.glyphs_drawn(run, pick) == next.with_run(entry));
    assert(next.block == v.block);
    if joins(v, src, run.transform) {
        lemma_block_takes(v.block, entry)
    } else {
        assert(next.flushed_block().block.runs.len() == 0);
        lemma_block_takes(next.flushed_block().block, entry)
    }
}

/// Every run of text that is held back stands in what will be written: anchored where
/// it was put, under the map of its block, reading its characters, and set,
/// painted, linked and picked as it was drawn.
pub proof fn lemma_held_text_stands(v: SceneView, i: int)
    requires
        sound(v),
        0 <= i < v.block.runs.len(),
    ensures
        ({
            let run = v.block.runs[i];
            let dec = v.config.decimals;
            exists|place: Place| #[trigger]
                stands_at(v.body + v.prelude + v.held_block_text(), place) && reads_at(
                    place,
                    run.text,
                    run.x,
                    run.y,
                    v.block.runs[0].transform,
                    dec,
                ) && span_says(place.list, run, dec, v.config.pick_ids, in_target(v)) && text_set_in(
                    place,
                    run.spec,
                    run.font_size,
                    dec,
                    v.final_root(),
                ) && text_painted(place, run.fill, run.stroke, dec) && linked(
                    place,
                    if run.link is Some && run.link->0.safe {
                        Some(run.link->0.url)
                    } else {
                        None
                    },
                )
        }),
{
    let inner = lemma_block_holds_run(
        v.block.runs,
        i,
        v.config.decimals,
        v.config.pick_ids,
        v.targets(),
        v.root,
        v.named(),
    );
    let own = inner.head + inner.before + inner.tag + inner.content + "</tspan>"@ + inner.behind
        + "</text>"@;
    assert(v.held_block_text() =~= own);
    let place = Place { front: v.body + v.prelude, ..inner };
    assert(stands_at(v.body + v.prelude + v.held_block_text(), place));
}

/// The run a block takes when text is drawn into it.
proof fn lemma_text_joins(v: SceneView, run: GlyphRun, pick: PickId) -> (entry: RunView)
    requires
        run.source is Some,
        v.config.text == TextMode::Text,
        run.glyphs@.len() > 0,
        joins(v, run.source->0, run.transform),
    ensures
        v.glyphs_drawn(run, pick).block == block_with(v.block, entry),
        entry.x == run.glyphs@[0].x,
        entry.y == run.glyphs@[0].y,
        entry.text == run.source->0.text@,
        entry.pick == pick,
        entry.underline == (run.source->0.underline is Some),
        entry.strikethrough == (run.source->0.strikethrough is Some),
        match run.style {
            Some(stroke) => entry.fill is None && entry.stroke == Some(
                (scaled_paint(v.paint_of(run.brush), run.brush_alpha), stroke.width),
            ),
            None => entry.stroke is None && entry.fill == Some(
                scaled_paint(v.paint_of(run.brush), run.brush_alpha),
            ),
        },
{
    run_view(run, run.source->0, pick, v.paint_of(run.brush), v.config.embed_fonts)
}

/// Drawing text leaves the text it joins as it was drawn, run by run: a second
/// pass over the same characters in the same place adds to the first such run,
/// and any other is left alone. A fill pass brings its pick and its rules, a
/// stroke pass its width, and neither moves what is there.
#[verifier::spinoff_prover]
#[verifier::rlimit(60)]
pub proof fn lemma_text_keeps_what_it_joins(v: SceneView, run: GlyphRun, pick: PickId, k: int)
    requires
        run.source is Some,
        v.config.text == TextMode::Text,
        run.glyphs@.len() > 0,
        joins(v, run.source->0, run.transform),
        0 <= k < v.block.runs.len(),
    ensures
        ({
            let src = run.source->0;
            let first = run.glyphs@[0];
            let old = v.block.runs[k];
            let runs = v.glyphs_drawn(run, pick).block.runs;
            let new = runs[k];
            let again = first_there(v.block.runs, k, first.x, first.y, src.text@);
            &&& k < runs.len()
            &&& new.x == old.x && new.y == old.y && new.text == old.text && new.advance
                == old.advance && new.font_size == old.font_size && new.spec == old.spec && new.rtl
                == old.rtl && new.link == old.link && new.transform == old.transform && new.group
                == old.group
            &&& !again ==> new == old
            &&& again ==> runs.len() == v.block.runs.len()
            &&& again && run.style is None ==> new.stroke == old.stroke && new.pick == pick
                && new.underline == (old.underline || src.underline is Some) && new.strikethrough
                == (old.strikethrough || src.strikethrough is Some)
            &&& again && run.style is Some ==> new.fill == old.fill && new.pick == old.pick
                && new.underline == old.underline && new.strikethrough == old.strikethrough
                && new.stroke is Some && (new.stroke->0).1 == run.style->0.width
        }),
{
    let entry = lemma_text_joins(v, run, pick);
    lemma_block_keeps(v.block, entry, k);
}

/// A second pass over text brings its own paint: that of its brush, dimmed by
/// its alpha.
#[verifier::spinoff_prover]
#[verifier::rlimit(60)]
pub proof fn lemma_second_pass_brings_its_paint(v: SceneView, run: GlyphRun, pick: PickId, k: int)
    requires
        sound(v),
        run.source is Some,
        v.config.text == TextMode::Text,
        run.glyphs@.len() > 0,
        joins(v, run.source->0, run.transform),
        0 <= k < v.block.runs.len(),
        first_there(
            v.block.runs,
            k,
            run.glyphs@[0].x,
            run.glyphs@[0].y,
            run.source->0.text@,
        ),
    ensures
        ({
            let after = v.glyphs_drawn(run, pick);
            let new = after.block.runs[k];
            exists|p: PaintView| #[trigger]
                paint_shows(p.value, run.brush, after.defs) && dimmed(
                    p.opacity,
                    run.brush,
                    run.brush_alpha,
                ) && if run.style is None {
                    new.fill == Some(p)
                } else {
                    new.stroke is Some && (new.stroke->0).0 == p
                }
        }),
{
    lemma_pass_defs(v, run, pick);
    let p = lemma_pass_paint(v, run, v.glyphs_drawn(run, pick).defs);
    lemma_second_pass_paint(v, run, pick, k, p);
}

proof fn lemma_pass_defs(v: SceneView, run: GlyphRun, pick: PickId)
    requires
        run.source is Some,
        v.config.text == TextMode::Text,
        run.glyphs@.len() > 0,
    ensures
        v.glyphs_drawn(run, pick).defs == super::paint::brush_defs(
            v.defs,
            run.brush,
            v.config.prefix,
        ),
{
}

proof fn lemma_pass_paint(v: SceneView, run: GlyphRun, defs: Seq<DefView>) -> (p: PaintView)
    requires
        sound(v),
        defs == super::paint::brush_defs(v.defs, run.brush, v.config.prefix),
    ensures
        p == scaled_paint(v.paint_of(run.brush), run.brush_alpha),
        paint_shows(p.value, run.brush, defs),
        dimmed(p.opacity, run.brush, run.brush_alpha),
{
    let paint = v.paint_of(run.brush);
    lemma_paint_shows_brush(v.defs, run.brush, v.config.prefix);
    lemma_dimmed(paint, run.brush, run.brush_alpha);
    scaled_paint(paint, run.brush_alpha)
}

proof fn lemma_second_pass_paint(
    v: SceneView,
    run: GlyphRun,
    pick: PickId,
    k: int,
    p: PaintView,
)
    requires
        run.source is Some,
        v.config.text == TextMode::Text,
        run.glyphs@.len() > 0,
        joins(v, run.source->0, run.transform),
        0 <= k < v.block.runs.len(),
        first_there(
            v.block.runs,
            k,
            run.glyphs@[0].x,
            run.glyphs@[0].y,
            run.source->0.text@,
        ),
        p == scaled_paint(v.paint_of(run.brush), run.brush_alpha),
    ensures
        ({
            let new = v.glyphs_drawn(run, pick).block.runs[k];
            if run.style is None {
                new.fill == Some(p)
            } else {
                new.stroke is Some && (new.stroke->0).0 == p
            }
        }),
{
    let entry = lemma_text_joins(v, run, pick);
    lemma_block_keeps(v.block, entry, k);
}

/// True when run `k` is the first that puts `text` at `(x, y)`.
pub open spec fn first_there(
    runs: Seq<RunView>,
    k: int,
    x: Fixed,
    y: Fixed,
    text: Seq<char>,
) -> bool {
    &&& runs[k].x == x && runs[k].y == y && runs[k].text == text
    &&& forall|j: int|
        0 <= j < k ==> (#[trigger] runs[j]).x != x || runs[j].y != y || runs[j].text != text
}

/// A block that takes a run keeps the runs it has, but for the first in the
/// same spot, which becomes both.
proof fn lemma_block_keeps(block: BlockView, run: RunView, k: int)
    requires
        0 <= k < block.runs.len(),
    ensures
        ({
            let after = block_with(block, run).runs;
            let old = block.runs[k];
            let again = first_there(block.runs, k, run.x, run.y, run.text);
            &&& k < after.len()
            &&& again ==> after.len() == block.runs.len() && after[k] == merged_run(old, run)
            &&& !again ==> after[k] == old
        }),
{
    let runs = block.runs;
    let at = first_same_spot(runs, run, 0);
    lemma_first_same_spot(runs, run, 0);
    lemma_first_same_spot_is_first(runs, run, 0, k);
    if at < k {
        assert(same_spot(block.runs[at], run));
    }
}

proof fn lemma_first_same_spot_is_first(runs: Seq<RunView>, run: RunView, i: int, k: int)
    requires
        0 <= i <= k < runs.len(),
    ensures
        same_spot(runs[k], run) ==> first_same_spot(runs, run, i) <= k,
        forall|j: int|
            i <= j < first_same_spot(runs, run, i) ==> !same_spot(#[trigger] runs[j], run),
    decreases runs.len() - i,
{
    reveal_with_fuel(first_same_spot, 2);
    if !same_spot(runs[i], run) {
        if i < k {
            lemma_first_same_spot_is_first(runs, run, i + 1, k);
        } else if i + 1 < runs.len() {
            lemma_first_same_spot_is_first(runs, run, i + 1, i + 1);
        }
    }
}

/// True when a rule lies where a decoration is drawn: as long as the text, from
/// where that starts, its top as far above the baseline as it is offset, and as
/// thick as it is. Nothing is said where a side is too far out to hold.
pub open spec fn lies_by(r: Rect, rule: Rule, x: Fixed, y: Fixed, advance: Fixed) -> bool {
    let top = y.nanos - rule.offset.nanos;
    let bottom = top + rule.thickness.nanos;
    let end = x.nanos + advance.nanos;
    &&& r.x0 == x
    &&& i64::MIN <= end <= i64::MAX ==> r.x1.nanos == end
    &&& i64::MIN <= top <= i64::MAX ==> r.y0.nanos == top
    &&& i64::MIN <= top <= i64::MAX && i64::MIN <= bottom <= i64::MAX ==> r.y1.nanos == bottom
}

/// The shapes that are taken for the decorations of a run are its rules where
/// they are drawn: one for each that has a thickness, and no others.
pub proof fn lemma_rules_lie_by_the_text(src: TextSource, x: Fixed, y: Fixed)
    ensures
        ({
            let rects = predicted(src, x, y);
            let under = src.underline is Some && src.underline->0.thickness.nanos > 0;
            let through = src.strikethrough is Some && src.strikethrough->0.thickness.nanos > 0;
            &&& under ==> rects.len() > 0 && lies_by(rects[0], src.underline->0, x, y, src.advance)
            &&& through ==> rects.len() > 0 && lies_by(
                rects.last(),
                src.strikethrough->0,
                x,
                y,
                src.advance,
            )
            &&& rects.len() == (if under {
                1int
            } else {
                0
            }) + (if through {
                1int
            } else {
                0
            })
        }),
{
}

/// True when every side of a shape is less than a twentieth of a unit from that
/// of another.
pub open spec fn close_to(a: Rect, b: Rect) -> bool {
    &&& -50_000_000 < a.x0.nanos - b.x0.nanos < 50_000_000
    &&& -50_000_000 < a.y0.nanos - b.y0.nanos < 50_000_000
    &&& -50_000_000 < a.x1.nanos - b.x1.nanos < 50_000_000
    &&& -50_000_000 < a.y1.nanos - b.y1.nanos < 50_000_000
}

/// A shape is taken for a decoration of text exactly when every side of it is
/// less than a twentieth of a unit from where a run of the text said one would be.
pub proof fn lemma_decorations_are_where_they_were_said_to_be(runs: Seq<RunView>, r: Rect)
    ensures
        claims(runs, r) <==> exists|i: int, j: int|
            0 <= i < runs.len() && 0 <= j < runs[i].rules.len() && close_to(
                #[trigger] runs[i].rules[j],
                r,
            ),
{
    if claims(runs, r) {
        let i = choose|i: int|
            0 <= i < runs.len() && super::text::rule_listed((#[trigger] runs[i]).rules, r);
        let j = choose|j: int|
            0 <= j < runs[i].rules.len() && super::text::same_rule(#[trigger] runs[i].rules[j], r);
        assert(close_to(runs[i].rules[j], r));
    }
    if exists|i: int, j: int|
        0 <= i < runs.len() && 0 <= j < runs[i].rules.len() && close_to(
            #[trigger] runs[i].rules[j],
            r,
        ) {
        let (i, j) = choose|i: int, j: int|
            0 <= i < runs.len() && 0 <= j < runs[i].rules.len() && close_to(
                #[trigger] runs[i].rules[j],
                r,
            );
        assert(super::text::same_rule(runs[i].rules[j], r));
        assert(super::text::rule_listed(runs[i].rules, r));
    }
}

} // verus!
