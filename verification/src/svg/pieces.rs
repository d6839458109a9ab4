//! Every piece of markup the emitter writes, shown to be what its place
//! needs: attributes in a tag, balanced markup between tags.

use vstd::prelude::*;

use super::attrs::{
    cap_text, dash_list, dash_text, fill_text, join_text, opacity_text, paint_attr_text, pick_text,
    stroke_text, width_text, PickId, Stroke,
};
use super::font::{
    family_attr_text, family_list_text, feature_items, font_text, posture_text, settings_css,
    settings_text, size_attr_text, spacing_text, stretch_keyword, stretch_text,
    stretch_value_text, variation_items, weight_text, width_ratio_text, FontStyleKind, FontView,
    RootView,
};
use super::markup::{
    attributes, balanced, bracketless, element_name, lemma_attribute, lemma_attributes_joined,
    lemma_balanced_joined, lemma_bracketless_joined, lemma_content_is_balanced,
    lemma_decimal_is_quiet, lemma_empty_element_is_balanced, lemma_end_tag_is_grounded,
    lemma_no_attributes, lemma_number_is_quiet, lemma_one_attribute, lemma_quiet_joined,
    lemma_scan_content, lemma_scan_end_tag, lemma_scan_joined, lemma_scan_start_tag,
    lemma_start_tag_is_grounded, lemma_text_attribute, outside, quiet, scan,
};
use super::paint::PaintView;
use super::refs::{
    grounded, is_use, lemma_content_is_grounded, lemma_grounded_joined, names_id, opens_value,
    quoteless, value_points,
};
use super::text::{
    anchor_text, block_fill_text, block_font_root, block_font_text, block_text,
    decoration_text, direction_text, length_text, link_close_text, link_open_text, run_attrs_text,
    run_fill_text, run_font_text, run_stroke_text, shared_of, tspan_text, tspans_root, tspans_text,
    RunView, SharedView,
};
use super::writer::{
    attr_char, attr_text, content_char, content_text, most_places, path_text, point_text,
    step_text, steps_text, transform_text,
};
use crate::fixed::{num_text, Fixed, ONE};
use crate::geometry::{identity, Affine, FillRule, PathEl, Point};
use crate::text::{decimal_text, lemma_append};

verus! {

/// True when a paint can stand in an attribute: a color, or a reference to one
/// of `ids`.
pub open spec fn paint_points(p: PaintView, ids: Seq<Seq<char>>) -> bool {
    bracketless(p.value) && value_points(p.value, ids)
}

/// An escaped attribute value holds no bracket and no quote.
pub proof fn lemma_attr_text_is_bracketless(s: Seq<char>)
    ensures
        bracketless(attr_text(s)),
        quoteless(attr_text(s)),
    decreases s.len(),
{
    if s.len() > 0 {
        lemma_attr_text_is_bracketless(s.drop_last());
        reveal_strlit("&amp;");
        reveal_strlit("&lt;");
        reveal_strlit("&gt;");
        reveal_strlit("&quot;");
        let a = attr_text(s.drop_last());
        let b = attr_char(s.last());
        assert(bracketless(b) && quoteless(b));
        lemma_bracketless_joined(a, b);
        assert forall|i: int| 0 <= i < (a + b).len() implies #[trigger] (a + b)[i] != '"' by {
            if i < a.len() {
                assert((a + b)[i] == a[i]);
            } else {
                assert((a + b)[i] == b[i - a.len()]);
            }
        }
    }
}

/// Escaped content holds no bracket.
pub proof fn lemma_content_text_is_bracketless(s: Seq<char>)
    ensures
        bracketless(content_text(s)),
    decreases s.len(),
{
    if s.len() > 0 {
        lemma_content_text_is_bracketless(s.drop_last());
        reveal_strlit("&amp;");
        reveal_strlit("&lt;");
        reveal_strlit("&gt;");
        assert(bracketless(content_char(s.last())));
        lemma_bracketless_joined(content_text(s.drop_last()), content_char(s.last()));
    }
}

proof fn lemma_point_is_quiet(p: Point, dec: nat)
    ensures
        quiet(point_text(p, dec)),
{
    lemma_number_is_quiet(p.x, dec);
    lemma_number_is_quiet(p.y, dec);
    lemma_quiet_joined(num_text(p.x, dec), seq![' ']);
    lemma_quiet_joined(num_text(p.x, dec) + seq![' '], num_text(p.y, dec));
}

proof fn lemma_step_is_quiet(el: PathEl, dec: nat)
    ensures
        quiet(step_text(el, dec)),
{
    match el {
        PathEl::MoveTo(p) => {
            lemma_point_is_quiet(p, dec);
            lemma_quiet_joined(seq!['M'], point_text(p, dec));
        },
        PathEl::LineTo(p) => {
            lemma_point_is_quiet(p, dec);
            lemma_quiet_joined(seq!['L'], point_text(p, dec));
        },
        PathEl::QuadTo(a, p) => {
            lemma_point_is_quiet(a, dec);
            lemma_point_is_quiet(p, dec);
            let s = seq!['Q'] + point_text(a, dec);
            lemma_quiet_joined(seq!['Q'], point_text(a, dec));
            lemma_quiet_joined(s, seq![' ']);
            lemma_quiet_joined(s + seq![' '], point_text(p, dec));
        },
        PathEl::CurveTo(a, b, p) => {
            lemma_point_is_quiet(a, dec);
            lemma_point_is_quiet(b, dec);
            lemma_point_is_quiet(p, dec);
            let s = seq!['C'] + point_text(a, dec);
            lemma_quiet_joined(seq!['C'], point_text(a, dec));
            lemma_quiet_joined(s, seq![' ']);
            lemma_quiet_joined(s + seq![' '], point_text(b, dec));
            let t = s + seq![' '] + point_text(b, dec);
            lemma_quiet_joined(t, seq![' ']);
            lemma_quiet_joined(t + seq![' '], point_text(p, dec));
        },
        PathEl::ClosePath => {},
    }
}

proof fn lemma_steps_are_quiet(path: Seq<PathEl>, n: nat, dec: nat)
    requires
        n <= path.len(),
    ensures
        quiet(steps_text(path, n, dec)),
    decreases n,
{
    if n > 0 {
        lemma_steps_are_quiet(path, (n - 1) as nat, dec);
        lemma_step_is_quiet(path[n - 1], dec);
        lemma_quiet_joined(
            steps_text(path, (n - 1) as nat, dec),
            step_text(path[n - 1], dec),
        );
    }
}

/// Path data holds no bracket.
pub proof fn lemma_path_is_quiet(path: Seq<PathEl>, dec: nat)
    ensures
        quiet(path_text(path, dec)),
{
    lemma_steps_are_quiet(path, path.len(), dec);
}

/// A transform is an attribute.
#[verifier::spinoff_prover]
#[verifier::rlimit(40)]
pub proof fn lemma_transform_is_attributes(t: Affine, dec: nat, ids: Seq<Seq<char>>)
    ensures
        attributes(transform_text(t, dec), ids),
{
    let lin = most_places(dec, super::writer::MATRIX_PLACES as nat);
    if t != identity() {
        reveal_strlit(" transform=\"matrix(");
        reveal_strlit(" transform=\"");
        reveal_strlit("matrix(");
        reveal_strlit(")\"");
        reveal_strlit(")");
        lemma_number_is_quiet(t.xx, lin);
        lemma_number_is_quiet(t.yx, lin);
        lemma_number_is_quiet(t.xy, lin);
        lemma_number_is_quiet(t.yy, lin);
        lemma_number_is_quiet(t.dx, dec);
        lemma_number_is_quiet(t.dy, dec);
        let space = seq![' '];
        let a = "matrix("@ + num_text(t.xx, lin);
        lemma_quiet_joined("matrix("@, num_text(t.xx, lin));
        lemma_quiet_joined(a, space);
        let b = a + space + num_text(t.yx, lin);
        lemma_quiet_joined(a + space, num_text(t.yx, lin));
        lemma_quiet_joined(b, space);
        let c = b + space + num_text(t.xy, lin);
        lemma_quiet_joined(b + space, num_text(t.xy, lin));
        lemma_quiet_joined(c, space);
        let d = c + space + num_text(t.yy, lin);
        lemma_quiet_joined(c + space, num_text(t.yy, lin));
        lemma_quiet_joined(d, space);
        let e = d + space + num_text(t.dx, dec);
        lemma_quiet_joined(d + space, num_text(t.dx, dec));
        lemma_quiet_joined(e, space);
        let f = e + space + num_text(t.dy, dec);
        lemma_quiet_joined(e + space, num_text(t.dy, dec));
        lemma_quiet_joined(f, ")"@);
        lemma_attribute(" transform=\""@, f + ")"@, ids);
        assert(transform_text(t, dec) =~= " transform=\""@ + (f + ")"@) + seq!['"']);
    } else {
        lemma_no_attributes(ids);
    }
}

/// An opacity is an attribute.
pub proof fn lemma_opacity_is_attributes(
    name: Seq<char>,
    opacity: Option<Fixed>,
    dec: nat,
    ids: Seq<Seq<char>>,
)
    requires
        opens_value(name),
        bracketless(name),
        !names_id(name),
    ensures
        attributes(opacity_text(name, opacity, dec), ids),
{
    lemma_no_attributes(ids);
    if let Some(a) = opacity {
        lemma_number_is_quiet(a, most_places(dec, 3));
        lemma_attribute(name, num_text(a, most_places(dec, 3)), ids);
    }
}

/// A numeric attribute.
proof fn lemma_numeric_attribute(name: Seq<char>, x: Fixed, dec: nat, ids: Seq<Seq<char>>)
    requires
        opens_value(name),
        bracketless(name),
        !names_id(name),
    ensures
        attributes(name + num_text(x, dec) + seq!['"'], ids),
{
    lemma_number_is_quiet(x, dec);
    lemma_attribute(name, num_text(x, dec), ids);
}

/// A fill is a list of attributes.
pub proof fn lemma_fill_is_attributes(
    paint: PaintView,
    rule: FillRule,
    dec: nat,
    ids: Seq<Seq<char>>,
)
    requires
        paint_points(paint, ids),
    ensures
        attributes(fill_text(paint, rule, dec), ids),
{
    reveal_strlit(" fill=\"");
    reveal_strlit(" fill-opacity=\"");
    reveal_strlit(" fill-rule=\"evenodd\"");
    let a = " fill=\""@ + paint.value + seq!['"'];
    lemma_text_attribute(" fill=\""@, paint.value, ids);
    let b = opacity_text(" fill-opacity=\""@, paint.opacity, dec);
    lemma_opacity_is_attributes(" fill-opacity=\""@, paint.opacity, dec, ids);
    lemma_attributes_joined(a, b, ids);
    let c = if rule == FillRule::EvenOdd {
        " fill-rule=\"evenodd\""@
    } else {
        seq![]
    };
    lemma_no_attributes(ids);
    lemma_one_attribute(" fill-rule=\"evenodd\""@, 11, ids);
    lemma_attributes_joined(a + b, c, ids);
}

/// The picking attributes are attributes.
pub proof fn lemma_pick_is_attributes(pick: PickId, on: bool, targeted: bool, ids: Seq<Seq<char>>)
    ensures
        attributes(pick_text(pick, on, targeted), ids),
{
    reveal_strlit(" pointer-events=\"none\"");
    reveal_strlit(" data-pick-block=\"\"");
    reveal_strlit(" data-pick-id=\"");
    lemma_no_attributes(ids);
    if on {
        match pick {
            PickId::Id(n) => {
                lemma_decimal_is_quiet(n as nat);
                lemma_attribute(" data-pick-id=\""@, decimal_text(n as nat), ids);
            },
            PickId::Block => lemma_one_attribute(" data-pick-block=\"\""@, 17, ids),
            PickId::Skip => lemma_one_attribute(" pointer-events=\"none\""@, 16, ids),
        }
    }
}

proof fn lemma_dash_list_is_quiet(pattern: Seq<Fixed>, n: nat, dec: nat)
    requires
        n <= pattern.len(),
    ensures
        quiet(dash_list(pattern, n, dec)),
    decreases n,
{
    if n > 0 {
        let before = dash_list(pattern, (n - 1) as nat, dec);
        let sep: Seq<char> = if n > 1 {
            seq![' ']
        } else {
            seq![]
        };
        lemma_dash_list_is_quiet(pattern, (n - 1) as nat, dec);
        lemma_number_is_quiet(pattern[n - 1], dec);
        lemma_quiet_joined(before, sep);
        lemma_quiet_joined(before + sep, num_text(pattern[n - 1], dec));
    }
}

proof fn lemma_dashes_are_attributes(
    pattern: Seq<Fixed>,
    offset: Fixed,
    dec: nat,
    ids: Seq<Seq<char>>,
)
    ensures
        attributes(dash_text(pattern, offset, dec), ids),
{
    lemma_no_attributes(ids);
    reveal_strlit(" stroke-dasharray=\"");
    reveal_strlit(" stroke-dashoffset=\"");
    lemma_dash_list_is_quiet(pattern, pattern.len(), dec);
    let a = " stroke-dasharray=\""@ + dash_list(pattern, pattern.len(), dec) + seq!['"'];
    lemma_attribute(" stroke-dasharray=\""@, dash_list(pattern, pattern.len(), dec), ids);
    lemma_numeric_attribute(" stroke-dashoffset=\""@, offset, dec, ids);
    let b: Seq<char> = if offset.nanos != 0 {
        " stroke-dashoffset=\""@ + num_text(offset, dec) + seq!['"']
    } else {
        seq![]
    };
    lemma_attributes_joined(a, b, ids);
}

/// A stroke is a list of attributes.
pub proof fn lemma_stroke_is_attributes(
    stroke: Stroke,
    paint: PaintView,
    dec: nat,
    ids: Seq<Seq<char>>,
)
    requires
        paint_points(paint, ids),
    ensures
        attributes(stroke_text(stroke, paint, dec), ids),
{
    reveal_strlit(" stroke=\"");
    reveal_strlit(" stroke-opacity=\"");
    let a = " stroke=\""@ + paint.value + seq!['"'];
    lemma_text_attribute(" stroke=\""@, paint.value, ids);
    let b = opacity_text(" stroke-opacity=\""@, paint.opacity, dec);
    lemma_opacity_is_attributes(" stroke-opacity=\""@, paint.opacity, dec, ids);
    lemma_attributes_joined(a, b, ids);
    let c = width_text(stroke.width, dec);
    assert(attributes(c, ids)) by {
        reveal_strlit(" stroke-width=\"");
        lemma_numeric_attribute(" stroke-width=\""@, stroke.width, dec, ids);
        lemma_no_attributes(ids);
    }
    lemma_attributes_joined(a + b, c, ids);
    let d = cap_text(stroke.start_cap);
    assert(attributes(d, ids)) by {
        reveal_strlit(" stroke-linecap=\"square\"");
        reveal_strlit(" stroke-linecap=\"round\"");
        lemma_no_attributes(ids);
        lemma_one_attribute(" stroke-linecap=\"square\""@, 16, ids);
        lemma_one_attribute(" stroke-linecap=\"round\""@, 16, ids);
    }
    lemma_attributes_joined(a + b + c, d, ids);
    let e = join_text(stroke.join, stroke.miter_limit, dec);
    assert(attributes(e, ids)) by {
        reveal_strlit(" stroke-miterlimit=\"");
        reveal_strlit(" stroke-linejoin=\"round\"");
        reveal_strlit(" stroke-linejoin=\"bevel\"");
        lemma_numeric_attribute(" stroke-miterlimit=\""@, stroke.miter_limit, dec, ids);
        lemma_no_attributes(ids);
        lemma_one_attribute(" stroke-linejoin=\"round\""@, 17, ids);
        lemma_one_attribute(" stroke-linejoin=\"bevel\""@, 17, ids);
    }
    lemma_attributes_joined(a + b + c + d, e, ids);
    lemma_dashes_are_attributes(stroke.dash_pattern@, stroke.dash_offset, dec, ids);
    lemma_attributes_joined(
        a + b + c + d + e,
        dash_text(stroke.dash_pattern@, stroke.dash_offset, dec),
        ids,
    );
}

/// A name with what opens its value.
proof fn lemma_opening(name: Seq<char>, tail: Seq<char>)
    requires
        element_name(name),
        quoteless(name),
        name.len() > 2,
        tail == "=\""@ || tail == "-opacity=\""@,
    ensures
        opens_value(seq![' '] + name + tail),
        bracketless(seq![' '] + name + tail),
        !names_id(seq![' '] + name + tail),
{
    reveal_strlit("=\"");
    reveal_strlit("-opacity=\"");
    let spaced = seq![' '] + name;
    let opening = spaced + tail;
    assert(opening.last() == '"');
    assert forall|m: int| 0 < m < opening.len() implies #[trigger] opening[m] != ' ' && opening[m]
        != '<' && opening[m] != '>' by {
        if m < spaced.len() {
            assert(opening[m] == name[m - 1]);
        } else {
            assert(opening[m] == tail[m - spaced.len()]);
        }
    }
    assert(opening[0] == ' ');
    let front = opening.drop_last();
    assert forall|m: int| 0 <= m < front.len() implies #[trigger] front[m] != '"' by {
        if m >= spaced.len() {
            assert(front[m] == tail[m - spaced.len()]);
        } else if m > 0 {
            assert(front[m] == name[m - 1]);
        }
    }
}

/// A paint under a name is a list of attributes.
pub proof fn lemma_paint_attr_is_attributes(
    name: Seq<char>,
    p: PaintView,
    dec: nat,
    ids: Seq<Seq<char>>,
)
    requires
        element_name(name),
        name.len() > 2,
        paint_points(p, ids),
    ensures
        attributes(paint_attr_text(name, p, dec), ids),
{
    let spaced = seq![' '] + name;
    lemma_opening(name, "=\""@);
    lemma_opening(name, "-opacity=\""@);
    let opening = spaced + "=\""@;
    lemma_text_attribute(opening, p.value, ids);
    lemma_opacity_is_attributes(spaced + "-opacity=\""@, p.opacity, dec, ids);
    lemma_attributes_joined(
        opening + p.value + seq!['"'],
        opacity_text(spaced + "-opacity=\""@, p.opacity, dec),
        ids,
    );
}

/// Everything naming a face is a list of attributes.
#[verifier::spinoff_prover]
#[verifier::rlimit(40)]
pub proof fn lemma_font_is_attributes(
    font: FontView,
    size: Fixed,
    dec: nat,
    root: RootView,
    ids: Seq<Seq<char>>,
)
    ensures
        attributes(font_text(font, size, dec, root), ids),
{
    let a = family_attr_text(root, family_list_text(font.families));
    assert(attributes(a, ids)) by {
        reveal_strlit(" fill=\"");
        reveal_strlit(" stroke=\"");
        reveal_strlit(" clip-path=\"");
        reveal_strlit(" font-family=\"");
        let family = family_list_text(font.families);
        lemma_attr_text_is_bracketless(family);
        lemma_text_attribute(" font-family=\""@, attr_text(family), ids);
        lemma_no_attributes(ids);
    }
    let b = size_attr_text(root, size, dec);
    assert(attributes(b, ids)) by {
        reveal_strlit(" font-size=\"");
        lemma_numeric_attribute(" font-size=\""@, size, dec, ids);
        lemma_no_attributes(ids);
    }
    lemma_attributes_joined(a, b, ids);
    let c = weight_text(font.weight);
    assert(attributes(c, ids)) by {
        reveal_strlit(" font-weight=\"");
        lemma_decimal_is_quiet(font.weight as nat);
        lemma_attribute(" font-weight=\""@, decimal_text(font.weight as nat), ids);
        lemma_no_attributes(ids);
    }
    lemma_attributes_joined(a + b, c, ids);
    let d = posture_text(font.style);
    assert(attributes(d, ids)) by {
        reveal_strlit(" font-style=\"italic\"");
        reveal_strlit(" font-style=\"oblique ");
        reveal_strlit("deg\"");
        lemma_no_attributes(ids);
        lemma_one_attribute(" font-style=\"italic\""@, 12, ids);
        if let FontStyleKind::Oblique(angle) = font.style {
            reveal_strlit(" font-style=\"");
            reveal_strlit("oblique ");
            reveal_strlit("deg");
            let number = num_text(angle, 1);
            lemma_number_is_quiet(angle, 1);
            lemma_quiet_joined("oblique "@, number);
            lemma_quiet_joined("oblique "@ + number, "deg"@);
            let value = "oblique "@ + number + "deg"@;
            lemma_attribute(" font-style=\""@, value, ids);
            assert(d =~= " font-style=\""@ + value + seq!['"']);
        }
    }
    lemma_attributes_joined(a + b + c, d, ids);
    let e = width_ratio_text(font.width, dec);
    assert(attributes(e, ids)) by {
        lemma_stretch_is_attributes(font.width, dec, ids);
        lemma_no_attributes(ids);
    }
    lemma_attributes_joined(a + b + c + d, e, ids);
    let f = spacing_text(font.tracking, size, dec);
    assert(attributes(f, ids)) by {
        reveal_strlit(" letter-spacing=\"");
        lemma_numeric_attribute(
            " letter-spacing=\""@,
            font.tracking.spec_scaled(size.nanos as int, 1000 * ONE),
            dec,
            ids,
        );
        lemma_no_attributes(ids);
    }
    lemma_attributes_joined(a + b + c + d + e, f, ids);
    let g = settings_text(font, dec);
    assert(attributes(g, ids)) by {
        reveal_strlit(" fill=\"");
        reveal_strlit(" stroke=\"");
        reveal_strlit(" clip-path=\"");
        reveal_strlit(" style=\"");
        let css = settings_css(
            feature_items(font.features, font.features.len()),
            variation_items(font.variations, font.variations.len(), dec),
        );
        lemma_attr_text_is_bracketless(css);
        lemma_text_attribute(" style=\""@, attr_text(css), ids);
        lemma_no_attributes(ids);
    }
    lemma_attributes_joined(a + b + c + d + e + f, g, ids);
}

proof fn lemma_stretch_is_attributes(width: Fixed, dec: nat, ids: Seq<Seq<char>>)
    ensures
        attributes(stretch_text(width, dec), ids),
{
    reveal_strlit(" font-stretch=\"");
    let value = stretch_value_text(width, dec);
    assert(quiet(value)) by {
        reveal_strlit("ultra-condensed");
        reveal_strlit("extra-condensed");
        reveal_strlit("condensed");
        reveal_strlit("semi-condensed");
        reveal_strlit("normal");
        reveal_strlit("semi-expanded");
        reveal_strlit("expanded");
        reveal_strlit("extra-expanded");
        reveal_strlit("ultra-expanded");
        if stretch_keyword(width) is None {
            lemma_number_is_quiet(width.spec_scaled(100, 1), dec);
            lemma_quiet_joined(num_text(width.spec_scaled(100, 1), dec), seq!['%']);
        }
    }
    lemma_attribute(" font-stretch=\""@, value, ids);
}

/// True when a run's paints can stand in an attribute.
pub open spec fn run_is_sound(run: RunView, ids: Seq<Seq<char>>) -> bool {
    &&& run.fill is Some ==> paint_points(run.fill->0, ids)
    &&& run.stroke is Some ==> paint_points((run.stroke->0).0, ids)
}

#[verifier::spinoff_prover]
#[verifier::rlimit(40)]
proof fn lemma_run_attrs(
    run: RunView,
    shared: SharedView,
    dec: nat,
    pick_ids: bool,
    targeted: bool,
    root: RootView,
    ids: Seq<Seq<char>>,
)
    requires
        run_is_sound(run, ids),
    ensures
        attributes(run_attrs_text(run, shared, dec, pick_ids, targeted, root), ids),
{
    let a = length_text(run.advance, dec);
    assert(attributes(a, ids)) by {
        reveal_strlit(" textLength=\"");
        reveal_strlit("\" lengthAdjust=\"spacingAndGlyphs\"");
        lemma_number_is_quiet(run.advance, dec);
        reveal_strlit(" lengthAdjust=\"spacingAndGlyphs\"");
        let head = " textLength=\""@ + num_text(run.advance, dec) + seq!['"'];
        let tail = " lengthAdjust=\"spacingAndGlyphs\""@;
        lemma_no_attributes(ids);
        lemma_attribute(" textLength=\""@, num_text(run.advance, dec), ids);
        lemma_one_attribute(tail, 14, ids);
        lemma_attributes_joined(head, tail, ids);
        assert(" textLength=\""@ + num_text(run.advance, dec)
            + "\" lengthAdjust=\"spacingAndGlyphs\""@ =~= head + tail);
    }
    let b = run_font_text(run, shared, dec, root);
    assert(attributes(b, ids)) by {
        lemma_font_is_attributes(run.spec, run.font_size, dec, root, ids);
        lemma_no_attributes(ids);
    }
    lemma_attributes_joined(a, b, ids);
    let c = run_fill_text(run, shared, dec);
    assert(attributes(c, ids)) by {
        reveal_strlit("fill");
        if run.fill is Some {
            lemma_paint_attr_is_attributes("fill"@, run.fill->0, dec, ids);
        }
        lemma_no_attributes(ids);
    }
    lemma_attributes_joined(a + b, c, ids);
    let d = run_stroke_text(run, dec);
    assert(attributes(d, ids)) by {
        lemma_halo_is_attributes(run, dec, ids);
    }
    lemma_attributes_joined(a + b + c, d, ids);
    let e = decoration_text(run.underline, run.strikethrough);
    assert(attributes(e, ids)) by {
        reveal_strlit(" text-decoration-line=\"underline line-through\"");
        reveal_strlit(" text-decoration-line=\"underline\"");
        reveal_strlit(" text-decoration-line=\"line-through\"");
        lemma_no_attributes(ids);
        lemma_one_attribute(" text-decoration-line=\"underline line-through\""@, 22, ids);
        lemma_one_attribute(" text-decoration-line=\"underline\""@, 22, ids);
        lemma_one_attribute(" text-decoration-line=\"line-through\""@, 22, ids);
    }
    lemma_attributes_joined(a + b + c + d, e, ids);
    let f = direction_text(run.rtl);
    assert(attributes(f, ids)) by {
        reveal_strlit(" direction=\"rtl\" unicode-bidi=\"bidi-override\"");
        reveal_strlit(" direction=\"rtl\"");
        reveal_strlit(" unicode-bidi=\"bidi-override\"");
        lemma_no_attributes(ids);
        lemma_one_attribute(" direction=\"rtl\""@, 11, ids);
        lemma_one_attribute(" unicode-bidi=\"bidi-override\""@, 14, ids);
        lemma_attributes_joined(
            " direction=\"rtl\""@,
            " unicode-bidi=\"bidi-override\""@,
            ids,
        );
        assert(" direction=\"rtl\" unicode-bidi=\"bidi-override\""@ =~= " direction=\"rtl\""@
            + " unicode-bidi=\"bidi-override\""@);
    }
    lemma_attributes_joined(a + b + c + d + e, f, ids);
    lemma_pick_is_attributes(run.pick, pick_ids, targeted, ids);
    lemma_attributes_joined(a + b + c + d + e + f, pick_text(run.pick, pick_ids, targeted), ids);
}

proof fn lemma_halo_is_attributes(run: RunView, dec: nat, ids: Seq<Seq<char>>)
    requires
        run_is_sound(run, ids),
    ensures
        attributes(run_stroke_text(run, dec), ids),
{
    if let Some((p, width)) = run.stroke {
        reveal_strlit("stroke");
        reveal_strlit(" stroke-width=\"");
        reveal_strlit("\" paint-order=\"stroke fill\"");
        reveal_strlit(" fill=\"none\"");
        let a = paint_attr_text("stroke"@, p, dec);
        lemma_paint_attr_is_attributes("stroke"@, p, dec, ids);
        lemma_number_is_quiet(width, dec);
        let number = num_text(width, dec);
        reveal_strlit(" paint-order=\"stroke fill\"");
        let order = "\" paint-order=\"stroke fill\""@;
        let b = " stroke-width=\""@ + number + order;
        let after = " paint-order=\"stroke fill\""@;
        lemma_attribute(" stroke-width=\""@, number, ids);
        lemma_one_attribute(after, 13, ids);
        lemma_attributes_joined(" stroke-width=\""@ + number + seq!['"'], after, ids);
        assert(b =~= " stroke-width=\""@ + number + seq!['"'] + after);
        lemma_attributes_joined(a, b, ids);
        lemma_append(a, " stroke-width=\""@, number);
        lemma_append(a, " stroke-width=\""@ + number, order);
        let c: Seq<char> = if run.fill is None {
            " fill=\"none\""@
        } else {
            seq![]
        };
        lemma_no_attributes(ids);
        lemma_one_attribute(" fill=\"none\""@, 6, ids);
        lemma_attributes_joined(a + b, c, ids);
    } else {
        lemma_no_attributes(ids);
    }
}

/// A tag's start takes one more list of attributes.
pub proof fn lemma_tag_takes(name: Seq<char>, x: Seq<char>, a: Seq<char>, ids: Seq<Seq<char>>)
    requires
        attributes(x, ids),
        attributes(a, ids),
    ensures
        (seq!['<'] + name + x) + a == seq!['<'] + name + (x + a),
        attributes(x + a, ids),
{
    lemma_attributes_joined(x, a, ids);
    lemma_append(seq!['<'] + name, x, a);
}

/// The attributes that place a run.
pub open spec fn place_attrs(run: RunView, dec: nat) -> Seq<char> {
    " x=\""@ + num_text(run.x, dec) + "\" y=\""@ + num_text(run.y, dec) + seq!['"']
}

proof fn lemma_anchor(run: RunView, dec: nat, ids: Seq<Seq<char>>)
    ensures
        anchor_text(run, dec) == seq!['<'] + "tspan"@ + place_attrs(run, dec),
        attributes(place_attrs(run, dec), ids),
{
    reveal_strlit("<tspan x=\"");
    reveal_strlit("tspan");
    reveal_strlit(" x=\"");
    reveal_strlit("\" y=\"");
    let x = num_text(run.x, dec);
    let y = num_text(run.y, dec);
    let place = place_attrs(run, dec);
    lemma_number_is_quiet(run.x, dec);
    lemma_number_is_quiet(run.y, dec);
    reveal_strlit(" y=\"");
    let across = " x=\""@ + x + seq!['"'];
    let down = " y=\""@ + y + seq!['"'];
    lemma_attribute(" x=\""@, x, ids);
    lemma_attribute(" y=\""@, y, ids);
    lemma_attributes_joined(across, down, ids);
    assert(place =~= across + down);
    assert(anchor_text(run, dec) =~= seq!['<'] + "tspan"@ + place);
}

/// The elements open inside a link: the link itself, when it is written.
pub open spec fn within_link(link: Option<super::text::LinkView>, open: Seq<Seq<char>>) -> Seq<
    Seq<char>,
> {
    match link {
        Some(l) => if l.safe {
            open.push("a"@)
        } else {
            open
        },
        None => open,
    }
}

proof fn lemma_link_attrs(url: Seq<char>, ids: Seq<Seq<char>>)
    ensures
        attributes(
            " href=\""@ + attr_text(url) + seq!['"']
                + " target=\"_blank\" rel=\"noopener noreferrer\""@,
            ids,
        ),
{
    reveal_strlit(" href=\"");
    reveal_strlit(" fill=\"");
    reveal_strlit(" stroke=\"");
    reveal_strlit(" clip-path=\"");
    reveal_strlit(" target=\"_blank\" rel=\"noopener noreferrer\"");
    lemma_attr_text_is_bracketless(url);
    assert(" href=\""@[1] != " fill=\""@[1]);
    assert(" href=\""@[1] != " stroke=\""@[1]);
    assert(" href=\""@[1] != " clip-path=\""@[1]);
    lemma_text_attribute(" href=\""@, attr_text(url), ids);
    reveal_strlit(" target=\"_blank\"");
    reveal_strlit(" rel=\"noopener noreferrer\"");
    lemma_one_attribute(" target=\"_blank\""@, 8, ids);
    lemma_one_attribute(" rel=\"noopener noreferrer\""@, 5, ids);
    lemma_attributes_joined(" target=\"_blank\""@, " rel=\"noopener noreferrer\""@, ids);
    assert(" target=\"_blank\" rel=\"noopener noreferrer\""@ =~= " target=\"_blank\""@
        + " rel=\"noopener noreferrer\""@);
    lemma_attributes_joined(
        " href=\""@ + attr_text(url) + seq!['"'],
        " target=\"_blank\" rel=\"noopener noreferrer\""@,
        ids,
    );
}

proof fn lemma_link(
    link: Option<super::text::LinkView>,
    open: Seq<Seq<char>>,
    ids: Seq<Seq<char>>,
)
    ensures
        scan(link_open_text(link), outside(open)) == outside(within_link(link, open)),
        scan(link_close_text(link), outside(within_link(link, open))) == outside(open),
        grounded(link_open_text(link), ids),
        grounded(link_close_text(link), ids),
{
    if link is Some && link->0.safe {
        reveal_strlit("<a href=\"");
        reveal_strlit("a");
        reveal_strlit(" href=\"");
        reveal_strlit("\" target=\"_blank\" rel=\"noopener noreferrer\">");
        reveal_strlit(" target=\"_blank\" rel=\"noopener noreferrer\"");
        reveal_strlit("</a>");
        reveal_strlit("</");
        let url = attr_text(link->0.url);
        let rel = " target=\"_blank\" rel=\"noopener noreferrer\""@;
        let href = " href=\""@ + url + seq!['"'] + rel;
        lemma_link_attrs(link->0.url, ids);
        assert("<a href=\""@ =~= seq!['<'] + "a"@ + " href=\""@);
        assert("\" target=\"_blank\" rel=\"noopener noreferrer\">"@ =~= seq!['"'] + rel
            + seq!['>']);
        assert(link_open_text(link) =~= seq!['<'] + "a"@ + href + seq!['>']);
        lemma_scan_start_tag("a"@, href, open, ids);
        lemma_start_tag_is_grounded("a"@, href, ids);
        assert("</a>"@ =~= "</"@ + "a"@ + seq!['>']);
        lemma_scan_end_tag("a"@, open);
        lemma_end_tag_is_grounded("a"@, ids);
    } else {
        lemma_scan_content(seq![], open);
        lemma_content_is_grounded(seq![], ids);
    }
}

proof fn lemma_span_tags()
    ensures
        element_name("tspan"@) && !is_use("tspan"@),
        "</tspan>"@ == "</"@ + "tspan"@ + seq!['>'],
        element_name("text"@) && !is_use("text"@),
        "</text>"@ == "</"@ + "text"@ + seq!['>'],
        "<text"@ == seq!['<'] + "text"@,
{
    reveal_strlit("tspan");
    reveal_strlit("</tspan>");
    reveal_strlit("text");
    reveal_strlit("</text>");
    reveal_strlit("<text");
    reveal_strlit("</");
    assert("</tspan>"@ =~= "</"@ + "tspan"@ + seq!['>']);
    assert("</text>"@ =~= "</"@ + "text"@ + seq!['>']);
    assert("<text"@ =~= seq!['<'] + "text"@);
}

/// One run as markup is balanced.
pub proof fn lemma_tspan_is_balanced(
    run: RunView,
    shared: SharedView,
    dec: nat,
    pick_ids: bool,
    targeted: bool,
    root: RootView,
    ids: Seq<Seq<char>>,
)
    requires
        run_is_sound(run, ids),
    ensures
        balanced(tspan_text(run, shared, dec, pick_ids, targeted, root), ids),
{
    let text = tspan_text(run, shared, dec, pick_ids, targeted, root);
    let link = link_open_text(run.link);
    let place = place_attrs(run, dec);
    let anchor = anchor_text(run, dec);
    let attrs = run_attrs_text(run, shared, dec, pick_ids, targeted, root);
    let content = content_text(run.text);
    let end = "</tspan>"@;
    let close = link_close_text(run.link);
    lemma_anchor(run, dec, ids);
    lemma_span_tags();
    lemma_run_attrs(run, shared, dec, pick_ids, targeted, root, ids);
    lemma_tag_takes("tspan"@, place, attrs, ids);
    let start = seq!['<'] + "tspan"@ + (place + attrs) + seq!['>'];
    lemma_append(link, anchor, attrs);
    lemma_append(link, anchor + attrs, seq!['>']);
    assert(text == link + start + content + end + close);
    lemma_content_text_is_bracketless(run.text);
    lemma_link(run.link, seq![], ids);
    lemma_start_tag_is_grounded("tspan"@, place + attrs, ids);
    lemma_content_is_grounded(content, ids);
    lemma_end_tag_is_grounded("tspan"@, ids);
    lemma_grounded_joined(link, start, ids);
    lemma_grounded_joined(link + start, content, ids);
    lemma_grounded_joined(link + start + content, end, ids);
    lemma_grounded_joined(link + start + content + end, close, ids);
    assert forall|open: Seq<Seq<char>>| #[trigger] scan(text, outside(open)) == outside(open) by {
        let within = within_link(run.link, open);
        lemma_link(run.link, open, ids);
        lemma_scan_joined(link + start + content + end, close, outside(open));
        lemma_scan_joined(link + start + content, end, outside(open));
        lemma_scan_joined(link + start, content, outside(open));
        lemma_scan_joined(link, start, outside(open));
        lemma_scan_start_tag("tspan"@, place + attrs, within, ids);
        lemma_scan_content(content, within.push("tspan"@));
        lemma_scan_end_tag("tspan"@, within);
    }
}

/// True when every run's paints can stand in an attribute.
pub open spec fn runs_are_sound(runs: Seq<RunView>, ids: Seq<Seq<char>>) -> bool {
    forall|i: int| 0 <= i < runs.len() ==> run_is_sound(#[trigger] runs[i], ids)
}

proof fn lemma_tspans_are_balanced(
    runs: Seq<RunView>,
    n: nat,
    shared: SharedView,
    dec: nat,
    pick_ids: bool,
    targeted: bool,
    root: RootView,
    ids: Seq<Seq<char>>,
)
    requires
        runs_are_sound(runs, ids),
        n <= runs.len(),
    ensures
        balanced(tspans_text(runs, n, shared, dec, pick_ids, targeted, root), ids),
    decreases n,
{
    if n == 0 {
        lemma_content_is_balanced(seq![], ids);
    } else {
        let m = (n - 1) as nat;
        let before = tspans_root(runs, m, shared, root);
        lemma_tspans_are_balanced(runs, m, shared, dec, pick_ids, targeted, root, ids);
        lemma_tspan_is_balanced(runs[n - 1], shared, dec, pick_ids, targeted, before, ids);
        lemma_balanced_joined(
            tspans_text(runs, m, shared, dec, pick_ids, targeted, root),
            tspan_text(runs[n - 1], shared, dec, pick_ids, targeted, before),
            ids,
        );
    }
}

/// A text block is balanced.
#[verifier::spinoff_prover]
#[verifier::rlimit(40)]
pub proof fn lemma_block_is_balanced(
    runs: Seq<RunView>,
    dec: nat,
    pick_ids: bool,
    targeted: bool,
    root: RootView,
    ids: Seq<Seq<char>>,
)
    requires
        runs_are_sound(runs, ids),
    ensures
        balanced(block_text(runs, dec, pick_ids, targeted, root), ids),
{
    let text = block_text(runs, dec, pick_ids, targeted, root);
    if runs.len() == 0 {
        lemma_content_is_balanced(seq![], ids);
    } else {
        let shared = shared_of(runs);
        let a = block_font_text(shared, dec, root);
        let b = block_fill_text(shared, dec);
        let c = transform_text(runs[0].transform, dec);
        assert(run_is_sound(runs[0], ids));
        lemma_block_font_is_attributes(shared, dec, root, ids);
        lemma_block_fill_is_attributes(shared, dec, ids);
        lemma_transform_is_attributes(runs[0].transform, dec, ids);
        lemma_no_attributes(ids);
        lemma_span_tags();
        lemma_tag_takes("text"@, seq![], a, ids);
        crate::text::lemma_append_nothing(seq!['<'] + "text"@);
        crate::text::lemma_append_nothing(a);
        lemma_tag_takes("text"@, a, b, ids);
        lemma_tag_takes("text"@, a + b, c, ids);
        let claimed = block_font_root(shared, root);
        let body = tspans_text(runs, runs.len(), shared, dec, pick_ids, targeted, claimed);
        lemma_tspans_are_balanced(runs, runs.len(), shared, dec, pick_ids, targeted, claimed, ids);
        super::markup::lemma_element_is_balanced("text"@, a + b + c, body, ids);
    }
}

proof fn lemma_block_font_is_attributes(
    shared: SharedView,
    dec: nat,
    root: RootView,
    ids: Seq<Seq<char>>,
)
    ensures
        attributes(block_font_text(shared, dec, root), ids),
{
    match shared.spec {
        Some(spec) => lemma_font_is_attributes(spec, shared.font_size, dec, root, ids),
        None => lemma_no_attributes(ids),
    }
}

proof fn lemma_block_fill_is_attributes(shared: SharedView, dec: nat, ids: Seq<Seq<char>>)
    requires
        shared.fill is Some ==> paint_points(shared.fill->0, ids),
    ensures
        attributes(block_fill_text(shared, dec), ids),
{
    match shared.fill {
        Some(p) => {
            reveal_strlit("fill");
            lemma_paint_attr_is_attributes("fill"@, p, dec, ids);
        },
        None => lemma_no_attributes(ids),
    }
}

/// A path element: its data, then further attributes.
pub proof fn lemma_path_element_is_balanced(d: Seq<char>, more: Seq<char>, ids: Seq<Seq<char>>)
    requires
        quiet(d),
        attributes(more, ids),
    ensures
        balanced("<path d=\""@ + d + seq!['"'] + more + "/>"@, ids),
{
    reveal_strlit("<path d=\"");
    reveal_strlit("path");
    reveal_strlit(" d=\"");
    let data = " d=\""@ + d + seq!['"'];
    lemma_attribute(" d=\""@, d, ids);
    assert("<path d=\""@ + d + seq!['"'] =~= seq!['<'] + "path"@ + data);
    lemma_tag_takes("path"@, data, more, ids);
    lemma_empty_element_is_balanced("path"@, data + more, ids);
}

} // verus!
