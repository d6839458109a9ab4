//! What each attribute of a drawn element says of what was drawn.

use vstd::prelude::*;

use super::attrs::{
    cap_text, dash_list, dash_sum, dash_text, fill_text, join_text, opacity_text, pick_text,
    stroke_text, width_text, Cap, Join, PickId, Stroke,
};
use super::paint::{
    brush_defs, brush_paint, defs_in_order, lemma_interning_defines, Brush, DefView, PaintSource,
    PaintView,
};
use super::reading::{
    at_least, color_reads, lemma_color_reads_back, lemma_lists_joined, lemma_lists_maybe,
    lemma_lists_nothing, lemma_names, lemma_number_is_quoteless, lemma_numbers_more,
    lemma_numbers_one, lemma_openings, lemma_quoteless_joined, lists, maybe, numbers_read, said,
    says, says_number, silent, Attr,
};
use super::refs::quoteless;
use crate::fixed::{num_text, Fixed};
use crate::geometry::FillRule;
use crate::numeral::{counts, lemma_count_reads_back, lemma_number_reads_back};
use crate::text::decimal_text;

verus! {

/// True when a paint is what a brush paints with: its color, or a reference to
/// a definition of its gradient among `defs`.
pub open spec fn paint_shows(value: Seq<char>, brush: Brush, defs: Seq<DefView>) -> bool {
    match brush.source {
        PaintSource::Flat(c) => color_reads(value, c.red, c.green, c.blue),
        PaintSource::Server(body) => exists|i: int|
            0 <= i < defs.len() && (#[trigger] defs[i]).kind == body@.kind && defs[i].rest
                == body@.rest && value == "url(#"@ + defs[i].id + ")"@,
    }
}

/// How opaque a brush is beside its paint, when that has to be said.
pub open spec fn translucency(brush: Brush) -> Option<Fixed> {
    match brush.source {
        PaintSource::Flat(c) => if c.alpha.nanos != 1_000_000_000 {
            Some(c.alpha)
        } else {
            None
        },
        PaintSource::Server(_) => None,
    }
}

/// True when exactly this opacity is given under a name, to three places at
/// least; nothing for none.
pub open spec fn says_opacity(
    list: Seq<Attr>,
    name: Seq<char>,
    opacity: Option<Fixed>,
    dec: nat,
) -> bool {
    match opacity {
        Some(a) => says_number(list, name, a, at_least(dec, 3)),
        None => silent(list, name),
    }
}

/// True when a tag is filled with a brush.
pub open spec fn filled_with(list: Seq<Attr>, brush: Brush, defs: Seq<DefView>, dec: nat) -> bool {
    &&& said(list, "fill"@).len() == 1
    &&& paint_shows(said(list, "fill"@)[0], brush, defs)
    &&& says_opacity(list, "fill-opacity"@, translucency(brush), dec)
}

/// True when what is inside a tag's path is what a rule says.
pub open spec fn follows_rule(list: Seq<Attr>, rule: FillRule) -> bool {
    if rule == FillRule::EvenOdd {
        says(list, "fill-rule"@, "evenodd"@)
    } else {
        silent(list, "fill-rule"@)
    }
}

/// True when a tag is stroked with a brush.
pub open spec fn lined_with(list: Seq<Attr>, brush: Brush, defs: Seq<DefView>, dec: nat) -> bool {
    &&& said(list, "stroke"@).len() == 1
    &&& paint_shows(said(list, "stroke"@)[0], brush, defs)
    &&& says_opacity(list, "stroke-opacity"@, translucency(brush), dec)
}

/// True when a number is given under a name, unless it is the one that goes
/// without saying.
pub open spec fn says_unless(
    list: Seq<Attr>,
    name: Seq<char>,
    x: Fixed,
    default: int,
    dec: nat,
) -> bool {
    if x.nanos == default {
        silent(list, name)
    } else {
        says_number(list, name, x, dec)
    }
}

/// The numbers of a dash pattern, each to `dec` places.
pub open spec fn dashes(pattern: Seq<Fixed>, dec: nat) -> Seq<(Fixed, nat)> {
    pattern.map_values(|x: Fixed| (x, dec))
}

/// True when a tag is stroked the way a stroke says: how wide, how its ends
/// and corners look, and how it is dashed. A pattern without any length is
/// none; nothing is said of one with negative lengths.
pub open spec fn lined_like(list: Seq<Attr>, stroke: Stroke, dec: nat) -> bool {
    let pattern = stroke.dash_pattern@;
    &&& says_unless(list, "stroke-width"@, stroke.width, 1_000_000_000, dec)
    &&& match stroke.start_cap {
        Cap::Butt => silent(list, "stroke-linecap"@),
        Cap::Square => says(list, "stroke-linecap"@, "square"@),
        Cap::Round => says(list, "stroke-linecap"@, "round"@),
    }
    &&& match stroke.join {
        Join::Miter => silent(list, "stroke-linejoin"@) && says_unless(
            list,
            "stroke-miterlimit"@,
            stroke.miter_limit,
            4_000_000_000,
            dec,
        ),
        Join::Round => says(list, "stroke-linejoin"@, "round"@) && silent(
            list,
            "stroke-miterlimit"@,
        ),
        Join::Bevel => says(list, "stroke-linejoin"@, "bevel"@) && silent(
            list,
            "stroke-miterlimit"@,
        ),
    }
    &&& (forall|i: int| 0 <= i < pattern.len() ==> (#[trigger] pattern[i]).nanos == 0) ==> silent(
        list,
        "stroke-dasharray"@,
    ) && silent(list, "stroke-dashoffset"@)
    &&& (forall|i: int| 0 <= i < pattern.len() ==> (#[trigger] pattern[i]).nanos >= 0) && (exists|
        i: int,
    | 0 <= i < pattern.len() && (#[trigger] pattern[i]).nanos > 0) ==> said(
        list,
        "stroke-dasharray"@,
    ).len() == 1 && numbers_read(said(list, "stroke-dasharray"@)[0], dashes(pattern, dec))
        && says_unless(list, "stroke-dashoffset"@, stroke.dash_offset, 0, dec)
}

/// True when a tag says nothing of any stroke.
pub open spec fn unlined(list: Seq<Attr>) -> bool {
    &&& silent(list, "stroke"@) && silent(list, "stroke-opacity"@) && silent(list, "stroke-width"@)
    &&& silent(list, "stroke-linecap"@) && silent(list, "stroke-linejoin"@)
    &&& silent(list, "stroke-miterlimit"@) && silent(list, "stroke-dasharray"@)
    &&& silent(list, "stroke-dashoffset"@)
}

/// True when a tag is picked as `pick`: with picking on, under its own id, as
/// something nothing is picked through, or not at all, unless it is part of a
/// scope that is picked as a whole. With picking off nothing is said of it.
pub open spec fn picked_as(list: Seq<Attr>, pick: PickId, on: bool, targeted: bool) -> bool {
    &&& match pick {
        PickId::Id(n) if on => said(list, "data-pick-id"@).len() == 1 && counts(
            said(list, "data-pick-id"@)[0],
            n as int,
        ),
        _ => silent(list, "data-pick-id"@),
    }
    &&& if on && pick == PickId::Block {
        says(list, "data-pick-block"@, seq![])
    } else {
        silent(list, "data-pick-block"@)
    }
    &&& if on && pick == PickId::Skip && !targeted {
        says(list, "pointer-events"@, "none"@)
    } else {
        silent(list, "pointer-events"@)
    }
}

/// The paint a brush comes to is the brush's own.
pub proof fn lemma_paint_shows_brush(defs: Seq<DefView>, brush: Brush, prefix: Seq<char>)
    requires
        defs_in_order(defs, prefix),
    ensures
        paint_shows(
            brush_paint(defs, brush, prefix).value,
            brush,
            brush_defs(defs, brush, prefix),
        ),
        brush_paint(defs, brush, prefix).opacity == translucency(brush),
{
    match brush.source {
        PaintSource::Flat(c) => lemma_color_reads_back(c),
        PaintSource::Server(body) => {
            lemma_interning_defines(defs, body@.kind, body@.rest, prefix);
        },
    }
}

/// A paint shows a brush among more definitions than it did.
pub proof fn lemma_paint_shows_in_more(
    value: Seq<char>,
    brush: Brush,
    defs: Seq<DefView>,
    more: Seq<DefView>,
)
    requires
        paint_shows(value, brush, defs),
        defs.is_prefix_of(more),
    ensures
        paint_shows(value, brush, more),
{
    if let PaintSource::Server(body) = brush.source {
        let i = choose|i: int|
            0 <= i < defs.len() && (#[trigger] defs[i]).kind == body@.kind && defs[i].rest
                == body@.rest && value == "url(#"@ + defs[i].id + ")"@;
        assert(more[i] == defs[i]);
    }
}

/// An opacity as attributes.
pub proof fn lemma_opacity_attrs(
    opening: Seq<char>,
    name: Seq<char>,
    opacity: Option<Fixed>,
    dec: nat,
) -> (list: Seq<Attr>)
    requires
        super::reading::tidy_name(name),
        opening == seq![' '] + name + "=\""@,
    ensures
        lists(opacity_text(opening, opacity, dec), list),
        says_opacity(list, name, opacity, dec),
        forall|n: Seq<char>| n != name ==> #[trigger] silent(list, n),
{
    let places = at_least(dec, 3);
    let a = match opacity {
        Some(a) => a,
        None => Fixed { nanos: 0 },
    };
    lemma_number_is_quoteless(a, places);
    lemma_number_reads_back(a, places);
    lemma_lists_maybe(opacity is Some, opening, name, num_text(a, places));
    maybe(opacity is Some, name, num_text(a, places))
}

/// A number as attributes, if it is wanted.
pub proof fn lemma_number_attrs(
    wanted: bool,
    opening: Seq<char>,
    name: Seq<char>,
    x: Fixed,
    dec: nat,
) -> (list: Seq<Attr>)
    requires
        super::reading::tidy_name(name),
        opening == seq![' '] + name + "=\""@,
    ensures
        lists(
            if wanted {
                opening + num_text(x, dec) + seq!['"']
            } else {
                seq![]
            },
            list,
        ),
        wanted ==> says_number(list, name, x, dec),
        !wanted ==> silent(list, name),
        forall|n: Seq<char>| n != name ==> #[trigger] silent(list, n),
{
    lemma_number_is_quoteless(x, dec);
    lemma_number_reads_back(x, dec);
    lemma_lists_maybe(wanted, opening, name, num_text(x, dec));
    maybe(wanted, name, num_text(x, dec))
}

/// A fill as attributes.
pub proof fn lemma_fill_attrs(paint: PaintView, rule: FillRule, dec: nat) -> (list: Seq<Attr>)
    requires
        quoteless(paint.value),
    ensures
        lists(fill_text(paint, rule, dec), list),
        says(list, "fill"@, paint.value),
        says_opacity(list, "fill-opacity"@, paint.opacity, dec),
        follows_rule(list, rule),
        forall|n: Seq<char>|
            n != "fill"@ && n != "fill-opacity"@ && n != "fill-rule"@ ==> #[trigger] silent(
                list,
                n,
            ),
{
    lemma_names();
    lemma_openings();
    let odd = rule == FillRule::EvenOdd;
    lemma_lists_maybe(true, " fill=\""@, "fill"@, paint.value);
    let a = maybe(true, "fill"@, paint.value);
    let s = " fill=\""@ + paint.value + seq!['"'];
    let b = lemma_opacity_attrs(" fill-opacity=\""@, "fill-opacity"@, paint.opacity, dec);
    let t = opacity_text(" fill-opacity=\""@, paint.opacity, dec);
    assert(quoteless("evenodd"@)) by {
        reveal_strlit("evenodd");
    }
    lemma_lists_maybe(odd, " fill-rule=\""@, "fill-rule"@, "evenodd"@);
    let c = maybe(odd, "fill-rule"@, "evenodd"@);
    let u: Seq<char> = if odd {
        " fill-rule=\""@ + "evenodd"@ + seq!['"']
    } else {
        seq![]
    };
    assert(" fill-rule=\"evenodd\""@ == " fill-rule=\""@ + "evenodd"@ + seq!['"']) by {
        reveal_strlit(" fill-rule=\"evenodd\"");
        reveal_strlit(" fill-rule=\"");
        reveal_strlit("evenodd");
        assert(" fill-rule=\"evenodd\""@ =~= " fill-rule=\""@ + "evenodd"@ + seq!['"']);
    }
    lemma_lists_joined(s, a, t, b);
    lemma_lists_joined(s + t, a + b, u, c);
    a + b + c
}

/// The picking attributes as attributes.
pub proof fn lemma_pick_attrs(pick: PickId, on: bool, targeted: bool) -> (list: Seq<Attr>)
    ensures
        lists(pick_text(pick, on, targeted), list),
        picked_as(list, pick, on, targeted),
        forall|n: Seq<char>|
            n != "data-pick-id"@ && n != "data-pick-block"@ && n != "pointer-events"@ ==> silent(
                list,
                n,
            ),
{
    lemma_names();
    lemma_openings();
    lemma_lists_nothing();
    if !on {
        seq![]
    } else {
        match pick {
            PickId::Skip => if targeted {
                seq![]
            } else {
                reveal_strlit("none");
                reveal_strlit(" pointer-events=\"none\"");
                reveal_strlit(" pointer-events=\"");
                assert(" pointer-events=\"none\""@ =~= " pointer-events=\""@ + "none"@
                    + seq!['"']);
                lemma_lists_maybe(true, " pointer-events=\""@, "pointer-events"@, "none"@);
                maybe(true, "pointer-events"@, "none"@)
            },
            PickId::Block => {
                let empty = Seq::<char>::empty();
                reveal_strlit(" data-pick-block=\"\"");
                reveal_strlit(" data-pick-block=\"");
                assert(" data-pick-block=\"\""@ =~= " data-pick-block=\""@ + empty + seq!['"']);
                lemma_lists_maybe(true, " data-pick-block=\""@, "data-pick-block"@, empty);
                maybe(true, "data-pick-block"@, empty)
            },
            PickId::Id(n) => {
                let id = decimal_text(n as nat);
                lemma_count_reads_back(n as nat);
                super::markup::lemma_decimal_is_quiet(n as nat);
                lemma_lists_maybe(true, " data-pick-id=\""@, "data-pick-id"@, id);
                maybe(true, "data-pick-id"@, id)
            },
        }
    }
}

proof fn lemma_dash_list_reads_back(pattern: Seq<Fixed>, n: nat, dec: nat)
    requires
        0 < n <= pattern.len(),
    ensures
        numbers_read(dash_list(pattern, n, dec), dashes(pattern.take(n as int), dec)),
        quoteless(dash_list(pattern, n, dec)),
    decreases n,
{
    let m = (n - 1) as nat;
    let x = pattern[m as int];
    lemma_number_is_quoteless(x, dec);
    let all = dashes(pattern.take(n as int), dec);
    if n == 1 {
        lemma_numbers_one(x, dec);
        assert(all =~= seq![(x, dec)]);
        reveal_with_fuel(dash_list, 2);
        assert(dash_list(pattern, n, dec) =~= num_text(x, dec));
    } else {
        lemma_dash_list_reads_back(pattern, m, dec);
        let before = dash_list(pattern, m, dec);
        lemma_numbers_more(before, dashes(pattern.take(m as int), dec), x, dec);
        assert(all =~= dashes(pattern.take(m as int), dec).push((x, dec)));
        lemma_quoteless_joined(before, seq![' ']);
        lemma_quoteless_joined(before + seq![' '], num_text(x, dec));
    }
}

proof fn lemma_sum_of_nothing(pattern: Seq<Fixed>, n: nat)
    requires
        n <= pattern.len(),
        forall|i: int| 0 <= i < pattern.len() ==> (#[trigger] pattern[i]).nanos == 0,
    ensures
        dash_sum(pattern, n) == 0,
    decreases n,
{
    if n > 0 {
        lemma_sum_of_nothing(pattern, (n - 1) as nat);
        assert(pattern[n - 1].nanos == 0);
    }
}

proof fn lemma_sum_of_something(pattern: Seq<Fixed>, n: nat, k: int)
    requires
        n <= pattern.len(),
        forall|i: int| 0 <= i < pattern.len() ==> (#[trigger] pattern[i]).nanos >= 0,
        0 <= k < pattern.len(),
        pattern[k].nanos > 0,
    ensures
        dash_sum(pattern, n) >= 0,
        k < n ==> dash_sum(pattern, n) > 0,
    decreases n,
{
    if n > 0 {
        lemma_sum_of_something(pattern, (n - 1) as nat, k);
        assert(pattern[n - 1].nanos >= 0);
    }
}

/// The dashes as attributes.
proof fn lemma_dash_attrs(pattern: Seq<Fixed>, offset: Fixed, dec: nat) -> (list: Seq<Attr>)
    ensures
        lists(dash_text(pattern, offset, dec), list),
        (forall|i: int| 0 <= i < pattern.len() ==> (#[trigger] pattern[i]).nanos == 0) ==> silent(
            list,
            "stroke-dasharray"@,
        ) && silent(list, "stroke-dashoffset"@),
        (forall|i: int| 0 <= i < pattern.len() ==> (#[trigger] pattern[i]).nanos >= 0) && (exists|
            i: int,
        | 0 <= i < pattern.len() && (#[trigger] pattern[i]).nanos > 0) ==> said(
            list,
            "stroke-dasharray"@,
        ).len() == 1 && numbers_read(said(list, "stroke-dasharray"@)[0], dashes(pattern, dec))
            && says_unless(list, "stroke-dashoffset"@, offset, 0, dec),
        forall|n: Seq<char>|
            n != "stroke-dasharray"@ && n != "stroke-dashoffset"@ ==> #[trigger] silent(list, n),
{
    lemma_names();
    lemma_openings();
    lemma_lists_nothing();
    let dashed = dash_sum(pattern, pattern.len()) > 0;
    if forall|i: int| 0 <= i < pattern.len() ==> (#[trigger] pattern[i]).nanos == 0 {
        lemma_sum_of_nothing(pattern, pattern.len());
    }
    if (forall|i: int| 0 <= i < pattern.len() ==> (#[trigger] pattern[i]).nanos >= 0) && (exists|
        i: int,
    | 0 <= i < pattern.len() && (#[trigger] pattern[i]).nanos > 0) {
        let k = choose|i: int| 0 <= i < pattern.len() && (#[trigger] pattern[i]).nanos > 0;
        lemma_sum_of_something(pattern, pattern.len(), k);
    }
    if dashed {
        lemma_dash_list_reads_back(pattern, pattern.len(), dec);
        assert(pattern.take(pattern.len() as int) =~= pattern);
        let v = dash_list(pattern, pattern.len(), dec);
        lemma_lists_maybe(true, " stroke-dasharray=\""@, "stroke-dasharray"@, v);
        let a = maybe(true, "stroke-dasharray"@, v);
        let b = lemma_number_attrs(
            offset.nanos != 0,
            " stroke-dashoffset=\""@,
            "stroke-dashoffset"@,
            offset,
            dec,
        );
        let s = " stroke-dasharray=\""@ + v + seq!['"'];
        let t: Seq<char> = if offset.nanos != 0 {
            " stroke-dashoffset=\""@ + num_text(offset, dec) + seq!['"']
        } else {
            seq![]
        };
        lemma_lists_joined(s, a, t, b);
        a + b
    } else {
        seq![]
    }
}

/// The ends of a stroke as attributes.
proof fn lemma_cap_attrs(cap: Cap) -> (list: Seq<Attr>)
    ensures
        lists(cap_text(cap), list),
        match cap {
            Cap::Butt => silent(list, "stroke-linecap"@),
            Cap::Square => says(list, "stroke-linecap"@, "square"@),
            Cap::Round => says(list, "stroke-linecap"@, "round"@),
        },
        forall|n: Seq<char>| n != "stroke-linecap"@ ==> #[trigger] silent(list, n),
{
    lemma_openings();
    lemma_lists_nothing();
    reveal_strlit(" stroke-linecap=\"");
    match cap {
        Cap::Butt => seq![],
        Cap::Square => {
            reveal_strlit("square");
            reveal_strlit(" stroke-linecap=\"square\"");
            assert(" stroke-linecap=\"square\""@ =~= " stroke-linecap=\""@ + "square"@ + seq!['"']);
            lemma_lists_maybe(true, " stroke-linecap=\""@, "stroke-linecap"@, "square"@);
            maybe(true, "stroke-linecap"@, "square"@)
        },
        Cap::Round => {
            reveal_strlit("round");
            reveal_strlit(" stroke-linecap=\"round\"");
            assert(" stroke-linecap=\"round\""@ =~= " stroke-linecap=\""@ + "round"@ + seq!['"']);
            lemma_lists_maybe(true, " stroke-linecap=\""@, "stroke-linecap"@, "round"@);
            maybe(true, "stroke-linecap"@, "round"@)
        },
    }
}

/// The corners of a stroke as attributes.
proof fn lemma_join_attrs(join: Join, limit: Fixed, dec: nat) -> (list: Seq<Attr>)
    ensures
        lists(join_text(join, limit, dec), list),
        match join {
            Join::Miter => silent(list, "stroke-linejoin"@) && says_unless(
                list,
                "stroke-miterlimit"@,
                limit,
                4_000_000_000,
                dec,
            ),
            Join::Round => says(list, "stroke-linejoin"@, "round"@) && silent(
                list,
                "stroke-miterlimit"@,
            ),
            Join::Bevel => says(list, "stroke-linejoin"@, "bevel"@) && silent(
                list,
                "stroke-miterlimit"@,
            ),
        },
        forall|n: Seq<char>|
            n != "stroke-linejoin"@ && n != "stroke-miterlimit"@ ==> #[trigger] silent(list, n),
{
    lemma_names();
    lemma_openings();
    reveal_strlit(" stroke-linejoin=\"");
    match join {
        Join::Miter => lemma_number_attrs(
            limit.nanos != 4_000_000_000,
            " stroke-miterlimit=\""@,
            "stroke-miterlimit"@,
            limit,
            dec,
        ),
        Join::Round => {
            reveal_strlit("round");
            reveal_strlit(" stroke-linejoin=\"round\"");
            assert(" stroke-linejoin=\"round\""@ =~= " stroke-linejoin=\""@ + "round"@ + seq!['"']);
            lemma_lists_maybe(true, " stroke-linejoin=\""@, "stroke-linejoin"@, "round"@);
            maybe(true, "stroke-linejoin"@, "round"@)
        },
        Join::Bevel => {
            reveal_strlit("bevel");
            reveal_strlit(" stroke-linejoin=\"bevel\"");
            assert(" stroke-linejoin=\"bevel\""@ =~= " stroke-linejoin=\""@ + "bevel"@ + seq!['"']);
            lemma_lists_maybe(true, " stroke-linejoin=\""@, "stroke-linejoin"@, "bevel"@);
            maybe(true, "stroke-linejoin"@, "bevel"@)
        },
    }
}

/// A stroke as attributes.
#[verifier::spinoff_prover]
#[verifier::rlimit(40)]
pub proof fn lemma_stroke_attrs(stroke: Stroke, paint: PaintView, dec: nat) -> (list: Seq<Attr>)
    requires
        quoteless(paint.value),
    ensures
        lists(stroke_text(stroke, paint, dec), list),
        says(list, "stroke"@, paint.value),
        says_opacity(list, "stroke-opacity"@, paint.opacity, dec),
        lined_like(list, stroke, dec),
        forall|n: Seq<char>| !stroke_name(n) ==> #[trigger] silent(list, n),
{
    lemma_names();
    assert(" stroke=\""@ == seq![' '] + "stroke"@ + "=\""@ && super::reading::tidy_name("stroke"@)
        && " stroke-opacity=\""@ == seq![' '] + "stroke-opacity"@ + "=\""@
        && super::reading::tidy_name("stroke-opacity"@) && " stroke-width=\""@ == seq![' ']
        + "stroke-width"@ + "=\""@ && super::reading::tidy_name("stroke-width"@)) by {
        lemma_openings();
    }
    lemma_lists_maybe(true, " stroke=\""@, "stroke"@, paint.value);
    let a = maybe(true, "stroke"@, paint.value);
    let s = " stroke=\""@ + paint.value + seq!['"'];
    let b = lemma_opacity_attrs(" stroke-opacity=\""@, "stroke-opacity"@, paint.opacity, dec);
    let t = opacity_text(" stroke-opacity=\""@, paint.opacity, dec);
    let c = lemma_number_attrs(
        stroke.width.nanos != 1_000_000_000,
        " stroke-width=\""@,
        "stroke-width"@,
        stroke.width,
        dec,
    );
    let u = width_text(stroke.width, dec);
    let d = lemma_cap_attrs(stroke.start_cap);
    let e = lemma_join_attrs(stroke.join, stroke.miter_limit, dec);
    let f = lemma_dash_attrs(stroke.dash_pattern@, stroke.dash_offset, dec);
    let w = join_text(stroke.join, stroke.miter_limit, dec);
    lemma_lists_joined(s, a, t, b);
    lemma_lists_joined(s + t, a + b, u, c);
    lemma_lists_joined(s + t + u, a + b + c, cap_text(stroke.start_cap), d);
    lemma_lists_joined(s + t + u + cap_text(stroke.start_cap), a + b + c + d, w, e);
    lemma_lists_joined(
        s + t + u + cap_text(stroke.start_cap) + w,
        a + b + c + d + e,
        dash_text(stroke.dash_pattern@, stroke.dash_offset, dec),
        f,
    );
    a + b + c + d + e + f
}

/// True for the attributes that a stroke may have.
pub open spec fn stroke_name(n: Seq<char>) -> bool {
    n == "stroke"@ || n == "stroke-opacity"@ || n == "stroke-width"@ || n == "stroke-linecap"@ || n
        == "stroke-linejoin"@ || n == "stroke-miterlimit"@ || n == "stroke-dasharray"@ || n
        == "stroke-dashoffset"@
}

} // verus!
