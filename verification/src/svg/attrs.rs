//! The attributes of a painted element: fill, stroke and picking.

use vstd::prelude::*;

use super::config::{noted, SvgWarning, Warnings};
use super::paint::{Paint, PaintView};
use super::writer::{max_places, most_places};
use crate::fixed::{num, num_text, Fixed, ONE};
use crate::geometry::FillRule;
use crate::text::{decimal_text, lemma_decimal_text_is_injective, push_decimal};

verus! {

/// How a stroke ends.
#[derive(Debug, Clone, Copy, PartialEq, Eq, Structural)]
pub enum Cap {
    Butt,
    Square,
    Round,
}

/// How two segments of a stroke meet.
#[derive(Debug, Clone, Copy, PartialEq, Eq, Structural)]
pub enum Join {
    Miter,
    Round,
    Bevel,
}

/// A stroke style.
#[derive(Debug)]
pub struct Stroke {
    pub width: Fixed,
    pub start_cap: Cap,
    pub end_cap: Cap,
    pub join: Join,
    pub miter_limit: Fixed,
    pub dash_pattern: Vec<Fixed>,
    pub dash_offset: Fixed,
}

impl Stroke {
    /// A solid stroke of `width` with round caps and joins.
    pub fn new(width: Fixed) -> (r: Stroke)
        ensures
            r.width == width,
            r.start_cap == Cap::Round,
            r.end_cap == Cap::Round,
            r.join == Join::Round,
            r.miter_limit.nanos == 4 * ONE,
            r.dash_pattern@.len() == 0,
            r.dash_offset.nanos == 0,
    {
        Stroke {
            width,
            start_cap: Cap::Round,
            end_cap: Cap::Round,
            join: Join::Round,
            miter_limit: Fixed { nanos: 4_000_000_000 },
            dash_pattern: Vec::new(),
            dash_offset: Fixed { nanos: 0 },
        }
    }
}

/// Whether a primitive can be picked, and as what.
#[derive(Debug, Clone, Copy, PartialEq, Eq, Structural)]
pub enum PickId {
    /// Not pickable; what lies beneath stays hittable through it.
    Skip,
    /// Not pickable, but it hides what lies beneath.
    Block,
    /// Pickable under this id.
    Id(u32),
}

/// What a pick scope does with the primitives drawn inside it.
#[derive(Debug, Clone, Copy, PartialEq, Eq, Structural)]
pub enum ScopeMode {
    /// Groups them, each keeping its own picking.
    Group,
    /// Is itself the target: a primitive without an id of its own is picked
    /// as the scope.
    Target,
}

/// A pick scope: what is being drawn, and how it is picked.
#[derive(Debug)]
pub struct PickScope {
    pub kind: String,
    pub name: Option<String>,
    pub index: Option<u64>,
    pub mode: ScopeMode,
}

impl PickScope {
    /// A scope that groups what is drawn inside it.
    pub fn group(kind: &str) -> (r: PickScope)
        ensures
            r.kind@ == kind@,
            r.name is None,
            r.index is None,
            r.mode == ScopeMode::Group,
    {
        PickScope { kind: kind.to_owned(), name: None, index: None, mode: ScopeMode::Group }
    }

    /// A scope that is itself the target.
    pub fn target(kind: &str) -> (r: PickScope)
        ensures
            r.kind@ == kind@,
            r.name is None,
            r.index is None,
            r.mode == ScopeMode::Target,
    {
        PickScope { kind: kind.to_owned(), name: None, index: None, mode: ScopeMode::Target }
    }

    /// The same scope under a name.
    pub fn with_name(self, name: &str) -> (r: PickScope)
        ensures
            r.name is Some,
            r.name->0@ == name@,
            r == (PickScope { name: r.name, ..self }),
    {
        PickScope { name: Some(name.to_owned()), ..self }
    }

    /// The same scope at an index.
    pub fn with_index(self, index: u64) -> (r: PickScope)
        ensures
            r == (PickScope { index: Some(index), ..self }),
    {
        PickScope { index: Some(index), ..self }
    }
}

/// An opacity attribute, when there is an opacity to name.
pub open spec fn opacity_text(name: Seq<char>, opacity: Option<Fixed>, dec: nat) -> Seq<char> {
    match opacity {
        Some(a) => name + num_text(a, most_places(dec, 3)) + seq!['"'],
        None => seq![],
    }
}

/// The fill attributes for a paint.
pub open spec fn fill_text(paint: PaintView, rule: FillRule, dec: nat) -> Seq<char> {
    " fill=\""@ + paint.value + seq!['"'] + opacity_text(" fill-opacity=\""@, paint.opacity, dec)
        + if rule == FillRule::EvenOdd {
        " fill-rule=\"evenodd\""@
    } else {
        seq![]
    }
}

/// Append an opacity attribute, when there is an opacity to name.
fn write_opacity(out: &mut String, name: &str, opacity: Option<Fixed>, dec: u8)
    ensures
        final(out)@ == old(out)@ + opacity_text(name@, opacity, dec as nat),
{
    if let Some(a) = opacity {
        out.append(name);
        num(out, a, max_places(dec, 3));
        out.push('"');
    }
    assert(out@ =~= old(out)@ + opacity_text(name@, opacity, dec as nat));
}

/// Append `fill` and its companion attributes.
pub fn write_fill_attrs_to(out: &mut String, paint: &Paint, rule: FillRule, decimals: u8)
    ensures
        final(out)@ == old(out)@ + fill_text(paint@, rule, decimals as nat),
{
    out.append(" fill=\"");
    out.append(paint.value.as_str());
    out.push('"');
    write_opacity(out, " fill-opacity=\"", paint.opacity, decimals);
    if rule == FillRule::EvenOdd {
        out.append(" fill-rule=\"evenodd\"");
    }
    assert(out@ =~= old(out)@ + fill_text(paint@, rule, decimals as nat));
}

/// The picking attributes of a primitive.
///
/// A skipped primitive lets a hit through, unless it stands in a scope that
/// is itself the target: there it is the thing being picked, and reports
/// through the group around it.
pub open spec fn pick_text(pick: PickId, on: bool, targeted: bool) -> Seq<char> {
    if !on {
        seq![]
    } else {
        match pick {
            PickId::Skip => if targeted {
                seq![]
            } else {
                " pointer-events=\"none\""@
            },
            PickId::Block => " data-pick-block=\"\""@,
            PickId::Id(n) => " data-pick-id=\""@ + decimal_text(n as nat) + seq!['"'],
        }
    }
}

/// With picking on, what a primitive is marked with tells what it is: no id
/// is mistaken for another, for a blocker or for something passed over.
pub proof fn lemma_picks_are_told_apart(a: PickId, b: PickId, targeted: bool)
    requires
        pick_text(a, true, targeted) == pick_text(b, true, targeted),
    ensures
        a == b,
{
    reveal_strlit(" pointer-events=\"none\"");
    reveal_strlit(" data-pick-block=\"\"");
    reveal_strlit(" data-pick-id=\"");
    assert(" pointer-events=\"none\""@[1] == 'p');
    assert(" data-pick-block=\"\""@[1] == 'd' && " data-pick-block=\"\""@[11] == 'b');
    assert(" data-pick-id=\""@[1] == 'd' && " data-pick-id=\""@[11] == 'i');
    let s = pick_text(a, true, targeted);
    let t = pick_text(b, true, targeted);
    let at = " data-pick-id=\""@.len() as int;
    if let PickId::Id(n) = a {
        assert(s[11] == 'i' && s[1] == 'd');
        assert(s.subrange(at, s.len() - 1) =~= decimal_text(n as nat));
    }
    if let PickId::Id(n) = b {
        assert(t[11] == 'i' && t[1] == 'd');
        assert(t.subrange(at, t.len() - 1) =~= decimal_text(n as nat));
    }
    if let (PickId::Id(m), PickId::Id(n)) = (a, b) {
        lemma_decimal_text_is_injective(m as nat, n as nat);
    }
}

/// Append the picking attributes, when they are switched on.
pub fn write_pick_to(out: &mut String, pick: PickId, on: bool, targeted: bool)
    ensures
        final(out)@ == old(out)@ + pick_text(pick, on, targeted),
{
    if on {
        match pick {
            PickId::Skip => {
                if !targeted {
                    out.append(" pointer-events=\"none\"");
                }
            },
            // An attribute of its own rather than a reserved id: the id
            // space has nothing set aside, so id zero is an ordinary mark.
            PickId::Block => out.append(" data-pick-block=\"\""),
            PickId::Id(n) => {
                out.append(" data-pick-id=\"");
                push_decimal(out, n as u64);
                out.push('"');
            },
        }
    }
    assert(out@ =~= old(out)@ + pick_text(pick, on, targeted));
}

/// The sum of the first `n` dash lengths.
pub open spec fn dash_sum(pattern: Seq<Fixed>, n: nat) -> int
    decreases n,
{
    if n == 0 {
        0
    } else {
        dash_sum(pattern, (n - 1) as nat) + pattern[n - 1].nanos
    }
}

/// The first `n` dash lengths, a space between each two.
pub open spec fn dash_list(pattern: Seq<Fixed>, n: nat, dec: nat) -> Seq<char>
    decreases n,
{
    if n == 0 {
        seq![]
    } else {
        dash_list(pattern, (n - 1) as nat, dec) + (if n > 1 {
            seq![' ']
        } else {
            seq![]
        }) + num_text(pattern[n - 1], dec)
    }
}

/// The dash attributes: none for a pattern that covers no length.
pub open spec fn dash_text(pattern: Seq<Fixed>, offset: Fixed, dec: nat) -> Seq<char> {
    if dash_sum(pattern, pattern.len()) > 0 {
        " stroke-dasharray=\""@ + dash_list(pattern, pattern.len(), dec) + seq!['"'] + if offset.nanos
            != 0 {
            " stroke-dashoffset=\""@ + num_text(offset, dec) + seq!['"']
        } else {
            seq![]
        }
    } else {
        seq![]
    }
}

/// The cap attribute; butt is the default.
pub open spec fn cap_text(cap: Cap) -> Seq<char> {
    match cap {
        Cap::Butt => seq![],
        Cap::Square => " stroke-linecap=\"square\""@,
        Cap::Round => " stroke-linecap=\"round\""@,
    }
}

/// The join attributes; a miter with a limit of four is the default.
pub open spec fn join_text(join: Join, limit: Fixed, dec: nat) -> Seq<char> {
    match join {
        Join::Miter => if limit.nanos != 4 * ONE {
            " stroke-miterlimit=\""@ + num_text(limit, dec) + seq!['"']
        } else {
            seq![]
        },
        Join::Round => " stroke-linejoin=\"round\""@,
        Join::Bevel => " stroke-linejoin=\"bevel\""@,
    }
}

/// The width attribute; one is the default.
pub open spec fn width_text(width: Fixed, dec: nat) -> Seq<char> {
    if width.nanos != ONE {
        " stroke-width=\""@ + num_text(width, dec) + seq!['"']
    } else {
        seq![]
    }
}

/// The stroke attributes, SVG's defaults left off.
pub open spec fn stroke_text(stroke: Stroke, paint: PaintView, dec: nat) -> Seq<char> {
    " stroke=\""@ + paint.value + seq!['"'] + opacity_text(
        " stroke-opacity=\""@,
        paint.opacity,
        dec,
    ) + width_text(stroke.width, dec) + cap_text(stroke.start_cap) + join_text(
        stroke.join,
        stroke.miter_limit,
        dec,
    ) + dash_text(stroke.dash_pattern@, stroke.dash_offset, dec)
}

/// The warnings once a stroke has been written: SVG has one cap for both
/// ends.
pub open spec fn stroke_warnings(seen: Seq<SvgWarning>, stroke: Stroke) -> Seq<SvgWarning> {
    if stroke.start_cap != stroke.end_cap {
        noted(seen, SvgWarning::AsymmetricCaps)
    } else {
        seen
    }
}

/// True when the dash lengths add up to more than nothing.
fn dashes_cover_length(pattern: &Vec<Fixed>) -> (r: bool)
    ensures
        r == (dash_sum(pattern@, pattern@.len()) > 0),
{
    let mut sum: i128 = 0;
    let mut i: usize = 0;
    while i < pattern.len()
        invariant
            i <= pattern@.len(),
            sum == dash_sum(pattern@, i as nat),
            -(i * 0x8000_0000_0000_0000) <= sum <= i * 0x8000_0000_0000_0000,
        decreases pattern@.len() - i,
    {
        assert((i + 1) * 0x8000_0000_0000_0000 == i * 0x8000_0000_0000_0000
            + 0x8000_0000_0000_0000);
        assert((i + 1) * 0x8000_0000_0000_0000 <= 0x7fff_ffff_ffff_ffff_ffff_ffff_ffff_ffff)
            by (nonlinear_arith)
            requires
                i + 1 <= 0xffff_ffff_ffff_ffff,
        ;
        sum = sum + pattern[i].nanos as i128;
        i = i + 1;
    }
    sum > 0
}

/// Append the dash attributes.
fn write_dashes(out: &mut String, stroke: &Stroke, dec: u8)
    ensures
        final(out)@ == old(out)@ + dash_text(
            stroke.dash_pattern@,
            stroke.dash_offset,
            dec as nat,
        ),
{
    let ghost before = out@;
    if dashes_cover_length(&stroke.dash_pattern) {
        out.append(" stroke-dasharray=\"");
        let ghost head = " stroke-dasharray=\""@;
        assert(out@ =~= before + head + dash_list(stroke.dash_pattern@, 0, dec as nat));
        let mut i: usize = 0;
        while i < stroke.dash_pattern.len()
            invariant
                i <= stroke.dash_pattern@.len(),
                out@ == before + head + dash_list(stroke.dash_pattern@, i as nat, dec as nat),
            decreases stroke.dash_pattern@.len() - i,
        {
            if i > 0 {
                out.push(' ');
            }
            num(out, stroke.dash_pattern[i], dec);
            i = i + 1;
            assert(out@ =~= before + head + dash_list(stroke.dash_pattern@, i as nat, dec as nat));
        }
        out.push('"');
        if stroke.dash_offset.nanos != 0 {
            out.append(" stroke-dashoffset=\"");
            num(out, stroke.dash_offset, dec);
            out.push('"');
        }
    }
    assert(out@ =~= before + dash_text(stroke.dash_pattern@, stroke.dash_offset, dec as nat));
}

/// Append the join attributes.
fn write_join(out: &mut String, stroke: &Stroke, dec: u8)
    ensures
        final(out)@ == old(out)@ + join_text(stroke.join, stroke.miter_limit, dec as nat),
{
    match stroke.join {
        Join::Miter => {
            if stroke.miter_limit.nanos != 4 * ONE {
                out.append(" stroke-miterlimit=\"");
                num(out, stroke.miter_limit, dec);
                out.push('"');
            }
        },
        Join::Round => out.append(" stroke-linejoin=\"round\""),
        Join::Bevel => out.append(" stroke-linejoin=\"bevel\""),
    }
    assert(out@ =~= old(out)@ + join_text(stroke.join, stroke.miter_limit, dec as nat));
}

/// Append the stroke attributes for `stroke`, omitting SVG defaults.
pub fn write_stroke_attrs_to(
    out: &mut String,
    stroke: &Stroke,
    paint: &Paint,
    decimals: u8,
    warnings: &mut Warnings,
)
    ensures
        final(out)@ == old(out)@ + stroke_text(*stroke, paint@, decimals as nat),
        final(warnings)@ == stroke_warnings(old(warnings)@, *stroke),
{
    let dec = decimals;
    let ghost n = dec as nat;
    let ghost start = out@;
    out.append(" stroke=\"");
    out.append(paint.value.as_str());
    out.push('"');
    let ghost paint_part = " stroke=\""@ + paint.value@ + seq!['"'];
    assert(out@ =~= start + paint_part);
    write_opacity(out, " stroke-opacity=\"", paint.opacity, dec);
    let ghost opacity_part = paint_part + opacity_text(" stroke-opacity=\""@, paint.opacity, n);
    assert(out@ =~= start + opacity_part);
    if stroke.width.nanos != ONE {
        out.append(" stroke-width=\"");
        num(out, stroke.width, dec);
        out.push('"');
    }
    let ghost width_part = opacity_part + width_text(stroke.width, n);
    assert(out@ =~= start + width_part);
    if stroke.start_cap != stroke.end_cap {
        warnings.note(SvgWarning::AsymmetricCaps);
    }
    match stroke.start_cap {
        Cap::Butt => {},
        Cap::Square => out.append(" stroke-linecap=\"square\""),
        Cap::Round => out.append(" stroke-linecap=\"round\""),
    }
    let ghost cap_part = width_part + cap_text(stroke.start_cap);
    assert(out@ =~= start + cap_part);
    write_join(out, stroke, dec);
    let ghost join_part = cap_part + join_text(stroke.join, stroke.miter_limit, n);
    assert(out@ =~= start + join_part);
    write_dashes(out, stroke, dec);
    assert(out@ =~= start + stroke_text(*stroke, paint@, n));
}

/// A paint attribute under any name, with its opacity beside it.
pub open spec fn paint_attr_text(name: Seq<char>, p: PaintView, dec: nat) -> Seq<char> {
    seq![' '] + name + "=\""@ + p.value + seq!['"'] + opacity_text(
        seq![' '] + name + "-opacity=\""@,
        p.opacity,
        dec,
    )
}

/// Append a paint under `name`.
pub fn write_paint_attr(out: &mut String, name: &str, p: &Paint, decimals: u8)
    ensures
        final(out)@ == old(out)@ + paint_attr_text(name@, p@, decimals as nat),
{
    out.push(' ');
    out.append(name);
    out.append("=\"");
    out.append(p.value.as_str());
    out.push('"');
    if let Some(a) = p.opacity {
        out.push(' ');
        out.append(name);
        out.append("-opacity=\"");
        num(out, a, max_places(decimals, 3));
        out.push('"');
    }
    assert(out@ =~= old(out)@ + paint_attr_text(name@, p@, decimals as nat));
}

} // verus!
