//! What each call adds to a document, and where it stands in it.

use vstd::prelude::*;

use super::attrs::{fill_text, pick_text, stroke_text, PickId, PickScope, ScopeMode, Stroke};
use super::laws::{
    brush_is_sound, held_in_order, lemma_brush_keeps_sound, lemma_interned_is_sound,
    lemma_mesh_keeps_sound, lemma_settled_is_sound, sound,
};
use super::markup::completes;
use super::model::{
    background_text, baked, clip_attr_text, clip_rest, closing_text, layer_opacity_text,
    layer_style_text, layer_text, mix_text, outline_text, pending_text, scope_index_text,
    scope_name_text, scope_text, stroked_text, use_text, BlendMode, GroupKind, ImageSource,
    MeshFill, Mix, SceneView,
};
use super::paint::{
    defs_text, interned_id, kind_element, lemma_interning_defines, stylesheet_text, Brush, DefKind,
    DefView, PaintView,
};
use super::reading::{
    alike, at_least, is_tag, lemma_attr_text_reads_back, lemma_lists_joined, lemma_lists_maybe,
    lemma_maps_are_told_apart, lemma_names, lemma_openings, lemma_path_reads_back,
    lemma_quoteless_joined, lemma_transform_reads_back, lists, maybe, moved_by, path_reads, said,
    says, silent, tidy_name, unescaped, Attr,
};
use super::refs::quoteless;
use super::shown::{
    filled_with, follows_rule, lemma_fill_attrs, lemma_opacity_attrs, lemma_paint_shows_brush,
    lemma_paint_shows_in_more, lemma_pick_attrs, lemma_stroke_attrs, lined_like, lined_with,
    picked_as, says_opacity, unlined,
};
use super::text::claims;
use super::writer::{attr_text, path_text, steps_text, transform_text};
use crate::fixed::Fixed;
use crate::geometry::{rect_of, Affine, FillRule, PathEl};
use crate::numeral::{counts, lemma_count_reads_back};
use crate::text::{decimal_text, lemma_append, lemma_append_nothing};

verus! {

/// Everything drawn so far, in the order it stands in the document: what was
/// written, and what is still held back.
pub open spec fn drawn(v: SceneView) -> Seq<char> {
    v.body + v.prelude + v.held_block_text() + v.held_fill_text()
}

/// What a fill comes after: everything drawn, except that what is drawn while
/// a text block is open comes before that block, a fill still waiting first.
pub open spec fn behind_fill(v: SceneView) -> Seq<char> {
    if v.block.runs.len() > 0 {
        v.body + v.prelude + v.held_fill_text() + v.held_block_text()
    } else {
        drawn(v)
    }
}

/// True when what is drawn here is picked as part of the scope around it.
pub open spec fn in_target(v: SceneView) -> bool {
    v.scope_modes.len() > 0 && v.scope_modes[v.scope_modes.len() - 1] == ScopeMode::Target
}

/// `n` ends of groups.
pub open spec fn ends(n: nat) -> Seq<char>
    decreases n,
{
    if n == 0 {
        seq![]
    } else {
        "</g>"@ + ends((n - 1) as nat)
    }
}

/// True when a tag draws a path under a map: its data reads back as the path.
pub open spec fn draws_path(
    el: Seq<char>,
    list: Seq<Attr>,
    path: Seq<PathEl>,
    t: Affine,
    dec: nat,
) -> bool {
    &&& is_tag(el, "path"@, list, "/>"@)
    &&& said(list, "d"@).len() == 1
    &&& path_reads(said(list, "d"@)[0], path, dec)
    &&& moved_by(list, t, dec)
}

/// The end tags of groups, from either end.
pub proof fn lemma_ends(n: nat)
    ensures
        closing_text(n) == ends(n),
    decreases n,
{
    if n > 0 {
        lemma_ends((n - 1) as nat);
        lemma_ends_from_back(n);
    }
}

proof fn lemma_ends_from_back(n: nat)
    requires
        n > 0,
    ensures
        ends(n) == ends((n - 1) as nat) + "</g>"@,
    decreases n,
{
    let g = "</g>"@;
    if n == 1 {
        assert(ends(0) =~= seq![]);
        assert(g + ends(0) =~= ends(0) + g);
    } else {
        let m = (n - 1) as nat;
        lemma_ends_from_back(m);
        assert(g + (ends((m - 1) as nat) + g) =~= (g + ends((m - 1) as nat)) + g);
    }
}

/// A document ends with everything drawn, the end of every group still open,
/// and the end of the root.
pub proof fn lemma_document_holds_what_was_drawn(v: SceneView)
    ensures
        exists|head: Seq<char>|
            v.document() == #[trigger] (head + drawn(v)) + ends(v.groups.len()) + "</svg>"@,
{
    lemma_ends(v.groups.len());
    let dec = v.config.decimals;
    let head = v.root_open_text() + defs_text(
        v.defs,
        stylesheet_text(v.fonts, v.config.embed_fonts),
    ) + background_text(v.config.background, v.size, dec);
    lemma_append(head, v.body, v.prelude);
    lemma_append(head, v.body + v.prelude, v.held_block_text());
    lemma_append(head, v.body + v.prelude + v.held_block_text(), v.held_fill_text());
    assert(v.document() == (head + drawn(v)) + ends(v.groups.len()) + "</svg>"@);
}

/// Writing out what is held back changes nothing of what was drawn, and leaves
/// nothing held back.
pub proof fn lemma_settling_draws_nothing(v: SceneView)
    ensures
        v.settled().body == drawn(v),
        drawn(v.settled()) == drawn(v),
        v.settled().pending is None,
        v.settled().prelude.len() == 0,
        v.settled().block.runs.len() == 0,
        v.settled().groups == v.groups,
        v.settled().document() == v.document(),
{
    let done = v.settled();
    lemma_append_nothing(drawn(v));
    let flushed = v.flushed_block();
    assert(flushed.body == v.body + v.prelude + v.held_block_text());
    if v.pending is None {
        lemma_append_nothing(flushed.body);
    }
    assert(done.body == drawn(v));
    assert(done.held_block_text() =~= seq![]);
    assert(done.prelude =~= seq![]);
    assert(drawn(done) =~= drawn(v));
    assert(done.final_root() == v.final_root());
    lemma_document_parts(v);
    lemma_document_parts(done);
}

/// What comes before everything drawn.
spec fn frame(v: SceneView) -> Seq<char> {
    v.root_open_text() + defs_text(v.defs, stylesheet_text(v.fonts, v.config.embed_fonts))
        + background_text(v.config.background, v.size, v.config.decimals)
}

proof fn lemma_document_parts(v: SceneView)
    ensures
        v.document() == frame(v) + drawn(v) + closing_text(v.groups.len()) + "</svg>"@,
{
    let head = frame(v);
    lemma_append(head, v.body, v.prelude);
    lemma_append(head, v.body + v.prelude, v.held_block_text());
    lemma_append(head, v.body + v.prelude + v.held_block_text(), v.held_fill_text());
}

proof fn lemma_path_has_data(path: Seq<PathEl>, n: nat, dec: nat)
    requires
        0 < n <= path.len(),
    ensures
        steps_text(path, n, dec).len() > 0,
{
    super::reading::lemma_step_reads_back(path[n - 1], dec);
}

/// A `<path>` tag around other attributes.
proof fn lemma_path_tag(path: Seq<PathEl>, dec: nat, rest: Seq<char>, list: Seq<Attr>) -> (all: Seq<
    Attr,
>)
    requires
        lists(rest, list),
        silent(list, "d"@),
    ensures
        is_tag(
            "<path d=\""@ + path_text(path, dec) + seq!['"'] + rest + "/>"@,
            "path"@,
            all,
            "/>"@,
        ),
        said(all, "d"@).len() == 1,
        path_reads(said(all, "d"@)[0], path, dec),
        forall|n: Seq<char>| n != "d"@ ==> #[trigger] said(all, n) == said(list, n),
{
    let d = path_text(path, dec);
    assert(" d=\""@ == seq![' '] + "d"@ + "=\""@ && tidy_name("d"@)) by {
        lemma_openings();
    }
    super::pieces::lemma_path_is_quiet(path, dec);
    lemma_path_reads_back(path, dec);
    lemma_lists_maybe(true, " d=\""@, "d"@, d);
    let one = maybe(true, "d"@, d);
    let s = " d=\""@ + d + seq!['"'];
    lemma_lists_joined(s, one, rest, list);
    let all = one + list;
    assert("<path d=\""@ == seq!['<'] + "path"@ + " d=\""@) by {
        reveal_strlit("<path d=\"");
        reveal_strlit("path");
        reveal_strlit(" d=\"");
        assert("<path d=\""@ =~= seq!['<'] + "path"@ + " d=\""@);
    }
    let name = seq!['<'] + "path"@;
    lemma_append(name, " d=\""@, d);
    lemma_append(name, " d=\""@ + d, seq!['"']);
    lemma_append(name, s, rest);
    assert(lists(s + rest, all));
    assert(said(one, "d"@) == seq![d]);
    all
}

/// A fill that no stroke joined, as an element.
proof fn lemma_fill_element(
    p: super::model::PendingView,
    dec: nat,
    on: bool,
    targeted: bool,
) -> (list: Seq<Attr>)
    requires
        p.path.len() > 0,
        quoteless(p.paint.value),
    ensures
        draws_path(pending_text(p, dec, on, targeted), list, p.path, p.transform, dec),
        says(list, "fill"@, p.paint.value),
        says_opacity(list, "fill-opacity"@, p.paint.opacity, dec),
        follows_rule(list, p.rule),
        unlined(list),
        picked_as(list, p.pick, on, targeted),
{
    lemma_names();
    lemma_path_has_data(p.path, p.path.len(), dec);
    let a = lemma_fill_attrs(p.paint, p.rule, dec);
    let b = lemma_transform_reads_back(p.transform, dec);
    let c = lemma_pick_attrs(p.pick, on, targeted);
    let s = fill_text(p.paint, p.rule, dec);
    let t = transform_text(p.transform, dec);
    let u = pick_text(p.pick, on, targeted);
    lemma_lists_joined(s, a, t, b);
    lemma_lists_joined(s + t, a + b, u, c);
    let list = a + b + c;
    let all = lemma_path_tag(p.path, dec, s + t + u, list);
    let head = "<path d=\""@ + path_text(p.path, dec) + seq!['"'];
    lemma_append(head, s, t);
    lemma_append(head, s + t, u);
    all
}

/// Filling a path draws it, after everything drawn before it: one element
/// whose data reads back as the path, under the map it was filled under, with
/// the brush and by the rule it was filled with, picked as asked, and not
/// stroked.
#[verifier::spinoff_prover]
#[verifier::rlimit(40)]
pub proof fn lemma_fill_draws_its_path(
    v: SceneView,
    rule: FillRule,
    transform: Affine,
    brush: Brush,
    path: Seq<PathEl>,
    pick: PickId,
)
    requires
        sound(v),
        brush_is_sound(brush),
        path.len() > 0,
        v.block.runs.len() > 0 && rect_of(path, transform) is Some ==> !claims(
            v.block.runs,
            rect_of(path, transform)->0,
        ),
    ensures
        ({
            let after = v.filled(rule, transform, brush, path, pick);
            exists|el: Seq<char>, list: Seq<Attr>| #[trigger]
                draws_path(el, list, path, transform, v.config.decimals) && filled_with(
                    list,
                    brush,
                    after.defs,
                    v.config.decimals,
                ) && follows_rule(list, rule) && unlined(list) && picked_as(
                    list,
                    pick,
                    v.config.pick_ids,
                    in_target(v),
                ) && drawn(after) == behind_fill(v) + el
        }),
{
    reveal(SceneView::filled);
    let after = v.filled(rule, transform, brush, path, pick);
    let dec = v.config.decimals;
    lemma_brush_keeps_sound(v, brush);
    lemma_paint_shows_brush(v.defs, brush, v.config.prefix);
    let p = after.pending->0;
    let list = lemma_fill_element(p, dec, v.config.pick_ids, v.targets());
    let el = pending_text(p, dec, v.config.pick_ids, v.targets());
    assert(filled_with(list, brush, after.defs, dec));
    assert(draws_path(el, list, path, transform, dec));
    if v.block_open() {
        if v.pending is None {
            lemma_append_nothing(v.body + v.prelude);
        } else {
            lemma_append(v.body, v.prelude, v.held_fill_text());
        }
        assert(drawn(after) == behind_fill(v) + el);
    } else {
        lemma_settling_draws_nothing(v);
        let ready = v.settled();
        assert(after.body == drawn(v));
        assert(after.prelude =~= seq![]);
        assert(after.held_block_text() =~= seq![]);
        assert(drawn(after) =~= drawn(v) + el);
    }
}

/// A fill, or that there is none, as attributes.
proof fn lemma_fill_or_none(fill: Option<(PaintView, FillRule)>, dec: nat) -> (list: Seq<Attr>)
    requires
        fill is Some ==> quoteless((fill->0).0.value),
    ensures
        lists(
            match fill {
                Some((p, rule)) => fill_text(p, rule, dec),
                None => " fill=\"none\""@,
            },
            list,
        ),
        match fill {
            Some((p, rule)) => says(list, "fill"@, p.value) && says_opacity(
                list,
                "fill-opacity"@,
                p.opacity,
                dec,
            ) && follows_rule(list, rule),
            None => unfilled(list),
        },
        forall|n: Seq<char>|
            n != "fill"@ && n != "fill-opacity"@ && n != "fill-rule"@ ==> #[trigger] silent(
                list,
                n,
            ),
{
    match fill {
        Some((p, rule)) => lemma_fill_attrs(p, rule, dec),
        None => lemma_no_fill(),
    }
}

/// A stroked path as an element, filled or not.
#[verifier::spinoff_prover]
#[verifier::rlimit(40)]
proof fn lemma_stroke_element(
    path: Seq<PathEl>,
    fill: Option<(PaintView, FillRule)>,
    stroke: Stroke,
    paint: PaintView,
    t: Affine,
    dec: nat,
    pick: PickId,
    on: bool,
    targeted: bool,
) -> (list: Seq<Attr>)
    requires
        quoteless(paint.value),
        fill is Some ==> quoteless((fill->0).0.value),
    ensures
        draws_path(
            stroked_text(path, fill, stroke, paint, t, dec, pick_text(pick, on, targeted)),
            list,
            path,
            t,
            dec,
        ),
        match fill {
            Some((p, rule)) => says(list, "fill"@, p.value) && says_opacity(
                list,
                "fill-opacity"@,
                p.opacity,
                dec,
            ) && follows_rule(list, rule),
            None => unfilled(list),
        },
        says(list, "stroke"@, paint.value),
        says_opacity(list, "stroke-opacity"@, paint.opacity, dec),
        lined_like(list, stroke, dec),
        picked_as(list, pick, on, targeted),
{
    lemma_names();
    let s = match fill {
        Some((p, rule)) => fill_text(p, rule, dec),
        None => " fill=\"none\""@,
    };
    let a = lemma_fill_or_none(fill, dec);
    let b = lemma_stroke_attrs(stroke, paint, dec);
    let c = lemma_transform_reads_back(t, dec);
    let d = lemma_pick_attrs(pick, on, targeted);
    let u = stroke_text(stroke, paint, dec);
    let w = transform_text(t, dec);
    let x = pick_text(pick, on, targeted);
    lemma_lists_joined(s, a, u, b);
    lemma_lists_joined(s + u, a + b, w, c);
    lemma_lists_joined(s + u + w, a + b + c, x, d);
    let all = lemma_path_tag(path, dec, s + u + w + x, a + b + c + d);
    let head = "<path d=\""@ + path_text(path, dec) + seq!['"'];
    lemma_append(head, s, u);
    lemma_append(head, s + u, w);
    lemma_append(head, s + u + w, x);
    all
}

/// True when a tag says that it is not filled.
pub open spec fn unfilled(list: Seq<Attr>) -> bool {
    says(list, "fill"@, "none"@) && silent(list, "fill-opacity"@) && silent(list, "fill-rule"@)
}

proof fn lemma_no_fill() -> (list: Seq<Attr>)
    ensures
        lists(" fill=\"none\""@, list),
        unfilled(list),
        forall|n: Seq<char>| n != "fill"@ ==> #[trigger] silent(list, n),
{
    lemma_names();
    lemma_openings();
    reveal_strlit("none");
    reveal_strlit(" fill=\"none\"");
    reveal_strlit(" fill=\"");
    assert(" fill=\"none\""@ =~= " fill=\""@ + "none"@ + seq!['"']);
    lemma_lists_maybe(true, " fill=\""@, "fill"@, "none"@);
    maybe(true, "fill"@, "none"@)
}

/// Where a stroke is drawn: after everything drawn before it, except that what
/// is drawn while a text block is open comes before that block.
pub open spec fn with_stroke(v: SceneView, el: Seq<char>) -> Seq<char> {
    if v.block.runs.len() > 0 {
        v.body + v.prelude + v.held_fill_text() + el + v.held_block_text()
    } else {
        drawn(v) + el
    }
}

/// Stroking a path that is not the one just filled draws it: one element whose
/// data reads back as the path, under the map it was stroked under, with the
/// brush and the stroke it was stroked with, picked as asked, and not filled.
#[verifier::spinoff_prover]
#[verifier::rlimit(40)]
pub proof fn lemma_stroke_draws_its_path(
    v: SceneView,
    stroke: Stroke,
    transform: Affine,
    brush: Brush,
    path: Seq<PathEl>,
    pick: PickId,
)
    requires
        sound(v),
        brush_is_sound(brush),
        path.len() > 0,
        v.pending is Some ==> v.pending->0.path != path || v.pending->0.transform != transform,
    ensures
        ({
            let after = v.stroked(stroke, transform, brush, path, pick);
            let dec = v.config.decimals;
            exists|el: Seq<char>, list: Seq<Attr>| #[trigger]
                draws_path(el, list, path, transform, dec) && unfilled(list) && lined_with(
                    list,
                    brush,
                    after.defs,
                    dec,
                ) && lined_like(list, stroke, dec) && picked_as(
                    list,
                    pick,
                    v.config.pick_ids,
                    in_target(v),
                ) && drawn(after) == with_stroke(v, el)
        }),
{
    let after = v.stroked(stroke, transform, brush, path, pick);
    let dec = v.config.decimals;
    let on = v.config.pick_ids;
    lemma_brush_keeps_sound(v, brush);
    lemma_paint_shows_brush(v.defs, brush, v.config.prefix);
    let paint = v.paint_of(brush);
    let list = lemma_stroke_element(
        path,
        None,
        stroke,
        paint,
        transform,
        dec,
        pick,
        on,
        v.targets(),
    );
    let el = stroked_text(
        path,
        None,
        stroke,
        paint,
        transform,
        dec,
        pick_text(pick, on, v.targets()),
    );
    assert(draws_path(el, list, path, transform, dec));
    assert(lined_with(list, brush, after.defs, dec));
    if v.block_open() {
        if v.pending is None {
            lemma_append_nothing(v.body + v.prelude);
            lemma_append(v.body, v.prelude, el);
        } else {
            lemma_append(v.body, v.prelude, v.held_fill_text());
            lemma_append(v.body, v.prelude + v.held_fill_text(), el);
        }
        lemma_append_nothing(with_stroke(v, el));
        assert(after.held_fill_text() =~= seq![]);
        assert(drawn(after) == with_stroke(v, el));
    } else {
        lemma_settling_draws_nothing(v);
        assert(after.body == drawn(v) + el);
        assert(after.prelude =~= seq![]);
        assert(after.held_block_text() =~= seq![]);
        assert(after.held_fill_text() =~= seq![]);
        assert(drawn(after) =~= drawn(v) + el);
    }
}

/// Filling a path and stroking it at once draws one element that is both
/// filled and stroked, each with its own brush, and picked as the fill was.
#[verifier::spinoff_prover]
#[verifier::rlimit(60)]
pub proof fn lemma_fill_and_stroke_draw_one_path(
    v: SceneView,
    rule: FillRule,
    transform: Affine,
    fill: Brush,
    stroke: Stroke,
    line: Brush,
    path: Seq<PathEl>,
    pick: PickId,
    other: PickId,
)
    requires
        sound(v),
        brush_is_sound(fill),
        brush_is_sound(line),
        path.len() > 0,
        v.block.runs.len() == 0,
    ensures
        ({
            let after = v.filled(rule, transform, fill, path, pick).stroked(
                stroke,
                transform,
                line,
                path,
                other,
            );
            let dec = v.config.decimals;
            exists|el: Seq<char>, list: Seq<Attr>| #[trigger]
                draws_path(el, list, path, transform, dec) && filled_with(
                    list,
                    fill,
                    after.defs,
                    dec,
                ) && follows_rule(list, rule) && lined_with(list, line, after.defs, dec)
                    && lined_like(list, stroke, dec) && picked_as(
                    list,
                    pick,
                    v.config.pick_ids,
                    in_target(v),
                ) && drawn(after) == drawn(v) + el
        }),
{
    reveal(SceneView::filled);
    let held = v.filled(rule, transform, fill, path, pick);
    let after = held.stroked(stroke, transform, line, path, other);
    let dec = v.config.decimals;
    let on = v.config.pick_ids;
    lemma_settling_draws_nothing(v);
    lemma_brush_keeps_sound(v, fill);
    lemma_paint_shows_brush(v.defs, fill, v.config.prefix);
    let first = v.with_brush(fill);
    assert(sound(first));
    lemma_brush_keeps_sound(first, line);
    lemma_paint_shows_brush(first.defs, line, v.config.prefix);
    let below = v.paint_of(fill);
    let over = first.paint_of(line);
    assert(first.defs.is_prefix_of(after.defs)) by {
        if let super::paint::PaintSource::Server(body) = line.source {
            lemma_interning_defines(first.defs, body@.kind, body@.rest, v.config.prefix);
        }
    }
    lemma_paint_shows_in_more(below.value, fill, first.defs, after.defs);
    let list = lemma_stroke_element(
        path,
        Some((below, rule)),
        stroke,
        over,
        transform,
        dec,
        pick,
        on,
        v.targets(),
    );
    let el = stroked_text(
        path,
        Some((below, rule)),
        stroke,
        over,
        transform,
        dec,
        pick_text(pick, on, v.targets()),
    );
    assert(draws_path(el, list, path, transform, dec));
    assert(filled_with(list, fill, after.defs, dec));
    assert(lined_with(list, line, after.defs, dec));
    let open = held.flushed_block();
    assert(open.body =~= held.body);
    assert(held.body == drawn(v));
    assert(after.body == drawn(v) + el);
    assert(after.prelude =~= seq![]);
    assert(after.held_block_text() =~= seq![]);
    assert(after.held_fill_text() =~= seq![]);
    assert(drawn(after) =~= drawn(v) + el);
}

/// A run's contours as an element.
#[verifier::spinoff_prover]
#[verifier::rlimit(40)]
proof fn lemma_outline_element(
    path: Seq<PathEl>,
    style: Option<Stroke>,
    paint: PaintView,
    t: Affine,
    dec: nat,
    pick: PickId,
    on: bool,
    targeted: bool,
) -> (list: Seq<Attr>)
    requires
        quoteless(paint.value),
    ensures
        draws_path(
            outline_text(
                path_text(path, dec),
                style,
                paint,
                t,
                dec,
                pick_text(pick, on, targeted),
            ),
            list,
            path,
            t,
            dec,
        ),
        match style {
            Some(stroke) => unfilled(list) && says(list, "stroke"@, paint.value) && says_opacity(
                list,
                "stroke-opacity"@,
                paint.opacity,
                dec,
            ) && lined_like(list, stroke, dec),
            None => says(list, "fill"@, paint.value) && says_opacity(
                list,
                "fill-opacity"@,
                paint.opacity,
                dec,
            ) && follows_rule(list, FillRule::NonZero) && unlined(list),
        },
        picked_as(list, pick, on, targeted),
{
    match style {
        Some(stroke) => {
            let mark = pick_text(pick, on, targeted);
            let head = "<path d=\""@ + path_text(path, dec) + seq!['"'];
            lemma_append(head, " fill=\"none\""@, stroke_text(stroke, paint, dec));
            assert(outline_text(path_text(path, dec), style, paint, t, dec, mark) == stroked_text(
                path,
                None,
                stroke,
                paint,
                t,
                dec,
                mark,
            ));
            lemma_stroke_element(path, None, stroke, paint, t, dec, pick, on, targeted)
        },
        None => {
            lemma_names();
            let a = lemma_fill_attrs(paint, FillRule::NonZero, dec);
            let b = lemma_transform_reads_back(t, dec);
            let c = lemma_pick_attrs(pick, on, targeted);
            let s = fill_text(paint, FillRule::NonZero, dec);
            let u = transform_text(t, dec);
            let w = pick_text(pick, on, targeted);
            lemma_lists_joined(s, a, u, b);
            lemma_lists_joined(s + u, a + b, w, c);
            let all = lemma_path_tag(path, dec, s + u + w, a + b + c);
            let head = "<path d=\""@ + path_text(path, dec) + seq!['"'];
            lemma_append(head, s, u);
            lemma_append(head, s + u, w);
            all
        },
    }
}

/// Drawing glyphs as contours draws the contours, after everything drawn
/// before them: one element whose data reads back as the outline, under the
/// map of the run, filled with its brush, or stroked with it where the run has
/// a stroke.
#[verifier::spinoff_prover]
#[verifier::rlimit(60)]
pub proof fn lemma_outlines_are_drawn(
    v: SceneView,
    run: super::text::GlyphRun,
    pick: PickId,
)
    requires
        sound(v),
        held_in_order(v),
        brush_is_sound(run.brush),
        run.outline is Some,
        run.source is None || v.config.text == super::config::TextMode::Outline,
    ensures
        ({
            let after = v.glyphs_drawn(run, pick);
            let dec = v.config.decimals;
            exists|el: Seq<char>, list: Seq<Attr>| #[trigger]
                draws_path(el, list, run.outline->0@, run.transform, dec) && match run.style {
                    Some(stroke) => unfilled(list) && lined_with(list, run.brush, after.defs, dec)
                        && lined_like(list, stroke, dec),
                    None => filled_with(list, run.brush, after.defs, dec) && follows_rule(
                        list,
                        FillRule::NonZero,
                    ) && unlined(list),
                } && picked_as(list, pick, v.config.pick_ids, in_target(v)) && drawn(after)
                    == behind_fill(v) + el
        }),
{
    let after = v.glyphs_drawn(run, pick);
    let dec = v.config.decimals;
    let on = v.config.pick_ids;
    lemma_brush_keeps_sound(v, run.brush);
    lemma_paint_shows_brush(v.defs, run.brush, v.config.prefix);
    let paint = v.paint_of(run.brush);
    let path = run.outline->0@;
    let list = lemma_outline_element(
        path,
        run.style,
        paint,
        run.transform,
        dec,
        pick,
        on,
        v.targets(),
    );
    let el = outline_text(
        path_text(path, dec),
        run.style,
        paint,
        run.transform,
        dec,
        pick_text(pick, on, v.targets()),
    );
    let ready = v.flushed_pending();
    let done = ready.flushed_block();
    assert(after.body == done.body + el);
    assert(done.body == ready.body + ready.prelude + ready.held_block_text());
    if v.block_open() {
        if v.pending is None {
            lemma_append_nothing(v.body + v.prelude);
        } else {
            lemma_append(v.body, v.prelude, v.held_fill_text());
        }
        assert(done.body == behind_fill(v));
    } else {
        lemma_append_nothing(v.body);
        lemma_append_nothing(v.body + v.prelude);
        assert(v.held_block_text() =~= seq![]);
        assert(v.prelude =~= seq![]);
        assert(done.body =~= behind_fill(v));
    }
    assert(after.held_block_text() =~= seq![]);
    assert(after.held_fill_text() =~= seq![]);
    assert(after.prelude =~= seq![]);
    assert(drawn(after) =~= behind_fill(v) + el);
    assert(draws_path(el, list, path, run.transform, dec));
}

/// True when a tag uses what `defs` define as `kind` and `rest`.
pub open spec fn uses_definition(
    list: Seq<Attr>,
    defs: Seq<DefView>,
    kind: DefKind,
    rest: Seq<char>,
) -> bool {
    exists|i: int|
        0 <= i < defs.len() && (#[trigger] defs[i]).kind == kind && defs[i].rest == rest && says(
            list,
            "href"@,
            seq!['#'] + defs[i].id,
        )
}

/// True when a tag is faded as a whole: it says how far, unless it is not.
pub open spec fn faded(list: Seq<Attr>, alpha: Fixed, dec: nat) -> bool {
    says_opacity(
        list,
        "opacity"@,
        if alpha.nanos == 1_000_000_000 {
            None
        } else {
            Some(alpha)
        },
        dec,
    )
}

/// The opacity of a whole element as attributes.
proof fn lemma_fade_attrs(alpha: Fixed, dec: nat) -> (list: Seq<Attr>)
    ensures
        lists(layer_opacity_text(alpha, dec), list),
        faded(list, alpha, dec),
        forall|n: Seq<char>| n != "opacity"@ ==> #[trigger] silent(list, n),
{
    assert(" opacity=\""@ == seq![' '] + "opacity"@ + "=\""@ && tidy_name("opacity"@)) by {
        lemma_openings();
    }
    let opacity: Option<Fixed> = if alpha.nanos == 1_000_000_000 {
        None
    } else {
        Some(alpha)
    };
    lemma_opacity_attrs(" opacity=\""@, "opacity"@, opacity, dec)
}

/// A reference to an image's definition as a tag.
#[verifier::spinoff_prover]
#[verifier::rlimit(40)]
proof fn lemma_use_tag(id: Seq<char>, transform: Affine, alpha: Fixed, dec: nat) -> (list: Seq<
    Attr,
>)
    requires
        quoteless(id),
    ensures
        is_tag(use_text(id, transform, alpha, dec), "use"@, list, "/>"@),
        says(list, "href"@, seq!['#'] + id),
        moved_by(list, transform, dec),
        faded(list, alpha, dec),
{
    lemma_names();
    let value = seq!['#'] + id;
    lemma_quoteless_joined(seq!['#'], id);
    assert(" href=\""@ == seq![' '] + "href"@ + "=\""@ && tidy_name("href"@)) by {
        lemma_openings();
    }
    lemma_lists_maybe(true, " href=\""@, "href"@, value);
    let a = maybe(true, "href"@, value);
    let s = " href=\""@ + value + seq!['"'];
    let b = lemma_fade_attrs(alpha, dec);
    let c = lemma_transform_reads_back(transform, dec);
    let t = layer_opacity_text(alpha, dec);
    let u = transform_text(transform, dec);
    lemma_lists_joined(s, a, t, b);
    lemma_lists_joined(s + t, a + b, u, c);
    let list = a + b + c;
    let name = seq!['<'] + "use"@;
    assert("<use href=\"#"@ + id + seq!['"'] == name + s) by {
        reveal_strlit("<use href=\"#");
        reveal_strlit("use");
        reveal_strlit(" href=\"");
        assert("<use href=\"#"@ =~= name + " href=\""@ + seq!['#']);
        assert(name + " href=\""@ + seq!['#'] + id + seq!['"'] =~= name + (" href=\""@ + (seq!['#']
            + id) + seq!['"']));
    }
    lemma_append(name, s, t);
    lemma_append(name, s + t, u);
    assert(lists(s + t + u, list));
    list
}

/// Drawing an image that can be embedded draws it where the call puts it, after
/// everything drawn before it: one element that uses the image's definition,
/// under the map and as faded as asked. An image that cannot be draws nothing
/// and is reported.
#[verifier::spinoff_prover]
#[verifier::rlimit(40)]
pub proof fn lemma_image_is_drawn_where_it_is_put(
    v: SceneView,
    image: ImageSource,
    transform: Affine,
    alpha: Fixed,
)
    requires
        sound(v),
        image is Embedded ==> completes(
            kind_element(image->Embedded_0@.kind),
            image->Embedded_0@.rest,
        ),
    ensures
        ({
            let after = v.imaged(image, transform, alpha);
            let dec = v.config.decimals;
            match image {
                ImageSource::Embedded(body) => exists|el: Seq<char>, list: Seq<Attr>| #[trigger]
                    is_tag(el, "use"@, list, "/>"@) && uses_definition(
                        list,
                        after.defs,
                        body@.kind,
                        body@.rest,
                    ) && moved_by(list, transform, dec) && faded(list, alpha, dec) && drawn(after)
                        == drawn(v) + el,
                ImageSource::Refused(w) => drawn(after) == drawn(v) && after.warnings.contains(w),
            }
        }),
{
    let after = v.imaged(image, transform, alpha);
    let dec = v.config.decimals;
    lemma_settling_draws_nothing(v);
    lemma_settled_is_sound(v);
    let ready = v.settled();
    match image {
        ImageSource::Embedded(body) => {
            lemma_interned_is_sound(ready, body@.kind, body@.rest);
            lemma_interning_defines(ready.defs, body@.kind, body@.rest, ready.config.prefix);
            let id = interned_id(ready.defs, body@.kind, body@.rest, ready.config.prefix);
            let list = lemma_use_tag(id, transform, alpha, dec);
            let el = use_text(id, transform, alpha, dec);
            assert(is_tag(el, "use"@, list, "/>"@));
            assert(uses_definition(list, after.defs, body@.kind, body@.rest));
            assert(after.held_block_text() =~= seq![]);
            assert(after.held_fill_text() =~= seq![]);
            assert(after.prelude =~= seq![]);
            assert(drawn(after) =~= drawn(v) + el);
        },
        ImageSource::Refused(w) => {
            super::config::lemma_noting_keeps_warnings_unique(ready.warnings, w);
            assert(drawn(after) =~= drawn(v));
        },
    }
}

/// True when `word` is what CSS calls a mix function.
pub open spec fn names_mix(word: Seq<char>, mix: Mix) -> bool {
    match mix {
        Mix::Normal => word == "normal"@,
        Mix::Multiply => word == "multiply"@,
        Mix::Screen => word == "screen"@,
        Mix::Overlay => word == "overlay"@,
        Mix::Darken => word == "darken"@,
        Mix::Lighten => word == "lighten"@,
        Mix::ColorDodge => word == "color-dodge"@,
        Mix::ColorBurn => word == "color-burn"@,
        Mix::HardLight => word == "hard-light"@,
        Mix::SoftLight => word == "soft-light"@,
        Mix::Difference => word == "difference"@,
        Mix::Exclusion => word == "exclusion"@,
        Mix::Hue => word == "hue"@,
        Mix::Saturation => word == "saturation"@,
        Mix::Color => word == "color"@,
        Mix::Luminosity => word == "luminosity"@,
    }
}

/// True when a layer's tag mixes what is in it with what is below it as asked,
/// apart from everything around it.
pub open spec fn mixed_by(list: Seq<Attr>, mix: Mix) -> bool {
    if mix == Mix::Normal {
        says(list, "style"@, "isolation:isolate"@)
    } else {
        exists|word: Seq<char>| #[trigger]
            names_mix(word, mix) && says(
                list,
                "style"@,
                "isolation:isolate;mix-blend-mode:"@ + word,
            )
    }
}

/// True when `rest` is a clip in the units of the drawing, to this path.
pub open spec fn clips_to(rest: Seq<char>, path: Seq<PathEl>, dec: nat) -> bool {
    exists|d: Seq<char>| #[trigger]
        path_reads(d, path, dec) && rest == " clipPathUnits=\"userSpaceOnUse\"><path d=\""@ + d
            + "\"/></clipPath>"@
}

/// True when a layer's tag is clipped to a path that `defs` hold, under a map
/// of its own; a path without steps is no clip.
pub open spec fn clipped_to(
    list: Seq<Attr>,
    defs: Seq<DefView>,
    t: Affine,
    clip: Seq<PathEl>,
    dec: nat,
) -> bool {
    if clip.len() == 0 {
        silent(list, "clip-path"@)
    } else {
        exists|i: int|
            0 <= i < defs.len() && (#[trigger] defs[i]).kind == DefKind::Clip && clips_to(
                defs[i].rest,
                if super::reading::stays(t) {
                    clip
                } else {
                    carried(t, clip)
                },
                dec,
            ) && says(list, "clip-path"@, "url(#"@ + defs[i].id + ")"@)
    }
}

/// A path with each of its points carried through a map.
pub open spec fn carried(t: Affine, path: Seq<PathEl>) -> Seq<PathEl> {
    path.map_values(
        |el: PathEl|
            match el {
                PathEl::MoveTo(p) => PathEl::MoveTo(t.spec_apply(p)),
                PathEl::LineTo(p) => PathEl::LineTo(t.spec_apply(p)),
                PathEl::QuadTo(a, p) => PathEl::QuadTo(t.spec_apply(a), t.spec_apply(p)),
                PathEl::CurveTo(a, b, p) => PathEl::CurveTo(
                    t.spec_apply(a),
                    t.spec_apply(b),
                    t.spec_apply(p),
                ),
                PathEl::ClosePath => PathEl::ClosePath,
            },
    )
}

/// A layer's start tag as a tag.
#[verifier::spinoff_prover]
#[verifier::rlimit(40)]
proof fn lemma_layer_tag(
    clip: Option<Seq<char>>,
    alpha: Fixed,
    mix: Mix,
    dec: nat,
) -> (list: Seq<Attr>)
    requires
        clip is Some ==> quoteless(clip->0),
    ensures
        is_tag(layer_text(clip, alpha, mix, dec), "g"@, list, seq!['>']),
        faded(list, alpha, dec),
        mixed_by(list, mix),
        match clip {
            Some(id) => says(list, "clip-path"@, "url(#"@ + id + ")"@),
            None => silent(list, "clip-path"@),
        },
{
    lemma_names();
    assert(" clip-path=\""@ == seq![' '] + "clip-path"@ + "=\""@ && tidy_name("clip-path"@)
        && " style=\""@ == seq![' '] + "style"@ + "=\""@ && tidy_name("style"@)) by {
        lemma_openings();
    }
    let id = match clip {
        Some(id) => id,
        None => seq![],
    };
    let value = "url(#"@ + id + ")"@;
    assert(quoteless(value)) by {
        reveal_strlit("url(#");
        reveal_strlit(")");
        lemma_quoteless_joined("url(#"@, id);
        lemma_quoteless_joined("url(#"@ + id, ")"@);
    }
    lemma_lists_maybe(clip is Some, " clip-path=\""@, "clip-path"@, value);
    let a = maybe(clip is Some, "clip-path"@, value);
    let s = clip_attr_text(clip);
    assert(clip is Some ==> s == " clip-path=\""@ + value + seq!['"']) by {
        reveal_strlit(" clip-path=\"url(#");
        reveal_strlit(" clip-path=\"");
        reveal_strlit("url(#");
        reveal_strlit(")\"");
        reveal_strlit(")");
        assert(" clip-path=\"url(#"@ =~= " clip-path=\""@ + "url(#"@);
        assert(")\""@ =~= ")"@ + seq!['"']);
        assert(" clip-path=\""@ + "url(#"@ + id + (")"@ + seq!['"']) =~= " clip-path=\""@ + (
        "url(#"@ + id + ")"@) + seq!['"']);
    }
    let b = lemma_fade_attrs(alpha, dec);
    let t = layer_opacity_text(alpha, dec);
    let css = if mix == Mix::Normal {
        "isolation:isolate"@
    } else {
        "isolation:isolate;mix-blend-mode:"@ + mix_text(mix)
    };
    assert(quoteless(css)) by {
        reveal_strlit("isolation:isolate");
        reveal_strlit("isolation:isolate;mix-blend-mode:");
        super::laws::lemma_mix_is_quiet(mix);
        lemma_quoteless_joined("isolation:isolate;mix-blend-mode:"@, mix_text(mix));
    }
    lemma_lists_maybe(true, " style=\""@, "style"@, css);
    let c = maybe(true, "style"@, css);
    let u = layer_style_text(mix);
    assert(u == " style=\""@ + css + seq!['"']) by {
        reveal_strlit(" style=\"isolation:isolate;mix-blend-mode:");
        reveal_strlit(" style=\"isolation:isolate\"");
        reveal_strlit(" style=\"");
        reveal_strlit("isolation:isolate");
        reveal_strlit("isolation:isolate;mix-blend-mode:");
        assert(" style=\"isolation:isolate\""@ =~= " style=\""@ + "isolation:isolate"@ + seq!['"']);
        assert(" style=\"isolation:isolate;mix-blend-mode:"@ =~= " style=\""@
            + "isolation:isolate;mix-blend-mode:"@);
        lemma_append(" style=\""@, "isolation:isolate;mix-blend-mode:"@, mix_text(mix));
    }
    lemma_lists_joined(s, a, t, b);
    lemma_lists_joined(s + t, a + b, u, c);
    let list = a + b + c;
    assert("<g"@ == seq!['<'] + "g"@) by {
        reveal_strlit("<g");
        reveal_strlit("g");
        assert("<g"@ =~= seq!['<'] + "g"@);
    }
    lemma_append("<g"@, s, t);
    lemma_append("<g"@, s + t, u);
    assert(lists(s + t + u, list));
    assert(said(list, "style"@) == seq![css]);
    assert(names_mix(mix_text(mix), mix));
    list
}

/// Opening a layer comes after everything drawn before it, what was still held
/// back too, and leaves nothing held back: its tag is the last thing drawn,
/// clipped to the path under the map, faded and mixed as asked.
#[verifier::spinoff_prover]
#[verifier::rlimit(60)]
pub proof fn lemma_layer_opens_after_what_was_drawn(
    v: SceneView,
    blend: BlendMode,
    alpha: Fixed,
    transform: Affine,
    clip: Seq<PathEl>,
)
    requires
        sound(v),
    ensures
        ({
            let after = v.layer_pushed(blend, alpha, transform, clip);
            let dec = v.config.decimals;
            &&& after.pending is None && after.block.runs.len() == 0 && after.prelude.len() == 0
            &&& after.groups == v.groups.push(GroupKind::Layer)
            &&& exists|tag: Seq<char>, list: Seq<Attr>| #[trigger]
                is_tag(tag, "g"@, list, seq!['>']) && clipped_to(
                    list,
                    after.defs,
                    transform,
                    clip,
                    dec,
                ) && faded(list, alpha, dec) && mixed_by(list, blend.mix) && drawn(after)
                    == drawn(v)
                    + tag
        }),
{
    let after = v.layer_pushed(blend, alpha, transform, clip);
    let dec = v.config.decimals;
    lemma_settling_draws_nothing(v);
    lemma_settled_is_sound(v);
    let ready = v.settled();
    let path = baked(transform, clip);
    let rest = clip_rest(path, dec);
    assert(path == if super::reading::stays(transform) {
        clip
    } else {
        carried(transform, clip)
    }) by {
        if !super::reading::stays(transform) {
            assert(path =~= carried(transform, clip));
        }
    }
    let id: Option<Seq<char>> = if clip.len() == 0 {
        None
    } else {
        Some(interned_id(ready.defs, DefKind::Clip, rest, ready.config.prefix))
    };
    super::laws::lemma_clip_completes(path, dec);
    lemma_interned_is_sound(ready, DefKind::Clip, rest);
    lemma_interning_defines(ready.defs, DefKind::Clip, rest, ready.config.prefix);
    lemma_path_reads_back(path, dec);
    assert(clips_to(rest, path, dec));
    let list = lemma_layer_tag(id, alpha, blend.mix, dec);
    let tag = layer_text(id, alpha, blend.mix, dec);
    assert(clipped_to(list, after.defs, transform, clip, dec));
    assert(after.held_block_text() =~= seq![]);
    assert(after.held_fill_text() =~= seq![]);
    assert(drawn(after) =~= drawn(v) + tag);
    assert(is_tag(tag, "g"@, list, seq!['>']));
}

/// Closing a layer ends its group after everything drawn in it, what was still
/// held back too; with no layer innermost nothing is closed.
pub proof fn lemma_layer_closes_after_what_was_drawn(v: SceneView)
    ensures
        ({
            let after = v.layer_popped();
            &&& after.pending is None && after.block.runs.len() == 0 && after.prelude.len() == 0
            &&& if v.groups.len() > 0 && v.groups[v.groups.len() - 1] == GroupKind::Layer {
                drawn(after) == drawn(v) + "</g>"@ && after.groups == v.groups.take(
                    v.groups.len() - 1,
                )
            } else {
                drawn(after) == drawn(v) && after.groups == v.groups
            }
        }),
{
    let after = v.layer_popped();
    lemma_settling_draws_nothing(v);
    assert(after.held_block_text() =~= seq![]);
    assert(after.held_fill_text() =~= seq![]);
    lemma_append_nothing(after.body);
    assert(drawn(after) =~= after.body);
    if v.groups.len() > 0 {
        assert(v.groups.drop_last() =~= v.groups.take(v.groups.len() - 1));
    }
}

/// What is drawn between opening a layer and closing it is exactly what stands
/// between its tags, and everything drawn before it stands before them.
pub proof fn lemma_layer_holds_what_was_drawn_in_it(
    v: SceneView,
    blend: BlendMode,
    alpha: Fixed,
    transform: Affine,
    clip: Seq<PathEl>,
    inside: SceneView,
    content: Seq<char>,
)
    requires
        sound(v),
        inside.groups == v.groups.push(GroupKind::Layer),
        drawn(inside) == drawn(v.layer_pushed(blend, alpha, transform, clip)) + content,
    ensures
        exists|tag: Seq<char>, list: Seq<Attr>| #[trigger]
            is_tag(tag, "g"@, list, seq!['>']) && drawn(inside.layer_popped()) == drawn(v) + tag
                + content + "</g>"@,
        inside.layer_popped().groups == v.groups,
{
    lemma_layer_opens_after_what_was_drawn(v, blend, alpha, transform, clip);
    lemma_layer_closes_after_what_was_drawn(inside);
    assert(inside.groups.take(inside.groups.len() - 1) =~= v.groups);
}

/// Opening a pick scope, with picking on, comes after everything drawn before
/// it and leaves nothing held back: its tag says what it is, what it is called
/// and which one it is, as far as it has a name or an index, and what is drawn
/// in it is picked by its mode. With picking off nothing happens.
#[verifier::spinoff_prover]
#[verifier::rlimit(40)]
pub proof fn lemma_scope_opens_after_what_was_drawn(v: SceneView, scope: PickScope)
    ensures
        ({
            let after = v.scope_pushed(scope);
            if v.config.pick_ids {
                &&& after.pending is None && after.block.runs.len() == 0 && after.prelude.len() == 0
                &&& after.groups == v.groups.push(GroupKind::Scope)
                &&& in_target(after) == (scope.mode == ScopeMode::Target)
                &&& after.scope_modes == v.scope_modes.push(scope.mode)
                &&& exists|tag: Seq<char>, list: Seq<Attr>| #[trigger]
                    is_tag(tag, "g"@, list, seq!['>']) && says_text(
                        list,
                        "data-pick-kind"@,
                        Some(scope.kind@),
                    ) && says_text(
                        list,
                        "data-pick-name"@,
                        match scope.name {
                            Some(n) => Some(n@),
                            None => None,
                        },
                    ) && says_count(list, "data-pick-index"@, scope.index) && drawn(after) == drawn(
                        v,
                    ) + tag
            } else {
                after == v
            }
        }),
{
    let after = v.scope_pushed(scope);
    if v.config.pick_ids {
        lemma_settling_draws_nothing(v);
        let list = lemma_scope_tag(scope);
        let tag = scope_text(scope);
        assert(after.held_block_text() =~= seq![]);
        assert(after.held_fill_text() =~= seq![]);
        assert(drawn(after) =~= drawn(v) + tag);
        assert(is_tag(tag, "g"@, list, seq!['>']));
    }
}

/// True when exactly this text is given under a name, escaped; nothing for
/// none.
pub open spec fn says_text(list: Seq<Attr>, name: Seq<char>, text: Option<Seq<char>>) -> bool {
    match text {
        Some(t) => said(list, name).len() == 1 && unescaped(said(list, name)[0]) == t,
        None => silent(list, name),
    }
}

/// True when exactly this count is given under a name; nothing for none.
pub open spec fn says_count(list: Seq<Attr>, name: Seq<char>, n: Option<u64>) -> bool {
    match n {
        Some(n) => said(list, name).len() == 1 && counts(said(list, name)[0], n as int),
        None => silent(list, name),
    }
}

/// A text as attributes, escaped, when there is one.
pub proof fn lemma_text_attrs(
    opening: Seq<char>,
    name: Seq<char>,
    text: Option<Seq<char>>,
) -> (list: Seq<Attr>)
    requires
        tidy_name(name),
        opening == seq![' '] + name + "=\""@,
    ensures
        lists(
            match text {
                Some(t) => opening + attr_text(t) + seq!['"'],
                None => seq![],
            },
            list,
        ),
        says_text(list, name, text),
        forall|n: Seq<char>| n != name ==> #[trigger] silent(list, n),
{
    let t = match text {
        Some(t) => t,
        None => seq![],
    };
    super::pieces::lemma_attr_text_is_bracketless(t);
    lemma_attr_text_reads_back(t);
    lemma_lists_maybe(text is Some, opening, name, attr_text(t));
    maybe(text is Some, name, attr_text(t))
}

#[verifier::spinoff_prover]
#[verifier::rlimit(40)]
proof fn lemma_scope_tag(scope: PickScope) -> (list: Seq<Attr>)
    ensures
        is_tag(scope_text(scope), "g"@, list, seq!['>']),
        says_text(list, "data-pick-kind"@, Some(scope.kind@)),
        says_text(
            list,
            "data-pick-name"@,
            match scope.name {
                Some(n) => Some(n@),
                None => None,
            },
        ),
        says_count(list, "data-pick-index"@, scope.index),
{
    lemma_names();
    assert(" data-pick-kind=\""@ == seq![' '] + "data-pick-kind"@ + "=\""@ && tidy_name(
        "data-pick-kind"@,
    ) && " data-pick-name=\""@ == seq![' '] + "data-pick-name"@ + "=\""@ && tidy_name(
        "data-pick-name"@,
    ) && " data-pick-index=\""@ == seq![' '] + "data-pick-index"@ + "=\""@ && tidy_name(
        "data-pick-index"@,
    )) by {
        lemma_openings();
    }
    let name: Option<Seq<char>> = match scope.name {
        Some(n) => Some(n@),
        None => None,
    };
    let a = lemma_text_attrs(" data-pick-kind=\""@, "data-pick-kind"@, Some(scope.kind@));
    let b = lemma_text_attrs(" data-pick-name=\""@, "data-pick-name"@, name);
    let index = match scope.index {
        Some(i) => i,
        None => 0,
    };
    super::markup::lemma_decimal_is_quiet(index as nat);
    lemma_count_reads_back(index as nat);
    let digits = decimal_text(index as nat);
    lemma_lists_maybe(scope.index is Some, " data-pick-index=\""@, "data-pick-index"@, digits);
    let c = maybe(scope.index is Some, "data-pick-index"@, digits);
    let s = " data-pick-kind=\""@ + attr_text(scope.kind@) + seq!['"'];
    let t = scope_name_text(scope.name);
    let u = scope_index_text(scope.index);
    lemma_lists_joined(s, a, t, b);
    lemma_lists_joined(s + t, a + b, u, c);
    let list = a + b + c;
    let g = seq!['<'] + "g"@;
    assert("<g data-pick-kind=\""@ == g + " data-pick-kind=\""@) by {
        reveal_strlit("<g data-pick-kind=\"");
        reveal_strlit("g");
        reveal_strlit(" data-pick-kind=\"");
        assert("<g data-pick-kind=\""@ =~= g + " data-pick-kind=\""@);
    }
    lemma_append(g, " data-pick-kind=\""@, attr_text(scope.kind@));
    lemma_append(g, " data-pick-kind=\""@ + attr_text(scope.kind@), seq!['"']);
    lemma_append(g, s, t);
    lemma_append(g, s + t, u);
    assert(lists(s + t + u, list));
    list
}

/// Closing a pick scope ends its group after everything drawn in it, and what
/// is drawn next is picked as it was before; with no scope innermost nothing
/// is closed.
pub proof fn lemma_scope_closes_after_what_was_drawn(v: SceneView)
    requires
        v.config.pick_ids,
    ensures
        ({
            let after = v.scope_popped();
            &&& after.pending is None && after.block.runs.len() == 0 && after.prelude.len() == 0
            &&& if v.groups.len() > 0 && v.groups[v.groups.len() - 1] == GroupKind::Scope {
                &&& drawn(after) == drawn(v) + "</g>"@
                &&& after.groups == v.groups.take(v.groups.len() - 1)
                &&& v.scope_modes.len() > 0 ==> after.scope_modes == v.scope_modes.take(
                    v.scope_modes.len() - 1,
                )
            } else {
                drawn(after) == drawn(v) && after.groups == v.groups && after.scope_modes
                    == v.scope_modes
            }
        }),
{
    let after = v.scope_popped();
    lemma_settling_draws_nothing(v);
    assert(after.held_block_text() =~= seq![]);
    assert(after.held_fill_text() =~= seq![]);
    lemma_append_nothing(after.body);
    assert(drawn(after) =~= after.body);
    if v.groups.len() > 0 {
        assert(v.groups.drop_last() =~= v.groups.take(v.groups.len() - 1));
    }
    if v.scope_modes.len() > 0 {
        assert(v.scope_modes.drop_last() =~= v.scope_modes.take(v.scope_modes.len() - 1));
    }
}

/// Two draws of one image under maps that differ at the precision they are
/// written to draw different things.
pub proof fn lemma_images_are_drawn_apart(
    v: SceneView,
    image: ImageSource,
    t: Affine,
    u: Affine,
    alpha: Fixed,
)
    requires
        image is Embedded,
        drawn(v.imaged(image, t, alpha)) == drawn(v.imaged(image, u, alpha)),
    ensures
        ({
            let dec = v.config.decimals;
            let lin = at_least(dec, 6);
            t == u || alike(t.xx, u.xx, lin) && alike(t.yx, u.yx, lin) && alike(t.xy, u.xy, lin)
                && alike(t.yy, u.yy, lin) && alike(t.dx, u.dx, dec) && alike(t.dy, u.dy, dec)
        }),
{
    let dec = v.config.decimals;
    let ready = v.settled();
    let body = image->Embedded_0;
    let id = interned_id(ready.defs, body@.kind, body@.rest, ready.config.prefix);
    let head = "<use href=\"#"@ + id + seq!['"'] + layer_opacity_text(alpha, dec);
    let a = v.imaged(image, t, alpha);
    let b = v.imaged(image, u, alpha);
    lemma_settling_draws_nothing(v);
    let front = drawn(v);
    lemma_image_parts(v, image, t, alpha, front, head);
    lemma_image_parts(v, image, u, alpha, front, head);
    lemma_same_middle(front, head, transform_text(t, dec), transform_text(u, dec), "/>"@);
    lemma_maps_are_told_apart(t, u, dec);
}

proof fn lemma_image_parts(
    v: SceneView,
    image: ImageSource,
    t: Affine,
    alpha: Fixed,
    front: Seq<char>,
    head: Seq<char>,
)
    requires
        image is Embedded,
        front == v.settled().body,
        v.settled().pending is None,
        v.settled().prelude.len() == 0,
        v.settled().block.runs.len() == 0,
        head == "<use href=\"#"@ + interned_id(
            v.settled().defs,
            image->Embedded_0@.kind,
            image->Embedded_0@.rest,
            v.settled().config.prefix,
        ) + seq!['"'] + layer_opacity_text(alpha, v.config.decimals),
    ensures
        drawn(v.imaged(image, t, alpha)) == front + (head + transform_text(t, v.config.decimals)
            + "/>"@),
{
    let after = v.imaged(image, t, alpha);
    assert(after.prelude =~= seq![]);
    assert(after.held_block_text() =~= seq![]);
    assert(after.held_fill_text() =~= seq![]);
    assert(drawn(after) =~= after.body);
}

proof fn lemma_same_middle(
    front: Seq<char>,
    head: Seq<char>,
    x: Seq<char>,
    y: Seq<char>,
    tail: Seq<char>,
)
    requires
        front + (head + x + tail) == front + (head + y + tail),
    ensures
        x == y,
{
    let s = front + (head + x + tail);
    let t = front + (head + y + tail);
    let n = (front.len() + head.len()) as int;
    assert(s.len() == t.len());
    assert(x =~= s.subrange(n, n + x.len()));
    assert(y =~= t.subrange(n, n + x.len()));
}

/// A mesh is drawn after everything drawn before it, face by face: each is an
/// element of its own, behind those before it, whose data reads back as the
/// face, under the map of the mesh and with the brush of the face.
#[verifier::spinoff_prover]
#[verifier::rlimit(40)]
pub proof fn lemma_mesh_is_drawn_face_by_face(
    v: SceneView,
    fills: Seq<MeshFill>,
    k: nat,
    transform: Affine,
    pick: PickId,
)
    requires
        sound(v),
        k < fills.len(),
        fills[k as int].path@.len() > 0,
        forall|i: int| 0 <= i < fills.len() ==> brush_is_sound((#[trigger] fills[i]).brush),
    ensures
        drawn(v.meshed(fills, 0, transform, pick)) == drawn(v),
        ({
            let before = v.meshed(fills, k, transform, pick);
            let after = v.meshed(fills, k + 1, transform, pick);
            let face = fills[k as int];
            exists|el: Seq<char>, list: Seq<Attr>| #[trigger]
                draws_path(el, list, face.path@, transform, v.config.decimals) && filled_with(
                    list,
                    face.brush,
                    after.defs,
                    v.config.decimals,
                ) && follows_rule(list, FillRule::NonZero) && unlined(list) && picked_as(
                    list,
                    pick,
                    v.config.pick_ids,
                    in_target(v),
                ) && drawn(after) == drawn(before) + el
        }),
{
    lemma_settling_draws_nothing(v);
    lemma_mesh_keeps_sound(v, fills, k, transform, pick);
    lemma_mesh_is_outside_text(v, fills, k, transform, pick);
    lemma_fill_draws_its_path(
        v.meshed(fills, k, transform, pick),
        FillRule::NonZero,
        transform,
        fills[k as int].brush,
        fills[k as int].path@,
        pick,
    );
}

proof fn lemma_mesh_is_outside_text(
    v: SceneView,
    fills: Seq<MeshFill>,
    n: nat,
    transform: Affine,
    pick: PickId,
)
    requires
        n <= fills.len(),
    ensures
        v.meshed(fills, n, transform, pick).block.runs.len() == 0,
        v.meshed(fills, n, transform, pick).config == v.config,
        v.meshed(fills, n, transform, pick).scope_modes == v.scope_modes,
    decreases n,
{
    reveal(SceneView::filled);
    if n > 0 {
        lemma_mesh_is_outside_text(v, fills, (n - 1) as nat, transform, pick);
    }
}

} // verus!
