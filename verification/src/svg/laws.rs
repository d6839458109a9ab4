//! What holds of every scene, whatever is drawn into it.

use vstd::prelude::*;

use super::attrs::{
    fill_text, opacity_text, pick_text, stroke_text, stroke_warnings, PickId, PickScope, Stroke,
};
use super::config::{
    lemma_noting_keeps_warnings_unique, noted, ConfigView, SvgUnits, SvgWarning, TextMode,
};
use super::fragment::{harmless, lemma_around, rule_ready, DefBody};
use super::markup::{
    attributes, balanced, balanced_at, bracketless, completes, element_name, lemma_attribute,
    lemma_attributes_joined, lemma_balanced_at_joined, lemma_balanced_in_more,
    lemma_balanced_joined, lemma_bracketless_joined, lemma_content_is_balanced,
    lemma_decimal_is_quiet, lemma_element_at, lemma_element_is_balanced,
    lemma_empty_element_is_balanced, lemma_end_tag_is_grounded, lemma_listed_attribute,
    lemma_no_attributes, lemma_number_is_quiet, lemma_one_attribute, lemma_quiet_joined,
    lemma_scan_balanced, lemma_scan_content, lemma_scan_end_tag, lemma_scan_joined,
    lemma_scan_start_tag, lemma_start_tag_is_grounded, lemma_text_attribute, listed, outside, quiet,
    scan, well_formed,
};
use super::model::{
    background_text, baked, clip_attr_text, clip_rest, closing_text, contour_text, fresh_scene,
    layer_opacity_text, layer_style_text, layer_text, mix_text, outline_text, pending_text,
    root_family_text, root_font_size_text, root_length_text, root_size_text, root_style_text,
    rule_text, run_view, scope_index_text, scope_name_text, scope_text, stroked_text, use_text,
    BlendMode, GroupKind, ImageSource, MeshFill, Mix, SceneView,
};
use super::paint::{
    def_list_text, def_text, defs_in_order, defs_text, faces_noted, fresh_id, id_places, interned,
    interned_id, kind_element, kind_tag, lemma_ids_are_unique, lemma_ids_carry_the_prefix,
    lemma_interning_defines, named_of, rules_text, style_text, stylesheet_text, Brush, DefKind,
    DefView, PaintSource, PaintView,
};
use super::pieces::{
    lemma_attr_text_is_bracketless, lemma_block_is_balanced, lemma_fill_is_attributes,
    lemma_opacity_is_attributes, lemma_path_element_is_balanced, lemma_path_is_quiet,
    lemma_pick_is_attributes, lemma_stroke_is_attributes, lemma_tag_takes,
    lemma_transform_is_attributes, paint_points, run_is_sound, runs_are_sound,
};
use super::refs::{
    at, closes, first_close, gives, grounded, grounded_at, holds, id_at, in_tag, is_use,
    lemma_at_in_part, lemma_calm_joined, lemma_declaration_is_grounded, lemma_first_close,
    lemma_grounded_at_joined, lemma_grounded_in_more, lemma_grounded_joined, lemma_named_among_more,
    lemma_pattern, quoteless, read_as, reference_at, shifted, value_points,
};
use super::text::{
    block_text, block_with, claims, first_same_spot, rule_listed, same_rule, GlyphRun, RunView,
};
use super::writer::{attr_text, path_text, transform_text};
use crate::color::{lemma_solid_is_plain, solid_paint, Color};
use crate::fixed::{num_text, Fixed};
use crate::geometry::{
    identity, lemma_rect_outline_is_recognized, rect_of, rect_path, Affine, FillRule, PathEl, Size,
};
use crate::text::{decimal_text, lemma_append, lemma_decimal_text_is_digits};

verus! {

/// True when an id can stand in an attribute.
pub open spec fn id_safe(id: Seq<char>) -> bool {
    forall|i: int|
        0 <= i < id.len() ==> #[trigger] id[i] != '<' && id[i] != '>' && id[i] != '"'
}

/// True when an id with this prefix can be read out of a reference, which a
/// closing parenthesis ends.
pub open spec fn readable(prefix: Seq<char>) -> bool {
    forall|i: int| 0 <= i < prefix.len() ==> #[trigger] prefix[i] != ')'
}

/// True when a brush can be expressed as markup.
pub open spec fn brush_is_sound(b: Brush) -> bool {
    match b.source {
        PaintSource::Flat(_) => true,
        PaintSource::Server(body) => completes(kind_element(body@.kind), body@.rest),
    }
}

/// True when a definition can stand in a document.
pub open spec fn def_is_sound(d: DefView) -> bool {
    id_safe(d.id) && completes(kind_element(d.kind), d.rest)
}

/// True when the options can stand in a document.
pub open spec fn config_is_sound(c: ConfigView) -> bool {
    id_safe(c.prefix)
}

/// True when a run's brush and face can stand in a document.
pub open spec fn glyphs_are_sound(run: GlyphRun) -> bool {
    &&& brush_is_sound(run.brush)
    &&& run.face.rule is Some ==> rule_ready(run.face.rule->0@)
}

/// The elements open in a document with `n` groups.
pub open spec fn group_stack(n: nat) -> Seq<Seq<char>> {
    seq!["svg"@] + Seq::new(n, |i: int| "g"@)
}

/// How many of the open groups are pick scopes.
pub open spec fn scope_count(groups: Seq<GroupKind>) -> nat
    decreases groups.len(),
{
    if groups.len() == 0 {
        0
    } else {
        scope_count(groups.drop_last()) + if groups.last() == GroupKind::Scope {
            1nat
        } else {
            0nat
        }
    }
}

/// What holds of every scene: its body leaves exactly its groups open, what
/// it holds back is complete in itself, neither refers to anything but its
/// definitions, which are in order, it warns of nothing twice, and it knows
/// the mode of every open pick scope.
pub open spec fn sound(v: SceneView) -> bool {
    &&& config_is_sound(v.config)
    &&& scan(v.body, outside(seq!["svg"@])) == outside(group_stack(v.groups.len()))
    &&& grounded(v.body, v.named())
    &&& balanced(v.prelude, v.named())
    &&& v.pending is Some ==> paint_points(v.pending->0.paint, v.named())
    &&& runs_are_sound(v.block.runs, v.named())
    &&& forall|i: int| 0 <= i < v.defs.len() ==> def_is_sound(#[trigger] v.defs[i])
    &&& defs_in_order(v.defs, v.config.prefix)
    &&& forall|i: int| 0 <= i < v.fonts.len() ==> rule_ready(#[trigger] v.fonts[i])
    &&& v.warnings.no_duplicates()
    &&& v.scope_modes.len() == scope_count(v.groups)
}

/// A fresh scene is sound.
pub proof fn lemma_fresh_scene_is_sound(size: Size, dpi: Fixed, config: ConfigView)
    requires
        config_is_sound(config),
    ensures
        sound(fresh_scene(size, dpi, config)),
{
    lemma_scan_content(seq![], seq!["svg"@]);
    assert(group_stack(0) =~= seq!["svg"@]);
    lemma_content_is_balanced(seq![], fresh_scene(size, dpi, config).named());
}

proof fn lemma_body_takes(body: Seq<char>, piece: Seq<char>, n: nat, ids: Seq<Seq<char>>)
    requires
        scan(body, outside(seq!["svg"@])) == outside(group_stack(n)),
        grounded(body, ids),
        balanced(piece, ids),
    ensures
        scan(body + piece, outside(seq!["svg"@])) == outside(group_stack(n)),
        grounded(body + piece, ids),
{
    let svg = outside(seq!["svg"@]);
    lemma_scan_balanced(body, piece, svg, group_stack(n), ids, seq![]);
}

proof fn lemma_flushed_block_is_sound(v: SceneView)
    requires
        sound(v),
    ensures
        sound(v.flushed_block()),
        !v.flushed_block().block_open(),
        v.flushed_block().prelude == Seq::<char>::empty(),
{
    let ids = v.named();
    let text = block_text(
        v.block.runs,
        v.config.decimals,
        v.config.pick_ids,
        v.targets(),
        v.root,
    );
    lemma_block_is_balanced(
        v.block.runs,
        v.config.decimals,
        v.config.pick_ids,
        v.targets(),
        v.root,
        ids,
    );
    lemma_body_takes(v.body, v.prelude, v.groups.len(), ids);
    lemma_body_takes(v.body + v.prelude, text, v.groups.len(), ids);
    lemma_content_is_balanced(seq![], ids);
}

proof fn lemma_element_keeps_sound(v: SceneView, el: Seq<char>)
    requires
        sound(v),
        balanced(el, v.named()),
    ensures
        sound(v.with_element(el)),
{
    let ids = v.named();
    lemma_body_takes(v.body, el, v.groups.len(), ids);
    lemma_balanced_joined(v.prelude, el, ids);
}

proof fn lemma_flushed_pending_is_sound(v: SceneView)
    requires
        sound(v),
    ensures
        sound(v.flushed_pending()),
{
    if let Some(p) = v.pending {
        let dec = v.config.decimals;
        let on = v.config.pick_ids;
        let text = pending_text(p, dec, on, v.targets());
        lemma_pending_is_balanced(p, dec, on, v.targets(), v.named());
        lemma_element_keeps_sound(SceneView { pending: None, ..v }, text);
    }
}

proof fn lemma_pending_is_balanced(
    p: super::model::PendingView,
    dec: nat,
    on: bool,
    targeted: bool,
    ids: Seq<Seq<char>>,
)
    requires
        paint_points(p.paint, ids),
    ensures
        balanced(pending_text(p, dec, on, targeted), ids),
{
    let d = path_text(p.path, dec);
    if d.len() == 0 {
        lemma_content_is_balanced(seq![], ids);
    } else {
        let a = fill_text(p.paint, p.rule, dec);
        let b = transform_text(p.transform, dec);
        let c = pick_text(p.pick, on, targeted);
        let head = "<path d=\""@ + d + seq!['"'];
        lemma_path_is_quiet(p.path, dec);
        lemma_fill_is_attributes(p.paint, p.rule, dec, ids);
        lemma_transform_is_attributes(p.transform, dec, ids);
        lemma_pick_is_attributes(p.pick, on, targeted, ids);
        lemma_attributes_joined(a, b, ids);
        lemma_attributes_joined(a + b, c, ids);
        lemma_append(head, a, b);
        lemma_append(head, a + b, c);
        lemma_path_element_is_balanced(d, a + b + c, ids);
    }
}

/// Writing out what was held back keeps a scene sound.
pub proof fn lemma_settled_is_sound(v: SceneView)
    requires
        sound(v),
    ensures
        sound(v.settled()),
        !v.settled().block_open(),
{
    lemma_flushed_block_is_sound(v);
    lemma_flushed_pending_is_sound(v.flushed_block());
}

proof fn lemma_fresh_id_is_safe(defs: Seq<DefView>, kind: DefKind, prefix: Seq<char>)
    requires
        id_safe(prefix),
    ensures
        id_safe(fresh_id(defs, kind, prefix)),
{
    reveal_strlit("c");
    reveal_strlit("lg");
    reveal_strlit("rg");
    reveal_strlit("im");
    let tag = kind_tag(kind);
    let digits = decimal_text(super::paint::kind_count(defs, kind));
    lemma_decimal_text_is_digits(super::paint::kind_count(defs, kind));
    let id = fresh_id(defs, kind, prefix);
    assert(id == prefix + tag + digits);
    assert forall|i: int| 0 <= i < id.len() implies #[trigger] id[i] != '<' && id[i] != '>' && id[i]
        != '"' by {
        if i < prefix.len() {
            assert(id[i] == prefix[i]);
        } else if i < prefix.len() + tag.len() {
            assert(id[i] == tag[i - prefix.len()]);
        } else {
            assert(id[i] == digits[i - prefix.len() - tag.len()]);
        }
    }
}

proof fn lemma_interned_defs_are_sound(
    defs: Seq<DefView>,
    kind: DefKind,
    rest: Seq<char>,
    prefix: Seq<char>,
)
    requires
        id_safe(prefix),
        completes(kind_element(kind), rest),
        defs_in_order(defs, prefix),
        forall|i: int| 0 <= i < defs.len() ==> def_is_sound(#[trigger] defs[i]),
    ensures
        id_safe(interned_id(defs, kind, rest, prefix)),
        named_of(interned(defs, kind, rest, prefix)).contains(
            interned_id(defs, kind, rest, prefix),
        ),
        named_of(interned(defs, kind, rest, prefix)).contains(
            read_as(interned_id(defs, kind, rest, prefix)),
        ),
        forall|x: Seq<char>|
            named_of(defs).contains(x) ==> #[trigger] named_of(
                interned(defs, kind, rest, prefix),
            ).contains(x),
        defs_in_order(interned(defs, kind, rest, prefix), prefix),
        forall|i: int|
            0 <= i < interned(defs, kind, rest, prefix).len() ==> def_is_sound(
                #[trigger] interned(defs, kind, rest, prefix)[i],
            ),
{
    let after = interned(defs, kind, rest, prefix);
    lemma_interning_defines(defs, kind, rest, prefix);
    lemma_fresh_id_is_safe(defs, kind, prefix);
    assert forall|i: int| 0 <= i < after.len() implies def_is_sound(#[trigger] after[i]) by {
        if i < defs.len() {
            assert(after[i] == defs[i]);
        }
    }
    let i = choose|i: int|
        0 <= i < after.len() && (#[trigger] after[i]) == (DefView {
            kind,
            rest,
            id: interned_id(defs, kind, rest, prefix),
        });
    assert(def_is_sound(after[i]));
    let names = named_of(after);
    assert(names[i] == interned_id(defs, kind, rest, prefix));
    assert(names[after.len() + i] == read_as(interned_id(defs, kind, rest, prefix)));
    let before = named_of(defs);
    assert forall|x: Seq<char>| before.contains(x) implies #[trigger] names.contains(x) by {
        let k = choose|k: int| 0 <= k < before.len() && before[k] == x;
        if k < defs.len() {
            assert(after[k] == defs[k]);
            assert(names[k] == x);
        } else {
            let m = k - defs.len();
            assert(after[m] == defs[m]);
            assert(names[after.len() + m] == x);
        }
    }
}

proof fn lemma_points_in_more(p: PaintView, ids: Seq<Seq<char>>, more: Seq<Seq<char>>)
    requires
        paint_points(p, ids),
        forall|x: Seq<char>| ids.contains(x) ==> #[trigger] more.contains(x),
    ensures
        paint_points(p, more),
{
    if at(p.value, 0, "url(#"@) {
        lemma_named_among_more(p.value, 5, ids, more);
    }
}

/// Defining something keeps a scene sound.
pub proof fn lemma_interned_is_sound(v: SceneView, kind: DefKind, rest: Seq<char>)
    requires
        sound(v),
        completes(kind_element(kind), rest),
    ensures
        id_safe(interned_id(v.defs, kind, rest, v.config.prefix)),
        (SceneView { defs: interned(v.defs, kind, rest, v.config.prefix), ..v }).named().contains(
            interned_id(v.defs, kind, rest, v.config.prefix),
        ),
        (SceneView { defs: interned(v.defs, kind, rest, v.config.prefix), ..v }).named().contains(
            read_as(interned_id(v.defs, kind, rest, v.config.prefix)),
        ),
        sound(SceneView { defs: interned(v.defs, kind, rest, v.config.prefix), ..v }),
{
    lemma_interned_defs_are_sound(v.defs, kind, rest, v.config.prefix);
    let ids = v.named();
    let more = SceneView { defs: interned(v.defs, kind, rest, v.config.prefix), ..v }.named();
    lemma_grounded_in_more(v.body, ids, more, seq![]);
    lemma_balanced_in_more(v.prelude, ids, more);
    if let Some(p) = v.pending {
        lemma_points_in_more(p.paint, ids, more);
    }
    assert forall|i: int| 0 <= i < v.block.runs.len() implies run_is_sound(
        #[trigger] v.block.runs[i],
        more,
    ) by {
        lemma_run_in_more(v.block.runs[i], ids, more);
    }
}

proof fn lemma_run_in_more(run: RunView, ids: Seq<Seq<char>>, more: Seq<Seq<char>>)
    requires
        run_is_sound(run, ids),
        forall|x: Seq<char>| ids.contains(x) ==> #[trigger] more.contains(x),
    ensures
        run_is_sound(run, more),
{
    if let Some(p) = run.fill {
        lemma_points_in_more(p, ids, more);
    }
    if let Some((p, _)) = run.stroke {
        lemma_points_in_more(p, ids, more);
    }
}

/// A reference to one of `ids` is a paint.
proof fn lemma_reference_points(id: Seq<char>, ids: Seq<Seq<char>>)
    requires
        id_safe(id),
        ids.contains(read_as(id)),
    ensures
        bracketless("url(#"@ + id + ")"@),
        value_points("url(#"@ + id + ")"@, ids),
{
    reveal_strlit("url(#");
    reveal_strlit(")");
    let value = "url(#"@ + id + ")"@;
    assert forall|i: int| 0 <= i < value.len() implies #[trigger] value[i] != '<' && value[i] != '>'
        && value[i] != '"' by {
        if 5 <= i < 5 + id.len() {
            assert(value[i] == id[i - 5]);
        } else if i < 5 {
            assert(value[i] == "url(#"@[i]);
        }
    }
    lemma_first_close(id, 0);
    let k = 5 + first_close(id, 0);
    assert forall|m: int| 5 <= m < k implies #[trigger] value[m] != ')' by {
        assert(value[m] == id[m - 5]);
    }
    assert(value[k] == ')');
    assert(closes(value, 5, k));
    assert(value.subrange(5, k) =~= read_as(id));
}

/// A color is a paint, which refers to nothing.
proof fn lemma_solid_points(c: Color, ids: Seq<Seq<char>>)
    ensures
        paint_points(solid_paint(c), ids),
{
    lemma_solid_is_plain(c);
    reveal_strlit("url(#");
    let value = solid_paint(c).value;
    if at(value, 0, "url(#"@) {
        assert(value.subrange(0, 5)[0] == value[0]);
        assert("url(#"@[0] == 'u');
    }
}

/// Expressing a brush keeps a scene sound.
pub proof fn lemma_brush_keeps_sound(v: SceneView, brush: Brush)
    requires
        sound(v),
        brush_is_sound(brush),
    ensures
        sound(v.with_brush(brush)),
        paint_points(v.paint_of(brush), v.with_brush(brush).named()),
{
    if let Some(w) = brush.warning {
        lemma_noting_keeps_warnings_unique(v.warnings, w);
    }
    match brush.source {
        PaintSource::Flat(c) => lemma_solid_points(c, v.with_brush(brush).named()),
        PaintSource::Server(body) => {
            lemma_interned_is_sound(v, body@.kind, body@.rest);
            lemma_reference_points(
                interned_id(v.defs, body@.kind, body@.rest, v.config.prefix),
                v.with_brush(brush).named(),
            );
        },
    }
}

/// Filling a path keeps a scene sound.
#[verifier::spinoff_prover]
#[verifier::rlimit(40)]
pub proof fn lemma_fill_keeps_sound(
    v: SceneView,
    rule: FillRule,
    transform: Affine,
    brush: Brush,
    path: Seq<PathEl>,
    pick: PickId,
)
    requires
        sound(v),
        brush_is_sound(brush),
    ensures
        sound(v.filled(rule, transform, brush, path, pick)),
{
    reveal(SceneView::filled);
    lemma_flushed_block_is_sound(v);
    let open = if v.block_open() {
        v
    } else {
        v.flushed_block()
    };
    lemma_flushed_pending_is_sound(open);
    lemma_brush_keeps_sound(open.flushed_pending(), brush);
}

proof fn lemma_stroked_is_balanced(
    path: Seq<PathEl>,
    fill: Option<(PaintView, FillRule)>,
    stroke: Stroke,
    paint: PaintView,
    transform: Affine,
    dec: nat,
    pick: Seq<char>,
    ids: Seq<Seq<char>>,
)
    requires
        fill is Some ==> paint_points((fill->0).0, ids),
        paint_points(paint, ids),
        attributes(pick, ids),
    ensures
        balanced(stroked_text(path, fill, stroke, paint, transform, dec, pick), ids),
{
    let d = path_text(path, dec);
    let head = "<path d=\""@ + d + seq!['"'];
    let a = match fill {
        Some((p, rule)) => fill_text(p, rule, dec),
        None => " fill=\"none\""@,
    };
    assert(attributes(a, ids)) by {
        match fill {
            Some((p, rule)) => lemma_fill_is_attributes(p, rule, dec, ids),
            None => {
                reveal_strlit(" fill=\"none\"");
                lemma_one_attribute(" fill=\"none\""@, 6, ids);
            },
        }
    }
    let b = stroke_text(stroke, paint, dec);
    let c = transform_text(transform, dec);
    lemma_path_is_quiet(path, dec);
    lemma_stroke_is_attributes(stroke, paint, dec, ids);
    lemma_transform_is_attributes(transform, dec, ids);
    lemma_attributes_joined(a, b, ids);
    lemma_attributes_joined(a + b, c, ids);
    lemma_attributes_joined(a + b + c, pick, ids);
    lemma_append(head, a, b);
    lemma_append(head, a + b, c);
    lemma_append(head, a + b + c, pick);
    lemma_path_element_is_balanced(d, a + b + c + pick, ids);
}

proof fn lemma_stroke_warnings_keep_sound(v: SceneView, stroke: Stroke)
    requires
        sound(v),
    ensures
        sound(SceneView { warnings: stroke_warnings(v.warnings, stroke), ..v }),
{
    lemma_noting_keeps_warnings_unique(v.warnings, SvgWarning::AsymmetricCaps);
}

/// Stroking a path keeps a scene sound.
#[verifier::spinoff_prover]
#[verifier::rlimit(40)]
pub proof fn lemma_stroke_keeps_sound(
    v: SceneView,
    stroke: Stroke,
    transform: Affine,
    brush: Brush,
    path: Seq<PathEl>,
    pick: PickId,
)
    requires
        sound(v),
        brush_is_sound(brush),
    ensures
        sound(v.stroked(stroke, transform, brush, path, pick)),
{
    lemma_flushed_block_is_sound(v);
    let open = if v.block_open() {
        v
    } else {
        v.flushed_block()
    };
    let dec = v.config.decimals;
    let on = v.config.pick_ids;
    let merged = open.pending is Some && open.pending->0.transform == transform
        && open.pending->0.path == path;
    if merged {
        let p = open.pending->0;
        lemma_brush_keeps_sound(open, brush);
        let painted = open.with_brush(brush);
        let ids = painted.named();
        lemma_stroke_warnings_keep_sound(painted, stroke);
        let base = SceneView {
            pending: None,
            warnings: stroke_warnings(painted.warnings, stroke),
            ..painted
        };
        let mark = pick_text(p.pick, on, open.targets());
        lemma_pick_is_attributes(p.pick, on, open.targets(), ids);
        let fill = Some((p.paint, p.rule));
        lemma_stroked_is_balanced(
            p.path,
            fill,
            stroke,
            open.paint_of(brush),
            transform,
            dec,
            mark,
            ids,
        );
        lemma_element_keeps_sound(
            base,
            stroked_text(p.path, fill, stroke, open.paint_of(brush), transform, dec, mark),
        );
    } else {
        lemma_flushed_pending_is_sound(open);
        let ready = open.flushed_pending();
        if path.len() > 0 {
            lemma_brush_keeps_sound(ready, brush);
            let painted = ready.with_brush(brush);
            let ids = painted.named();
            lemma_stroke_warnings_keep_sound(painted, stroke);
            let mark = pick_text(pick, on, ready.targets());
            lemma_pick_is_attributes(pick, on, ready.targets(), ids);
            lemma_stroked_is_balanced(
                path,
                None,
                stroke,
                ready.paint_of(brush),
                transform,
                dec,
                mark,
                ids,
            );
            lemma_element_keeps_sound(
                SceneView { warnings: stroke_warnings(painted.warnings, stroke), ..painted },
                stroked_text(path, None, stroke, ready.paint_of(brush), transform, dec, mark),
            );
        }
    }
}

proof fn lemma_layer_opacity_is_attributes(alpha: Fixed, dec: nat, ids: Seq<Seq<char>>)
    ensures
        attributes(layer_opacity_text(alpha, dec), ids),
{
    lemma_no_attributes(ids);
    reveal_strlit(" opacity=\"");
    lemma_opacity_is_attributes(" opacity=\""@, Some(alpha), dec, ids);
}

proof fn lemma_use_is_balanced(
    id: Seq<char>,
    transform: Affine,
    alpha: Fixed,
    dec: nat,
    ids: Seq<Seq<char>>,
)
    requires
        id_safe(id),
        ids.contains(id),
    ensures
        balanced(use_text(id, transform, alpha, dec), ids),
{
    reveal_strlit("<use href=\"#");
    reveal_strlit("use");
    reveal_strlit(" href=\"#");
    reveal_strlit(" href=\"");
    reveal_strlit(" fill=\"");
    reveal_strlit(" stroke=\"");
    reveal_strlit(" clip-path=\"");
    let href = " href=\"#"@ + id + seq!['"'];
    let value = seq!['#'] + id;
    assert forall|i: int| 0 <= i < value.len() implies #[trigger] value[i] != '<' && value[i] != '>'
        && value[i] != '"' by {
        if i > 0 {
            assert(value[i] == id[i - 1]);
        }
    }
    assert(" href=\""@[1] == 'h');
    lemma_text_attribute(" href=\""@, value, ids);
    assert(href =~= " href=\""@ + value + seq!['"']);
    assert("<use href=\"#"@ + id + seq!['"'] =~= seq!['<'] + "use"@ + href);
    let a = layer_opacity_text(alpha, dec);
    let b = transform_text(transform, dec);
    lemma_layer_opacity_is_attributes(alpha, dec, ids);
    lemma_transform_is_attributes(transform, dec, ids);
    lemma_tag_takes("use"@, href, a, ids);
    lemma_tag_takes("use"@, href + a, b, ids);
    let attrs = href + a + b;
    assert(attrs.subrange(8, (8 + id.len() + 1) as int) =~= id.push('"'));
    assert(at(attrs, 8, id.push('"')));
    lemma_empty_element_is_balanced("use"@, href + a + b, ids);
}

/// Drawing an image keeps a scene sound.
pub proof fn lemma_image_keeps_sound(
    v: SceneView,
    image: ImageSource,
    transform: Affine,
    alpha: Fixed,
)
    requires
        sound(v),
        image is Embedded ==> completes(
            kind_element(image->Embedded_0@.kind),
            image->Embedded_0@.rest,
        ),
    ensures
        sound(v.imaged(image, transform, alpha)),
{
    lemma_settled_is_sound(v);
    let ready = v.settled();
    match image {
        ImageSource::Embedded(body) => {
            lemma_interned_is_sound(ready, body@.kind, body@.rest);
            let id = interned_id(ready.defs, body@.kind, body@.rest, ready.config.prefix);
            let ids = v.imaged(image, transform, alpha).named();
            lemma_use_is_balanced(id, transform, alpha, ready.config.decimals, ids);
            lemma_body_takes(
                ready.body,
                use_text(id, transform, alpha, ready.config.decimals),
                ready.groups.len(),
                ids,
            );
        },
        ImageSource::Refused(w) => {
            lemma_noting_keeps_warnings_unique(ready.warnings, w);
        },
    }
}

/// An image that is drawn refers to its definition, which the scene has.
pub proof fn lemma_image_names_its_definition(
    v: SceneView,
    body: DefBody,
    transform: Affine,
    alpha: Fixed,
)
    requires
        sound(v),
    ensures
        ({
            let ready = v.settled();
            let after = v.imaged(ImageSource::Embedded(body), transform, alpha);
            let id = interned_id(ready.defs, body@.kind, body@.rest, v.config.prefix);
            &&& after.ids().contains(id)
            &&& after.body == ready.body + use_text(id, transform, alpha, v.config.decimals)
        }),
{
    lemma_settled_is_sound(v);
    let ready = v.settled();
    let after = v.imaged(ImageSource::Embedded(body), transform, alpha);
    let id = interned_id(ready.defs, body@.kind, body@.rest, v.config.prefix);
    lemma_interning_defines(ready.defs, body@.kind, body@.rest, v.config.prefix);
    let i = choose|i: int|
        0 <= i < after.defs.len() && (#[trigger] after.defs[i]) == (DefView {
            kind: body@.kind,
            rest: body@.rest,
            id,
        });
    assert(after.ids()[i] == id);
}

/// Drawing a mesh keeps a scene sound.
pub proof fn lemma_mesh_keeps_sound(
    v: SceneView,
    fills: Seq<MeshFill>,
    n: nat,
    transform: Affine,
    pick: PickId,
)
    requires
        sound(v),
        n <= fills.len(),
        forall|i: int| 0 <= i < fills.len() ==> brush_is_sound((#[trigger] fills[i]).brush),
    ensures
        sound(v.meshed(fills, n, transform, pick)),
    decreases n,
{
    if n == 0 {
        lemma_settled_is_sound(v);
    } else {
        lemma_mesh_keeps_sound(v, fills, (n - 1) as nat, transform, pick);
        let f = fills[n - 1];
        lemma_fill_keeps_sound(
            v.meshed(fills, (n - 1) as nat, transform, pick),
            FillRule::NonZero,
            transform,
            f.brush,
            f.path@,
            pick,
        );
    }
}

proof fn lemma_contour_is_attributes(
    style: Option<Stroke>,
    paint: PaintView,
    dec: nat,
    ids: Seq<Seq<char>>,
)
    requires
        paint_points(paint, ids),
    ensures
        attributes(contour_text(style, paint, dec), ids),
{
    match style {
        Some(stroke) => {
            reveal_strlit(" fill=\"none\"");
            lemma_stroke_is_attributes(stroke, paint, dec, ids);
            lemma_one_attribute(" fill=\"none\""@, 6, ids);
            lemma_attributes_joined(" fill=\"none\""@, stroke_text(stroke, paint, dec), ids);
        },
        None => lemma_fill_is_attributes(paint, FillRule::NonZero, dec, ids),
    }
}

proof fn lemma_outline_is_balanced(
    d: Seq<char>,
    style: Option<Stroke>,
    paint: PaintView,
    transform: Affine,
    dec: nat,
    mark: Seq<char>,
    ids: Seq<Seq<char>>,
)
    requires
        quiet(d),
        paint_points(paint, ids),
        attributes(mark, ids),
    ensures
        balanced(outline_text(d, style, paint, transform, dec, mark), ids),
{
    let head = "<path d=\""@ + d + seq!['"'];
    let a = contour_text(style, paint, dec);
    let b = transform_text(transform, dec);
    lemma_contour_is_attributes(style, paint, dec, ids);
    lemma_transform_is_attributes(transform, dec, ids);
    lemma_attributes_joined(a, b, ids);
    lemma_attributes_joined(a + b, mark, ids);
    lemma_append(head, a, b);
    lemma_append(head, a + b, mark);
    lemma_path_element_is_balanced(d, a + b + mark, ids);
}

#[verifier::spinoff_prover]
#[verifier::rlimit(40)]
proof fn lemma_outline_keeps_sound(v: SceneView, run: GlyphRun, pick: PickId)
    requires
        sound(v),
        glyphs_are_sound(run),
    ensures
        sound(v.outlined(run, pick)),
{
    match run.outline {
        None => {
            lemma_noting_keeps_warnings_unique(v.warnings, SvgWarning::TextWithoutSource);
        },
        Some(path) => {
            let dec = v.config.decimals;
            let d = path_text(path@, dec);
            lemma_path_is_quiet(path@, dec);
            let paint = v.paint_of(run.brush);
            lemma_brush_keeps_sound(v, run.brush);
            let painted = v.with_brush(run.brush);
            let ids = painted.named();
            if let Some(stroke) = run.style {
                lemma_stroke_warnings_keep_sound(painted, stroke);
            }
            let mark = pick_text(pick, v.config.pick_ids, v.targets());
            lemma_pick_is_attributes(pick, v.config.pick_ids, v.targets(), ids);
            lemma_outline_is_balanced(d, run.style, paint, run.transform, dec, mark, ids);
            lemma_body_takes(
                v.body,
                outline_text(d, run.style, paint, run.transform, dec, mark),
                v.groups.len(),
                ids,
            );
        },
    }
}

proof fn lemma_run_keeps_sound(v: SceneView, run: RunView)
    requires
        sound(v),
        run_is_sound(run, v.named()),
    ensures
        sound(v.with_run(run)),
{
    let ids = v.named();
    lemma_flushed_block_is_sound(v);
    let open = if super::text::accepts_run(v.block, run.group, run.transform) {
        v
    } else {
        v.flushed_block()
    };
    let runs = open.block.runs;
    let after = block_with(open.block, run).runs;
    assert forall|i: int| 0 <= i < after.len() implies run_is_sound(#[trigger] after[i], ids) by {
        let at = first_same_spot(runs, run, 0);
        if i < runs.len() {
            assert(run_is_sound(runs[i], ids));
        }
        lemma_first_same_spot_is_in_range(runs, run, 0);
    }
}

proof fn lemma_first_same_spot_is_in_range(runs: Seq<RunView>, run: RunView, i: int)
    requires
        0 <= i <= runs.len(),
    ensures
        i <= first_same_spot(runs, run, i) <= runs.len(),
    decreases runs.len() - i,
{
    if i < runs.len() {
        lemma_first_same_spot_is_in_range(runs, run, i + 1);
    }
}

/// Drawing glyphs keeps a scene sound.
#[verifier::spinoff_prover]
#[verifier::rlimit(40)]
pub proof fn lemma_glyphs_keep_sound(v: SceneView, run: GlyphRun, pick: PickId)
    requires
        sound(v),
        glyphs_are_sound(run),
    ensures
        sound(v.glyphs_drawn(run, pick)),
{
    lemma_flushed_pending_is_sound(v);
    let ready = v.flushed_pending();
    if run.source is Some && ready.config.text == super::config::TextMode::Text {
        if run.glyphs@.len() > 0 {
            let src = run.source->0;
            lemma_brush_keeps_sound(ready, run.brush);
            let painted = ready.with_brush(run.brush);
            let embed = ready.config.embed_fonts;
            lemma_noting_keeps_warnings_unique(painted.warnings, SvgWarning::FontNotEmbeddable);
            let next = SceneView {
                fonts: faces_noted(painted.fonts, rule_text(run.face.rule)),
                warnings: if embed && run.face.rule is None {
                    noted(painted.warnings, SvgWarning::FontNotEmbeddable)
                } else {
                    painted.warnings
                },
                ..painted
            };
            assert(sound(next));
            lemma_run_keeps_sound(
                next,
                run_view(run, src, pick, ready.paint_of(run.brush), embed),
            );
        }
    } else {
        lemma_flushed_block_is_sound(ready);
        lemma_outline_keeps_sound(ready.flushed_block(), run, pick);
    }
}

/// A clip's definition is a complete element.
pub proof fn lemma_clip_completes(clip: Seq<PathEl>, dec: nat)
    ensures
        completes(kind_element(DefKind::Clip), clip_rest(clip, dec)),
{
    let name = "clipPath"@;
    let rest = clip_rest(clip, dec);
    let d = path_text(clip, dec);
    reveal_strlit("clipPath");
    reveal_strlit(" clipPathUnits=\"userSpaceOnUse\"><path d=\"");
    reveal_strlit(" clipPathUnits=\"userSpaceOnUse\"");
    reveal_strlit("\"/></clipPath>");
    reveal_strlit("<path d=\"");
    reveal_strlit("/>");
    reveal_strlit("</");
    let units = " clipPathUnits=\"userSpaceOnUse\""@;
    let path = "<path d=\""@ + d + seq!['"'] + seq![] + "/>"@;
    lemma_path_is_quiet(clip, dec);
    assert(rest =~= units + seq!['>'] + path + ("</"@ + name + seq!['>']));
    assert forall|attrs: Seq<char>, ids: Seq<Seq<char>>, places: Seq<int>| #[trigger] listed(
        attrs,
        ids,
        places,
    ) implies balanced_at(
        seq!['<'] + name + attrs + rest,
        ids,
        shifted(places, 1 + name.len()),
    ) by {
        lemma_no_attributes(ids);
        lemma_one_attribute(units, 15, ids);
        lemma_path_element_is_balanced(d, seq![], ids);
        lemma_around(name, attrs, units, path, ids, places);
        assert(seq!['<'] + name + attrs + rest =~= seq!['<'] + name + (attrs + units) + seq!['>']
            + path + ("</"@ + name + seq!['>']));
    }
}

proof fn lemma_group_opens(body: Seq<char>, attrs: Seq<char>, n: nat, ids: Seq<Seq<char>>)
    requires
        scan(body, outside(seq!["svg"@])) == outside(group_stack(n)),
        grounded(body, ids),
        attributes(attrs, ids),
    ensures
        scan(body + ("<g"@ + attrs + seq!['>']), outside(seq!["svg"@])) == outside(
            group_stack(n + 1),
        ),
        grounded(body + ("<g"@ + attrs + seq!['>']), ids),
{
    reveal_strlit("<g");
    reveal_strlit("g");
    assert("<g"@ =~= seq!['<'] + "g"@);
    lemma_scan_joined(body, "<g"@ + attrs + seq!['>'], outside(seq!["svg"@]));
    lemma_scan_start_tag("g"@, attrs, group_stack(n), ids);
    lemma_start_tag_is_grounded("g"@, attrs, ids);
    lemma_grounded_joined(body, "<g"@ + attrs + seq!['>'], ids);
    assert(group_stack(n).push("g"@) =~= group_stack(n + 1));
}

proof fn lemma_group_closes(
    body: Seq<char>,
    n: nat,
    s: super::markup::Scan,
    ids: Seq<Seq<char>>,
    places: Seq<int>,
)
    requires
        scan(body, s) == outside(group_stack(n)),
        grounded_at(body, ids, places),
        n > 0,
    ensures
        scan(body + "</g>"@, s) == outside(group_stack((n - 1) as nat)),
        grounded_at(body + "</g>"@, ids, places),
{
    reveal_strlit("</g>");
    reveal_strlit("</");
    reveal_strlit("g");
    assert("</g>"@ =~= "</"@ + "g"@ + seq!['>']);
    lemma_scan_joined(body, "</g>"@, s);
    let below = group_stack((n - 1) as nat);
    assert(group_stack(n) =~= below.push("g"@));
    lemma_scan_end_tag("g"@, below);
    lemma_end_tag_is_grounded("g"@, ids);
    lemma_grounded_at_joined(body, "</g>"@, ids, places, seq![]);
    assert(places + shifted(seq![], body.len()) =~= places);
}

proof fn lemma_layer_attrs(
    clip: Option<Seq<char>>,
    alpha: Fixed,
    mix: Mix,
    dec: nat,
    ids: Seq<Seq<char>>,
)
    requires
        clip is Some ==> id_safe(clip->0) && ids.contains(read_as(clip->0)),
    ensures
        attributes(
            clip_attr_text(clip) + layer_opacity_text(alpha, dec) + layer_style_text(mix),
            ids,
        ),
        layer_text(clip, alpha, mix, dec) == "<g"@ + (clip_attr_text(clip) + layer_opacity_text(
            alpha,
            dec,
        ) + layer_style_text(mix)) + seq!['>'],
{
    let a = clip_attr_text(clip);
    assert(attributes(a, ids)) by {
        if let Some(id) = clip {
            reveal_strlit(" clip-path=\"url(#");
            reveal_strlit(" clip-path=\"");
            reveal_strlit("url(#");
            reveal_strlit(")");
            reveal_strlit(")\"");
            let value = "url(#"@ + id + ")"@;
            lemma_reference_points(id, ids);
            lemma_text_attribute(" clip-path=\""@, value, ids);
            assert(a =~= " clip-path=\""@ + value + seq!['"']);
        } else {
            lemma_no_attributes(ids);
        }
    }
    let b = layer_opacity_text(alpha, dec);
    lemma_layer_opacity_is_attributes(alpha, dec, ids);
    let c = layer_style_text(mix);
    assert(attributes(c, ids)) by {
        lemma_mix_is_quiet(mix);
        reveal_strlit(" style=\"isolation:isolate;mix-blend-mode:");
        reveal_strlit(" style=\"isolation:isolate\"");
        reveal_strlit(" style=\"");
        reveal_strlit("isolation:isolate;mix-blend-mode:");
        lemma_one_attribute(" style=\"isolation:isolate\""@, 7, ids);
        let value = "isolation:isolate;mix-blend-mode:"@ + mix_text(mix);
        lemma_quiet_joined("isolation:isolate;mix-blend-mode:"@, mix_text(mix));
        lemma_attribute(" style=\""@, value, ids);
        assert(" style=\"isolation:isolate;mix-blend-mode:"@ + mix_text(mix) + seq!['"']
            =~= " style=\""@ + value + seq!['"']);
    }
    lemma_attributes_joined(a, b, ids);
    lemma_attributes_joined(a + b, c, ids);
    lemma_append("<g"@, a, b);
    lemma_append("<g"@, a + b, c);
}

/// No keyword of a mix can end the attribute it stands in.
pub proof fn lemma_mix_is_quiet(mix: Mix)
    ensures
        quiet(mix_text(mix)),
{
    reveal_strlit("normal");
    reveal_strlit("multiply");
    reveal_strlit("screen");
    reveal_strlit("overlay");
    reveal_strlit("darken");
    reveal_strlit("lighten");
    reveal_strlit("color-dodge");
    reveal_strlit("color-burn");
    reveal_strlit("hard-light");
    reveal_strlit("soft-light");
    reveal_strlit("difference");
    reveal_strlit("exclusion");
    reveal_strlit("hue");
    reveal_strlit("saturation");
    reveal_strlit("color");
    reveal_strlit("luminosity");
}

/// Opening a layer keeps a scene sound.
#[verifier::spinoff_prover]
#[verifier::rlimit(40)]
pub proof fn lemma_push_layer_keeps_sound(
    v: SceneView,
    blend: BlendMode,
    alpha: Fixed,
    transform: Affine,
    clip: Seq<PathEl>,
)
    requires
        sound(v),
    ensures
        sound(v.layer_pushed(blend, alpha, transform, clip)),
{
    lemma_settled_is_sound(v);
    let ready = v.settled();
    let dec = ready.config.decimals;
    let rest = clip_rest(baked(transform, clip), dec);
    lemma_clip_completes(baked(transform, clip), dec);
    lemma_interned_is_sound(ready, DefKind::Clip, rest);
    let id = if clip.len() == 0 {
        None
    } else {
        Some(interned_id(ready.defs, DefKind::Clip, rest, ready.config.prefix))
    };
    let ids = v.layer_pushed(blend, alpha, transform, clip).named();
    lemma_layer_attrs(id, alpha, blend.mix, dec, ids);
    lemma_group_opens(
        ready.body,
        clip_attr_text(id) + layer_opacity_text(alpha, dec) + layer_style_text(blend.mix),
        ready.groups.len(),
        ids,
    );
    lemma_noting_keeps_warnings_unique(ready.warnings, SvgWarning::UnsupportedCompose);
    let groups = ready.groups.push(GroupKind::Layer);
    assert(groups.drop_last() =~= ready.groups);
}

/// Closing a layer keeps a scene sound.
pub proof fn lemma_pop_layer_keeps_sound(v: SceneView)
    requires
        sound(v),
    ensures
        sound(v.layer_popped()),
{
    lemma_settled_is_sound(v);
    let ready = v.settled();
    lemma_noting_keeps_warnings_unique(ready.warnings, SvgWarning::UnbalancedLayers);
    if ready.groups.len() > 0 {
        lemma_group_closes(
            ready.body,
            ready.groups.len(),
            outside(seq!["svg"@]),
            ready.named(),
            seq![],
        );
    }
}

proof fn lemma_scope_attrs(scope: PickScope, ids: Seq<Seq<char>>)
    ensures
        exists|attrs: Seq<char>| #[trigger]
            attributes(attrs, ids) && scope_text(scope) == "<g"@ + attrs + seq!['>'],
{
    reveal_strlit("<g");
    reveal_strlit("<g data-pick-kind=\"");
    reveal_strlit(" data-pick-kind=\"");
    reveal_strlit(" data-pick-name=\"");
    reveal_strlit(" fill=\"");
    reveal_strlit(" stroke=\"");
    reveal_strlit(" clip-path=\"");
    assert(" data-pick-kind=\""@[1] == 'd' && " data-pick-name=\""@[1] == 'd');
    let kind = attr_text(scope.kind@);
    lemma_attr_text_is_bracketless(scope.kind@);
    let a = " data-pick-kind=\""@ + kind + seq!['"'];
    lemma_text_attribute(" data-pick-kind=\""@, kind, ids);
    assert("<g data-pick-kind=\""@ + kind + seq!['"'] =~= "<g"@ + a);
    let b = scope_name_text(scope.name);
    assert(attributes(b, ids)) by {
        match scope.name {
            Some(n) => {
                lemma_attr_text_is_bracketless(n@);
                lemma_text_attribute(" data-pick-name=\""@, attr_text(n@), ids);
            },
            None => lemma_no_attributes(ids),
        }
    }
    let c = scope_index_text(scope.index);
    assert(attributes(c, ids)) by {
        reveal_strlit(" data-pick-index=\"");
        if let Some(i) = scope.index {
            lemma_decimal_is_quiet(i as nat);
            lemma_attribute(" data-pick-index=\""@, decimal_text(i as nat), ids);
        }
        lemma_no_attributes(ids);
    }
    lemma_attributes_joined(a, b, ids);
    lemma_attributes_joined(a + b, c, ids);
    lemma_append("<g"@, a, b);
    lemma_append("<g"@, a + b, c);
    assert(attributes(a + b + c, ids));
}

/// Opening a pick scope keeps a scene sound.
#[verifier::spinoff_prover]
#[verifier::rlimit(40)]
pub proof fn lemma_push_scope_keeps_sound(v: SceneView, scope: PickScope)
    requires
        sound(v),
    ensures
        sound(v.scope_pushed(scope)),
{
    if v.config.pick_ids {
        lemma_settled_is_sound(v);
        let ready = v.settled();
        let ids = ready.named();
        lemma_scope_attrs(scope, ids);
        let attrs = choose|attrs: Seq<char>| #[trigger]
            attributes(attrs, ids) && scope_text(scope) == "<g"@ + attrs + seq!['>'];
        lemma_group_opens(ready.body, attrs, ready.groups.len(), ids);
        let groups = ready.groups.push(GroupKind::Scope);
        assert(groups.drop_last() =~= ready.groups);
    }
}

/// Closing a pick scope keeps a scene sound.
pub proof fn lemma_pop_scope_keeps_sound(v: SceneView)
    requires
        sound(v),
    ensures
        sound(v.scope_popped()),
{
    if v.config.pick_ids {
        lemma_settled_is_sound(v);
        let ready = v.settled();
        lemma_noting_keeps_warnings_unique(ready.warnings, SvgWarning::UnbalancedScopes);
        if ready.groups.len() > 0 {
            let svg = outside(seq!["svg"@]);
            lemma_group_closes(ready.body, ready.groups.len(), svg, ready.named(), seq![]);
        }
    }
}

proof fn lemma_def_list_is_balanced(defs: Seq<DefView>, n: nat, ids: Seq<Seq<char>>)
    requires
        n <= defs.len(),
        forall|i: int| 0 <= i < defs.len() ==> def_is_sound(#[trigger] defs[i]),
    ensures
        balanced_at(def_list_text(defs, n), ids, id_places(defs, n)),
    decreases n,
{
    if n == 0 {
        lemma_content_is_balanced(seq![], ids);
    } else {
        let d = defs[n - 1];
        lemma_def_list_is_balanced(defs, (n - 1) as nat, ids);
        reveal_strlit(" id=\"");
        reveal_strlit(" fill=\"");
        reveal_strlit(" stroke=\"");
        reveal_strlit(" clip-path=\"");
        assert(" id=\""@[1] == 'i');
        let id = " id=\""@ + d.id + seq!['"'];
        lemma_listed_attribute(" id=\""@, d.id, ids);
        let name = kind_element(d.kind);
        lemma_append(seq!['<'] + name, " id=\""@, d.id);
        lemma_append(seq!['<'] + name, " id=\""@ + d.id, seq!['"']);
        assert(def_text(d) == seq!['<'] + name + id + d.rest);
        assert(listed(id, ids, seq![0int]));
        let before = def_list_text(defs, (n - 1) as nat);
        let places = id_places(defs, (n - 1) as nat);
        let own = shifted(seq![0int], 1 + name.len());
        lemma_balanced_at_joined(before, def_text(d), ids, places, own);
        assert(places + shifted(own, before.len()) =~= id_places(defs, n));
    }
}

proof fn lemma_rules_are_harmless(rules: Seq<Seq<char>>, n: nat)
    requires
        n <= rules.len(),
        forall|i: int| 0 <= i < rules.len() ==> rule_ready(#[trigger] rules[i]),
    ensures
        harmless(rules_text(rules, n)),
    decreases n,
{
    reveal_strlit(" id=\"");
    if n > 0 {
        let before = rules_text(rules, (n - 1) as nat);
        lemma_rules_are_harmless(rules, (n - 1) as nat);
        lemma_bracketless_joined(before, rules[n - 1]);
        lemma_calm_joined(before, rules[n - 1]);
        lemma_no_id_joined(before, rules[n - 1]);
    }
}

/// Two texts that give no id give none together, unless the second could go
/// on where the first leaves off.
proof fn lemma_no_id_joined(a: Seq<char>, b: Seq<char>)
    requires
        !holds(a, " id=\""@),
        !holds(b, " id=\""@),
        b.len() > 0 ==> b[0] != 'i' && b[0] != 'd' && b[0] != '=' && b[0] != '"',
    ensures
        !holds(a + b, " id=\""@),
{
    reveal_strlit(" id=\"");
    let s = a + b;
    let n = a.len() as int;
    assert(a =~= s.subrange(0, n));
    assert(b =~= s.subrange(n, n + b.len()));
    assert forall|i: int| !(#[trigger] at(s, i, " id=\""@)) by {
        if at(s, i, " id=\""@) {
            if i >= n {
                lemma_at_in_part(s, b, n, i, " id=\""@);
                assert(at(b, i - n, " id=\""@));
            } else {
                if i + 5 > n {
                    lemma_pattern(s, i, " id=\""@, n - i);
                    assert(s[n] == b[0]);
                }
                lemma_at_in_part(s, a, 0, i, " id=\""@);
                assert(at(a, i - 0, " id=\""@));
            }
        }
    }
}

proof fn lemma_style_is_balanced(css: Seq<char>, ids: Seq<Seq<char>>)
    requires
        harmless(css),
        css.len() > 0 ==> css[0] == '@',
    ensures
        balanced(style_text(Some(css)), ids),
{
    reveal_strlit("<style><![CDATA[");
    reveal_strlit("style");
    reveal_strlit("![CDATA[");
    reveal_strlit("]]></style>");
    reveal_strlit("</");
    reveal_strlit(" id=\"");
    let head = "![CDATA["@;
    let tail = seq![']', ']'];
    let inner = head + css + tail;
    let data = seq!['<'] + inner + seq!['>'];
    lemma_bracketless_joined(head, css);
    lemma_bracketless_joined(head + css, tail);
    lemma_calm_joined(head, css);
    lemma_calm_joined(head + css, tail);
    assert(balanced(data, ids)) by {
        lemma_calm_joined(seq!['<'], inner);
        lemma_calm_joined(seq!['<'] + inner, seq!['>']);
        lemma_spaceless_gives_no_id(head);
        lemma_spaceless_gives_no_id(tail);
        lemma_spaceless_gives_no_id(seq!['<']);
        lemma_spaceless_gives_no_id(seq!['>']);
        lemma_no_id_joined(head, css);
        lemma_no_id_joined(head + css, tail);
        assert(inner[0] == head[0]);
        lemma_no_id_joined(seq!['<'], inner);
        lemma_no_id_joined(seq!['<'] + inner, seq!['>']);
        assert(data[1] == inner[0]);
        assert forall|m: int| 0 < m < data.len() implies #[trigger] data[m] != '<' by {
            if m <= inner.len() {
                assert(data[m] == inner[m - 1]);
            }
        }
        lemma_declaration_is_grounded(data, ids);
        assert forall|open: Seq<Seq<char>>| #[trigger]
            scan(data, outside(open)) == outside(open) by {
            lemma_scan_declaration(inner, open);
        }
    }
    lemma_no_attributes(ids);
    lemma_element_is_balanced("style"@, seq![], data, ids);
    let whole = seq!['<'] + "style"@ + seq![] + seq!['>'] + data + ("</"@ + "style"@ + seq!['>']);
    assert(style_text(Some(css)) =~= whole);
}

proof fn lemma_spaceless_gives_no_id(s: Seq<char>)
    requires
        forall|m: int| 0 <= m < s.len() ==> #[trigger] s[m] != ' ',
    ensures
        !holds(s, " id=\""@),
{
    reveal_strlit(" id=\"");
    assert forall|i: int| !(#[trigger] at(s, i, " id=\""@)) by {
        if at(s, i, " id=\""@) {
            lemma_pattern(s, i, " id=\""@, 0);
            assert(s[i + 0] == ' ');
        }
    }
}

proof fn lemma_scan_declaration(inner: Seq<char>, open: Seq<Seq<char>>)
    requires
        bracketless(inner),
        inner.len() > 0,
        inner[0] == '!',
    ensures
        scan(seq!['<'] + inner + seq!['>'], outside(open)) == outside(open),
{
    lemma_scan_joined(seq!['<'] + inner, seq!['>'], outside(open));
    lemma_scan_joined(seq!['<'], inner, outside(open));
    super::markup::lemma_scan_start_bracket(open);
    super::markup::lemma_scan_inside(inner, open, seq![]);
    assert(Seq::<char>::empty() + inner =~= inner);
    super::markup::lemma_scan_end_bracket(open, inner);
}

proof fn lemma_defs_are_balanced(
    defs: Seq<DefView>,
    fonts: Seq<Seq<char>>,
    embed: bool,
    ids: Seq<Seq<char>>,
)
    requires
        forall|i: int| 0 <= i < defs.len() ==> def_is_sound(#[trigger] defs[i]),
        forall|i: int| 0 <= i < fonts.len() ==> rule_ready(#[trigger] fonts[i]),
    ensures
        balanced_at(
            defs_text(defs, stylesheet_text(fonts, embed)),
            ids,
            shifted(
                id_places(defs, defs.len()),
                6 + style_text(stylesheet_text(fonts, embed)).len(),
            ),
        ),
{
    let style = stylesheet_text(fonts, embed);
    lemma_content_is_balanced(seq![], ids);
    if defs.len() > 0 || style is Some {
        reveal_strlit("<defs>");
        reveal_strlit("defs");
        reveal_strlit("</defs>");
        reveal_strlit("</");
        if style is Some {
            lemma_rules_are_harmless(fonts, fonts.len());
            lemma_rules_start(fonts, fonts.len());
            lemma_style_is_balanced(style->0, ids);
        }
        let list = def_list_text(defs, defs.len());
        lemma_def_list_is_balanced(defs, defs.len(), ids);
        let places = id_places(defs, defs.len());
        let n = style_text(style).len();
        lemma_balanced_at_joined(style_text(style), list, ids, seq![], places);
        assert(Seq::<int>::empty() + shifted(places, n) =~= shifted(places, n));
        lemma_no_attributes(ids);
        lemma_element_at(
            "defs"@,
            seq![],
            style_text(style) + list,
            ids,
            seq![],
            shifted(places, n),
        );
        assert(shifted(seq![], 5) + shifted(shifted(places, n), 6) =~= shifted(places, 6 + n));
        assert("<defs>"@ =~= seq!['<'] + "defs"@ + seq![] + seq!['>']);
        assert("</defs>"@ =~= "</"@ + "defs"@ + seq!['>']);
        lemma_append("<defs>"@, style_text(style), list);
    } else {
        assert(shifted(id_places(defs, 0), 6 + style_text(style).len()) =~= seq![]);
    }
}

proof fn lemma_rules_start(rules: Seq<Seq<char>>, n: nat)
    requires
        n <= rules.len(),
        forall|i: int| 0 <= i < rules.len() ==> rule_ready(#[trigger] rules[i]),
    ensures
        n > 0 ==> rules_text(rules, n).len() > 0,
        n == 0 ==> rules_text(rules, n).len() == 0,
        rules_text(rules, n).len() > 0 ==> rules_text(rules, n)[0] == '@',
    decreases n,
{
    if n > 0 {
        lemma_rules_start(rules, (n - 1) as nat);
        assert(rule_ready(rules[n - 1]));
    }
}

proof fn lemma_background_is_balanced(
    color: Option<Color>,
    size: Size,
    dec: nat,
    ids: Seq<Seq<char>>,
)
    ensures
        balanced(background_text(color, size, dec), ids),
{
    match color {
        None => lemma_content_is_balanced(seq![], ids),
        Some(color) => {
            let p = solid_paint(color);
            reveal_strlit("<rect width=\"");
            reveal_strlit("rect");
            reveal_strlit(" width=\"");
            reveal_strlit("\" height=\"");
            reveal_strlit("\" fill=\"");
            reveal_strlit(" fill=\"");
            reveal_strlit(" fill-opacity=\"");
            let w = num_text(size.width, dec);
            let h = num_text(size.height, dec);
            lemma_number_is_quiet(size.width, dec);
            lemma_number_is_quiet(size.height, dec);
            reveal_strlit(" height=\"");
            let a = " width=\""@ + w + seq!['"'];
            let b = " height=\""@ + h + seq!['"'];
            let d = a + b;
            lemma_attribute(" width=\""@, w, ids);
            lemma_attribute(" height=\""@, h, ids);
            lemma_attributes_joined(a, b, ids);
            let e = " fill=\""@ + p.value + seq!['"'];
            lemma_solid_points(color, ids);
            lemma_text_attribute(" fill=\""@, p.value, ids);
            let f = d + e;
            lemma_attributes_joined(d, e, ids);
            let name = seq!['<'] + "rect"@;
            assert("<rect width=\""@ =~= name + " width=\""@);
            assert("<rect width=\""@ + w + "\" height=\""@ + h + "\" fill=\""@ + p.value + seq!['"']
                =~= name + f);
            let g = opacity_text(" fill-opacity=\""@, p.opacity, 3);
            lemma_opacity_is_attributes(" fill-opacity=\""@, p.opacity, 3, ids);
            lemma_tag_takes("rect"@, f, g, ids);
            lemma_empty_element_is_balanced("rect"@, f + g, ids);
        },
    }
}

proof fn lemma_root_length_is_quiet(x: Fixed, dpi: Fixed, units: SvgUnits, dec: nat)
    ensures
        quiet(root_length_text(x, dpi, units, dec)),
{
    reveal_strlit("pt");
    lemma_number_is_quiet(x, dec);
    let points = super::model::in_points(x, dpi);
    lemma_number_is_quiet(points, dec);
    lemma_quiet_joined(num_text(points, dec), "pt"@);
}

/// The size attributes of the root element, after its name.
pub open spec fn root_size_attrs(size: Size, dpi: Fixed, units: SvgUnits, dec: nat) -> Seq<char> {
    " xmlns=\"http://www.w3.org/2000/svg\" width=\""@ + root_length_text(
        size.width,
        dpi,
        units,
        dec,
    ) + "\" height=\""@ + root_length_text(size.height, dpi, units, dec)
        + "\" viewBox=\"0 0 "@ + num_text(size.width, dec) + seq![' '] + num_text(
        size.height,
        dec,
    ) + seq!['"']
}

#[verifier::spinoff_prover]
#[verifier::rlimit(40)]
proof fn lemma_root_size(size: Size, dpi: Fixed, units: SvgUnits, dec: nat, ids: Seq<Seq<char>>)
    ensures
        attributes(root_size_attrs(size, dpi, units, dec), ids),
        root_size_text(size, dpi, units, dec) == seq!['<'] + "svg"@ + root_size_attrs(
            size,
            dpi,
            units,
            dec,
        ),
{
    let w = root_length_text(size.width, dpi, units, dec);
    let h = root_length_text(size.height, dpi, units, dec);
    let vw = num_text(size.width, dec);
    let vh = num_text(size.height, dec);
    lemma_root_length_is_quiet(size.width, dpi, units, dec);
    lemma_root_length_is_quiet(size.height, dpi, units, dec);
    lemma_number_is_quiet(size.width, dec);
    lemma_number_is_quiet(size.height, dec);
    lemma_root_pieces(w, h, vw, vh);
    lemma_root_attributes(w, h, vw, vh, ids);
}

/// The size attributes one by one, from what they say.
spec fn root_pieces(w: Seq<char>, h: Seq<char>, vw: Seq<char>, vh: Seq<char>) -> Seq<char> {
    " xmlns=\"http://www.w3.org/2000/svg\""@ + (" width=\""@ + w + seq!['"']) + (" height=\""@ + h
        + seq!['"']) + (" viewBox=\""@ + ("0 0 "@ + vw + seq![' '] + vh) + seq!['"'])
}

proof fn lemma_root_attributes(
    w: Seq<char>,
    h: Seq<char>,
    vw: Seq<char>,
    vh: Seq<char>,
    ids: Seq<Seq<char>>,
)
    requires
        quiet(w) && quiet(h) && quiet(vw) && quiet(vh),
    ensures
        attributes(root_pieces(w, h, vw, vh), ids),
{
    reveal_strlit(" xmlns=\"http://www.w3.org/2000/svg\"");
    reveal_strlit(" width=\"");
    reveal_strlit(" height=\"");
    reveal_strlit(" viewBox=\"");
    reveal_strlit("0 0 ");
    let space = seq![' '];
    let a = " xmlns=\"http://www.w3.org/2000/svg\""@;
    lemma_one_attribute(a, 7, ids);
    let b = " width=\""@ + w + seq!['"'];
    lemma_attribute(" width=\""@, w, ids);
    lemma_attributes_joined(a, b, ids);
    let c = " height=\""@ + h + seq!['"'];
    lemma_attribute(" height=\""@, h, ids);
    lemma_attributes_joined(a + b, c, ids);
    lemma_quiet_joined("0 0 "@, vw);
    lemma_quiet_joined("0 0 "@ + vw, space);
    lemma_quiet_joined("0 0 "@ + vw + space, vh);
    let d = " viewBox=\""@ + ("0 0 "@ + vw + space + vh) + seq!['"'];
    lemma_attribute(" viewBox=\""@, "0 0 "@ + vw + space + vh, ids);
    lemma_attributes_joined(a + b + c, d, ids);
}

proof fn lemma_root_pieces(w: Seq<char>, h: Seq<char>, vw: Seq<char>, vh: Seq<char>)
    ensures
        " xmlns=\"http://www.w3.org/2000/svg\" width=\""@ + w + "\" height=\""@ + h
            + "\" viewBox=\"0 0 "@ + vw + seq![' '] + vh + seq!['"'] == root_pieces(w, h, vw, vh),
        "<svg xmlns=\"http://www.w3.org/2000/svg\" width=\""@ + w + "\" height=\""@ + h
            + "\" viewBox=\"0 0 "@ + vw + seq![' '] + vh + seq!['"'] == seq!['<'] + "svg"@
            + root_pieces(w, h, vw, vh),
{
    let xmlns = " xmlns=\"http://www.w3.org/2000/svg\""@;
    let quote = seq!['"'];
    let name = seq!['<'] + "svg"@;
    assert(" xmlns=\"http://www.w3.org/2000/svg\" width=\""@ == xmlns + " width=\""@) by {
        reveal_strlit(" xmlns=\"http://www.w3.org/2000/svg\" width=\"");
        reveal_strlit(" xmlns=\"http://www.w3.org/2000/svg\"");
        reveal_strlit(" width=\"");
        assert(" xmlns=\"http://www.w3.org/2000/svg\" width=\""@ =~= xmlns + " width=\""@);
    }
    assert("<svg xmlns=\"http://www.w3.org/2000/svg\" width=\""@ == name + xmlns + " width=\""@)
        by {
        reveal_strlit("<svg xmlns=\"http://www.w3.org/2000/svg\" width=\"");
        reveal_strlit(" xmlns=\"http://www.w3.org/2000/svg\"");
        reveal_strlit(" width=\"");
        reveal_strlit("svg");
        assert("<svg xmlns=\"http://www.w3.org/2000/svg\" width=\""@ =~= name + xmlns
            + " width=\""@);
    }
    assert("\" height=\""@ == quote + " height=\""@) by {
        reveal_strlit("\" height=\"");
        reveal_strlit(" height=\"");
        assert("\" height=\""@ =~= quote + " height=\""@);
    }
    assert("\" viewBox=\"0 0 "@ == quote + " viewBox=\""@ + "0 0 "@) by {
        reveal_strlit("\" viewBox=\"0 0 ");
        reveal_strlit(" viewBox=\"");
        reveal_strlit("0 0 ");
        assert("\" viewBox=\"0 0 "@ =~= quote + " viewBox=\""@ + "0 0 "@);
    }
    lemma_regrouped(
        xmlns,
        " width=\""@,
        w,
        quote,
        " height=\""@,
        h,
        " viewBox=\""@,
        "0 0 "@,
        vw,
        seq![' '],
        vh,
    );
    lemma_regrouped(
        name + xmlns,
        " width=\""@,
        w,
        quote,
        " height=\""@,
        h,
        " viewBox=\""@,
        "0 0 "@,
        vw,
        seq![' '],
        vh,
    );
    let b = " width=\""@ + w + quote;
    let c = " height=\""@ + h + quote;
    let d = " viewBox=\""@ + ("0 0 "@ + vw + seq![' '] + vh) + quote;
    lemma_append(name, xmlns, b);
    lemma_append(name, xmlns + b, c);
    lemma_append(name, xmlns + b + c, d);
}

proof fn lemma_regrouped(
    a: Seq<char>,
    b: Seq<char>,
    w: Seq<char>,
    q: Seq<char>,
    c: Seq<char>,
    h: Seq<char>,
    d: Seq<char>,
    e: Seq<char>,
    v: Seq<char>,
    f: Seq<char>,
    u: Seq<char>,
)
    ensures
        (a + b) + w + (q + c) + h + (q + d + e) + v + f + u + q == a + (b + w + q) + (c + h + q)
            + (d + (e + v + f + u) + q),
{
    assert((a + b) + w + (q + c) + h + (q + d + e) + v + f + u + q =~= a + (b + w + q) + (c + h + q)
        + (d + (e + v + f + u) + q));
}

#[verifier::spinoff_prover]
#[verifier::rlimit(40)]
proof fn lemma_root_opens(v: SceneView)
    ensures
        scan(v.root_open_text(), outside(seq![])) == outside(seq!["svg"@]),
        grounded(v.root_open_text(), v.named()),
{
    let ids = v.named();
    let dec = v.config.decimals;
    let root = v.final_root();
    let a = root_size_attrs(v.size, v.dpi, v.config.units, dec);
    lemma_root_size(v.size, v.dpi, v.config.units, dec, ids);
    let b = root_family_text(root);
    assert(attributes(b, ids)) by {
        reveal_strlit(" font-family=\"");
        reveal_strlit(" fill=\"");
        reveal_strlit(" stroke=\"");
        reveal_strlit(" clip-path=\"");
        assert(" font-family=\""@[2] == 'o');
        match root.family {
            Some(f) => {
                lemma_attr_text_is_bracketless(f);
                lemma_text_attribute(" font-family=\""@, attr_text(f), ids);
            },
            None => lemma_no_attributes(ids),
        }
    }
    let c = root_font_size_text(root, dec);
    assert(attributes(c, ids)) by {
        reveal_strlit(" font-size=\"");
        if let Some(s) = root.size {
            lemma_number_is_quiet(s, dec);
            lemma_attribute(" font-size=\""@, num_text(s, dec), ids);
        }
        lemma_no_attributes(ids);
    }
    let d = if root.family is Some {
        " xml:space=\"preserve\" style=\"isolation:isolate;white-space:pre\""@
    } else {
        " style=\"isolation:isolate\""@
    };
    assert(attributes(d, ids) && root_style_text(root) == d + seq!['>']) by {
        reveal_strlit(" xml:space=\"preserve\" style=\"isolation:isolate;white-space:pre\"");
        reveal_strlit(" xml:space=\"preserve\" style=\"isolation:isolate;white-space:pre\">");
        reveal_strlit(" style=\"isolation:isolate\"");
        reveal_strlit(" style=\"isolation:isolate\">");
        reveal_strlit(" xml:space=\"preserve\"");
        reveal_strlit(" style=\"isolation:isolate;white-space:pre\"");
        lemma_one_attribute(" style=\"isolation:isolate\""@, 7, ids);
        lemma_one_attribute(" xml:space=\"preserve\""@, 11, ids);
        lemma_one_attribute(" style=\"isolation:isolate;white-space:pre\""@, 7, ids);
        lemma_attributes_joined(
            " xml:space=\"preserve\""@,
            " style=\"isolation:isolate;white-space:pre\""@,
            ids,
        );
        assert(" xml:space=\"preserve\" style=\"isolation:isolate;white-space:pre\""@
            =~= " xml:space=\"preserve\""@ + " style=\"isolation:isolate;white-space:pre\""@);
        assert(root_style_text(root) =~= d + seq!['>']);
    }
    lemma_tag_takes("svg"@, a, b, ids);
    lemma_tag_takes("svg"@, a + b, c, ids);
    lemma_tag_takes("svg"@, a + b + c, d, ids);
    let head = seq!['<'] + "svg"@ + (a + b + c);
    lemma_append(head, d, seq!['>']);
    assert(v.root_open_text() == seq!['<'] + "svg"@ + (a + b + c + d) + seq!['>']);
    assert(element_name("svg"@) && !is_use("svg"@)) by {
        reveal_strlit("svg");
    }
    lemma_scan_start_tag("svg"@, a + b + c + d, seq![], ids);
    lemma_start_tag_is_grounded("svg"@, a + b + c + d, ids);
    assert(Seq::<Seq<char>>::empty().push("svg"@) =~= seq!["svg"@]);
}

proof fn lemma_groups_close(
    text: Seq<char>,
    s: super::markup::Scan,
    n: nat,
    left: nat,
    ids: Seq<Seq<char>>,
    places: Seq<int>,
)
    requires
        scan(text, s) == outside(group_stack(n + left)),
        grounded_at(text, ids, places),
    ensures
        scan(text + closing_text(n), s) == outside(group_stack(left)),
        grounded_at(text + closing_text(n), ids, places),
    decreases n,
{
    if n == 0 {
        assert(text + closing_text(0) =~= text);
    } else {
        let m = (n - 1) as nat;
        assert(n + left == m + (left + 1));
        lemma_groups_close(text, s, m, left + 1, ids, places);
        lemma_group_closes(text + closing_text(m), left + 1, s, ids, places);
        lemma_append(text, closing_text(m), "</g>"@);
    }
}

/// A sound scene serializes to a well-formed document: every tag opened is
/// closed, in order, however many layers and scopes were left open and
/// whatever was still held back.
#[verifier::spinoff_prover]
#[verifier::rlimit(40)]
pub proof fn lemma_document_is_well_formed(v: SceneView)
    requires
        sound(v),
    ensures
        well_formed(v.document()),
        grounded_at(v.document(), v.named(), v.id_places()),
{
    let ids = v.named();
    let dec = v.config.decimals;
    let start = outside(seq![]);
    let svg = seq!["svg"@];
    let open = group_stack(v.groups.len());
    let root = v.root_open_text();
    let defs = defs_text(v.defs, stylesheet_text(v.fonts, v.config.embed_fonts));
    let background = background_text(v.config.background, v.size, dec);
    let block = v.held_block_text();
    let fill = v.held_fill_text();
    lemma_root_opens(v);
    lemma_defs_are_balanced(v.defs, v.fonts, v.config.embed_fonts, ids);
    lemma_background_is_balanced(v.config.background, v.size, dec, ids);
    lemma_block_is_balanced(v.block.runs, dec, v.config.pick_ids, v.targets(), v.root, ids);
    lemma_held_fill_is_balanced(v);
    let style = style_text(stylesheet_text(v.fonts, v.config.embed_fonts));
    let own = shifted(id_places(v.defs, v.defs.len()), 6 + style.len());
    lemma_assembled(root, defs, background, v.body, v.prelude, block, fill, open, ids, own);
    let places = v.id_places();
    assert(shifted(own, root.len()) =~= places);
    let drawn = root + defs + background + v.body + v.prelude + block + fill;
    lemma_groups_close(drawn, start, v.groups.len(), 0, ids, places);
    let closed = drawn + closing_text(v.groups.len());
    assert(group_stack(0) =~= svg);
    lemma_scan_joined(closed, "</svg>"@, start);
    lemma_svg_closes(ids);
    lemma_grounded_at_joined(closed, "</svg>"@, ids, places, seq![]);
    assert(places + shifted(seq![], closed.len()) =~= places);
}

proof fn lemma_held_fill_is_balanced(v: SceneView)
    requires
        sound(v),
    ensures
        balanced(v.held_fill_text(), v.named()),
{
    let ids = v.named();
    match v.pending {
        Some(p) => lemma_pending_is_balanced(
            p,
            v.config.decimals,
            v.config.pick_ids,
            v.targets(),
            ids,
        ),
        None => lemma_content_is_balanced(seq![], ids),
    }
}

proof fn lemma_svg_closes(ids: Seq<Seq<char>>)
    ensures
        scan("</svg>"@, outside(seq!["svg"@])) == outside(seq![]),
        grounded("</svg>"@, ids),
{
    reveal_strlit("</svg>");
    reveal_strlit("</");
    reveal_strlit("svg");
    assert("</svg>"@ =~= "</"@ + "svg"@ + seq!['>']);
    assert(seq!["svg"@] =~= Seq::<Seq<char>>::empty().push("svg"@));
    lemma_scan_end_tag("svg"@, seq![]);
    lemma_end_tag_is_grounded("svg"@, ids);
}

proof fn lemma_assembled(
    root: Seq<char>,
    defs: Seq<char>,
    background: Seq<char>,
    body: Seq<char>,
    prelude: Seq<char>,
    block: Seq<char>,
    fill: Seq<char>,
    open: Seq<Seq<char>>,
    ids: Seq<Seq<char>>,
    own: Seq<int>,
)
    requires
        scan(root, outside(seq![])) == outside(seq!["svg"@]),
        grounded(root, ids),
        balanced_at(defs, ids, own),
        balanced(background, ids),
        scan(body, outside(seq!["svg"@])) == outside(open),
        grounded(body, ids),
        balanced(prelude, ids),
        balanced(block, ids),
        balanced(fill, ids),
    ensures
        scan(root + defs + background + body + prelude + block + fill, outside(seq![])) == outside(
            open,
        ),
        grounded_at(
            root + defs + background + body + prelude + block + fill,
            ids,
            shifted(own, root.len()),
        ),
{
    let start = outside(seq![]);
    let svg = seq!["svg"@];
    let places = shifted(own, root.len());
    lemma_scan_joined(root, defs, start);
    assert(scan(defs, outside(svg)) == outside(svg));
    lemma_grounded_at_joined(root, defs, ids, seq![], own);
    assert(Seq::<int>::empty() + places =~= places);
    lemma_scan_balanced(root + defs, background, start, svg, ids, places);
    let front = root + defs + background;
    lemma_scan_joined(front, body, start);
    lemma_grounded_at_joined(front, body, ids, places, seq![]);
    assert(places + shifted(seq![], front.len()) =~= places);
    lemma_scan_balanced(front + body, prelude, start, open, ids, places);
    lemma_scan_balanced(front + body + prelude, block, start, open, ids, places);
    lemma_scan_balanced(front + body + prelude + block, fill, start, open, ids, places);
}

/// Filling a path leaves the options alone.
pub proof fn lemma_fill_keeps_config(
    v: SceneView,
    rule: FillRule,
    transform: Affine,
    brush: Brush,
    path: Seq<PathEl>,
    pick: PickId,
)
    ensures
        v.filled(rule, transform, brush, path, pick).config == v.config,
{
    reveal(SceneView::filled);
}

/// Drawing a mesh leaves the options alone.
pub proof fn lemma_mesh_keeps_config(
    v: SceneView,
    fills: Seq<MeshFill>,
    n: nat,
    transform: Affine,
    pick: PickId,
)
    requires
        n <= fills.len(),
    ensures
        v.meshed(fills, n, transform, pick).config == v.config,
    decreases n,
{
    if n > 0 {
        let m = (n - 1) as nat;
        lemma_mesh_keeps_config(v, fills, m, transform, pick);
        lemma_fill_keeps_config(
            v.meshed(fills, m, transform, pick),
            FillRule::NonZero,
            transform,
            fills[m as int].brush,
            fills[m as int].path@,
            pick,
        );
    }
}

proof fn lemma_nine_texts(
    a: Seq<char>,
    b: Seq<char>,
    c: Seq<char>,
    d: Seq<char>,
    e: Seq<char>,
    f: Seq<char>,
    g: Seq<char>,
    h: Seq<char>,
    z: Seq<char>,
)
    ensures
        a + b + c + d + e + f + g + h + z == a + b + (c + d + e + f + g + h + z),
        at(a + b + c + d + e + f + g + h + z, (a + b + c + d + e + f + g + h).len() as int, z),
        forall|p: Seq<char>| #[trigger]
            at(a, 0, p) ==> at(a + b + c + d + e + f + g + h + z, 0, p),
{
    let s = a + b + c + d + e + f + g + h + z;
    assert(s =~= a + b + (c + d + e + f + g + h + z));
    let n = (a + b + c + d + e + f + g + h).len() as int;
    assert(s.subrange(n, n + z.len()) =~= z);
    assert forall|p: Seq<char>| #[trigger] at(a, 0, p) implies at(s, 0, p) by {
        assert(s.subrange(0, p.len() as int) =~= a.subrange(0, p.len() as int));
    }
}

/// A document is one `<svg>` element, from its first character to its last.
pub proof fn lemma_document_frame(v: SceneView)
    ensures
        at(v.document(), 0, "<svg "@),
        at(v.document(), v.document().len() - 6, "</svg>"@),
{
    let dec = v.config.decimals;
    assert("</svg>"@.len() == 6) by {
        reveal_strlit("</svg>");
    }
    lemma_nine_texts(
        v.root_open_text(),
        defs_text(v.defs, stylesheet_text(v.fonts, v.config.embed_fonts)),
        background_text(v.config.background, v.size, dec),
        v.body,
        v.prelude,
        v.held_block_text(),
        v.held_fill_text(),
        closing_text(v.groups.len()),
        "</svg>"@,
    );
    assert(at(v.root_open_text(), 0, "<svg "@)) by {
        let root = v.final_root();
        lemma_nine_texts(
            root_size_text(v.size, v.dpi, v.config.units, dec),
            root_family_text(root),
            root_font_size_text(root, dec),
            root_style_text(root),
            seq![],
            seq![],
            seq![],
            seq![],
            seq![],
        );
        lemma_root_starts(v.size, v.dpi, v.config.units, dec);
        let text = root_size_text(v.size, v.dpi, v.config.units, dec) + root_family_text(root)
            + root_font_size_text(root, dec) + root_style_text(root);
        assert(text + seq![] + seq![] + seq![] + seq![] + seq![] =~= text);
    }
}

proof fn lemma_root_starts(size: Size, dpi: Fixed, units: SvgUnits, dec: nat)
    ensures
        at(root_size_text(size, dpi, units, dec), 0, "<svg "@),
{
    let head = "<svg xmlns=\"http://www.w3.org/2000/svg\" width=\""@;
    assert(at(head, 0, "<svg "@)) by {
        reveal_strlit("<svg ");
        reveal_strlit("<svg xmlns=\"http://www.w3.org/2000/svg\" width=\"");
        assert(head.subrange(0, 5) =~= "<svg "@);
    }
    lemma_nine_texts(
        head,
        root_length_text(size.width, dpi, units, dec),
        "\" height=\""@,
        root_length_text(size.height, dpi, units, dec),
        "\" viewBox=\"0 0 "@,
        num_text(size.width, dec),
        seq![' '],
        num_text(size.height, dec),
        seq!['"'],
    );
}

/// Under a prefix without a closing parenthesis, a reference is read as the
/// id it was made with.
pub proof fn lemma_references_are_read_whole(v: SceneView, x: Seq<char>)
    requires
        defs_in_order(v.defs, v.config.prefix),
        readable(v.config.prefix),
        v.named().contains(x),
    ensures
        v.ids().contains(x),
{
    let k = choose|k: int| 0 <= k < v.named().len() && v.named()[k] == x;
    let n = v.defs.len();
    if k < n {
        assert(v.ids()[k] == x);
    } else {
        lemma_id_is_read_whole(v.defs, v.config.prefix, k - n);
        assert(v.ids()[k - n] == x);
    }
}

proof fn lemma_id_is_read_whole(defs: Seq<DefView>, prefix: Seq<char>, i: int)
    requires
        defs_in_order(defs, prefix),
        readable(prefix),
        0 <= i < defs.len(),
    ensures
        read_as(defs[i].id) == defs[i].id,
{
    let id = defs[i].id;
    let tag = kind_tag(defs[i].kind);
    let n = super::paint::kind_count(defs.take(i), defs[i].kind);
    let digits = decimal_text(n);
    assert(id == prefix + tag + digits);
    reveal_strlit("c");
    reveal_strlit("lg");
    reveal_strlit("rg");
    reveal_strlit("im");
    lemma_decimal_text_is_digits(n);
    lemma_first_close(id, 0);
    let k = first_close(id, 0);
    if k < id.len() {
        if k < prefix.len() {
            assert(id[k] == prefix[k]);
        } else if k < prefix.len() + tag.len() {
            assert(id[k] == tag[k - prefix.len()]);
        } else {
            assert(id[k] == digits[k - prefix.len() - tag.len()]);
        }
    }
    assert(read_as(id) =~= id);
}

/// True when a tag of `text` gives the id `id`.
pub open spec fn defines(text: Seq<char>, id: Seq<char>) -> bool {
    exists|i: int| #[trigger] id_at(text, i) && gives(text, i, id)
}

/// True when what stands from `j` to the next closing parenthesis is an id
/// given in `text`.
pub open spec fn names_given(text: Seq<char>, j: int) -> bool {
    exists|k: int| #[trigger] closes(text, j, k) && defines(text, text.subrange(j, k))
}

/// True when what stands from `j` to the next quote is an id given in `text`.
pub open spec fn quotes_given(text: Seq<char>, j: int) -> bool {
    exists|id: Seq<char>| #[trigger] defines(text, id) && at(text, j, id.push('"'))
}

/// True when every id that `text` gives starts with `prefix`, none is given
/// twice, and everything a tag refers to, in a fill, a stroke or a clip or as
/// an image that is used, is an id given in it.
pub open spec fn self_contained(text: Seq<char>, prefix: Seq<char>) -> bool {
    &&& forall|i: int| #[trigger]
        id_at(text, i) ==> exists|id: Seq<char>| #[trigger]
            gives(text, i, id) && prefix.is_prefix_of(id)
    &&& forall|i: int, j: int, id: Seq<char>|
        id_at(text, i) && id_at(text, j) && #[trigger] gives(text, i, id) && #[trigger] gives(
            text,
            j,
            id,
        ) ==> i == j
    &&& forall|i: int|
        (#[trigger] reference_at(text, i)) is Some && in_tag(text, i) ==> names_given(
        text,
        reference_at(text, i)->0,
    )
    &&& forall|i: int| #[trigger]
        at(text, i, "<use href=\"#"@) ==> quotes_given(text, i + 12)
}

/// A definition's id is given at its place.
proof fn lemma_id_is_given(v: SceneView, j: int)
    requires
        sound(v),
        0 <= j < v.defs.len(),
    ensures
        v.id_places().len() == v.defs.len(),
        id_at(v.document(), v.id_places()[j]),
        gives(v.document(), v.id_places()[j], v.defs[j].id),
{
    lemma_document_is_well_formed(v);
    lemma_place_count(v.defs, v.defs.len());
    let style = style_text(stylesheet_text(v.fonts, v.config.embed_fonts));
    let d = v.defs[j];
    let name = kind_element(d.kind);
    let off = v.root_open_text().len() + 6 + style.len() + def_list_text(v.defs, j as nat).len();
    lemma_place(v.defs, v.defs.len(), j);
    let place = v.id_places()[j];
    assert(place == off + 1 + name.len());
    assert(v.id_places().contains(place));
    assert(id_at(v.document(), place)) by {
        reveal(grounded_at);
    }
    lemma_definition_is_written(v, j);
    assert(def_is_sound(d));
    lemma_definition_gives(v.document(), off as int, d);
}

proof fn lemma_definition_gives(text: Seq<char>, off: int, d: DefView)
    requires
        at(text, off, def_text(d)),
        id_safe(d.id),
    ensures
        gives(text, off + 1 + kind_element(d.kind).len(), d.id),
{
    let name = kind_element(d.kind);
    let n = 1 + name.len() as int;
    let part = def_text(d);
    let given = " id=\""@ + d.id.push('"');
    assert(part =~= seq!['<'] + name + given + d.rest);
    assert(part.subrange(n, n + given.len()) =~= given);
    assert(at(part, n, given));
    lemma_at_in_part(text, part, off, off + n, given);
}

proof fn lemma_place_count(defs: Seq<DefView>, n: nat)
    requires
        n <= defs.len(),
    ensures
        id_places(defs, n).len() == n,
    decreases n,
{
    if n > 0 {
        lemma_place_count(defs, (n - 1) as nat);
    }
}

proof fn lemma_place(defs: Seq<DefView>, n: nat, j: int)
    requires
        0 <= j < n <= defs.len(),
    ensures
        id_places(defs, n).len() == n,
        id_places(defs, n)[j] == def_list_text(defs, j as nat).len() + 1 + kind_element(
            defs[j].kind,
        ).len(),
    decreases n,
{
    lemma_place_count(defs, n);
    lemma_place_count(defs, (n - 1) as nat);
    if j < n - 1 {
        lemma_place(defs, (n - 1) as nat, j);
    }
}

/// Every definition of a scene is written in its document, after the
/// stylesheet and the definitions before it.
#[verifier::spinoff_prover]
#[verifier::rlimit(60)]
pub proof fn lemma_definition_is_written(v: SceneView, i: int)
    requires
        0 <= i < v.defs.len(),
    ensures
        at(
            v.document(),
            (v.root_open_text().len() + 6 + style_text(
                stylesheet_text(v.fonts, v.config.embed_fonts),
            ).len() + def_list_text(v.defs, i as nat).len()) as int,
            def_text(v.defs[i]),
        ),
{
    let style = stylesheet_text(v.fonts, v.config.embed_fonts);
    let part = def_text(v.defs[i]);
    let before = 6 + style_text(style).len() + def_list_text(v.defs, i as nat).len();
    lemma_defs_hold(v.defs, style, i);
    lemma_second_text(
        v.root_open_text(),
        defs_text(v.defs, style),
        background_text(v.config.background, v.size, v.config.decimals),
        v.body,
        v.prelude,
        v.held_block_text(),
        v.held_fill_text(),
        closing_text(v.groups.len()),
        "</svg>"@,
        before as int,
        part,
    );
}

proof fn lemma_second_text(
    a: Seq<char>,
    b: Seq<char>,
    c: Seq<char>,
    d: Seq<char>,
    e: Seq<char>,
    f: Seq<char>,
    g: Seq<char>,
    h: Seq<char>,
    z: Seq<char>,
    i: int,
    part: Seq<char>,
)
    requires
        at(b, i, part),
    ensures
        at(a + b + c + d + e + f + g + h + z, a.len() + i, part),
{
    lemma_nine_texts(a, b, c, d, e, f, g, h, z);
    lemma_middle(a, b, c + d + e + f + g + h + z, i, part);
}

proof fn lemma_defs_hold(defs: Seq<DefView>, style: Option<Seq<char>>, i: int)
    requires
        0 <= i < defs.len(),
    ensures
        at(
            defs_text(defs, style),
            (6 + style_text(style).len() + def_list_text(defs, i as nat).len()) as int,
            def_text(defs[i]),
        ),
{
    let list = def_list_text(defs, defs.len());
    let before = def_list_text(defs, i as nat).len() as int;
    let head = "<defs>"@ + style_text(style);
    assert(head.len() == 6 + style_text(style).len()) by {
        reveal_strlit("<defs>");
    }
    lemma_list_holds(defs, defs.len(), i);
    lemma_middle(head, list, "</defs>"@, before, def_text(defs[i]));
}

/// What stands in a text stands in a longer one, further on.
proof fn lemma_middle(a: Seq<char>, b: Seq<char>, c: Seq<char>, i: int, part: Seq<char>)
    requires
        at(b, i, part),
    ensures
        at(a + b + c, a.len() + i, part),
{
    let s = a + b + c;
    let n = a.len() as int;
    assert(b =~= s.subrange(n, n + b.len()));
    lemma_at_in_part(s, b, n, n + i, part);
}

proof fn lemma_list_holds(defs: Seq<DefView>, n: nat, i: int)
    requires
        0 <= i < n <= defs.len(),
    ensures
        at(def_list_text(defs, n), def_list_text(defs, i as nat).len() as int, def_text(defs[i])),
    decreases n,
{
    let m = (n - 1) as nat;
    let before = def_list_text(defs, m);
    let last = def_text(defs[m as int]);
    let list = before + last;
    if i == m {
        assert(list.subrange(before.len() as int, (before.len() + last.len()) as int) =~= last);
    } else {
        lemma_list_holds(defs, m, i);
        assert(before =~= list.subrange(0, before.len() as int));
        lemma_at_in_part(
            list,
            before,
            0,
            def_list_text(defs, i as nat).len() as int,
            def_text(defs[i]),
        );
    }
}

/// An id given at one place is one id.
proof fn lemma_given_once(text: Seq<char>, i: int, x: Seq<char>, y: Seq<char>)
    requires
        gives(text, i, x),
        gives(text, i, y),
    ensures
        x == y,
{
    reveal_strlit(" id=\"");
    let a = " id=\""@ + x.push('"');
    let b = " id=\""@ + y.push('"');
    if x.len() < y.len() {
        lemma_pattern(text, i, a, 5 + x.len() as int);
        lemma_pattern(text, i, b, 5 + x.len() as int);
        assert(y[x.len() as int] == '"');
    }
    if y.len() < x.len() {
        lemma_pattern(text, i, a, 5 + y.len() as int);
        lemma_pattern(text, i, b, 5 + y.len() as int);
        assert(x[y.len() as int] == '"');
    }
    assert forall|m: int| 0 <= m < x.len() implies x[m] == y[m] by {
        lemma_pattern(text, i, a, 5 + m);
        lemma_pattern(text, i, b, 5 + m);
    }
    assert(x =~= y);
}

/// The document of a sound scene is self-contained: every id it gives is that
/// of a definition, starts with the prefix and is given once, and everything
/// it refers to is given in it.
pub proof fn lemma_document_is_self_contained(v: SceneView)
    requires
        sound(v),
        readable(v.config.prefix),
    ensures
        self_contained(v.document(), v.config.prefix),
{
    let text = v.document();
    let prefix = v.config.prefix;
    lemma_document_is_well_formed(v);
    reveal(grounded_at);
    lemma_place_count(v.defs, v.defs.len());
    assert forall|i: int| #[trigger] id_at(text, i) implies exists|id: Seq<char>| #[trigger]
        gives(text, i, id) && prefix.is_prefix_of(id) by {
        let j = lemma_defined_where(v, i);
        lemma_ids_carry_the_prefix(v.defs, prefix, j);
    }
    assert forall|i: int, j: int, id: Seq<char>|
        id_at(text, i) && id_at(text, j) && #[trigger] gives(text, i, id) && #[trigger] gives(
            text,
            j,
            id,
        ) implies i == j by {
        let m = lemma_defined_where(v, i);
        let n = lemma_defined_where(v, j);
        lemma_given_once(text, i, id, v.defs[m].id);
        lemma_given_once(text, j, id, v.defs[n].id);
        lemma_ids_are_unique(v.defs, prefix, m, n);
    }
    assert forall|i: int| (#[trigger] reference_at(text, i)) is Some && in_tag(
        text,
        i,
    ) implies names_given(text, reference_at(text, i)->0) by {
        let from = reference_at(text, i)->0;
        let k = choose|k: int| #[trigger]
            closes(text, from, k) && v.named().contains(text.subrange(from, k));
        lemma_references_are_read_whole(v, text.subrange(from, k));
        lemma_known_is_defined(v, text.subrange(from, k));
    }
    assert forall|i: int| #[trigger] at(text, i, "<use href=\"#"@) implies quotes_given(
        text,
        i + 12,
    ) by {
        let id = choose|x: Seq<char>|
            v.named().contains(x) && quoteless(x) && #[trigger] at(text, i + 12, x.push('"'));
        lemma_references_are_read_whole(v, id);
        lemma_known_is_defined(v, id);
    }
}

/// Which definition gives the id at a place.
proof fn lemma_defined_where(v: SceneView, i: int) -> (j: int)
    requires
        sound(v),
        id_at(v.document(), i),
    ensures
        0 <= j < v.defs.len(),
        v.id_places().len() == v.defs.len(),
        v.id_places()[j] == i,
        gives(v.document(), i, v.defs[j].id),
{
    lemma_document_is_well_formed(v);
    lemma_place_count(v.defs, v.defs.len());
    assert(v.id_places().contains(i)) by {
        reveal(grounded_at);
    }
    let j = choose|j: int| 0 <= j < v.id_places().len() && v.id_places()[j] == i;
    lemma_id_is_given(v, j);
    j
}

proof fn lemma_known_is_defined(v: SceneView, id: Seq<char>)
    requires
        sound(v),
        v.ids().contains(id),
    ensures
        defines(v.document(), id),
{
    let j = choose|j: int| 0 <= j < v.ids().len() && v.ids()[j] == id;
    lemma_id_is_given(v, j);
    assert(v.defs[j].id == id);
}

/// A path filled and at once stroked under the same transform is one element
/// carrying both paints, picked as the fill was.
pub proof fn lemma_fill_and_stroke_are_one_element(
    v: SceneView,
    rule: FillRule,
    transform: Affine,
    fill: Brush,
    stroke: Stroke,
    line: Brush,
    path: Seq<PathEl>,
    pick: PickId,
    other: PickId,
)
    requires
        !v.block_open(),
        path.len() > 0,
    ensures
        ({
            let ready = v.settled();
            let done = v.filled(rule, transform, fill, path, pick).stroked(
                stroke,
                transform,
                line,
                path,
                other,
            );
            &&& done.pending is None
            &&& done.groups == v.groups
            &&& done.body == ready.body + stroked_text(
                path,
                Some((ready.paint_of(fill), rule)),
                stroke,
                ready.with_brush(fill).paint_of(line),
                transform,
                v.config.decimals,
                pick_text(pick, v.config.pick_ids, v.targets()),
            )
        }),
{
    reveal(SceneView::filled);
    let ready = v.settled();
    let held = v.filled(rule, transform, fill, path, pick);
    assert(held.flushed_block().body =~= held.body) by {
        crate::text::lemma_append_nothing(held.body);
    }
}

/// A path stroked after another one was filled stays an element of its own:
/// the fill is written first, by itself.
pub proof fn lemma_stroke_of_another_path_stays_apart(
    v: SceneView,
    rule: FillRule,
    transform: Affine,
    fill: Brush,
    stroke: Stroke,
    line: Brush,
    filled: Seq<PathEl>,
    stroked: Seq<PathEl>,
    pick: PickId,
    other: PickId,
)
    requires
        !v.block_open(),
        filled.len() > 0,
        stroked.len() > 0,
        filled != stroked,
    ensures
        ({
            let held = v.filled(rule, transform, fill, filled, pick);
            let done = held.stroked(stroke, transform, line, stroked, other);
            &&& done.pending is None
            &&& done.body == held.flushed_pending().body + stroked_text(
                stroked,
                None,
                stroke,
                held.flushed_pending().paint_of(line),
                transform,
                v.config.decimals,
                pick_text(other, v.config.pick_ids, v.targets()),
            )
        }),
{
    reveal(SceneView::filled);
    let held = v.filled(rule, transform, fill, filled, pick);
    assert(held.flushed_block().body =~= held.body) by {
        crate::text::lemma_append_nothing(held.body);
    }
    assert(held.flushed_block() =~= held);
}

/// A layer that is opened and closed again leaves the groups around it as
/// they were, and the pop is not reported.
#[verifier::spinoff_prover]
#[verifier::rlimit(60)]
pub proof fn lemma_layer_round_trip(
    v: SceneView,
    blend: BlendMode,
    alpha: Fixed,
    transform: Affine,
    clip: Seq<PathEl>,
)
    ensures
        v.layer_pushed(blend, alpha, transform, clip).layer_popped().groups == v.groups,
        v.layer_pushed(blend, alpha, transform, clip).layer_popped().warnings == v.layer_pushed(
            blend,
            alpha,
            transform,
            clip,
        ).warnings,
{
    let pushed = v.layer_pushed(blend, alpha, transform, clip);
    assert(pushed.groups == v.groups.push(GroupKind::Layer));
    assert(v.groups.push(GroupKind::Layer).drop_last() =~= v.groups);
    assert(pushed.settled().groups == pushed.groups);
    assert(pushed.settled().warnings == pushed.warnings);
}

/// A layer that is left open is closed at write time and reported; while
/// none is, nothing is added to what was reported anyway.
pub proof fn lemma_open_layers_are_reported(
    v: SceneView,
    blend: BlendMode,
    alpha: Fixed,
    transform: Affine,
    clip: Seq<PathEl>,
)
    requires
        sound(v),
    ensures
        v.layer_pushed(blend, alpha, transform, clip).reported().contains(
            SvgWarning::UnbalancedLayers,
        ),
        !v.leaves_a_layer_open() ==> v.reported() == v.warnings,
        v.reported().no_duplicates(),
{
    lemma_noting_keeps_warnings_unique(v.warnings, SvgWarning::UnbalancedLayers);
    let after = v.layer_pushed(blend, alpha, transform, clip);
    assert(after.groups.last() == GroupKind::Layer);
    lemma_settled_is_sound(v);
    lemma_noting_keeps_warnings_unique(v.settled().warnings, SvgWarning::UnsupportedCompose);
    lemma_noting_keeps_warnings_unique(after.warnings, SvgWarning::UnbalancedLayers);
}

/// A pick scope that is opened and closed again leaves the groups and the
/// scope modes around it as they were, and the pop is not reported.
pub proof fn lemma_scope_round_trip(v: SceneView, scope: PickScope)
    requires
        v.config.pick_ids,
    ensures
        v.scope_pushed(scope).scope_popped().groups == v.groups,
        v.scope_pushed(scope).scope_popped().scope_modes == v.scope_modes,
        v.scope_pushed(scope).scope_popped().warnings == v.warnings,
{
    assert(v.groups.push(GroupKind::Scope).drop_last() =~= v.groups);
    assert(v.scope_modes.push(scope.mode).drop_last() =~= v.scope_modes);
}

/// While picking is off, scopes leave no trace at all.
pub proof fn lemma_scopes_without_picking_leave_no_trace(v: SceneView, scope: PickScope)
    requires
        !v.config.pick_ids,
    ensures
        v.scope_pushed(scope) == v,
        v.scope_popped() == v,
{
}

/// A rule that the open text block declared as a decoration is not drawn a
/// second time, and does not end the block.
pub proof fn lemma_declared_rule_is_not_drawn_again(
    v: SceneView,
    rule: FillRule,
    transform: Affine,
    brush: Brush,
    path: Seq<PathEl>,
    pick: PickId,
)
    requires
        v.block_open(),
        rect_of(path, transform) is Some,
        claims(v.block.runs, rect_of(path, transform)->0),
    ensures
        v.filled(rule, transform, brush, path, pick) == v,
{
    reveal(SceneView::filled);
}

/// A decoration that the shaper draws where a run of the open block said it
/// would be is written once: as the decoration, and not as a shape.
pub proof fn lemma_predicted_decoration_is_written_once(
    v: SceneView,
    i: int,
    j: int,
    rule: FillRule,
    brush: Brush,
    pick: PickId,
)
    requires
        0 <= i < v.block.runs.len(),
        0 <= j < v.block.runs[i].rules.len(),
        v.block.runs[i].rules[j].x0.nanos <= v.block.runs[i].rules[j].x1.nanos,
        v.block.runs[i].rules[j].y0.nanos <= v.block.runs[i].rules[j].y1.nanos,
    ensures
        v.filled(rule, identity(), brush, rect_path(v.block.runs[i].rules[j]), pick) == v,
{
    let r = v.block.runs[i].rules[j];
    lemma_rect_outline_is_recognized(r);
    assert(same_rule(v.block.runs[i].rules[j], r));
    assert(rule_listed(v.block.runs[i].rules, r));
    assert(claims(v.block.runs, r));
    lemma_declared_rule_is_not_drawn_again(v, rule, identity(), brush, rect_path(r), pick);
}

/// Popping a scope while a layer is innermost, or the other way round,
/// closes nothing and is reported.
pub proof fn lemma_interleaved_pops_close_nothing(v: SceneView)
    requires
        v.config.pick_ids,
    ensures
        v.groups.len() > 0 && v.groups.last() == GroupKind::Layer ==> v.scope_popped().groups
            == v.groups && v.scope_popped().body == v.settled().body
            && v.scope_popped().warnings.contains(SvgWarning::UnbalancedScopes),
        v.groups.len() > 0 && v.groups.last() == GroupKind::Scope ==> v.layer_popped().groups
            == v.groups && v.layer_popped().body == v.settled().body
            && v.layer_popped().warnings.contains(SvgWarning::UnbalancedLayers),
{
    lemma_noted_is_there(v.warnings, SvgWarning::UnbalancedScopes);
    lemma_noted_is_there(v.warnings, SvgWarning::UnbalancedLayers);
}

proof fn lemma_noted_is_there(seen: Seq<SvgWarning>, w: SvgWarning)
    ensures
        noted(seen, w).contains(w),
{
    if !seen.contains(w) {
        assert(seen.push(w)[seen.len() as int] == w);
    }
}

/// With faces inlined, drawing text either inlines the face or reports that
/// it could not.
pub proof fn lemma_embedding_inlines_or_reports(v: SceneView, run: GlyphRun, pick: PickId)
    requires
        v.config.embed_fonts,
        v.config.text == super::config::TextMode::Text,
        run.source is Some,
        run.glyphs@.len() > 0,
    ensures
        ({
            let after = v.glyphs_drawn(run, pick);
            match run.face.rule {
                Some(rule) => after.fonts.contains(rule@),
                None => after.warnings.contains(SvgWarning::FontNotEmbeddable),
            }
        }),
{
    let ready = v.flushed_pending();
    let painted = ready.with_brush(run.brush);
    lemma_noted_is_there(painted.warnings, SvgWarning::FontNotEmbeddable);
    if let Some(rule) = run.face.rule {
        let after = faces_noted(painted.fonts, Some(rule@));
        if !painted.fonts.contains(rule@) {
            assert(after[painted.fonts.len() as int] == rule@);
        }
    }
}

/// A run without source text, in either mode, is drawn as contours or
/// reported: it is never dropped in silence.
pub proof fn lemma_run_without_source_is_drawn_or_reported(
    v: SceneView,
    run: GlyphRun,
    pick: PickId,
)
    requires
        run.source is None,
    ensures
        ({
            let before = v.flushed_pending().flushed_block();
            let after = v.glyphs_drawn(run, pick);
            match run.outline {
                Some(path) => after.body == before.body + outline_text(
                    path_text(path@, v.config.decimals),
                    run.style,
                    before.paint_of(run.brush),
                    run.transform,
                    v.config.decimals,
                    pick_text(pick, v.config.pick_ids, v.targets()),
                ),
                None => after.warnings.contains(SvgWarning::TextWithoutSource),
            }
        }),
{
    let before = v.flushed_pending().flushed_block();
    lemma_noted_is_there(before.warnings, SvgWarning::TextWithoutSource);
}

/// True when chrome is held back for an open text block alone.
pub open spec fn held_in_order(v: SceneView) -> bool {
    v.block.runs.len() == 0 ==> v.prelude.len() == 0
}

/// Drawing a stroke holds nothing back out of order.
pub proof fn lemma_stroke_is_held_in_order(
    v: SceneView,
    stroke: Stroke,
    transform: Affine,
    brush: Brush,
    path: Seq<PathEl>,
    pick: PickId,
)
    requires
        held_in_order(v),
    ensures
        held_in_order(v.stroked(stroke, transform, brush, path, pick)),
{
}

/// Drawing a fill holds nothing back out of order.
pub proof fn lemma_fill_is_held_in_order(
    v: SceneView,
    rule: FillRule,
    transform: Affine,
    brush: Brush,
    path: Seq<PathEl>,
    pick: PickId,
)
    requires
        held_in_order(v),
    ensures
        held_in_order(v.filled(rule, transform, brush, path, pick)),
{
    reveal(SceneView::filled);
}

/// Drawing a mesh holds nothing back out of order.
pub proof fn lemma_mesh_is_held_in_order(
    v: SceneView,
    fills: Seq<MeshFill>,
    n: nat,
    transform: Affine,
    pick: PickId,
)
    requires
        n <= fills.len(),
    ensures
        held_in_order(v.meshed(fills, n, transform, pick)),
    decreases n,
{
    if n > 0 {
        let m = (n - 1) as nat;
        lemma_mesh_is_held_in_order(v, fills, m, transform, pick);
        lemma_fill_is_held_in_order(
            v.meshed(fills, m, transform, pick),
            FillRule::NonZero,
            transform,
            fills[m as int].brush,
            fills[m as int].path@,
            pick,
        );
    }
}

/// Drawing text holds nothing back out of order.
pub proof fn lemma_glyphs_are_held_in_order(v: SceneView, run: GlyphRun, pick: PickId)
    requires
        held_in_order(v),
    ensures
        held_in_order(v.glyphs_drawn(run, pick)),
{
    let ready = v.flushed_pending();
    if let Some(src) = run.source {
        if v.config.text == TextMode::Text && run.glyphs@.len() > 0 {
            let entry = run_view(run, src, pick, ready.paint_of(run.brush), v.config.embed_fonts);
            let open = if super::text::accepts_run(v.block, entry.group, entry.transform) {
                v.block
            } else {
                v.flushed_block().block
            };
            lemma_first_same_spot_is_in_range(open.runs, entry, 0);
            assert(block_with(open, entry).runs.len() > 0);
            assert(v.glyphs_drawn(run, pick).block == block_with(open, entry));
        }
    }
}

} // verus!
