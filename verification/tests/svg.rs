//! The SVG emitter, end to end.
//!
//! Assertions are on emitted structure rather than on a golden byte baseline,
//! except where a formula has one exact answer.

use hephaestus::color::Color;
use hephaestus::fixed::Fixed;
use hephaestus::geometry::{axis_aligned_rect, Affine, FillRule, Path, PathEl, Point, Rect, Size};
use hephaestus::svg::attrs::{Cap, PickId, PickScope, Stroke};
use hephaestus::svg::config::{SvgConfig, SvgUnits, SvgWarning, TextMode};
use hephaestus::svg::font::{
    family_list, FontFamilyEntry, FontFeatureSetting, FontSpec, FontStyleKind,
    FontVariationSetting, GenericFamilyKind,
};
use hephaestus::svg::fragment::{Attributes, DefBody, FaceRule};
use hephaestus::svg::model::{BlendMode, Compose, ImageSource, MeshFill, Mix};
use hephaestus::svg::paint::{Brush, DefKind, PaintSource};
use hephaestus::svg::scene::{encode_svg, SvgScene};
use hephaestus::svg::text::{Face, GlyphRun, Link, Rule, TextGroup, TextSource};

const W: f64 = 320.0;
const H: f64 = 200.0;

/// A number, as near as the library's own can come to it.
fn fx(x: f64) -> Fixed {
    Fixed {
        nanos: (x * 1e9).round() as i64,
    }
}

fn size() -> Size {
    Size {
        width: fx(W),
        height: fx(H),
    }
}

fn scene() -> SvgScene {
    SvgScene::new(size(), fx(96.0))
}

fn scene_with(config: SvgConfig) -> SvgScene {
    SvgScene::with_config(size(), fx(96.0), config)
}

fn rect_path(x0: f64, y0: f64, x1: f64, y1: f64) -> Path {
    Path::rect(Rect {
        x0: fx(x0),
        y0: fx(y0),
        x1: fx(x1),
        y1: fx(y1),
    })
}

fn black() -> Brush {
    Brush {
        source: PaintSource::Flat(Color::gray(fx(0.0))),
        warning: None,
    }
}

fn attributes(text: &str) -> Attributes {
    Attributes::new(text).expect("a list of attributes")
}

/// The outline of every run: a triangle.
fn triangle() -> Path {
    let mut p = Path::new();
    for el in [
        PathEl::MoveTo(Point { x: fx(0.0), y: fx(0.0) }),
        PathEl::LineTo(Point { x: fx(1.0), y: fx(0.0) }),
        PathEl::LineTo(Point { x: fx(1.0), y: fx(1.0) }),
        PathEl::ClosePath,
    ] {
        p.push(el);
    }
    p
}

/// A black to white gradient that ends at `end`.
fn gradient(end: f64) -> Brush {
    Brush {
        source: PaintSource::Server(DefBody::new(
            DefKind::LinearGradient,
            &attributes(&format!(" x1=\"0\" y1=\"0\" x2=\"{end}\" y2=\"0\"")),
            &vec![
                attributes(" offset=\"0\" stop-color=\"#000000\""),
                attributes(" offset=\"1\" stop-color=\"#ffffff\""),
            ],
        )),
        warning: None,
    }
}

/// A sweep gradient, which comes to a flat color and a warning.
fn sweep() -> Brush {
    Brush {
        source: PaintSource::Flat(Color::gray(fx(0.5))),
        warning: Some(SvgWarning::SweepGradient),
    }
}

fn font(families: Vec<FontFamilyEntry>) -> FontSpec {
    FontSpec {
        families,
        weight: 400,
        style: FontStyleKind::Normal,
        width: fx(1.0),
        tracking: fx(0.0),
        size_pt: fx(12.0),
        features: vec![],
        variations: vec![],
    }
}

fn sans() -> FontSpec {
    font(vec![FontFamilyEntry::Generic(GenericFamilyKind::SansSerif)])
}

fn named(family: &str) -> FontSpec {
    font(vec![FontFamilyEntry::Named(family.to_string())])
}

/// A run of `text` at `(x, y)` in the group `group`.
fn run_in(group: u64, text: &str, x: f64, y: f64, spec: FontSpec) -> GlyphRun {
    GlyphRun {
        glyphs: vec![Point { x: fx(x), y: fx(y) }],
        source: Some(TextSource {
            group: TextGroup { id: group },
            text: text.to_string(),
            advance: fx(6.0 * text.chars().count() as f64),
            font: spec,
            rtl: false,
            link: None,
            underline: None,
            strikethrough: None,
        }),
        brush: black(),
        brush_alpha: fx(1.0),
        style: None,
        font_size: fx(12.0),
        transform: Affine::identity(),
        face: Face {
            family: Some("Resolved Sans".to_string()),
            rule: None,
        },
        outline: Some(triangle()),
    }
}

/// Draw one label as a block of its own.
fn draw_label(s: &mut SvgScene, group: u64, text: &str, x: f64, y: f64, spec: FontSpec) {
    s.draw_glyphs(&run_in(group, text, x, y, spec), PickId::Skip);
}

/// Every tag opened is closed, in order, and the document ends balanced.
fn assert_well_formed(svg: &str) {
    let mut stack: Vec<&str> = Vec::new();
    let bytes = svg.as_bytes();
    let mut i = 0;
    while i < bytes.len() {
        if bytes[i] != b'<' {
            i += 1;
            continue;
        }
        if svg[i..].starts_with("<![CDATA[") {
            match svg[i..].find("]]>") {
                Some(j) => {
                    i += j + 3;
                    continue;
                }
                None => panic!("unterminated CDATA"),
            }
        }
        let end = svg[i..].find('>').expect("unterminated tag") + i;
        let inner = &svg[i + 1..end];
        if let Some(name) = inner.strip_prefix('/') {
            let open = stack.pop().expect("an end tag with nothing open");
            assert_eq!(open, name.trim(), "mismatched close tag");
        } else if !inner.ends_with('/') && !inner.starts_with('?') && !inner.starts_with('!') {
            let name = inner.split_whitespace().next().unwrap_or(inner);
            stack.push(name);
        }
        i = end + 1;
    }
    assert!(stack.is_empty(), "unclosed tags: {stack:?}");
}

fn fill(s: &mut SvgScene, path: &Path, pick: PickId) {
    s.fill(FillRule::NonZero, Affine::identity(), &black(), path, pick);
}

#[test]
fn a_scene_of_every_primitive_produces_a_well_formed_document() {
    let mut s = scene();
    let r = rect_path(10.0, 10.0, 90.0, 60.0);
    fill(&mut s, &r, PickId::Id(3));
    s.stroke(
        &Stroke::new(fx(2.0)),
        Affine::identity(),
        &black(),
        &r,
        PickId::Id(3),
    );
    s.push_layer(BlendMode::default(), fx(0.5), Affine::identity(), &r);
    s.fill(
        FillRule::EvenOdd,
        Affine::identity(),
        &black(),
        &r,
        PickId::Skip,
    );
    s.pop_layer();
    draw_label(&mut s, 1, "hello", 5.0, 90.0, sans());

    let svg = encode_svg(&s);
    assert_well_formed(&svg);
    assert!(svg.starts_with("<svg "));
    assert!(svg.ends_with("</svg>"));
    assert!(svg.contains("fill-rule=\"evenodd\""), "{svg}");
    assert!(svg.contains(" opacity=\"0.5\""), "{svg}");
}

#[test]
fn unbalanced_layers_are_closed_rather_than_left_open() {
    let mut s = scene();
    let r = rect_path(0.0, 0.0, 10.0, 10.0);
    s.push_layer(BlendMode::default(), fx(1.0), Affine::identity(), &r);
    s.push_layer(BlendMode::default(), fx(1.0), Affine::identity(), &r);
    // Never popped.
    let svg = encode_svg(&s);
    assert_well_formed(&svg);
    assert!(svg.ends_with("</g></g></svg>"), "{svg}");
    assert_eq!(s.warnings(), vec![SvgWarning::UnbalancedLayers]);
    s.pop_layer();
    s.pop_layer();
    assert!(s.warnings().is_empty());
}

#[test]
fn popping_more_layers_than_were_pushed_is_reported_not_fatal() {
    let mut s = scene();
    s.pop_layer();
    assert!(s.warnings().contains(&SvgWarning::UnbalancedLayers));
    assert_well_formed(&encode_svg(&s));
}

#[test]
fn every_referenced_id_is_defined_exactly_once() {
    let mut s = scene();
    let r = rect_path(10.0, 10.0, 90.0, 60.0);
    for i in 0..3 {
        let clip = rect_path(i as f64, 0.0, 50.0, 50.0);
        s.push_layer(BlendMode::default(), fx(1.0), Affine::identity(), &clip);
        s.fill(
            FillRule::NonZero,
            Affine::identity(),
            &gradient(10.0 * i as f64 + 1.0),
            &r,
            PickId::Skip,
        );
        s.pop_layer();
    }
    let svg = encode_svg(&s);

    let defined: Vec<&str> = svg
        .match_indices(" id=\"")
        .map(|(i, _)| {
            let rest = &svg[i + 5..];
            &rest[..rest.find('"').unwrap()]
        })
        .collect();
    assert_eq!(defined.len(), 6, "{defined:?}");
    let mut sorted = defined.clone();
    sorted.sort_unstable();
    let before = sorted.len();
    sorted.dedup();
    assert_eq!(before, sorted.len(), "an id was defined twice: {defined:?}");

    for (i, _) in svg.match_indices("url(#") {
        let rest = &svg[i + 5..];
        let id = &rest[..rest.find(')').unwrap()];
        assert!(defined.contains(&id), "url(#{id}) resolves to nothing");
    }
}

#[test]
fn two_renders_of_one_scene_are_byte_identical() {
    let build = || {
        let mut s = scene();
        let r = rect_path(10.0, 10.0, 90.0, 60.0);
        for i in 0..8 {
            s.fill(
                FillRule::NonZero,
                Affine::identity(),
                &gradient(i as f64 + 1.0),
                &r,
                PickId::Skip,
            );
            let clip = rect_path(0.0, i as f64, 50.0, 50.0);
            s.push_layer(BlendMode::default(), fx(1.0), Affine::identity(), &clip);
            s.pop_layer();
        }
        encode_svg(&s)
    };
    assert_eq!(build(), build());
}

#[test]
fn clear_really_resets_the_scene() {
    let r = rect_path(10.0, 10.0, 90.0, 60.0);

    let mut used = scene();
    used.fill(
        FillRule::NonZero,
        Affine::identity(),
        &gradient(5.0),
        &r,
        PickId::Skip,
    );
    used.push_layer(BlendMode::default(), fx(1.0), Affine::identity(), &r);
    draw_label(&mut used, 1, "discarded", 1.0, 2.0, sans());
    used.clear();
    fill(&mut used, &r, PickId::Skip);

    let mut fresh = scene();
    fill(&mut fresh, &r, PickId::Skip);

    assert_eq!(encode_svg(&used), encode_svg(&fresh));
}

#[test]
fn clearing_inside_a_target_scope_leaves_no_scope_behind() {
    let r = rect_path(10.0, 10.0, 90.0, 60.0);
    let mut used = scene_with(SvgConfig::new().pick_ids(true));
    used.push_pick_scope(&PickScope::target("part"));
    used.clear();
    fill(&mut used, &r, PickId::Skip);

    let mut fresh = scene_with(SvgConfig::new().pick_ids(true));
    fill(&mut fresh, &r, PickId::Skip);
    assert_eq!(encode_svg(&used), encode_svg(&fresh));
    assert!(encode_svg(&used).contains("pointer-events=\"none\""));
}

#[test]
fn no_coordinate_is_written_in_scientific_notation_or_as_a_non_number() {
    let mut s = scene();
    let mut p = Path::new();
    p.push(PathEl::MoveTo(Point {
        x: fx(1e-9),
        y: fx(3.0),
    }));
    p.push(PathEl::LineTo(Point {
        x: fx(1e18),
        y: fx(f64::NAN),
    }));
    p.push(PathEl::LineTo(Point {
        x: fx(f64::INFINITY),
        y: fx(2.0),
    }));
    p.push(PathEl::ClosePath);
    fill(&mut s, &p, PickId::Skip);
    let svg = encode_svg(&s);

    for bad in ["NaN", "nan", "inf", "Infinity"] {
        assert!(!svg.contains(bad), "{bad:?} reached the document: {svg}");
    }
    let b = svg.as_bytes();
    for i in 1..b.len().saturating_sub(1) {
        if (b[i] == b'e' || b[i] == b'E') && b[i - 1].is_ascii_digit() {
            let next = b[i + 1];
            assert!(
                !(next == b'+' || next == b'-' || next.is_ascii_digit()),
                "exponent notation at byte {i}"
            );
        }
    }
    assert_well_formed(&svg);
}

#[test]
fn root_attributes_describe_the_requested_size() {
    let s = scene();
    let svg = encode_svg(&s);
    assert!(svg.contains("width=\"320\""), "{svg}");
    assert!(svg.contains("height=\"200\""), "{svg}");
    assert!(svg.contains("viewBox=\"0 0 320 200\""), "{svg}");

    // Points: the physical size changes, the coordinate system does not.
    let s = SvgScene::with_config(size(), fx(192.0), SvgConfig::new().units(SvgUnits::Pt));
    let svg = encode_svg(&s);
    assert!(svg.contains("width=\"120pt\""), "{svg}");
    assert!(svg.contains("height=\"75pt\""), "{svg}");
    assert!(svg.contains("viewBox=\"0 0 320 200\""), "{svg}");
}

#[test]
fn an_empty_scene_is_a_root_element_and_nothing_else() {
    assert_eq!(
        encode_svg(&scene()),
        "<svg xmlns=\"http://www.w3.org/2000/svg\" width=\"320\" height=\"200\" \
         viewBox=\"0 0 320 200\" style=\"isolation:isolate\"></svg>"
    );
}

#[test]
fn a_resolution_of_zero_leaves_no_physical_size() {
    let s = SvgScene::with_config(size(), fx(0.0), SvgConfig::new().units(SvgUnits::Pt));
    assert!(encode_svg(&s).contains("width=\"0pt\""));
}

#[test]
fn set_size_keeps_what_was_drawn() {
    let mut s = scene();
    fill(&mut s, &rect_path(1.0, 1.0, 2.0, 2.0), PickId::Skip);
    s.set_size(
        Size {
            width: fx(10.0),
            height: fx(20.0),
        },
        fx(96.0),
    );
    assert_eq!(s.size().width, fx(10.0));
    let svg = encode_svg(&s);
    assert!(svg.contains("viewBox=\"0 0 10 20\""), "{svg}");
    assert!(svg.contains("<path"), "{svg}");
}

#[test]
fn a_background_is_one_rect_behind_everything() {
    let paper = Color {
        red: fx(1.0),
        green: fx(0.5),
        blue: fx(0.0),
        alpha: fx(0.25),
    };
    let mut s = scene_with(SvgConfig::new().background(Some(paper)));
    fill(&mut s, &rect_path(1.0, 1.0, 2.0, 2.0), PickId::Skip);
    let svg = encode_svg(&s);
    assert!(
        svg.contains(
            "<rect width=\"320\" height=\"200\" fill=\"#ff8000\" fill-opacity=\"0.25\"/><path"
        ),
        "{svg}"
    );
}

#[test]
fn an_id_prefix_keeps_two_documents_from_colliding_on_one_page() {
    let mut s = scene_with(SvgConfig::new().id_prefix("plot2-"));
    let clip = rect_path(0.0, 0.0, 10.0, 10.0);
    s.push_layer(BlendMode::default(), fx(1.0), Affine::identity(), &clip);
    s.pop_layer();
    let svg = encode_svg(&s);
    assert!(svg.contains("id=\"plot2-c0\""), "{svg}");
    assert!(svg.contains("url(#plot2-c0)"), "{svg}");
}

#[test]
fn two_identically_clipped_layers_share_one_definition() {
    let mut s = scene();
    let near = rect_path(0.0, 0.0, 10.0, 10.0);
    let far = rect_path(5.0, 0.0, 15.0, 10.0);
    s.push_layer(BlendMode::default(), fx(1.0), Affine::identity(), &far);
    s.pop_layer();
    // The same clip, reached by moving another one.
    s.push_layer(
        BlendMode::default(),
        fx(1.0),
        Affine::translate(fx(5.0), fx(0.0)),
        &near,
    );
    s.pop_layer();
    let svg = encode_svg(&s);
    assert_eq!(svg.matches("<clipPath").count(), 1, "{svg}");
    assert_eq!(svg.matches("url(#c0)").count(), 2, "{svg}");
    assert!(
        svg.contains(
            "<clipPath id=\"c0\" clipPathUnits=\"userSpaceOnUse\">\
             <path d=\"M5 0L15 0L15 10L5 10Z\"/></clipPath>"
        ),
        "{svg}"
    );
}

#[test]
fn a_filled_and_stroked_path_is_one_element_carrying_both() {
    let mut s = scene();
    let r = rect_path(10.0, 10.0, 90.0, 60.0);
    fill(&mut s, &r, PickId::Skip);
    s.stroke(
        &Stroke::new(fx(2.0)),
        Affine::identity(),
        &black(),
        &r,
        PickId::Skip,
    );
    let svg = encode_svg(&s);

    assert_eq!(svg.matches("<path").count(), 1, "two stacked paths: {svg}");
    assert!(svg.contains("fill=\"#000000\""));
    assert!(svg.contains("stroke=\"#000000\""));
    assert_eq!(
        svg.matches("d=\"").count(),
        1,
        "the geometry is written once"
    );
}

#[test]
fn a_stroke_of_a_different_path_does_not_merge() {
    let mut s = scene();
    let a = rect_path(10.0, 10.0, 90.0, 60.0);
    let b = rect_path(11.0, 10.0, 90.0, 60.0);
    fill(&mut s, &a, PickId::Skip);
    s.stroke(
        &Stroke::new(fx(2.0)),
        Affine::identity(),
        &black(),
        &b,
        PickId::Skip,
    );
    assert_eq!(encode_svg(&s).matches("<path").count(), 2);
}

#[test]
fn a_stroke_writes_what_is_not_a_default_and_nothing_else() {
    let mut s = scene();
    let mut line = Path::new();
    line.push(PathEl::MoveTo(Point {
        x: fx(0.0),
        y: fx(0.0),
    }));
    line.push(PathEl::LineTo(Point {
        x: fx(10.0),
        y: fx(0.5),
    }));
    let mut plain = Stroke::new(fx(1.0));
    plain.start_cap = Cap::Butt;
    plain.end_cap = Cap::Butt;
    plain.join = hephaestus::svg::attrs::Join::Miter;
    s.stroke(&plain, Affine::identity(), &black(), &line, PickId::Skip);
    assert!(
        encode_svg(&s).contains("<path d=\"M0 0L10 0.5\" fill=\"none\" stroke=\"#000000\"/>"),
        "{}",
        encode_svg(&s)
    );

    s.clear();
    let mut dashed = Stroke::new(fx(2.5));
    dashed.dash_pattern = vec![fx(4.0), fx(1.5)];
    dashed.dash_offset = fx(0.25);
    dashed.miter_limit = fx(10.0);
    s.stroke(&dashed, Affine::identity(), &black(), &line, PickId::Skip);
    assert!(
        encode_svg(&s).contains(
            " stroke-width=\"2.5\" stroke-linecap=\"round\" stroke-linejoin=\"round\" \
             stroke-dasharray=\"4 1.5\" stroke-dashoffset=\"0.25\"/>"
        ),
        "{}",
        encode_svg(&s)
    );

    // A pattern that covers no length is no pattern.
    s.clear();
    dashed.dash_pattern = vec![fx(0.0), fx(0.0)];
    s.stroke(&dashed, Affine::identity(), &black(), &line, PickId::Skip);
    assert!(!encode_svg(&s).contains("stroke-dash"));
}

#[test]
fn a_transform_is_written_unless_it_is_the_identity() {
    let mut s = scene();
    s.fill(
        FillRule::NonZero,
        Affine::translate(fx(3.5), fx(-2.0)),
        &black(),
        &rect_path(0.0, 0.0, 1.0, 1.0),
        PickId::Skip,
    );
    assert!(
        encode_svg(&s).contains(" transform=\"matrix(1 0 0 1 3.5 -2)\"/>"),
        "{}",
        encode_svg(&s)
    );
}

#[test]
fn an_empty_path_draws_nothing() {
    let mut s = scene();
    fill(&mut s, &Path::new(), PickId::Skip);
    s.stroke(
        &Stroke::new(fx(2.0)),
        Affine::identity(),
        &black(),
        &Path::new(),
        PickId::Skip,
    );
    assert!(!encode_svg(&s).contains("<path"));
}

#[test]
fn a_wrapped_label_is_one_text_element_with_a_tspan_per_line() {
    let mut s = scene();
    draw_label(&mut s, 1, "The quick brown fox jumps", 8.0, 20.0, sans());
    draw_label(&mut s, 1, "over the lazy dog near", 8.0, 35.0, sans());
    draw_label(&mut s, 1, "the riverbank", 8.0, 50.0, sans());
    let svg = encode_svg(&s);

    assert_eq!(
        svg.matches("<text").count(),
        1,
        "a wrapped block is one editable object, not one per line: {svg}"
    );
    assert!(
        svg.matches("<tspan").count() > 1,
        "the lines should be tspans: {svg}"
    );
    assert_well_formed(&svg);
}

#[test]
fn outlined_text_is_one_element_with_a_stroke_and_a_fill() {
    let mut s = scene();
    let mut halo = run_in(1, "haloed", 10.0, 30.0, sans());
    halo.style = Some(Stroke::new(fx(2.0)));
    s.draw_glyphs(&halo, PickId::Skip);
    draw_label(&mut s, 1, "haloed", 10.0, 30.0, sans());
    let svg = encode_svg(&s);

    assert_eq!(
        svg.matches(">haloed<").count(),
        1,
        "the string must appear once: {svg}"
    );
    assert_eq!(svg.matches("<text").count(), 1, "{svg}");
    assert!(svg.contains("paint-order=\"stroke fill\""), "{svg}");
    assert!(svg.contains("stroke-width="), "{svg}");
}

#[test]
fn a_halo_without_a_fill_says_so() {
    let mut s = scene();
    let mut halo = run_in(1, "haloed", 10.0, 30.0, sans());
    halo.style = Some(Stroke::new(fx(2.0)));
    s.draw_glyphs(&halo, PickId::Skip);
    let svg = encode_svg(&s);
    assert!(
        svg.contains("paint-order=\"stroke fill\" fill=\"none\""),
        "{svg}"
    );
}

#[test]
fn labels_arrive_as_editable_text_naming_their_font() {
    let mut s = scene();
    for (i, label) in ["Median revenue", "2024", "north-west"].iter().enumerate() {
        draw_label(
            &mut s,
            i as u64,
            label,
            10.0,
            20.0 + 20.0 * i as f64,
            named("Inter"),
        );
    }
    let svg = encode_svg(&s);
    for label in ["Median revenue", "2024", "north-west"] {
        assert!(
            svg.contains(&format!(">{label}</tspan>")),
            "{label:?} is not present as text: {svg}"
        );
    }
    assert!(svg.contains("font-family=\"Inter, sans-serif\""), "{svg}");
    assert!(svg.contains("textLength=\""), "{svg}");
    assert!(svg.contains("lengthAdjust=\"spacingAndGlyphs\""), "{svg}");
    assert!(!svg.contains("text-anchor"), "{svg}");
}

#[test]
fn non_latin_labels_survive_as_their_source_text() {
    for label in ["日本語のラベル", "العربية", "हिन्दी", "naïve café"] {
        let mut s = scene();
        draw_label(&mut s, 1, label, 5.0, 20.0, sans());
        let svg = encode_svg(&s);
        let text: String = svg
            .match_indices('>')
            .filter_map(|(i, _)| {
                let rest = &svg[i + 1..];
                rest.find("</tspan>").map(|j| &rest[..j])
            })
            .filter(|t| !t.contains('<'))
            .collect();
        assert_eq!(text, label, "in {svg}");
    }
}

#[test]
fn xml_reserved_characters_in_a_label_are_escaped() {
    let mut s = scene();
    draw_label(&mut s, 1, "a<b & c>d", 5.0, 20.0, sans());
    let svg = encode_svg(&s);
    assert!(svg.contains("a&lt;b &amp; c&gt;d"), "{svg}");
    assert_well_formed(&svg);
}

#[test]
fn markdown_spans_become_styled_tspans_in_one_text_element() {
    let mut s = scene();
    draw_label(&mut s, 1, "plain ", 10.0, 30.0, named("Inter"));
    let mut bold = named("Inter");
    bold.weight = 700;
    draw_label(&mut s, 1, "bold", 46.0, 30.0, bold);
    draw_label(&mut s, 1, " and ", 70.0, 30.0, named("Inter"));
    let mut italic = named("Inter");
    italic.style = FontStyleKind::Italic;
    draw_label(&mut s, 1, "italic", 100.0, 30.0, italic);
    let svg = encode_svg(&s);
    assert_eq!(
        svg.matches("<text").count(),
        1,
        "a paragraph is one editable object: {svg}"
    );
    assert!(svg.contains(">bold</tspan>"), "{svg}");
    assert!(svg.contains("font-weight=\"700\""), "{svg}");
    assert!(svg.contains("font-style=\"italic\""), "{svg}");
    assert_well_formed(&svg);
}

/// A run of `words` underlined by a rule one thick, one below the baseline.
fn underlined(text: &str, x: f64, y: f64) -> GlyphRun {
    let mut run = run_in(1, text, x, y, named("Inter"));
    if let Some(src) = &mut run.source {
        src.underline = Some(Rule {
            offset: fx(-1.0),
            thickness: fx(1.0),
        });
    }
    run
}

#[test]
fn an_underlined_span_is_semantic_and_leaves_no_rule_behind() {
    let mut s = scene();
    draw_label(&mut s, 1, "some ", 10.0, 30.0, named("Inter"));
    s.draw_glyphs(&underlined("underlined", 40.0, 30.0), PickId::Skip);
    // The rule the shaper draws for it: the run's own extent, below the
    // baseline, and a hair off as rebuilt numbers are.
    let rule = rect_path(40.0, 31.02, 100.0, 32.0);
    fill(&mut s, &rule, PickId::Skip);
    draw_label(&mut s, 1, " words", 100.0, 30.0, named("Inter"));
    let svg = encode_svg(&s);
    assert!(
        svg.contains("text-decoration-line=\"underline\""),
        "the rule should be semantic: {svg}"
    );
    assert!(
        !svg.contains("<path"),
        "the decoration rect should have been suppressed: {svg}"
    );
    assert_eq!(
        svg.matches("<text").count(),
        1,
        "and suppressing it must not split the block: {svg}"
    );
}

#[test]
fn both_decorations_share_one_attribute() {
    let mut s = scene();
    let mut run = underlined("both", 40.0, 30.0);
    if let Some(src) = &mut run.source {
        src.strikethrough = Some(Rule {
            offset: fx(4.0),
            thickness: fx(1.0),
        });
    }
    s.draw_glyphs(&run, PickId::Skip);
    assert!(encode_svg(&s).contains("text-decoration-line=\"underline line-through\""));
}

#[test]
fn a_span_background_does_not_split_the_text_it_sits_behind() {
    let mut s = scene();
    draw_label(&mut s, 1, "plain ", 10.0, 30.0, named("Inter"));
    fill(
        &mut s,
        &rect_path(44.0, 20.0, 72.0, 34.0),
        PickId::Skip,
    );
    draw_label(
        &mut s,
        1,
        "code",
        46.0,
        30.0,
        font(vec![FontFamilyEntry::Generic(GenericFamilyKind::Mono)]),
    );
    draw_label(&mut s, 1, " plain", 70.0, 30.0, named("Inter"));
    let svg = encode_svg(&s);
    assert_eq!(
        svg.matches("<text").count(),
        1,
        "the sentence must stay one editable object: {svg}"
    );
    let text: String = svg
        .match_indices("<tspan")
        .filter_map(|(i, _)| {
            let rest = &svg[i..];
            let open = rest.find('>')? + 1;
            let close = rest.find("</tspan>")?;
            Some(&rest[open..close])
        })
        .collect();
    assert_eq!(text, "plain code plain", "{svg}");
    // The background is still drawn, and behind rather than over.
    let bg = svg.find("<path").expect("a background path");
    let txt = svg.find("<text").expect("the text");
    assert!(bg < txt, "the background must precede the text: {svg}");
    assert_well_formed(&svg);
}

#[test]
fn a_rect_that_no_run_predicted_is_still_drawn() {
    let mut s = scene();
    draw_label(&mut s, 1, "label", 10.0, 30.0, sans());
    fill(
        &mut s,
        &rect_path(10.0, 32.0, 60.0, 33.0),
        PickId::Skip,
    );
    let svg = encode_svg(&s);
    assert_eq!(svg.matches("<path").count(), 1, "{svg}");
}

/// `here` between two plain runs, linking to `url`.
fn linked(text: &str, url: &str, safe: bool) -> String {
    let mut s = scene();
    draw_label(&mut s, 1, "see ", 10.0, 30.0, named("Inter"));
    let mut run = run_in(1, text, 34.0, 30.0, named("Inter"));
    if let Some(src) = &mut run.source {
        src.link = Some(Link {
            url: url.to_string(),
            safe,
        });
    }
    s.draw_glyphs(&run, PickId::Skip);
    draw_label(&mut s, 1, " here", 80.0, 30.0, named("Inter"));
    encode_svg(&s)
}

#[test]
fn a_markdown_link_becomes_an_anchor_that_cannot_navigate_the_host_page() {
    let svg = linked("the docs", "https://example.com/a?x=1&y=2", true);
    assert!(
        svg.contains("<a href=\"https://example.com/a?x=1&amp;y=2\""),
        "{svg}"
    );
    assert!(svg.contains("target=\"_blank\""), "{svg}");
    assert!(svg.contains("rel=\"noopener noreferrer\""), "{svg}");
    assert!(svg.contains(">the docs</tspan>"), "{svg}");
    assert_well_formed(&svg);
}

#[test]
fn a_dangerous_link_scheme_is_dropped_but_its_text_survives() {
    let svg = linked("here", "javascript:alert(1)", false);
    assert!(
        !svg.contains("<a href"),
        "no anchor should be emitted: {svg}"
    );
    assert!(!svg.contains("javascript:"), "{svg}");
    assert!(
        svg.contains(">here</tspan>"),
        "the text still renders: {svg}"
    );
}

#[test]
fn a_sweep_gradient_degrades_to_a_flat_fill_and_reports_it() {
    let mut s = scene();
    let r = rect_path(10.0, 10.0, 90.0, 60.0);
    s.fill(
        FillRule::NonZero,
        Affine::identity(),
        &sweep(),
        &r,
        PickId::Skip,
    );
    let svg = encode_svg(&s);
    assert!(s.warnings().contains(&SvgWarning::SweepGradient));
    assert!(!svg.contains("url(#"), "no paint server was made: {svg}");
    assert_well_formed(&svg);
}

#[test]
fn a_porter_duff_composite_is_reported_and_the_group_still_renders() {
    let mut s = scene();
    let r = rect_path(10.0, 10.0, 90.0, 60.0);
    s.push_layer(
        BlendMode {
            mix: Mix::Normal,
            compose: Compose::Xor,
        },
        fx(1.0),
        Affine::identity(),
        &r,
    );
    fill(&mut s, &r, PickId::Skip);
    s.pop_layer();
    assert!(s.warnings().contains(&SvgWarning::UnsupportedCompose));
    assert_well_formed(&encode_svg(&s));
}

#[test]
fn a_mix_mode_maps_to_its_css_keyword() {
    let mut s = scene();
    let r = rect_path(10.0, 10.0, 90.0, 60.0);
    s.push_layer(
        BlendMode {
            mix: Mix::Multiply,
            compose: Compose::SrcOver,
        },
        fx(1.0),
        Affine::identity(),
        &r,
    );
    s.pop_layer();
    let svg = encode_svg(&s);
    assert!(svg.contains("mix-blend-mode:multiply"), "{svg}");
    // Scopes the blend to this document rather than the host page.
    assert!(svg.contains("isolation:isolate"), "{svg}");
}

#[test]
fn asymmetric_caps_are_reported_since_svg_has_only_one() {
    let mut s = scene();
    let mut p = Path::new();
    p.push(PathEl::MoveTo(Point {
        x: fx(0.0),
        y: fx(0.0),
    }));
    p.push(PathEl::LineTo(Point {
        x: fx(10.0),
        y: fx(0.0),
    }));
    let mut stroke = Stroke::new(fx(2.0));
    stroke.start_cap = Cap::Butt;
    stroke.end_cap = Cap::Round;
    s.stroke(&stroke, Affine::identity(), &black(), &p, PickId::Skip);
    assert!(s.warnings().contains(&SvgWarning::AsymmetricCaps));
}

#[test]
fn warnings_are_reported_once_however_often_they_recur() {
    let mut s = scene();
    let r = rect_path(10.0, 10.0, 90.0, 60.0);
    for _ in 0..50 {
        s.fill(
            FillRule::NonZero,
            Affine::identity(),
            &sweep(),
            &r,
            PickId::Skip,
        );
    }
    assert_eq!(
        s.warnings()
            .iter()
            .filter(|w| **w == SvgWarning::SweepGradient)
            .count(),
        1
    );
}

#[test]
fn pick_scopes_become_groups_when_picking_is_on() {
    let draw = |s: &mut SvgScene| {
        s.push_pick_scope(&PickScope::group("plot").with_name("a").with_index(0));
        s.push_pick_scope(&PickScope::target("part").with_name("axis_tick_label"));
        s.push_pick_scope(&PickScope::target("item").with_index(3));
        fill(s, &rect_path(10.0, 10.0, 90.0, 60.0), PickId::Skip);
        s.pop_pick_scope();
        s.pop_pick_scope();
        s.pop_pick_scope();
    };

    let mut off = scene();
    draw(&mut off);
    let svg = encode_svg(&off);
    assert!(!svg.contains("data-pick-kind"), "{svg}");

    let mut on = scene_with(SvgConfig::new().pick_ids(true));
    draw(&mut on);
    let svg = encode_svg(&on);
    assert!(
        svg.contains(r#"<g data-pick-kind="plot" data-pick-name="a" data-pick-index="0">"#),
        "{svg}"
    );
    assert!(
        svg.contains(r#"<g data-pick-kind="part" data-pick-name="axis_tick_label">"#),
        "{svg}"
    );
    assert!(
        svg.contains(r#"<g data-pick-kind="item" data-pick-index="3">"#),
        "{svg}"
    );
    assert!(
        !svg.contains("pointer-events=\"none\""),
        "a Skip inside a Target scope stays hittable: {svg}"
    );
    assert_eq!(
        svg.matches("<g ").count(),
        svg.matches("</g>").count(),
        "{svg}"
    );
}

#[test]
fn interleaved_layers_and_scopes_do_not_produce_malformed_xml() {
    let mut s = scene_with(SvgConfig::new().pick_ids(true));
    s.push_layer(
        BlendMode::default(),
        fx(1.0),
        Affine::identity(),
        &rect_path(0.0, 0.0, 100.0, 100.0),
    );
    s.push_pick_scope(&PickScope::target("part").with_name("grid_major"));
    fill(&mut s, &rect_path(10.0, 10.0, 20.0, 20.0), PickId::Skip);
    // Closed out of order on purpose.
    s.pop_layer();
    s.pop_pick_scope();

    let warnings: Vec<SvgWarning> = s.warnings().to_vec();
    let svg = encode_svg(&s);
    assert!(
        warnings.contains(&SvgWarning::UnbalancedLayers)
            || warnings.contains(&SvgWarning::UnbalancedScopes),
        "expected an unbalanced-group warning, got {warnings:?}"
    );
    assert_eq!(
        svg.matches("<g").count(),
        svg.matches("</g>").count(),
        "tags must still balance: {svg}"
    );
}

#[test]
fn popping_a_scope_where_a_layer_is_open_closes_nothing() {
    let mut s = scene_with(SvgConfig::new().pick_ids(true));
    s.push_layer(
        BlendMode::default(),
        fx(1.0),
        Affine::identity(),
        &Path::new(),
    );
    s.pop_pick_scope();
    assert_eq!(
        s.warnings().as_slice(),
        &[SvgWarning::UnbalancedScopes, SvgWarning::UnbalancedLayers]
    );
    s.pop_layer();
    assert_eq!(s.warnings().as_slice(), &[SvgWarning::UnbalancedScopes]);
    assert_well_formed(&encode_svg(&s));
}

#[test]
fn picking_attributes_are_off_by_default_and_complete_when_on() {
    let draw = |s: &mut SvgScene| {
        fill(s, &rect_path(10.0, 10.0, 90.0, 60.0), PickId::Id(42));
        fill(s, &rect_path(20.0, 20.0, 30.0, 30.0), PickId::Skip);
        fill(s, &rect_path(40.0, 20.0, 50.0, 30.0), PickId::Block);
    };

    let mut off = scene();
    draw(&mut off);
    let svg = encode_svg(&off);
    assert!(!svg.contains("data-pick-id"), "{svg}");

    let mut on = scene_with(SvgConfig::new().pick_ids(true));
    draw(&mut on);
    let svg = encode_svg(&on);
    assert!(svg.contains("data-pick-id=\"42\""), "{svg}");
    assert!(
        svg.contains("data-pick-block=\"\""),
        "Block gets its own attribute: {svg}"
    );
    assert!(
        !svg.contains("data-pick-id=\"0\""),
        "Block must not claim id 0: {svg}"
    );
    assert!(svg.contains("pointer-events=\"none\""), "{svg}");
}

#[test]
fn an_image_is_embedded_once_and_referenced_per_draw() {
    let mut s = scene();
    let image = ImageSource::Embedded(DefBody::new(
        DefKind::Image,
        &attributes(
            " width=\"4\" height=\"4\" image-rendering=\"pixelated\" \
             href=\"data:image/png;base64,AAAA\"",
        ),
        &vec![],
    ));
    for i in 0..5 {
        s.draw_image(
            &image,
            Affine::translate(fx(i as f64 * 10.0), fx(0.0)),
            fx(1.0),
        );
    }
    let svg = encode_svg(&s);
    assert_eq!(
        svg.matches("data:image/png;base64,").count(),
        1,
        "the payload must be written once, not once per draw"
    );
    assert_eq!(svg.matches("<use ").count(), 5, "{svg}");
    assert_eq!(svg.matches("<use href=\"#im0\"").count(), 5, "{svg}");
    assert_eq!(svg.matches(" id=\"im0\"").count(), 1, "{svg}");
    assert!(svg.contains("image-rendering=\"pixelated\""), "{svg}");
    assert!(s.warnings().is_empty(), "{:?}", s.warnings());
    assert_well_formed(&svg);
}

#[test]
fn without_a_png_encoder_an_image_degrades_and_says_so() {
    let mut s = scene();
    s.draw_image(
        &ImageSource::Refused(SvgWarning::MissingPngFeature),
        Affine::identity(),
        fx(1.0),
    );
    assert!(s.warnings().contains(&SvgWarning::MissingPngFeature));
    assert_well_formed(&encode_svg(&s));
}

#[test]
fn a_mesh_decomposes_into_ordinary_fills() {
    let mut s = scene();
    let mut triangle = Path::new();
    triangle.push(PathEl::MoveTo(Point {
        x: fx(0.0),
        y: fx(0.0),
    }));
    triangle.push(PathEl::LineTo(Point {
        x: fx(20.0),
        y: fx(0.0),
    }));
    triangle.push(PathEl::LineTo(Point {
        x: fx(10.0),
        y: fx(20.0),
    }));
    triangle.push(PathEl::ClosePath);
    s.draw_mesh(
        &vec![MeshFill {
            path: triangle,
            brush: black(),
        }],
        Affine::identity(),
        PickId::Skip,
    );
    let svg = encode_svg(&s);
    assert!(svg.contains("<path"), "the triangle should be drawn: {svg}");
    assert_well_formed(&svg);
}

#[test]
fn a_run_with_no_source_text_is_drawn_as_outlines_not_dropped() {
    let mut probe = scene();
    draw_label(&mut probe, 1, "A", 0.0, 0.0, sans());
    assert!(encode_svg(&probe).contains("<text"));

    // The same glyphs with the source stripped.
    let mut run = run_in(1, "A", 10.0, 40.0, sans());
    run.source = None;
    let mut s = scene();
    s.draw_glyphs(&run, PickId::Skip);
    let svg = encode_svg(&s);
    assert!(!svg.contains("<text"), "no text to emit: {svg}");
    assert!(
        svg.contains("<path d=\"M"),
        "the glyphs must still be drawn, as outlines: {svg}"
    );
    assert_well_formed(&svg);
}

#[test]
fn a_run_with_neither_text_nor_outlines_is_reported() {
    let mut run = run_in(1, "A", 10.0, 40.0, sans());
    run.source = None;
    run.outline = None;
    let mut s = scene();
    s.draw_glyphs(&run, PickId::Skip);
    assert_eq!(s.warnings().as_slice(), &[SvgWarning::TextWithoutSource]);
}

#[test]
fn outline_mode_turns_labels_into_paths() {
    let mut s = scene_with(SvgConfig::new().text(TextMode::Outline));
    draw_label(&mut s, 1, "outlined", 10.0, 40.0, sans());
    let svg = encode_svg(&s);
    assert!(!svg.contains("<text"), "{svg}");
    assert!(svg.contains("<path d=\"M"), "{svg}");
    assert_well_formed(&svg);
}

#[test]
fn embedding_either_inlines_the_face_or_reports_that_it_could_not() {
    let inlined = || {
        let mut run = run_in(1, "embedded", 5.0, 20.0, sans());
        run.face.rule = FaceRule::new(&format!(
            "@font-face{{font-family:'Resolved Sans';src:url(data:font/otf;base64,{})}}",
            "A".repeat(8_000)
        ));
        assert!(run.face.rule.is_some());
        run
    };

    let mut plain = scene();
    plain.draw_glyphs(&inlined(), PickId::Skip);
    let small = encode_svg(&plain);
    assert!(!small.contains("@font-face"), "{small}");
    assert!(
        small.len() < 2_000,
        "nothing should be inlined by default: {} bytes",
        small.len()
    );

    let mut embedded = scene_with(SvgConfig::new().embed_fonts(true));
    embedded.draw_glyphs(&inlined(), PickId::Skip);
    embedded.draw_glyphs(&inlined(), PickId::Skip);
    let big = encode_svg(&embedded);
    assert_well_formed(&big);
    assert!(embedded.warnings().is_empty());
    assert_eq!(big.matches("@font-face").count(), 1);
    assert!(big.contains("data:font/"), "the bytes should be inlined");
    assert!(big.contains("<![CDATA["));
    assert!(big.len() > small.len() * 4);

    // A face that cannot be inlined, such as a member of a collection.
    let mut refused = scene_with(SvgConfig::new().embed_fonts(true));
    draw_label(&mut refused, 1, "embedded", 5.0, 20.0, sans());
    assert!(refused.warnings().contains(&SvgWarning::FontNotEmbeddable));
    assert!(!encode_svg(&refused).contains("@font-face"));
}

#[test]
fn embedding_names_the_resolved_face_on_the_element() {
    let mut s = scene_with(SvgConfig::new().embed_fonts(true));
    draw_label(&mut s, 1, "named", 5.0, 20.0, sans());
    let svg = encode_svg(&s);
    let i = svg.find("font-family=\"").expect("a family is named");
    let chain = &svg[i + 13..i + 13 + svg[i + 13..].find('"').unwrap()];
    assert!(
        chain != "sans-serif",
        "the resolved face should lead the chain, not just a generic: {chain}"
    );
    assert!(
        chain.ends_with("sans-serif"),
        "and a generic still trails: {chain}"
    );
    assert_eq!(chain, "'Resolved Sans', sans-serif");
}

#[test]
fn a_family_nothing_could_deliver_is_still_named_on_the_element() {
    let mut s = scene();
    draw_label(&mut s, 1, "fallback", 5.0, 20.0, named("Nonexistent Face"));
    let svg = encode_svg(&s);
    assert!(
        svg.contains("font-family=\"'Nonexistent Face', sans-serif\""),
        "the chain plus a generic tail, and the apostrophes unescaped: {svg}"
    );
    assert!(!svg.contains("@import"), "{svg}");
}

/// Two labels in the same style, at two places.
fn two_labels_in_one_style() -> String {
    let mut s = scene();
    for (i, label) in ["first", "second"].iter().enumerate() {
        draw_label(&mut s, i as u64, label, 5.0, 20.0 + i as f64 * 20.0, sans());
    }
    encode_svg(&s)
}

#[test]
fn text_agreeing_on_a_font_inherits_it_from_the_root() {
    let svg = two_labels_in_one_style();
    let root = &svg[..svg.find('>').expect("a root tag")];
    assert!(root.contains("font-family=\""), "{svg}");
    assert!(root.contains("font-size=\""), "{svg}");
    assert_eq!(
        svg.matches("font-family=\"").count(),
        1,
        "one document, one place naming the family: {svg}"
    );
    assert_eq!(svg.matches("font-size=\"").count(), 1, "{svg}");
    assert_eq!(svg.matches("<text").count(), 2, "{svg}");
    assert_well_formed(&svg);
}

#[test]
fn a_run_disagreeing_with_the_root_still_names_its_own_font() {
    let mut s = scene();
    draw_label(&mut s, 1, "plain ", 10.0, 30.0, named("Inter"));
    draw_label(
        &mut s,
        1,
        "code",
        46.0,
        30.0,
        font(vec![FontFamilyEntry::Generic(GenericFamilyKind::Mono)]),
    );
    let svg = encode_svg(&s);
    let root = &svg[..svg.find('>').expect("a root tag")];
    assert!(root.contains("font-family=\"Inter"), "{svg}");
    assert!(
        svg.contains("font-family=\"monospace"),
        "the code span names the family it needs: {svg}"
    );
    assert!(
        svg[root.len()..].contains("font-family=\"monospace"),
        "{svg}"
    );
    assert_well_formed(&svg);
}

#[test]
fn white_space_handling_is_declared_once_for_the_document() {
    let svg = two_labels_in_one_style();
    assert_eq!(svg.matches("xml:space=\"preserve\"").count(), 1, "{svg}");
    assert_eq!(svg.matches("white-space:pre").count(), 1, "{svg}");
    let root = &svg[..svg.find('>').expect("a root tag")];
    assert!(root.contains("xml:space=\"preserve\""), "{svg}");
    assert!(root.contains("white-space:pre"), "{svg}");
}

#[test]
fn a_document_with_no_text_says_nothing_about_fonts() {
    let mut s = scene();
    fill(&mut s, &rect_path(1.0, 1.0, 9.0, 9.0), PickId::Skip);
    let svg = encode_svg(&s);
    assert!(!svg.contains("font-"), "{svg}");
    assert!(!svg.contains("xml:space"), "{svg}");
    assert!(!svg.contains("white-space"), "{svg}");
}

#[test]
fn a_block_still_open_at_write_time_reaches_the_root() {
    let mut s = scene();
    draw_label(&mut s, 1, "late", 5.0, 20.0, sans());
    let svg = encode_svg(&s);
    let root = &svg[..svg.find('>').expect("a root tag")];
    assert!(
        root.contains("font-family=\""),
        "the font the open block named is on the root: {svg}"
    );
    assert!(svg.contains(">late</tspan>"), "{svg}");
}

#[test]
fn serializing_twice_gives_the_same_bytes() {
    let mut s = scene();
    draw_label(&mut s, 1, "held", 5.0, 20.0, sans());
    assert_eq!(encode_svg(&s), encode_svg(&s));
}

/// One label in `spec`, as the emitted document.
fn styled(spec: FontSpec) -> String {
    let mut s = scene();
    draw_label(&mut s, 1, "Sample", 5.0, 20.0, spec);
    encode_svg(&s)
}

#[test]
fn a_condensed_face_is_named_condensed() {
    let mut spec = sans();
    spec.width = fx(0.75);
    let svg = styled(spec);
    assert!(svg.contains("font-stretch=\"condensed\""), "{svg}");
    assert_well_formed(&svg);
}

#[test]
fn a_width_between_the_keywords_is_a_percentage() {
    let mut spec = sans();
    spec.width = fx(0.8);
    let svg = styled(spec);
    assert!(svg.contains("font-stretch=\"80%\""), "{svg}");
    assert_well_formed(&svg);
}

#[test]
fn a_normal_width_says_nothing() {
    let svg = styled(sans());
    assert!(!svg.contains("font-stretch"), "{svg}");
}

#[test]
fn opentype_features_reach_the_element() {
    let mut spec = sans();
    spec.features = vec![
        FontFeatureSetting {
            tag: *b"tnum",
            value: 1,
        },
        FontFeatureSetting {
            tag: *b"liga",
            value: 0,
        },
    ];
    let svg = styled(spec);
    assert!(
        svg.contains("font-feature-settings:'tnum' 1,'liga' 0"),
        "{svg}"
    );
    assert_well_formed(&svg);
}

#[test]
fn variable_font_axes_reach_the_element() {
    let mut spec = sans();
    spec.variations = vec![FontVariationSetting {
        tag: *b"wght",
        value: fx(550.0),
    }];
    let svg = styled(spec);
    assert!(svg.contains("font-variation-settings:'wght' 550"), "{svg}");
    assert_well_formed(&svg);
}

#[test]
fn features_and_axes_share_one_style_attribute() {
    let mut spec = sans();
    spec.features = vec![FontFeatureSetting {
        tag: *b"tnum",
        value: 1,
    }];
    spec.variations = vec![FontVariationSetting {
        tag: *b"wdth",
        value: fx(75.0),
    }];
    let svg = styled(spec);
    let text = &svg[svg.find("<text").expect("a text element")..];
    let el = &text[..text.find('>').expect("a closed tag")];
    assert_eq!(
        el.matches("style=\"").count(),
        1,
        "two style attributes would mean one silently losing: {el}"
    );
    assert!(el.contains("font-feature-settings:'tnum' 1;"), "{el}");
    assert!(el.contains("font-variation-settings:'wdth' 75"), "{el}");
    assert_well_formed(&svg);
}

#[test]
fn a_tag_that_would_break_the_css_string_is_dropped() {
    let mut spec = sans();
    spec.features = vec![FontFeatureSetting {
        tag: *b"tn'm",
        value: 1,
    }];
    let svg = styled(spec);
    assert!(!svg.contains("font-feature-settings"), "{svg}");
    assert_well_formed(&svg);
}

#[test]
fn a_skip_opts_out_of_hit_testing_only_outside_a_target_scope() {
    let r = rect_path(10.0, 10.0, 90.0, 60.0);
    let skip_fill = |s: &mut SvgScene| fill(s, &r, PickId::Skip);

    let mut grouped = scene_with(SvgConfig::new().pick_ids(true));
    grouped.push_pick_scope(&PickScope::group("geom"));
    skip_fill(&mut grouped);
    grouped.pop_pick_scope();
    let svg = encode_svg(&grouped);
    assert!(svg.contains("pointer-events=\"none\""), "{svg}");

    let mut targeted = scene_with(SvgConfig::new().pick_ids(true));
    targeted.push_pick_scope(&PickScope::target("part").with_name("axis_title"));
    skip_fill(&mut targeted);
    targeted.pop_pick_scope();
    let svg = encode_svg(&targeted);
    assert!(!svg.contains("pointer-events=\"none\""), "{svg}");

    // Popping back out restores it: the flag follows the innermost scope
    // rather than latching for the rest of the document.
    let mut after = scene_with(SvgConfig::new().pick_ids(true));
    after.push_pick_scope(&PickScope::target("part"));
    after.pop_pick_scope();
    skip_fill(&mut after);
    let svg = encode_svg(&after);
    assert!(svg.contains("pointer-events=\"none\""), "{svg}");
}

#[test]
fn a_family_list_always_ends_in_a_generic() {
    let s = named("Inter");
    assert_eq!(family_list(&s), "Inter, sans-serif");

    let s = font(vec![FontFamilyEntry::Generic(GenericFamilyKind::Mono)]);
    assert_eq!(family_list(&s), "monospace");
}

#[test]
fn a_generic_before_a_name_is_not_at_the_end() {
    let s = font(vec![
        FontFamilyEntry::Generic(GenericFamilyKind::Mono),
        FontFamilyEntry::Named("Inter".to_string()),
    ]);
    assert_eq!(family_list(&s), "monospace, Inter, sans-serif");
    assert_eq!(family_list(&font(vec![])), "sans-serif");
}

#[test]
fn family_names_needing_quotes_get_them() {
    let s = named("Open Sans");
    assert_eq!(family_list(&s), "'Open Sans', sans-serif");
    assert_eq!(family_list(&named("8bit")), "'8bit', sans-serif");
    assert_eq!(
        family_list(&named("O'Brien\\Sans")),
        "'O\\'Brien\\\\Sans', sans-serif"
    );
}

#[test]
fn a_run_says_everything_its_face_needs() {
    let mut spec = sans();
    spec.weight = 250;
    spec.style = FontStyleKind::Oblique(fx(12.34));
    spec.tracking = fx(50.0);
    let svg = styled(spec);
    assert!(
        svg.contains(
            "<text font-weight=\"250\" font-style=\"oblique 12.3deg\" letter-spacing=\"0.6\""
        ),
        "{svg}"
    );
}

#[test]
fn a_faded_run_folds_its_alpha_into_the_paint() {
    let mut s = scene();
    let mut run = run_in(1, "faint", 5.0, 20.0, sans());
    run.brush_alpha = fx(0.5);
    s.draw_glyphs(&run, PickId::Skip);
    let svg = encode_svg(&s);
    assert!(
        svg.contains("fill=\"#000000\" fill-opacity=\"0.5\""),
        "{svg}"
    );
}

#[test]
fn right_to_left_text_says_so() {
    let mut s = scene();
    let mut run = run_in(1, "العربية", 5.0, 20.0, sans());
    if let Some(src) = &mut run.source {
        src.rtl = true;
    }
    s.draw_glyphs(&run, PickId::Skip);
    assert!(encode_svg(&s).contains(" direction=\"rtl\" unicode-bidi=\"bidi-override\""));
}

#[test]
fn attributes_hold_nothing_that_could_break_a_tag() {
    assert!(Attributes::new("").is_some());
    assert_eq!(
        Attributes::new(" offset=\"0\"").map(|a| a.as_str().to_string()),
        Some(" offset=\"0\"".to_string())
    );
    assert!(Attributes::new("offset=\"0\"").is_none());
    assert!(Attributes::new(" offset=0").is_none());
    assert!(Attributes::new(" a=\"<\"").is_none());
    assert!(Attributes::new(" a=\">\"").is_none());
    assert!(Attributes::new(" fill=\"url(#nowhere)\"").is_none());
    assert!(Attributes::new(" x=\"1\" id=\"a\"").is_none());
    assert!(Attributes::new(" grid=\"a\"").is_some());
    assert!(Attributes::new(" a=\"b\" c=\"").is_none());
}

#[test]
fn a_face_rule_cannot_end_the_stylesheet() {
    assert_eq!(
        FaceRule::new("@font-face{}").map(|r| r.as_str().to_string()),
        Some("@font-face{}".to_string())
    );
    assert!(FaceRule::new("]]></style>").is_none());
    assert!(FaceRule::new("@font-face{]]>").is_none());
    assert!(FaceRule::new("font-face{}").is_none());
    assert!(FaceRule::new("@font-face{} id=\"a\"").is_none());
    assert!(FaceRule::new("@font-face{font-family:\"A\"}").is_some());
}

#[test]
fn a_definition_is_an_empty_element_or_one_around_its_stops() {
    let attrs = attributes(" r=\"1\"");
    let empty = DefBody::new(DefKind::RadialGradient, &attrs, &vec![]);
    assert_eq!(empty.kind(), DefKind::RadialGradient);
    assert_eq!(empty.rest(), " r=\"1\"/>");
    let stop = attributes(" offset=\"0.5\"");
    let one = DefBody::new(DefKind::RadialGradient, &attrs, &vec![stop]);
    assert_eq!(
        one.rest(),
        " r=\"1\"><stop offset=\"0.5\"/></radialGradient>"
    );
}

#[test]
fn whatever_is_drawn_the_document_is_one_element_whose_references_resolve() {
    let mut s = scene_with(SvgConfig::new().pick_ids(true).id_prefix("p-"));
    let r = rect_path(0.0, 0.0, 10.0, 10.0);
    s.pop_layer();
    s.push_pick_scope(&PickScope::group("a url(#nowhere)").with_name("x id="));
    s.push_layer(BlendMode::default(), fx(1.0), Affine::identity(), &r);
    s.pop_pick_scope();
    draw_label(&mut s, 1, " fill=\"url(#nowhere)\"", 5.0, 20.0, sans());
    s.fill(
        FillRule::NonZero,
        Affine::identity(),
        &gradient(3.0),
        &r,
        PickId::Skip,
    );
    s.push_layer(BlendMode::default(), fx(1.0), Affine::identity(), &r);
    let svg = encode_svg(&s);
    assert_well_formed(&svg);
    assert!(svg.starts_with("<svg ") && svg.ends_with("</svg>"), "{svg}");
    assert_eq!(svg.matches("<g").count(), svg.matches("</g>").count());
    let mut found = 0;
    for name in [" fill=\"url(#", " stroke=\"url(#", " clip-path=\"url(#"] {
        for (i, _) in svg.match_indices(name) {
            // A label may say the same, but not inside a tag.
            let before = &svg[..i];
            if before.rfind('<') < before.rfind('>') {
                continue;
            }
            let rest = &svg[i + name.len()..];
            let id = &rest[..rest.find(')').unwrap()];
            assert!(id.starts_with("p-"), "{id}");
            assert_eq!(svg.matches(&format!(" id=\"{id}\"")).count(), 1, "{id}");
            found += 1;
        }
    }
    assert_eq!(found, 3, "{svg}");
    assert_eq!(svg.matches(" id=\"p-").count(), 2, "{svg}");
}

#[test]
fn only_a_rectangle_is_taken_for_a_decoration() {
    let path = |points: &[(f64, f64)]| {
        let mut p = Path::new();
        for (i, (x, y)) in points.iter().enumerate() {
            let at = Point { x: fx(*x), y: fx(*y) };
            p.push(if i == 0 {
                PathEl::MoveTo(at)
            } else {
                PathEl::LineTo(at)
            });
        }
        p.push(PathEl::ClosePath);
        p
    };
    let at = |p: &Path| axis_aligned_rect(p, Affine::identity());
    let triangle = path(&[(0.0, 0.0), (1.0, 0.0), (0.0, 1.0), (0.0, 0.0)]);
    assert!(at(&triangle).is_none());
    let bow_tie = path(&[(0.0, 0.0), (1.0, 1.0), (1.0, 0.0), (0.0, 1.0)]);
    assert!(at(&bow_tie).is_none());
    let square = path(&[(0.0, 0.0), (1.0, 0.0), (1.0, 1.0), (0.0, 1.0)]);
    assert!(at(&square).is_some());
    let turned = path(&[(1.0, 1.0), (1.0, 0.0), (0.0, 0.0), (0.0, 1.0)]);
    assert!(at(&turned).is_some());
}
