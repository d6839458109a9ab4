//! The browser client: fonts, modes and the emitted drawing.

use hephaestus::color::Color;
use hephaestus::fixed::{num, Fixed, Reading};
use hephaestus::svg::font::GenericFamilyKind;
use hephaestus::svg::scene::encode_svg;
use hephaestus::web::{
    container, decode_webfont, registered, set_generic_family, settle_font, to_svg, Container,
    PlotDocument, ReadPlot,
};
use hephaestus::viewer::doc::DocumentHints;

fn fx(x: f64) -> Fixed {
    Fixed {
        nanos: (x * 1e9).round() as i64,
    }
}

#[test]
fn a_bare_font_passes_through() {
    let bytes = vec![0, 1, 0, 0, 9, 9];
    assert_eq!(container(&bytes), Container::Bare);
    assert_eq!(decode_webfont(bytes.clone()), Ok(bytes));
    assert_eq!(decode_webfont(vec![]), Ok(vec![]));
    assert_eq!(decode_webfont(b"wOF".to_vec()), Ok(b"wOF".to_vec()));
}

#[test]
fn a_container_that_cannot_be_unwrapped_is_refused_by_name() {
    assert_eq!(container(b"wOF2rest"), Container::Woff2);
    assert_eq!(container(b"wOFFrest"), Container::Woff);
    assert_eq!(
        decode_webfont(b"wOF2".to_vec()),
        Err("could not decode the WOFF2 font: GenericError".to_string())
    );
    assert_eq!(
        decode_webfont(b"wOFF".to_vec()),
        Err("could not decode the WOFF font: GenericError".to_string())
    );
    assert_eq!(
        settle_font(vec![1], Container::Woff2, Some(vec![2])),
        Ok(vec![2])
    );
    assert_eq!(settle_font(vec![1], Container::Bare, None), Ok(vec![1]));
}

/// A WOFF container around one uncompressed four-byte table.
fn small_woff() -> Vec<u8> {
    let mut woff = Vec::new();
    let u32s = |v: &mut Vec<u8>, n: u32| v.extend_from_slice(&n.to_be_bytes());
    let u16s = |v: &mut Vec<u8>, n: u16| v.extend_from_slice(&n.to_be_bytes());
    woff.extend_from_slice(b"wOFF");
    u32s(&mut woff, 0x0001_0000);
    u32s(&mut woff, 44 + 20 + 4);
    u16s(&mut woff, 1);
    u16s(&mut woff, 0);
    u32s(&mut woff, 12 + 16 + 4);
    u16s(&mut woff, 1);
    u16s(&mut woff, 0);
    for _ in 0..5 {
        u32s(&mut woff, 0);
    }
    woff.extend_from_slice(b"test");
    u32s(&mut woff, 64);
    u32s(&mut woff, 4);
    u32s(&mut woff, 4);
    u32s(&mut woff, 0x0102_0304);
    woff.extend_from_slice(&[1, 2, 3, 4]);
    woff
}

#[test]
fn a_wrapped_font_is_unwrapped() {
    let woff = small_woff();
    let font = decode_webfont(woff.clone()).expect("a font inside");
    assert_ne!(font, woff);
    assert_eq!(&font[..4], &[0, 1, 0, 0]);
    assert!(font.windows(4).any(|w| w == b"test"));
}

#[test]
fn a_container_that_announces_too_much_is_refused() {
    let mut woff = small_woff();
    // The length of its one table, beyond what can be addressed.
    woff[44 + 12..44 + 16].copy_from_slice(&0x8000_0000u32.to_be_bytes());
    assert_eq!(
        decode_webfont(woff),
        Err("could not decode the WOFF font: GenericError".to_string())
    );
    // A collection with more before its compressed bytes than can be indexed.
    let mut collection = vec![0u8; 0x0800_0100];
    collection[..8].copy_from_slice(b"wOF2ttcf");
    assert_eq!(
        decode_webfont(collection),
        Err("could not decode the WOFF2 font: GenericError".to_string())
    );
    for at in [20, 32, 44] {
        let mut woff2 = vec![0u8; 64];
        woff2[..4].copy_from_slice(b"wOF2");
        woff2[28] = 1;
        woff2[40] = 1;
        woff2[at..at + 4].copy_from_slice(&u32::MAX.to_be_bytes());
        assert_eq!(
            decode_webfont(woff2),
            Err("could not decode the WOFF2 font: GenericError".to_string())
        );
    }
}

#[test]
fn registering_nothing_is_an_error() {
    assert_eq!(
        registered(vec!["Inter".to_string()]),
        Ok(vec!["Inter".to_string()])
    );
    assert_eq!(
        registered(vec![]),
        Err("no font faces found; the bytes are not a TTF, OTF, TTC or OTC file".to_string())
    );
}

#[test]
fn a_generic_family_is_named_by_its_keyword() {
    for (word, kind) in [
        ("serif", GenericFamilyKind::Serif),
        ("sans-serif", GenericFamilyKind::SansSerif),
        ("monospace", GenericFamilyKind::Mono),
        ("mono", GenericFamilyKind::Mono),
        ("cursive", GenericFamilyKind::Cursive),
        ("fantasy", GenericFamilyKind::Fantasy),
        ("system-ui", GenericFamilyKind::SystemUi),
    ] {
        assert_eq!(set_generic_family(word), Ok(kind));
    }
    assert_eq!(
        set_generic_family("Se\"rif"),
        Err("unknown generic family \"Se\\\"rif\"; expected one of serif, sans-serif, \
             monospace, cursive, fantasy, system-ui"
            .to_string())
    );
}

fn document() -> PlotDocument {
    PlotDocument::load(Ok(ReadPlot {
        paper: Color::gray(fx(1.0)),
        inverted_paper: Color::gray(fx(0.0)),
        hints: DocumentHints {
            size: Some((fx(504.0), fx(360.0))),
            dpi: Some(fx(300.0)),
            background: None,
        },
    }))
    .expect("readable")
}

#[test]
fn a_document_that_does_not_read_is_not_loaded() {
    let error = PlotDocument::load(Err("bad magic".to_string())).expect_err("unreadable");
    assert_eq!(error, "bad magic");
}

#[test]
fn the_hints_of_a_document_are_passed_on() {
    let doc = document();
    assert_eq!(doc.hint_width(), Some(fx(504.0)));
    assert_eq!(doc.hint_height(), Some(fx(360.0)));
    assert_eq!(doc.hint_dpi(), Some(fx(300.0)));
}

#[test]
fn a_drawing_follows_the_modes_of_its_document() {
    let mut doc = document();
    assert!(!doc.is_dark() && !doc.is_transparent() && doc.pick_ids());
    let draw = |doc: &PlotDocument| {
        encode_svg(&doc.scene(
            Reading::Finite(fx(320.0)),
            Reading::Finite(fx(200.5)),
            "v1-",
        ))
    };
    let light = draw(&doc);
    assert!(
        light.contains("<rect width=\"320\" height=\"200.5\" fill=\"#ffffff\"/>"),
        "{light}"
    );
    assert!(doc.set_dark(true));
    assert!(!doc.set_dark(true));
    assert!(draw(&doc).contains("fill=\"#000000\""));
    doc.set_transparent(true);
    assert!(!draw(&doc).contains("<rect"));
    doc.set_transparent(false);
    assert!(doc.set_dark(false));
    assert_eq!(draw(&doc), light);
    doc.set_pick_ids(false);
    assert!(!doc.pick_ids());
}

#[test]
fn a_drawing_is_never_smaller_than_a_pixel() {
    let doc = document();
    for (edge, shown) in [
        (Reading::Finite(fx(0.2)), "1"),
        (Reading::Finite(fx(-7.0)), "1"),
        (Reading::NotANumber, "1"),
        (Reading::MinusInfinity, "1"),
        (Reading::Infinity, "0"),
        (Reading::Finite(fx(12.25)), "12.25"),
    ] {
        let svg = encode_svg(&doc.scene(edge, edge, ""));
        assert!(svg.contains(&format!("viewBox=\"0 0 {shown} {shown}\"")), "{svg}");
    }
}

#[test]
fn a_render_carries_its_warnings_beside_the_markup() {
    let doc = document();
    let mut scene = doc.scene(Reading::Finite(fx(9.0)), Reading::Finite(fx(9.0)), "");
    scene.pop_layer();
    let render = to_svg(&scene);
    assert_eq!(render.svg, encode_svg(&scene));
    assert_eq!(render.warnings, vec!["UnbalancedLayers".to_string()]);
}

#[test]
fn numbers_are_written_to_the_places_asked_for() {
    let text = |nanos: i64, decimals: u8| {
        let mut out = String::new();
        num(&mut out, Fixed { nanos }, decimals);
        out
    };
    assert_eq!(text(320_000_000_000, 3), "320");
    assert_eq!(text(1_500_000_000, 3), "1.5");
    assert_eq!(text(-250_000_000, 3), "-0.25");
    assert_eq!(text(1_234_567_890, 3), "1.235");
    assert_eq!(text(1_234_567_890, 9), "1.23456789");
    assert_eq!(text(1_234_567_890, 200), "1.23456789");
    // Halves go to the even neighbour.
    assert_eq!(text(500_000_000, 0), "0");
    assert_eq!(text(1_500_000_000, 0), "2");
    assert_eq!(text(2_500_000_000, 0), "2");
    // What rounds to nothing has no sign.
    assert_eq!(text(-400_000, 3), "0");
    assert_eq!(text(-999_999_999, 3), "-1");
    assert_eq!(text(i64::MIN, 9), "-9223372036.854775808");
    assert_eq!(text(i64::MAX, 0), "9223372037");
}
