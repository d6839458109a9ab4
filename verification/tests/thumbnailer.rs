//! The thumbnailer's command line and the sizes it comes to.

use std::path::PathBuf;

use hephaestus::color::Color;
use hephaestus::fixed::{Fixed, Reading};
use hephaestus::quicklook;
use hephaestus::thumbnailer::options::{path_from, percent_decode, Options};
use hephaestus::thumbnailer::sizing::{
    render, render_boxed, usable, DocumentFacts, ThumbnailError, MAX_EDGE,
};

fn fx(x: f64) -> Fixed {
    Fixed {
        nanos: (x * 1e9).round() as i64,
    }
}

fn reading(x: f64) -> Reading {
    if x.is_nan() {
        Reading::NotANumber
    } else if x == f64::INFINITY {
        Reading::Infinity
    } else if x == f64::NEG_INFINITY {
        Reading::MinusInfinity
    } else {
        Reading::Finite(fx(x))
    }
}

fn args(list: &[&str]) -> Vec<String> {
    list.iter().map(|s| s.to_string()).collect()
}

/// A document that recorded this size and nothing else.
fn facts(width: f64, height: f64) -> DocumentFacts {
    DocumentFacts {
        size: Some((reading(width), reading(height))),
        background: None,
        paper: Color::gray(fx(1.0)),
    }
}

#[test]
fn the_spec_form_parses() {
    let options = Options::parse(args(&["-s", "128", "-i", "/tmp/a.hep", "-o", "/tmp/a.png"]))
        .expect("parses")
        .expect("not help");
    assert_eq!(options.size, 128);
    assert_eq!(PathBuf::from(&options.input), PathBuf::from("/tmp/a.hep"));
    assert_eq!(PathBuf::from(&options.output), PathBuf::from("/tmp/a.png"));
}

#[test]
fn the_size_has_a_default_and_long_flags_are_accepted() {
    let options = Options::parse(args(&["--output", "b", "--input", "a"]))
        .expect("parses")
        .expect("not help");
    assert_eq!(options.size, 512);
    assert_eq!(options.input, "a");
    assert_eq!(options.output, "b");
}

#[test]
fn a_file_uri_is_accepted_too() {
    for (given, expected) in [
        ("file:///tmp/a.hep", "/tmp/a.hep"),
        ("file://localhost/tmp/a.hep", "/tmp/a.hep"),
        ("file:///tmp/my%20plot.hep", "/tmp/my plot.hep"),
        ("/tmp/plain.hep", "/tmp/plain.hep"),
        // A literal percent that is not an escape stays put.
        ("/tmp/100%.hep", "/tmp/100%.hep"),
    ] {
        assert_eq!(
            PathBuf::from(path_from(given)),
            PathBuf::from(expected),
            "{given}"
        );
    }
}

#[test]
fn a_malformed_escape_is_left_as_written() {
    assert_eq!(percent_decode("100%"), "100%");
    assert_eq!(percent_decode("%2"), "%2");
    assert_eq!(percent_decode("%zz"), "%zz");
    assert_eq!(percent_decode("%+5"), "%+5");
    assert_eq!(percent_decode("%25%41%6a"), "%Aj");
    assert_eq!(percent_decode("%c3%a9"), "é");
    assert_eq!(percent_decode("%ff"), "\u{fffd}");
    assert_eq!(percent_decode("naïve"), "naïve");
    for text in ["", "a/b c", "naïve %41 ✓\u{1f600}"] {
        let mut escaped = String::new();
        for (i, byte) in text.bytes().enumerate() {
            escaped.push_str(&if i % 2 == 0 {
                format!("%{byte:02x}")
            } else {
                format!("%{byte:02X}")
            });
        }
        assert_eq!(percent_decode(&escaped), text);
    }
}

#[test]
fn a_missing_input_or_output_is_refused() {
    assert!(Options::parse(args(&["-s", "128"])).is_err());
    assert!(Options::parse(args(&["-i", "/tmp/a.hep"])).is_err());
    assert!(Options::parse(args(&["-s", "big", "-i", "a", "-o", "b"])).is_err());
    assert!(Options::parse(args(&["--nonsense"])).is_err());
    assert!(Options::parse(args(&["-s"])).is_err());
}

#[test]
fn each_refusal_says_what_was_wrong() {
    let message = |list: &[&str]| Options::parse(args(list)).expect_err("refused");
    assert_eq!(message(&["-s", "128"]), "no input file (-i)");
    assert_eq!(message(&["-i", "a"]), "no output file (-o)");
    assert_eq!(message(&["-s", "big"]), "\"big\" is not a size in pixels");
    assert_eq!(
        message(&["-s", "4294967296"]),
        "\"4294967296\" is not a size in pixels"
    );
    assert_eq!(message(&["--nonsense"]), "unexpected argument \"--nonsense\"");
    assert_eq!(message(&["a\"b"]), "unexpected argument \"a\\\"b\"");
    assert_eq!(message(&["-s"]), "-s needs a value");
    assert_eq!(message(&["--input"]), "--input needs a value");
}

#[test]
fn a_size_is_read_as_a_number_is() {
    let size = |raw: &str| {
        Options::parse(args(&["-s", raw, "-i", "a", "-o", "b"]))
            .ok()
            .flatten()
            .map(|o| o.size)
    };
    assert_eq!(size("0"), Some(0));
    assert_eq!(size("+7"), Some(7));
    assert_eq!(size("4294967295"), Some(u32::MAX));
    assert_eq!(size("007"), Some(7));
    assert_eq!(size(""), None);
    assert_eq!(size("+"), None);
    assert_eq!(size("-1"), None);
    assert_eq!(size(" 1"), None);
}

#[test]
fn help_is_not_a_failure() {
    assert!(Options::parse(args(&["--help"])).expect("ok").is_none());
    assert!(Options::parse(args(&["-s", "1", "-h"])).expect("ok").is_none());
}

#[test]
fn neither_edge_exceeds_the_size_asked_for() {
    for size in [1024, 512, 256, 128, 64, 32, 16] {
        for (w, h) in [(504.0, 360.0), (360.0, 504.0), (36.0, 4000.0), (77.7, 77.7)] {
            let plan = render(Ok(facts(w, h)), size).expect("a plan");
            assert!(
                plan.width <= size && plan.height <= size,
                "{size}px asked for, {}x{} produced",
                plan.width,
                plan.height
            );
            assert!(plan.width >= 1 && plan.height >= 1);
            assert!(
                plan.width == size || plan.height == size,
                "{size}px asked for but neither edge reached it: {}x{}",
                plan.width,
                plan.height
            );
        }
    }
}

#[test]
fn the_aspect_is_the_same_at_every_size() {
    let large = render(Ok(facts(504.0, 360.0)), 1024).expect("a plan");
    let small = render(Ok(facts(504.0, 360.0)), 128).expect("a plan");
    let ratio = |w: u32, h: u32| f64::from(w) / f64::from(h);
    let drift = ratio(large.width, large.height) - ratio(small.width, small.height);
    assert!(drift.abs() < 0.02, "aspect drifted by {drift}");
}

#[test]
fn a_picture_is_drawn_over_an_opaque_background() {
    let mut f = facts(504.0, 360.0);
    f.paper = Color::gray(fx(0.25)).with_alpha(fx(0.5));
    let plan = render(Ok(f), 256).expect("a plan");
    assert_eq!(plan.background, Color::gray(fx(0.25)));
    f.background = Some(Color::gray(fx(0.75)).with_alpha(fx(0.0)));
    let plan = render(Ok(f), 256).expect("a plan");
    assert_eq!(plan.background, Color::gray(fx(0.75)));
}

#[test]
fn a_picture_has_one_exact_size_and_density() {
    let plan = render(Ok(facts(504.0, 360.0)), 256).expect("a plan");
    assert_eq!((plan.width, plan.height), (256, 183));
    // 72 points per inch, 256 pixels for 504 points.
    assert_eq!(plan.dpi, Fixed { nanos: 36_571_428_571 });
}

#[test]
fn a_nonsense_size_is_refused_rather_than_attempted() {
    assert!(render(Ok(facts(504.0, 360.0)), 0).is_err());
    assert!(render(Ok(facts(504.0, 360.0)), MAX_EDGE + 1).is_err());
    let error = render_boxed(Ok(facts(504.0, 360.0)), 10, 5000).expect_err("refused");
    assert!(matches!(error, ThumbnailError::Size(5000)));
    assert_eq!(
        error.message(),
        "5000 is not a usable thumbnail size (1..=4096)"
    );
}

#[test]
fn anything_that_is_not_a_document_fails_cleanly() {
    let error = render(Err("bad magic".to_string()), 256).expect_err("refused");
    assert_eq!(
        error.message(),
        "not a readable plot document: bad magic"
    );
    // A size no thumbnail should have is reported first.
    let error = render(Err("bad magic".to_string()), 0).expect_err("refused");
    assert!(matches!(error, ThumbnailError::Size(0)));
    assert_eq!(
        ThumbnailError::Backend("no adapter".to_string()).message(),
        "rendering failed: no adapter"
    );
}

#[test]
fn a_non_square_box_is_filled_as_far_as_the_aspect_allows() {
    for (w, h) in [(800, 200), (200, 800), (1000, 400), (300, 300)] {
        let plan = render_boxed(Ok(facts(504.0, 360.0)), w, h).expect("a plan");
        assert!(
            plan.width <= w && plan.height <= h,
            "{w}x{h} box overflowed by {}x{}",
            plan.width,
            plan.height
        );
        assert!(
            plan.width == w || plan.height == h,
            "{w}x{h} box under-filled: {}x{}",
            plan.width,
            plan.height
        );
    }
}

#[test]
fn a_size_hint_worth_nothing_is_not_obeyed() {
    for (w, h) in [
        (35.9, 100.0),
        (100.0, 4000.1),
        (f64::NAN, 100.0),
        (100.0, f64::INFINITY),
        (f64::NEG_INFINITY, 100.0),
        (-100.0, 100.0),
    ] {
        assert!(!usable((reading(w), reading(h))), "{w} by {h}");
        let page = quicklook::render(Some(facts(w, h))).expect("a page");
        assert_eq!((page.width_pt, page.height_pt), (fx(600.0), fx(450.0)));
    }
    assert!(usable((reading(36.0), reading(4000.0))));
}

#[test]
fn a_preview_page_is_the_size_the_document_recorded() {
    let page = quicklook::render(Some(facts(504.0, 360.0))).expect("a page");
    assert_eq!((page.width_pt, page.height_pt), (fx(504.0), fx(360.0)));
    assert_eq!(page.background, Color::gray(fx(1.0)));
    assert!(quicklook::render(None).is_none());
}
