//! The viewer: frames, windows, watching, the render thread and exports.

use std::path::PathBuf;

use hephaestus::color::Color;
use hephaestus::fixed::{Fixed, Reading};
use hephaestus::svg::config::{SvgUnits, SvgWarning, TextMode};
use hephaestus::viewer::channel::{FrameSpec, OpenFailure, OpenOutcome, Request, TabId};
use hephaestus::viewer::commands::{
    default_file_name, export_title, exported_tab, is_document, name_for, paths_from_args, placed,
    render_frame, resolve, FrameRoute,
};
use hephaestus::viewer::doc::{
    tab_info, titled, DocumentHints, OpenDoc, ReadDocument, ReadFailure,
};
use hephaestus::viewer::error::{retryable, DocumentError, ViewerError, RETRY_DELAYS_MS};
use hephaestus::viewer::export::{
    describe, export, ExportFormat, ExportPlan, ExportSpec, Extent, RasterEncoder, SizeUnit,
    VectorWriter,
};
use hephaestus::viewer::frame::{
    error_frame, no_document, Encoding, FrameHeader, FrameStatus, FLAG_DRAFT, FLAG_PNG,
    HEADER_LEN, MAGIC, VERSION,
};
use hephaestus::viewer::menu::{build_menu, dispatch_menu, Action, MenuEntry, MenuRoute, MenuTitle};
use hephaestus::viewer::watch::{
    schedule_reload, worth_reloading, Change, ChangeKind, ChangedPath, Registry,
};
use hephaestus::viewer::windows::{title_for, PendingOpens, Presented, WindowMap};
use hephaestus::viewer::worker::{
    dispatch, frame, frame_geometry, Candidate, FileRead, ReloadStep, RendererStep, Step, Worker,
};

fn fx(x: f64) -> Fixed {
    Fixed {
        nanos: (x * 1e9).round() as i64,
    }
}

fn reading(x: f64) -> Reading {
    if x.is_nan() {
        Reading::NotANumber
    } else if x == f64::INFINITY {
        Reading::Infinity
    } else if x == f64::NEG_INFINITY {
        Reading::MinusInfinity
    } else {
        Reading::Finite(fx(x))
    }
}

// ─── Frames ─────────────────────────────────────────────────────────────────

#[test]
fn a_header_survives_the_round_trip() {
    let header = FrameHeader {
        flags: Encoding::PngFast.flag(),
        status: FrameStatus::Drawn,
        width: 1800,
        height: 1120,
        dpi: fx(192.0),
        tab: 7,
        seq: 4242,
        payload_len: 96,
    };
    let buffer = header.with_payload(&[0u8; 96]);

    assert_eq!(buffer.len(), HEADER_LEN + 96);
    let read = FrameHeader::decode(&buffer).expect("a header this build wrote");
    assert_eq!(read, header);
    assert!(read.is_png());
    assert!(!read.is_draft());
}

#[test]
fn a_fractional_dpi_survives_to_a_thousandth() {
    let header = FrameHeader {
        flags: 0,
        status: FrameStatus::Drawn,
        width: 10,
        height: 10,
        dpi: fx(96.0 * 1.325),
        tab: 1,
        seq: 1,
        payload_len: 0,
    };
    let buffer = header.with_payload(&[]);
    let read = FrameHeader::decode(&buffer).expect("a header this build wrote");
    assert!((read.dpi.nanos - header.dpi.nanos).abs() < 1_000_000);
    // And no further: a thousandth is what the wire carries.
    let fine = FrameHeader {
        dpi: Fixed {
            nanos: 96_000_600_000,
        },
        ..header
    };
    let read = FrameHeader::decode(&fine.with_payload(&[])).expect("a header");
    assert_eq!(
        read.dpi,
        Fixed {
            nanos: 96_001_000_000
        }
    );
}

#[test]
fn a_nonsense_dpi_saturates() {
    let dpi = |nanos: i64| {
        let mut header = FrameHeader::empty(FrameStatus::Drawn, 0, 0);
        header.dpi = Fixed { nanos };
        FrameHeader::decode(&header.with_payload(&[]))
            .expect("a header")
            .dpi
            .nanos
    };
    assert_eq!(dpi(-5_000_000_000), 0);
    assert_eq!(dpi(i64::MAX), i64::from(u32::MAX) * 1_000_000);
}

#[test]
fn the_layout_of_a_header_is_fixed() {
    let header = FrameHeader {
        flags: 3,
        status: FrameStatus::Error,
        width: 0x0102_0304,
        height: 5,
        dpi: fx(1.0),
        tab: 6,
        seq: 7,
        payload_len: 0,
    };
    let bytes = header.with_payload(&[9, 8]);
    assert_eq!(&bytes[..4], b"HEPF");
    assert_eq!(&MAGIC, b"HEPF");
    assert_eq!(
        &bytes[4..],
        &[
            1, 0, 3, 2, 4, 3, 2, 1, 5, 0, 0, 0, 0xe8, 3, 0, 0, 6, 0, 0, 0, 7, 0, 0, 0, 2, 0, 0, 0,
            9, 8
        ]
    );
}

#[test]
fn the_payload_starts_four_byte_aligned() {
    assert_eq!(HEADER_LEN % 4, 0);
}

#[test]
fn a_reply_with_no_picture_carries_its_reason() {
    let buffer = FrameHeader::empty(FrameStatus::Superseded, 3, 9).with_payload(&[]);
    let read = FrameHeader::decode(&buffer).expect("a header this build wrote");
    assert_eq!(read.status, FrameStatus::Superseded);
    assert_eq!(read.payload_len, 0);
    assert_eq!(read.tab, 3);
    assert_eq!(read.seq, 9);

    let buffer = error_frame(3, 9, "no adapter");
    let read = FrameHeader::decode(&buffer).expect("a header this build wrote");
    assert_eq!(read.status, FrameStatus::Error);
    assert_eq!(
        std::str::from_utf8(&buffer[HEADER_LEN..]).expect("utf-8"),
        "no adapter"
    );

    let read = FrameHeader::decode(&no_document(4)).expect("a header this build wrote");
    assert_eq!(read.status, FrameStatus::NoSuchTab);
    assert_eq!((read.tab, read.seq, read.payload_len), (0, 4, 0));
}

#[test]
fn anything_that_is_not_a_frame_is_refused() {
    assert!(FrameHeader::decode(&[]).is_none());
    assert!(FrameHeader::decode(&[0u8; HEADER_LEN]).is_none());

    // Right magic, wrong version.
    let mut buffer = FrameHeader::empty(FrameStatus::Drawn, 1, 1).with_payload(&[]);
    buffer[4..6].copy_from_slice(&(VERSION + 1).to_le_bytes());
    assert!(FrameHeader::decode(&buffer).is_none());

    // A status nothing has.
    let mut buffer = FrameHeader::empty(FrameStatus::Drawn, 1, 1).with_payload(&[]);
    buffer[7] = 4;
    assert!(FrameHeader::decode(&buffer).is_none());
    assert!(FrameStatus::from_u8(4).is_none());
    assert_eq!(FrameStatus::from_u8(3), Some(FrameStatus::NoSuchTab));
}

#[test]
fn the_encoding_is_overridable_by_environment() {
    assert_eq!(Encoding::RawRgba.flag(), 0);
    assert_ne!(Encoding::PngFast.flag(), 0);
    assert_eq!(Encoding::default(), Encoding::RawRgba);
}

#[test]
fn the_encoding_setting_wins_over_the_platform() {
    assert_eq!(Encoding::resolve(None, false), Encoding::RawRgba);
    assert_eq!(Encoding::resolve(None, true), Encoding::PngFast);
    assert_eq!(Encoding::resolve(Some(" raw\n"), true), Encoding::RawRgba);
    assert_eq!(Encoding::resolve(Some("rgba"), true), Encoding::RawRgba);
    assert_eq!(Encoding::resolve(Some("\tpng "), false), Encoding::PngFast);
    assert_eq!(Encoding::resolve(Some("jpeg"), false), Encoding::RawRgba);
    assert_eq!(
        Encoding::resolve(Some("\u{2003}png\u{a0}\u{3000}"), false),
        Encoding::PngFast
    );
    assert_eq!(
        Encoding::resolve(Some("\u{200b}png"), false),
        Encoding::RawRgba
    );
    assert_eq!(Encoding::from_setting(Some(" raw"), true), Encoding::PngFast);
}

// ─── Errors and retries ─────────────────────────────────────────────────────

#[test]
fn a_half_written_file_is_retried() {
    for error in [
        DocumentError::BadMagic,
        DocumentError::UnexpectedEof {
            offset: 12,
            wanted: 4,
            available: 1,
        },
        DocumentError::BadVarint { offset: 40 },
        DocumentError::MissingChunk {
            tag: "PLOT".to_string(),
        },
        DocumentError::BadUtf8 { offset: 8 },
    ] {
        assert!(retryable(&error), "{error:?} should be retried");
    }
}

#[test]
fn a_document_this_build_cannot_read_is_not() {
    for error in [
        DocumentError::UnsupportedVersion {
            found: 99,
            supported: 1,
        },
        DocumentError::UnsupportedFlags { bits: 0x8000 },
        DocumentError::UnknownCriticalChunk {
            tag: "ZZZZ".to_string(),
        },
        DocumentError::UnknownGeom {
            kind: "hexbin".to_string(),
        },
    ] {
        assert!(!retryable(&error), "{error:?} should not be retried");
    }
}

#[test]
fn the_retry_budget_is_bounded_and_increasing() {
    assert!(!RETRY_DELAYS_MS.is_empty());
    assert!(RETRY_DELAYS_MS.windows(2).all(|pair| pair[0] < pair[1]));
    // A save that has not landed in this long is not a save in progress.
    assert!(RETRY_DELAYS_MS.iter().sum::<u64>() < 3_000);
    for (attempt, delay) in RETRY_DELAYS_MS.iter().enumerate() {
        assert_eq!(schedule_reload(attempt as u8), Some(*delay));
    }
    assert_eq!(schedule_reload(RETRY_DELAYS_MS.len() as u8), None);
    assert_eq!(schedule_reload(255), None);
}

#[test]
fn every_error_says_what_went_wrong() {
    let io = ViewerError::io("/a.hep", "denied".to_string());
    assert_eq!(io.message(), "cannot read /a.hep: denied");
    let document = ViewerError::document(
        "/a.hep",
        DocumentError::BadMagic,
        "not a document".to_string(),
    );
    assert_eq!(
        document.message(),
        "/a.hep is not a readable plot document: not a document"
    );
    assert!(document.worth_retrying());
    assert!(!io.worth_retrying());
    for (error, text) in [
        (
            ViewerError::Backend("no adapter".to_string()),
            "rendering failed: no adapter",
        ),
        (
            ViewerError::Encode("short write".to_string()),
            "encoding failed: short write",
        ),
        (ViewerError::NoSuchTab(7), "no open document with id 7"),
        (
            ViewerError::RenderThreadGone,
            "the render thread is not running",
        ),
        (
            ViewerError::Dropped,
            "the render thread dropped the request",
        ),
        (ViewerError::Canceled, "canceled"),
        (ViewerError::Rejected("no".to_string()), "no"),
    ] {
        assert_eq!(error.message(), text);
    }
}

// ─── Windows ────────────────────────────────────────────────────────────────

#[test]
fn early_paths_are_held_until_drained() {
    let mut pending = PendingOpens::default();
    assert!(pending.drain().is_empty());

    pending.queue(vec![PathBuf::from("/tmp/a.hep")]);
    pending.queue(vec![PathBuf::from("/tmp/b.hep")]);
    let drained = pending.drain();
    assert_eq!(drained.len(), 2, "both events should survive");
    assert_eq!(
        drained,
        vec![PathBuf::from("/tmp/a.hep"), PathBuf::from("/tmp/b.hep")]
    );

    // Draining is a take, so setup cannot open the same file twice.
    assert!(pending.drain().is_empty());
}

#[test]
fn paths_that_come_before_the_app_is_ready_are_held() {
    let mut pending = PendingOpens::default();
    let early = vec![PathBuf::from("/tmp/a.hep")];
    assert!(pending.deliver(early.clone(), false).is_empty());
    let late = vec![PathBuf::from("/tmp/b.hep")];
    assert_eq!(pending.deliver(late.clone(), true), late);
    assert_eq!(pending.drain(), early);
}

#[test]
fn a_window_shows_what_it_was_given() {
    let mut map = WindowMap::default();
    let first = map.next_label();
    let second = map.next_label();
    assert_eq!(first, "doc-1");
    assert_eq!(second, "doc-2");
    map.insert(first.clone(), None);
    map.insert(second.clone(), Some(TabId(9)));
    assert_eq!(map.count(), 2);
    assert!(map.is_vacant(&first));
    assert!(!map.is_vacant(&second));
    assert!(!map.is_vacant("doc-3"));
    assert_eq!(map.tab_for(&first), None);
    assert_eq!(map.tab_for(&second), Some(TabId(9)));
    map.bind(&first, TabId(4));
    assert_eq!(map.tab_for(&first), Some(TabId(4)));
    assert_eq!(map.count(), 2);
    map.insert(second.clone(), None);
    assert_eq!(map.count(), 2);
    assert!(map.is_vacant(&second));
    assert_eq!(map.forget(&first), Some(TabId(4)));
    assert_eq!(map.forget(&first), None);
    assert_eq!(map.count(), 1);
    assert_eq!(map.forget(&second), None);
    assert!(!map.is_vacant(&second));
    assert_eq!(map.count(), 0);
}

#[test]
fn documents_are_shown_without_a_stray_blank_window() {
    let mut map = WindowMap::default();
    map.insert("doc-1".to_string(), None);
    map.insert("doc-2".to_string(), Some(TabId(5)));
    let live = vec!["doc-2".to_string(), "doc-1".to_string()];
    assert_eq!(map.vacant_label(&live).as_deref(), Some("doc-1"));
    let mut reusable = map.reusable(Some("doc-1"));
    assert_eq!(reusable.as_deref(), Some("doc-1"));
    assert_eq!(map.reusable(Some("doc-2")), None);
    assert_eq!(map.reusable(None), None);

    // Already open: brought forward, and the blank window is kept.
    assert!(matches!(
        map.present(&live, &mut reusable, TabId(5)),
        Presented::Focus(label) if label == "doc-2"
    ));
    // The first new one fills the blank window, the next opens its own.
    assert!(matches!(
        map.present(&live, &mut reusable, TabId(6)),
        Presented::Bound(label) if label == "doc-1"
    ));
    assert_eq!(map.tab_for("doc-1"), Some(TabId(6)));
    assert!(matches!(
        map.present(&live, &mut reusable, TabId(7)),
        Presented::Open
    ));
    assert_eq!(map.vacant_label(&live), None);
    assert_eq!(map.label_showing(&live, TabId(7)), None);
}

// ─── Watching ───────────────────────────────────────────────────────────────

fn change(kind: ChangeKind, path: &str, resolved: Option<&str>) -> Change {
    Change {
        kind,
        paths: vec![ChangedPath {
            path: path.to_string(),
            resolved: resolved.map(str::to_string),
        }],
    }
}

#[test]
fn a_directory_is_watched_once_for_all_its_documents() {
    let mut registry = Registry::new();
    assert_eq!(registry.add("/d/a.hep", TabId(1)).as_deref(), Some("/d"));
    assert_eq!(registry.add("/d/b.hep", TabId(2)), None);
    assert!(registry.add_in("/e/c.hep", "/e", TabId(3)));
    assert_eq!(registry.tab_for("/d/b.hep", None), Some(TabId(2)));
    assert_eq!(registry.remove("/d/a.hep"), None);
    assert_eq!(registry.tab_for("/d/a.hep", None), None);
    assert_eq!(registry.remove("/d/b.hep").as_deref(), Some("/d"));
    assert_eq!(registry.remove("/d/b.hep"), None);
    assert!(registry.remove_from("/e/c.hep", "/e"));
    // The root lies in no directory; a bare name lies in the nameless one.
    assert_eq!(registry.add("/", TabId(4)), None);
    assert_eq!(registry.tab_for("/", None), None);
    assert_eq!(registry.add("/f.hep", TabId(5)).as_deref(), Some("/"));
    assert_eq!(registry.add("g.hep", TabId(6)).as_deref(), Some(""));
    assert_eq!(registry.remove("/"), None);
}

#[test]
fn a_watch_that_failed_is_tried_again() {
    let mut registry = Registry::new();
    assert_eq!(registry.add("/d/a.hep", TabId(1)).as_deref(), Some("/d"));
    registry.watch_failed("/d");
    assert_eq!(registry.add("/d/b.hep", TabId(2)).as_deref(), Some("/d"));
}

#[test]
fn a_burst_of_events_reloads_each_document_once() {
    let mut registry = Registry::new();
    registry.add("/private/tmp/a.hep", TabId(1));
    registry.add("/d/b.hep", TabId(2));
    registry.add("/d/c.hep", TabId(3));
    let tabs = registry.affected(&vec![
        change(ChangeKind::Create, "/tmp/a.hep", Some("/private/tmp/a.hep")),
        change(ChangeKind::Modify, "/private/tmp/a.hep", None),
        change(ChangeKind::Remove, "/d/b.hep", None),
        change(ChangeKind::Any, "/d/c.hep", None),
        change(ChangeKind::Modify, "/d/unknown", Some("/d/unknown")),
    ]);
    assert_eq!(tabs, vec![TabId(1), TabId(3)]);
}

#[test]
fn a_removal_is_not_worth_a_reload() {
    assert!(worth_reloading(ChangeKind::Any));
    assert!(worth_reloading(ChangeKind::Create));
    assert!(worth_reloading(ChangeKind::Modify));
    assert!(!worth_reloading(ChangeKind::Remove));
    assert!(!worth_reloading(ChangeKind::Access));
    assert!(!worth_reloading(ChangeKind::Other));
}

// ─── The render thread ──────────────────────────────────────────────────────

fn spec(width: u32, height: u32, dpi: f64, draft: bool, seq: u32) -> FrameSpec {
    FrameSpec {
        width,
        height,
        dpi: reading(dpi),
        draft,
        seq,
    }
}

fn read() -> ReadDocument {
    ReadDocument {
        hints: DocumentHints {
            size: Some((fx(504.0), fx(360.0))),
            dpi: Some(fx(300.0)),
            background: Some(Color::gray(fx(0.9)).with_alpha(fx(0.0))),
        },
        paper: Color::gray(fx(1.0)),
        inverted_paper: Color::gray(fx(0.1)),
        writer_version: Some("1.2".to_string()),
    }
}

fn file() -> FileRead {
    FileRead::Bytes(vec![1, 2, 3], Ok(read()))
}

fn damaged(cause: DocumentError) -> FileRead {
    FileRead::Bytes(
        vec![1],
        Err(ReadFailure {
            cause,
            text: "cut short".to_string(),
        }),
    )
}

fn worker_with(paths: &[&str]) -> Worker {
    let mut worker = Worker::new(Encoding::RawRgba);
    for path in paths {
        worker
            .adopt(Candidate {
                given: path.to_string(),
                path: path.to_string(),
                file: file(),
            })
            .expect("opens");
    }
    worker
}

#[test]
fn a_document_is_titled_and_watched_by_its_path() {
    for (path, title, dir) in [
        ("/d/a.hep", "a.hep", Some("/d")),
        ("/a.hep", "a.hep", Some("/")),
        ("a.hep", "a.hep", Some("")),
        ("/d/a.hep/.", "a.hep", Some("/d")),
        ("/d/..", "/d/..", Some("/d")),
        ("/", "/", None),
    ] {
        let doc = OpenDoc::open(TabId(1), path.to_string(), vec![], Ok(read()), false);
        let doc = doc.expect("opens");
        assert_eq!(doc.title(), title, "{path}");
        assert_eq!(tab_info(&doc).title, title, "{path}");
        assert_eq!(doc.watch_dir().as_deref(), dir, "{path}");
    }
    assert_eq!(titled(Some("n".to_string()), "/p"), "n");
    assert_eq!(titled(None, "/p"), "/p");
}

#[test]
fn only_the_newest_frame_of_a_tab_is_drawn() {
    let frame = |tab: u32, seq: u32| Request::Frame {
        tab: TabId(tab),
        spec: spec(10, 10, 96.0, false, seq),
    };
    let steps = dispatch(&vec![
        frame(1, 1),
        frame(2, 2),
        Request::SetDark { dark: true },
        frame(1, 3),
        Request::Close { tab: TabId(9) },
    ]);
    assert_eq!(steps.len(), 5);
    match &steps[0] {
        Step::Supersede(bytes) => {
            let header = FrameHeader::decode(bytes).expect("a header");
            assert_eq!(header.status, FrameStatus::Superseded);
            assert_eq!((header.tab, header.seq), (1, 1));
        }
        other => panic!("{other:?}"),
    }
    assert!(matches!(steps[1], Step::Draw));
    assert!(matches!(steps[2], Step::Perform));
    assert!(matches!(steps[3], Step::Draw));
    assert!(matches!(steps[4], Step::Perform));
}

#[test]
fn nothing_behind_a_shutdown_is_taken_up() {
    let steps = dispatch(&vec![
        Request::Attach { showing: None },
        Request::Shutdown,
        Request::SetDark { dark: true },
    ]);
    assert_eq!(steps.len(), 2);
    assert!(matches!(steps[0], Step::Perform));
    assert!(matches!(steps[1], Step::Stop));
    assert!(dispatch(&vec![]).is_empty());
}

#[test]
fn a_file_that_is_open_is_answered_with_its_tab() {
    let mut worker = worker_with(&["/a.hep", "/b.hep"]);
    let known = worker.known("/b.hep").expect("open");
    assert_eq!(known.id, TabId(2));
    assert_eq!(known.title, "b.hep");
    assert_eq!(known.path, "/b.hep");
    assert_eq!(known.generation, 0);
    assert_eq!(known.hint_width, Some(fx(504.0)));
    assert_eq!(known.hint_height, Some(fx(360.0)));
    assert_eq!(known.hint_dpi, Some(fx(300.0)));
    assert_eq!(known.writer_version.as_deref(), Some("1.2"));
    assert_eq!(known.stale, None);
    assert!(worker.known("/c.hep").is_none());

    // Closing forgets it, and its id is not handed out again.
    assert_eq!(worker.close(TabId(1)).as_deref(), Some("/a.hep"));
    assert_eq!(worker.close(TabId(1)), None);
    assert!(worker.known("/a.hep").is_none());
    let again = worker
        .adopt(candidate("/a.hep", file()))
        .expect("opens");
    assert_eq!(again.id, TabId(3));
    assert_eq!(again.title, "a.hep");
}

fn candidate(path: &str, file: FileRead) -> Candidate {
    Candidate {
        given: format!(".{path}"),
        path: path.to_string(),
        file,
    }
}

#[test]
fn partial_success_opens_what_it_can() {
    let mut worker = worker_with(&["/x.hep"]);
    let outcome = worker.open(vec![
        candidate("/a.hep", file()),
        candidate("/b.hep", FileRead::Unreadable("denied".to_string())),
        candidate("/x.hep", FileRead::Unreadable("denied".to_string())),
        candidate("/c.hep", damaged(DocumentError::BadMagic)),
        candidate("/a.hep", file()),
        candidate("/d.hep", file()),
    ]);
    let opened: Vec<(u32, &str)> = outcome
        .opened
        .iter()
        .map(|t| (t.id.0, t.path.as_str()))
        .collect();
    assert_eq!(
        opened,
        vec![(2, "/a.hep"), (1, "/x.hep"), (2, "/a.hep"), (3, "/d.hep")]
    );
    let messages: Vec<(&str, &str)> = outcome
        .failed
        .iter()
        .map(|f: &OpenFailure| (f.path.as_str(), f.message.as_str()))
        .collect();
    assert_eq!(
        messages,
        vec![
            ("./b.hep", "cannot read /b.hep: denied"),
            ("./c.hep", "/c.hep is not a readable plot document: cut short"),
        ]
    );
    let nothing = OpenOutcome::new();
    assert!(nothing.opened.is_empty() && nothing.failed.is_empty());
}

#[test]
fn inverting_the_theme_reaches_every_document() {
    let mut worker = worker_with(&["/a.hep", "/b.hep"]);
    let light = worker.document(TabId(1)).expect("open").background();
    assert_eq!(light, Color::gray(fx(0.9)));
    worker.set_dark(true);
    for tab in [TabId(1), TabId(2)] {
        let dark = worker.document(tab).expect("open").background();
        assert_eq!(dark, Color::gray(fx(0.1)));
    }
    assert!(worker.attach(None).dark);
    let late = worker
        .adopt(candidate("/c.hep", file()))
        .expect("opens");
    assert!(worker.document(late.id).expect("open").dark);
    worker.set_dark(false);
    assert_eq!(
        worker.document(TabId(1)).expect("open").background(),
        light
    );
}

#[test]
fn a_document_reports_whether_its_theme_changed() {
    let mut doc = OpenDoc::open(TabId(1), "/a".to_string(), vec![], Ok(read()), false)
        .expect("opens");
    assert!(doc.set_dark(true));
    assert!(!doc.set_dark(true));
    let error = OpenDoc::open(
        TabId(1),
        "/a".to_string(),
        vec![],
        Err(ReadFailure {
            cause: DocumentError::Damaged,
            text: "torn".to_string(),
        }),
        false,
    )
    .expect_err("refused");
    assert_eq!(
        error.message(),
        "/a is not a readable plot document: torn"
    );
}

#[test]
fn a_booting_window_is_told_what_it_shows() {
    let worker = worker_with(&["/a.hep"]);
    let attachment = worker.attach(Some(TabId(1)));
    assert_eq!(attachment.document.expect("open").id, TabId(1));
    assert!(!attachment.dark);
    assert!(worker.attach(Some(TabId(2))).document.is_none());
    assert!(worker.attach(None).document.is_none());
}

#[test]
fn a_draft_frame_solves_the_same_layout() {
    let (w, h, dpi) = frame_geometry(&spec(800, 601, 192.0, false, 1)).expect("usable");
    assert_eq!((w, h, dpi), (800, 601, fx(192.0)));
    let (w, h, dpi) = frame_geometry(&spec(800, 601, 192.0, true, 1)).expect("usable");
    assert_eq!((w, h, dpi), (400, 301, fx(96.0)));
    let (w, h, _) = frame_geometry(&spec(0, 40_000, 96.0, false, 1)).expect("usable");
    assert_eq!((w, h), (1, 16_384));
    for (bad, shown) in [
        (0.0, "0"),
        (-1.5, "-1.5"),
        (f64::NAN, "NaN"),
        (f64::INFINITY, "inf"),
        (f64::NEG_INFINITY, "-inf"),
    ] {
        let error = frame_geometry(&spec(1, 1, bad, true, 1)).expect_err("unusable");
        assert_eq!(error.message(), format!("{shown} is not a usable resolution"));
    }
}

#[test]
fn a_frame_carries_what_was_drawn() {
    let worker = worker_with(&["/a.hep"]);
    let drawing = worker
        .draw(TabId(1), &spec(3, 2, 96.0, true, 5))
        .expect("drawable");
    assert_eq!(drawing.bytes, 2 * 1 * 4);
    assert_eq!(drawing.background, Color::gray(fx(0.9)));
    let reply = drawing.finish(&[7u8; 8]);
    let header = FrameHeader::decode(&reply).expect("a header");
    assert_eq!(header.status, FrameStatus::Drawn);
    assert_eq!(header.flags, FLAG_DRAFT);
    assert_eq!((header.width, header.height), (2, 1));
    assert_eq!(header.dpi, fx(48.0));
    assert_eq!((header.tab, header.seq, header.payload_len), (1, 5, 8));

    let mut png = Worker::new(Encoding::PngFast);
    png.adopt(candidate("/a.hep", file())).expect("opens");
    let drawing = png
        .draw(TabId(1), &spec(3, 2, 96.0, true, 5))
        .expect("drawable");
    assert_eq!(drawing.header.flags, FLAG_PNG | FLAG_DRAFT);
}

#[test]
fn a_frame_that_cannot_be_drawn_says_so_in_its_header() {
    let worker = worker_with(&["/a.hep"]);
    let gone = worker.draw(TabId(9), &spec(1, 1, 0.0, false, 3));
    let reply = frame(gone.map(|_| vec![]), TabId(9), 3);
    let header = FrameHeader::decode(&reply).expect("a header");
    assert_eq!(header.status, FrameStatus::NoSuchTab);
    assert_eq!((header.tab, header.seq), (9, 3));

    let bad = worker.draw(TabId(1), &spec(1, 1, 0.0, false, 3));
    let reply = frame(bad.map(|_| vec![]), TabId(1), 3);
    let header = FrameHeader::decode(&reply).expect("a header");
    assert_eq!(header.status, FrameStatus::Error);
    assert_eq!(&reply[HEADER_LEN..], b"0 is not a usable resolution");
    assert_eq!(frame(Ok(vec![1, 2]), TabId(1), 3), vec![1, 2]);
}

#[test]
fn the_adapter_is_asked_for_once() {
    let mut worker = worker_with(&[]);
    assert!(matches!(worker.start_renderer(), RendererStep::Build));
    let error = worker
        .renderer_built(Err("no adapter".to_string()))
        .expect_err("refused");
    assert_eq!(error.message(), "cannot rasterize: no adapter");
    match worker.start_renderer() {
        RendererStep::Refuse(e) => assert_eq!(e.message(), "cannot rasterize: no adapter"),
        other => panic!("{other:?}"),
    }
    let mut working = worker_with(&[]);
    working.renderer_built(Ok(())).expect("built");
    assert!(matches!(working.start_renderer(), RendererStep::Use));
}

#[test]
fn a_reload_replaces_the_document_and_counts() {
    let mut worker = worker_with(&["/a.hep"]);
    assert_eq!(worker.reload_path(TabId(1)).as_deref(), Some("/a.hep"));
    assert_eq!(worker.reload_path(TabId(2)), None);
    match worker.reload(TabId(1), 0, file()) {
        ReloadStep::Reloaded(info) => assert_eq!(info.generation, 1),
        other => panic!("{other:?}"),
    }
    assert!(matches!(
        worker.reload(TabId(2), 0, file()),
        ReloadStep::Ignored
    ));
}

#[test]
fn a_reload_caught_mid_write_is_tried_again_while_the_budget_lasts() {
    let mut worker = worker_with(&["/a.hep"]);
    for half in [
        FileRead::Bytes(vec![], Ok(read())),
        FileRead::Unreadable("gone".to_string()),
        damaged(DocumentError::BadVarint { offset: 3 }),
    ] {
        match worker.reload(TabId(1), 1, half) {
            ReloadStep::Retry { delay_ms, attempt } => {
                assert_eq!((delay_ms, attempt), (400, 2));
            }
            other => panic!("{other:?}"),
        }
    }
    assert_eq!(worker.known("/a.hep").expect("open").stale, None);

    match worker.reload(TabId(1), 3, FileRead::Bytes(vec![], Ok(read()))) {
        ReloadStep::Failed(message) => assert_eq!(message, "the file is empty"),
        other => panic!("{other:?}"),
    }
    let info = worker.known("/a.hep").expect("still open");
    assert_eq!(info.stale.as_deref(), Some("the file is empty"));
    assert_eq!(info.generation, 0);
    // A read that works clears it.
    match worker.reload(TabId(1), 0, file()) {
        ReloadStep::Reloaded(info) => assert_eq!(info.stale, None),
        other => panic!("{other:?}"),
    }
}

#[test]
fn a_document_that_waiting_cannot_mend_fails_at_once() {
    let mut worker = worker_with(&["/a.hep"]);
    match worker.reload(TabId(1), 0, damaged(DocumentError::UnsupportedFlags { bits: 1 })) {
        ReloadStep::Failed(message) => assert_eq!(
            message,
            "/a.hep is not a readable plot document: cut short"
        ),
        other => panic!("{other:?}"),
    }
    // The document on screen is still the last one that read cleanly.
    assert_eq!(worker.document(TabId(1)).expect("open").bytes, vec![1, 2, 3]);
}

#[test]
fn a_window_is_titled_by_its_document() {
    let doc = OpenDoc::open(
        TabId(1),
        "/d/a.hep".to_string(),
        vec![],
        Ok(read()),
        false,
    )
    .expect("opens");
    assert_eq!(title_for(&Some(tab_info(&doc))), "a.hep");
    assert_eq!(title_for(&None), "Hephaestus Viewer");
}

// ─── Exports ────────────────────────────────────────────────────────────────

fn export_spec(format: ExportFormat) -> ExportSpec {
    ExportSpec {
        format,
        width: reading(7.0),
        height: reading(5.0),
        unit: SizeUnit::In,
        dpi: reading(300.0),
        jpeg_quality: 90,
        outline_text: false,
        embed_fonts: false,
    }
}

fn paper() -> Color {
    Color::gray(fx(1.0))
}

#[test]
fn svg_is_written_at_the_physical_size_asked_for() {
    let plan = export(&export_spec(ExportFormat::Svg), Ok(()), false, paper()).expect("a plan");
    match &plan {
        ExportPlan::Vector {
            extent,
            writer: VectorWriter::Svg(config),
        } => {
            // 7 by 5 inches is 504 by 360 pt.
            assert_eq!(extent.width_pt, fx(504.0));
            assert_eq!(extent.height_pt, fx(360.0));
            assert_eq!(config.units, SvgUnits::Pt);
            assert_eq!(config.text, TextMode::Text);
            assert!(!config.pick_ids);
            assert_eq!(config.background, Some(paper()));
        }
        other => panic!("{other:?}"),
    }
    let (size, dpi) = plan.layout();
    assert_eq!((size.width, size.height, dpi), (fx(504.0), fx(360.0), fx(72.0)));
    let report = plan.report(ExportFormat::Svg, "/x.svg".to_string(), 1234, vec![]);
    assert_eq!((report.width, report.height), (504, 360));
    assert_eq!(report.dpi, fx(72.0));
    assert_eq!(report.bytes, 1234);
    assert_eq!(report.path, "/x.svg");
}

#[test]
fn svg_can_be_asked_for_outlines_instead() {
    let mut spec = export_spec(ExportFormat::Svg);
    spec.outline_text = true;
    spec.embed_fonts = true;
    match export(&spec, Ok(()), false, paper()) {
        Ok(ExportPlan::Vector {
            writer: VectorWriter::Svg(config),
            ..
        }) => {
            assert_eq!(config.text, TextMode::Outline);
            assert!(config.embed_fonts);
        }
        other => panic!("{other:?}"),
    }
}

#[test]
fn a_pdf_page_is_the_size_that_was_asked_for() {
    let plan = export(&export_spec(ExportFormat::Pdf), Ok(()), false, paper()).expect("a plan");
    assert!(matches!(
        plan,
        ExportPlan::Vector {
            writer: VectorWriter::Pdf,
            ..
        }
    ));
    let report = plan.report(ExportFormat::Pdf, String::new(), 0, vec![]);
    assert_eq!((report.width, report.height), (504, 360));
}

#[test]
fn a_size_too_short_to_tell_from_nothing_is_still_positive() {
    let mut spec = export_spec(ExportFormat::Png);
    spec.unit = SizeUnit::Px;
    spec.width = Reading::Finite(Fixed { nanos: 1 });
    assert!(Extent::resolve(&spec).is_ok());
    spec.width = Reading::Finite(Fixed { nanos: 0 });
    assert!(Extent::resolve(&spec).is_err());
}

#[test]
fn millimeters_and_points_reach_the_same_place_as_inches() {
    for (unit, width, height) in [
        (SizeUnit::Mm, 177.8, 127.0),
        (SizeUnit::Pt, 504.0, 360.0),
        (SizeUnit::Px, 2100.0, 1500.0),
    ] {
        let mut spec = export_spec(ExportFormat::Pdf);
        spec.unit = unit;
        spec.width = reading(width);
        spec.height = reading(height);
        let plan = export(&spec, Ok(()), false, paper()).expect("a plan");
        let report = plan.report(ExportFormat::Pdf, String::new(), 0, vec![]);
        assert_eq!(
            (report.width, report.height),
            (504, 360),
            "{unit:?} did not resolve to the same page"
        );
    }
}

#[test]
fn a_raster_format_says_so_rather_than_writing_nothing() {
    let error = export(&export_spec(ExportFormat::Png), Ok(()), false, paper())
        .expect_err("no renderer was supplied");
    assert!(
        error.message().contains("SVG and PDF need none"),
        "unhelpful message: {}",
        error.message()
    );
    assert_eq!(
        error.message(),
        "cannot write a PNG image without a working GPU adapter; SVG and PDF need none"
    );
}

#[test]
fn an_impossible_size_is_refused_before_anything_is_allocated() {
    let mut spec = export_spec(ExportFormat::Png);
    spec.width = reading(100.0);
    spec.dpi = reading(1200.0);
    let error = export(&spec, Ok(()), false, paper()).expect_err("120000 px is not renderable");
    assert!(error.message().contains("16384"), "unhelpful: {}", error.message());
    assert_eq!(
        error.message(),
        "120000 × 6000 px is past the 16384 px a texture can hold; \
         reduce the size or the resolution"
    );

    for bad in [0.0, -1.0, f64::NAN] {
        let mut spec = spec;
        spec.width = reading(bad);
        spec.dpi = reading(300.0);
        let error = export(&spec, Ok(()), false, paper()).expect_err("was accepted");
        assert_eq!(
            error.message(),
            "export width and height must both be positive"
        );
    }
    spec.dpi = reading(f64::NAN);
    let error = export(&spec, Ok(()), true, paper()).expect_err("was accepted");
    assert_eq!(error.message(), "NaN is not a usable resolution");
}

#[test]
fn every_raster_format_reaches_its_encoder() {
    for (format, encoder) in [
        (ExportFormat::Png, RasterEncoder::Png),
        (ExportFormat::Jpeg, RasterEncoder::Jpeg { quality: 90 }),
        (ExportFormat::Tiff, RasterEncoder::Tiff),
        (ExportFormat::Webp, RasterEncoder::Webp),
    ] {
        assert!(format.is_raster());
        match export(&export_spec(format), Ok(()), true, paper()) {
            Ok(ExportPlan::Raster {
                width,
                height,
                dpi,
                encoder: chosen,
            }) => {
                assert_eq!((width, height, dpi), (2100, 1500, fx(300.0)));
                assert_eq!(chosen, encoder);
            }
            other => panic!("{other:?}"),
        }
    }
    let mut spec = export_spec(ExportFormat::Jpeg);
    for (asked, used) in [(0, 1), (1, 1), (100, 100), (255, 100)] {
        spec.jpeg_quality = asked;
        assert!(matches!(
            export(&spec, Ok(()), true, paper()),
            Ok(ExportPlan::Raster { encoder: RasterEncoder::Jpeg { quality }, .. }) if quality == used
        ));
    }
    assert!(!ExportFormat::Svg.is_raster());
    assert!(!ExportFormat::Pdf.is_raster());
}

#[test]
fn a_raster_export_reports_its_pixels() {
    let plan = export(&export_spec(ExportFormat::Webp), Ok(()), true, paper()).expect("a plan");
    let (size, dpi) = plan.layout();
    assert_eq!((size.width, size.height, dpi), (fx(2100.0), fx(1500.0), fx(300.0)));
    let report = plan.report(ExportFormat::Webp, String::new(), 10, vec!["x".to_string()]);
    assert_eq!((report.width, report.height, report.dpi), (2100, 1500, fx(300.0)));
    assert_eq!(report.warnings, vec!["x".to_string()]);
}

#[test]
fn a_document_that_no_longer_reads_is_reported_after_the_size() {
    let torn = || Err(ViewerError::Rejected("torn".to_string()));
    let error = export(&export_spec(ExportFormat::Svg), torn(), true, paper()).expect_err("torn");
    assert_eq!(error.message(), "torn");
    let mut spec = export_spec(ExportFormat::Svg);
    spec.height = reading(0.0);
    let error = export(&spec, torn(), true, paper()).expect_err("no size");
    assert_eq!(
        error.message(),
        "export width and height must both be positive"
    );
}

#[test]
fn an_export_needs_a_document_and_sometimes_a_renderer() {
    let worker = worker_with(&["/a.hep"]);
    let (background, renderer) = worker
        .export_source(TabId(1), &export_spec(ExportFormat::Png))
        .expect("open");
    assert_eq!(background, Color::gray(fx(0.9)));
    assert!(renderer);
    let (_, renderer) = worker
        .export_source(TabId(1), &export_spec(ExportFormat::Svg))
        .expect("open");
    assert!(!renderer);
    let error = worker
        .export_source(TabId(2), &export_spec(ExportFormat::Svg))
        .expect_err("not open");
    assert_eq!(error.message(), "no open document with id 2");
}

#[test]
fn formats_are_named_and_labelled() {
    for (format, extension, label) in [
        (ExportFormat::Png, "png", "PNG image"),
        (ExportFormat::Jpeg, "jpg", "JPEG image"),
        (ExportFormat::Tiff, "tiff", "TIFF image"),
        (ExportFormat::Webp, "webp", "WebP image"),
        (ExportFormat::Svg, "svg", "SVG drawing"),
        (ExportFormat::Pdf, "pdf", "PDF document"),
    ] {
        assert_eq!(format.extension(), extension);
        assert_eq!(format.label(), label);
    }
    assert_eq!(export_title(ExportFormat::Tiff), "Export as TIFF image");
}

#[test]
fn warnings_are_described_by_name() {
    assert_eq!(
        describe(&vec![SvgWarning::SweepGradient, SvgWarning::FontNotEmbeddable]),
        vec!["SweepGradient".to_string(), "FontNotEmbeddable".to_string()]
    );
    for w in [
        SvgWarning::SweepGradient,
        SvgWarning::UnsupportedCompose,
        SvgWarning::AsymmetricCaps,
        SvgWarning::RadialFocalRadius,
        SvgWarning::ImageBrushUnsupported,
        SvgWarning::NonFiniteCoordinate,
        SvgWarning::UnbalancedLayers,
        SvgWarning::UnbalancedScopes,
        SvgWarning::TextWithoutSource,
        SvgWarning::MissingPngFeature,
        SvgWarning::UnembeddableImage,
        SvgWarning::FontNotEmbeddable,
    ] {
        assert_eq!(describe(&vec![w]), vec![format!("{w:?}")]);
    }
}

// ─── Commands, paths and the menu ───────────────────────────────────────────

#[test]
fn an_export_is_named_after_its_document() {
    assert_eq!(default_file_name("plot.hep", ExportFormat::Png), "plot.png");
    assert_eq!(
        default_file_name("a.b.hep", ExportFormat::Jpeg),
        "a.b.jpg"
    );
    assert_eq!(default_file_name("plot", ExportFormat::Svg), "plot.svg");
    assert_eq!(default_file_name(".hep", ExportFormat::Pdf), ".hep.pdf");
    for (path, name) in [
        ("", "plot.pdf"),
        ("/", "plot.pdf"),
        ("..", "plot.pdf"),
        ("a/..", "plot.pdf"),
        (".", "plot.pdf"),
        ("a/b.hep/", "b.pdf"),
        ("a/b.hep/.", "b.pdf"),
        ("/a/.hep", ".hep.pdf"),
        ("plot 12:30.hep", "plot 12:30.pdf"),
    ] {
        assert_eq!(default_file_name(path, ExportFormat::Pdf), name, "{path}");
    }
    assert_eq!(
        default_file_name("some/dir/plot.hep", ExportFormat::Webp),
        "plot.webp"
    );
    assert_eq!(name_for(None, ExportFormat::Tiff), "plot.tiff");
    assert_eq!(name_for(Some("x"), ExportFormat::Tiff), "x.tiff");
}

#[test]
fn a_window_without_a_document_has_nothing_to_export() {
    assert_eq!(exported_tab(Some(TabId(3))).expect("a tab"), TabId(3));
    assert_eq!(
        exported_tab(None).expect_err("none").message(),
        "this window has no document to export"
    );
}

#[test]
fn a_frame_request_is_routed_by_what_the_window_shows() {
    assert!(matches!(
        render_frame(Some(TabId(2)), true, 7),
        FrameRoute::Ask(TabId(2))
    ));
    match render_frame(None, true, 7) {
        FrameRoute::Reply(bytes) => assert_eq!(bytes, no_document(7)),
        other => panic!("{other:?}"),
    }
    match render_frame(Some(TabId(2)), false, 7) {
        FrameRoute::Reply(bytes) => assert_eq!(
            bytes,
            error_frame(0, 7, "the render thread is not running")
        ),
        other => panic!("{other:?}"),
    }
}

#[test]
fn flags_are_not_documents_and_relative_paths_are_resolved() {
    let args: Vec<String> = ["-psn_0_1", "/abs/a.hep", "b.hep", ""]
        .iter()
        .map(|s| s.to_string())
        .collect();
    assert_eq!(
        paths_from_args(&args, Some("/cwd")),
        vec!["/abs/a.hep", "/cwd/b.hep", "/cwd/"]
    );
    assert_eq!(
        paths_from_args(&args, None),
        vec!["/abs/a.hep", "b.hep", ""]
    );
    assert!(!is_document("-x"));
    assert!(is_document("x-"));
    assert_eq!(resolve("a".to_string(), Some("/d")), "/d/a");
    assert_eq!(resolve("../b/a".to_string(), Some("/d/")), "/d/../b/a");
    assert_eq!(resolve("plots/a.hep".to_string(), Some("/d")), "/d/plots/a.hep");
    assert_eq!(resolve("./a.hep".to_string(), Some("/d")), "/d/./a.hep");
    assert_eq!(resolve(String::new(), Some("/d")), "/d/");
    assert_eq!(resolve("/a".to_string(), Some("/d")), "/a");
    assert_eq!(resolve("12:30.hep".to_string(), Some("/d")), "/d/12:30.hep");
    assert_eq!(resolve("a".to_string(), Some("")), "a");
    let args: Vec<String> = ["-psn_0_1", "a.hep", "/b.hep", "--flag"]
        .iter()
        .map(|arg| arg.to_string())
        .collect();
    assert_eq!(paths_from_args(&args, Some("/w")), vec!["/w/a.hep", "/b.hep"]);
    assert_eq!(paths_from_args(&args, None), vec!["a.hep", "/b.hep"]);
    assert_eq!(placed("a".to_string(), false, Some("j".to_string())), "j");
    assert_eq!(placed("a".to_string(), true, Some("j".to_string())), "a");
    assert_eq!(placed("a".to_string(), false, None), "a");
}

#[test]
fn the_menu_has_one_quit_on_every_platform() {
    for macos in [true, false] {
        let menu = build_menu(macos);
        let quits: usize = menu
            .iter()
            .map(|g| g.items.iter().filter(|i| **i == MenuEntry::Quit).count())
            .sum();
        assert_eq!(quits, 1);
        assert_eq!(menu.len(), if macos { 5 } else { 4 });
        assert_eq!(
            menu[0].title,
            if macos {
                MenuTitle::Application
            } else {
                MenuTitle::File
            }
        );
    }
    let file = &build_menu(false)[0];
    assert_eq!(file.title.words("Viewer"), "File");
    assert_eq!(MenuTitle::Application.words("Viewer"), "Viewer");
    assert_eq!(file.items[0], MenuEntry::Action(Action::NewWindow));
    assert_eq!(file.items.len(), 9);
}

#[test]
fn actions_are_named_the_way_the_frontend_knows_them() {
    for (action, id, label, keys) in [
        (Action::NewWindow, "new-window", "New Window", "CmdOrCtrl+N"),
        (Action::Open, "open", "Open…", "CmdOrCtrl+O"),
        (Action::Export, "export", "Export…", "CmdOrCtrl+E"),
        (Action::Reload, "reload", "Reload", "CmdOrCtrl+R"),
        (
            Action::ToggleDark,
            "toggle-dark",
            "Invert Theme",
            "CmdOrCtrl+Shift+I",
        ),
    ] {
        assert_eq!(action.id(), id);
        assert_eq!(action.label(), label);
        assert_eq!(action.accelerator(), keys);
    }
}

#[test]
fn a_menu_item_goes_to_the_focused_window_alone() {
    assert!(matches!(
        dispatch_menu("new-window", Some("doc-1")),
        MenuRoute::OpenWindow
    ));
    assert!(matches!(
        dispatch_menu("export", Some("doc-1")),
        MenuRoute::Send(label) if label == "doc-1"
    ));
    assert!(matches!(dispatch_menu("export", None), MenuRoute::Nowhere));
}
