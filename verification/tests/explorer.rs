//! The shell extensions: bitmaps, registration, streams and the preview pane.

use hephaestus::explorer::bitmap::{to_bgra, top_down_info};
use hephaestus::explorer::preview::{Bounds, PreviewHandler, ShowStep};
use hephaestus::explorer::registry::{
    braced, register, unregister, wide, Hive, CLSID_PREVIEW_HANDLER, CLSID_THUMBNAIL_PROVIDER,
};
use hephaestus::explorer::server::{class_object, Class, Objects, Refusal, ThumbnailProvider};
use hephaestus::explorer::stream::{accept, read_all, Drained, CHUNK, MAX_DOCUMENT};

#[test]
fn an_image_is_described_from_its_top_row_down() {
    let info = top_down_info(640, 480);
    assert_eq!(info.size, 40);
    assert_eq!((info.width, info.height), (640, -480));
    assert_eq!((info.planes, info.bit_count, info.compression), (1, 32, 0));
}

#[test]
fn red_and_blue_change_places() {
    let rgba = [1, 2, 3, 4, 5, 6, 7, 8];
    assert_eq!(to_bgra(&rgba), vec![3, 2, 1, 4, 7, 6, 5, 8]);
    assert_eq!(to_bgra(&to_bgra(&rgba)), rgba.to_vec());
    assert_eq!(to_bgra(&[1, 2, 3, 4, 9]), vec![3, 2, 1, 4, 0]);
    assert!(to_bgra(&[]).is_empty());
}

#[test]
fn a_class_id_is_written_in_braces() {
    assert_eq!(
        braced(CLSID_THUMBNAIL_PROVIDER),
        "{7E1B4C2A-9D3F-4A61-8B52-6C0E9A47D310}"
    );
    assert_eq!(
        braced(CLSID_PREVIEW_HANDLER),
        "{7E1B4C2B-9D3F-4A61-8B52-6C0E9A47D310}"
    );
    assert_eq!(braced(0), "{00000000-0000-0000-0000-000000000000}");
    assert_eq!(
        braced(u128::MAX),
        "{FFFFFFFF-FFFF-FFFF-FFFF-FFFFFFFFFFFF}"
    );
}

#[test]
fn wide_text_is_utf16_and_terminated() {
    for text in ["", "abc", "naïve", "日本語", "a😀b"] {
        let mut expected: Vec<u16> = text.encode_utf16().collect();
        expected.push(0);
        assert_eq!(wide(text), expected, "{text}");
    }
}

#[test]
fn registration_writes_both_classes() {
    let writes = register("C:\\x.dll");
    let shown: Vec<(Hive, &str, Option<&str>, &str)> = writes
        .iter()
        .map(|w| {
            (
                w.hive,
                w.subkey.as_str(),
                w.name.as_deref(),
                w.value.as_str(),
            )
        })
        .collect();
    let thumbnail = "{7E1B4C2A-9D3F-4A61-8B52-6C0E9A47D310}";
    let preview = "{7E1B4C2B-9D3F-4A61-8B52-6C0E9A47D310}";
    let class = |id: &str| format!("CLSID\\{id}");
    let server = |id: &str| format!("CLSID\\{id}\\InprocServer32");
    let (tc, ts, pc, ps) = (
        class(thumbnail),
        server(thumbnail),
        class(preview),
        server(preview),
    );
    assert_eq!(
        shown,
        vec![
            (
                Hive::Classes,
                tc.as_str(),
                None,
                "Hephaestus plot thumbnail handler"
            ),
            (Hive::Classes, ts.as_str(), None, "C:\\x.dll"),
            (
                Hive::Classes,
                ts.as_str(),
                Some("ThreadingModel"),
                "Apartment"
            ),
            (
                Hive::Classes,
                ".hep\\ShellEx\\{e357fccd-a995-4576-b01f-234630154e96}",
                None,
                thumbnail
            ),
            (
                Hive::Classes,
                pc.as_str(),
                None,
                "Hephaestus plot preview handler"
            ),
            (Hive::Classes, ps.as_str(), None, "C:\\x.dll"),
            (
                Hive::Classes,
                ps.as_str(),
                Some("ThreadingModel"),
                "Apartment"
            ),
            (
                Hive::Classes,
                pc.as_str(),
                Some("AppID"),
                "{534A1E02-D58F-44f0-B58B-36CBED287C7C}"
            ),
            (
                Hive::Classes,
                ".hep\\ShellEx\\{8895b1c6-b41f-4c1c-a562-0d564250836f}",
                None,
                preview
            ),
            (
                Hive::LocalMachine,
                "SOFTWARE\\Microsoft\\Windows\\CurrentVersion\\PreviewHandlers",
                Some(preview),
                "Hephaestus plot preview handler"
            ),
        ]
    );
}

#[test]
fn unregistering_removes_every_class_key() {
    let removed = unregister();
    assert_eq!(removed.len(), 4);
    for write in register("x") {
        if write.hive == Hive::Classes {
            assert!(
                removed.iter().any(|key| write.subkey.starts_with(key)),
                "{} stays behind",
                write.subkey
            );
        }
    }
}

#[test]
fn a_stream_is_drained_to_its_end() {
    assert_eq!(
        read_all(&vec![vec![1, 2], vec![3], vec![], vec![9]]),
        Some(vec![1, 2, 3])
    );
    assert_eq!(read_all(&vec![]), Some(vec![]));
}

#[test]
fn a_document_past_the_limit_is_refused() {
    let mut out = vec![0u8; MAX_DOCUMENT - 2];
    let chunk = vec![7u8; CHUNK];
    assert_eq!(accept(&mut out, &chunk, 3), Drained::TooLarge);
    assert_eq!(out.len(), MAX_DOCUMENT - 2);
    assert_eq!(accept(&mut out, &chunk, 2), Drained::More);
    assert_eq!(out.len(), MAX_DOCUMENT);
    assert_eq!(&out[MAX_DOCUMENT - 2..], &[7, 7]);
    assert_eq!(accept(&mut out, &chunk, 0), Drained::Done);
}

#[test]
fn a_class_is_found_by_its_id() {
    assert_eq!(
        class_object(Some(CLSID_THUMBNAIL_PROVIDER), true),
        Ok(Class::Thumbnail)
    );
    assert_eq!(
        class_object(Some(CLSID_PREVIEW_HANDLER), true),
        Ok(Class::Preview)
    );
    assert_eq!(
        class_object(Some(1), true),
        Err(Refusal::ClassNotAvailable)
    );
    assert_eq!(class_object(Some(1), false), Err(Refusal::InvalidArgument));
    assert_eq!(class_object(None, true), Err(Refusal::InvalidArgument));
}

#[test]
fn live_objects_keep_the_library_loaded() {
    let mut objects = Objects::new();
    assert!(objects.can_unload_now());
    assert_eq!(
        objects.create_instance(false, false),
        Err(Refusal::InvalidArgument)
    );
    assert_eq!(
        objects.create_instance(true, true),
        Err(Refusal::NoAggregation)
    );
    assert!(objects.can_unload_now());
    assert_eq!(objects.create_instance(true, false), Ok(()));
    assert!(!objects.can_unload_now());
    objects.lock_server(true);
    objects.lock_server(false);
    objects.lock_server(false);
    assert!(objects.can_unload_now());
}

#[test]
fn the_library_can_be_unloaded_once_everything_is_gone() {
    let mut objects = Objects::new();
    objects.retain();
    assert!(!objects.can_unload_now());
    assert_eq!(objects.create_instance(true, false), Ok(()));
    objects.lock_server(true);
    objects.release();
    assert!(!objects.can_unload_now());
    objects.lock_server(false);
    assert!(!objects.can_unload_now());
    objects.release();
    assert!(objects.can_unload_now());
}

#[test]
fn a_thumbnail_needs_a_document_first() {
    let mut provider = ThumbnailProvider::default();
    assert_eq!(provider.get_thumbnail(true), Err(Refusal::Unexpected));
    provider.initialize(vec![1, 2]);
    assert_eq!(provider.get_thumbnail(true), Ok(&vec![1, 2]));
    assert_eq!(provider.get_thumbnail(false), Err(Refusal::InvalidArgument));
}

fn bounds(right: i32, bottom: i32) -> Bounds {
    Bounds {
        left: 0,
        top: 0,
        right,
        bottom,
    }
}

#[test]
fn a_preview_follows_its_host() {
    let mut handler = PreviewHandler::default();
    assert_eq!(handler.do_preview(), Err(Refusal::Failed));
    handler.initialize(vec![1]);
    assert_eq!(handler.do_preview(), Err(Refusal::Failed));
    assert_eq!(handler.set_window(true, None), Err(Refusal::InvalidArgument));
    assert_eq!(handler.set_window(true, Some(bounds(100, 50))), Ok(false));
    assert_eq!(handler.set_focus(), Err(Refusal::Failed));
    assert_eq!(handler.redraw(), None);
    assert_eq!(handler.do_preview(), Ok(ShowStep::CreateWindow));
    handler.window_created();
    assert_eq!(handler.do_preview(), Ok(ShowStep::Draw));
    assert_eq!(handler.set_focus(), Ok(()));
    assert_eq!(handler.redraw(), Some((84, 34)));
    assert_eq!(handler.set_rect(None), Err(Refusal::InvalidArgument));
    assert_eq!(handler.set_rect(Some(bounds(10, 400))), Ok(true));
    assert_eq!(handler.redraw(), Some((1, 384)));

    handler.drawn(2, 1, &[10, 20, 30, 255, 1, 2, 3, 255]);
    assert_eq!(handler.pane.background, 10 + (20 << 8) + (30 << 16));
    assert_eq!(handler.pane.pixels, vec![30, 20, 10, 255, 3, 2, 1, 255]);
    assert_eq!(handler.pane.place(11, 4), Some((4, 1)));
    assert_eq!(handler.pane.place(-5, 0), Some((0, 0)));

    assert!(handler.unload());
    assert!(!handler.unload());
    assert_eq!(handler.do_preview(), Err(Refusal::Failed));
    assert_eq!(handler.pane.place(11, 4), None);
    assert_eq!((handler.pane.width, handler.pane.height), (0, 0));
    assert_eq!(handler.pane.background, 0);
}

#[test]
fn a_pane_has_an_extent_and_room_for_the_plot() {
    let b = Bounds {
        left: 5,
        top: 7,
        right: 105,
        bottom: 27,
    };
    assert_eq!(b.extent(), (100, 20));
    assert_eq!(b.content(), (84, 4));
}
