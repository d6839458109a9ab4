//! The rasterising backends: the draw budget, the readback and the resources.

use hephaestus::backend::budget::{check_draw_budget, VelloScene, MAX_DRAW_INFO_WORDS};
use hephaestus::backend::error::BackendError;
use hephaestus::backend::readback::{
    await_map, check_buffer, check_frame_size, padded_bytes_per_row, readback_size, unpad_rows, TargetSize,
};
use hephaestus::backend::hybrid::{HybridState, BUFFER_FORMAT};
use hephaestus::backend::resources::{dimension, SizeBound, WantedImage};
use hephaestus::backend::webgl::HybridWebGlRenderer;
use vello::kurbo::{Affine, BezPath};
use vello::peniko::{Brush, Color, Fill};

/// Add `n` flat-coloured triangles, each its own draw object.
fn solid_fills(scene: &mut VelloScene, n: usize) {
    let brush = Brush::Solid(Color::from_rgb8(10, 20, 30));
    for i in 0..n {
        let x = (i % 256) as f64;
        let mut path = BezPath::new();
        path.move_to((x, 0.0));
        path.line_to((x + 1.0, 0.0));
        path.line_to((x + 1.0, 1.0));
        path.close_path();
        scene
            .raw_mut()
            .fill(Fill::NonZero, Affine::IDENTITY, &brush, None, &path);
    }
}

#[test]
fn an_empty_scene_spends_no_draw_budget() {
    let scene = VelloScene::new();
    assert_eq!(scene.draw_info_words(), 0);
    assert!(scene.fits_draw_budget());
}

#[test]
fn each_solid_fill_costs_one_draw_info_word() {
    let mut scene = VelloScene::new();
    solid_fills(&mut scene, 3);
    assert_eq!(scene.draw_info_words(), 3);
}

#[test]
fn clearing_a_scene_returns_its_draw_budget() {
    let mut scene = VelloScene::default();
    solid_fills(&mut scene, 5);
    scene.clear();
    assert_eq!(scene.draw_info_words(), 0);
}

#[test]
fn a_scene_at_the_cap_fits_but_one_draw_more_does_not() {
    let mut scene = VelloScene::new();
    solid_fills(&mut scene, MAX_DRAW_INFO_WORDS as usize);
    assert!(scene.fits_draw_budget());
    assert!(matches!(scene.budget(), Some(Ok(()))));

    solid_fills(&mut scene, 1);
    assert!(!scene.fits_draw_budget());
    assert!(matches!(
        check_draw_budget(scene.raw()),
        Err(BackendError::SceneTooLarge { used, max })
            if used == MAX_DRAW_INFO_WORDS + 1 && max == MAX_DRAW_INFO_WORDS
    ));
    assert!(matches!(scene.budget(), Some(Err(_))));
}

#[test]
fn rows_are_padded_to_the_alignment_of_a_copy() {
    assert_eq!(padded_bytes_per_row(0), 0);
    assert_eq!(padded_bytes_per_row(1), 256);
    assert_eq!(padded_bytes_per_row(64), 256);
    assert_eq!(padded_bytes_per_row(65), 512);
    assert_eq!(readback_size(512, 3), 1536);
    assert_eq!(readback_size(u32::MAX, u32::MAX), 18_446_744_065_119_617_025);
}

#[test]
fn padding_is_left_behind() {
    let data: Vec<u8> = (0..15).collect();
    let mut out = vec![0u8; 9];
    unpad_rows(&data, 5, 3, 3, &mut out);
    assert_eq!(out, vec![0, 1, 2, 5, 6, 7, 10, 11, 12]);
}

#[test]
fn a_buffer_has_to_have_the_size_of_the_frame() {
    assert!(check_buffer(3, 2, 24).is_ok());
    let error = check_buffer(3, 2, 23).expect_err("short");
    assert!(matches!(
        error,
        BackendError::BufferSize {
            expected: 24,
            actual: 23
        }
    ));
    assert_eq!(
        error.message(),
        "buffer holds 23 bytes where the frame needs 24"
    );
}

#[test]
fn smoke_a_frame_past_the_device_limit_is_an_error_rather_than_a_panic() {
    let limit = 8192;
    let (w, h) = (limit + 1, 8);
    let mut target = TargetSize::new();
    let err = target
        .render_to_buffer(w, h, (w as usize) * (h as usize) * 4, Ok(()), limit)
        .expect_err("a frame past the device limit cannot be rendered");
    assert!(
        err.message().contains(&limit.to_string()),
        "the error names the limit: {}",
        err.message()
    );
    assert_eq!(
        err.message(),
        "8193 × 8 px is past the 8192 px this device can hold"
    );
    assert!(check_frame_size(limit, limit, limit).is_ok());
    assert!(check_frame_size(8, w, limit).is_err());
}

#[test]
fn hybrid_a_frame_past_the_device_limit_is_an_error_rather_than_a_panic() {
    let limit = 8192;
    let (w, h) = (limit + 1, 8);
    let (plan, fresh) =
        HybridState::new().render_to_buffer(w, h, (w * h * 4) as usize, limit, &vec![]);
    let err = plan
        .outcome
        .expect_err("a frame past the device limit cannot be rendered");
    assert!(!fresh);
    assert!(
        err.message().contains(&limit.to_string()),
        "the error names the limit: {}",
        err.message()
    );
}

#[test]
fn a_mapping_ends_in_an_outcome() {
    assert!(await_map(Some(Ok(()))).is_ok());
    let error = await_map(Some(Err("lost".to_string()))).expect_err("lost");
    assert_eq!(error.message(), "readback failed: lost");
    let error = await_map(None).expect_err("dropped");
    assert_eq!(error.message(), "readback failed: map_async sender dropped");
}

#[test]
fn a_target_is_allocated_when_the_size_changes() {
    let mut target = TargetSize::new();
    assert!(target.ensure(4, 3));
    assert!(!target.ensure(4, 3));
    assert!(target.ensure(3, 4));
    assert!(matches!(
        target.render_to_buffer(3, 4, 48, Ok(()), 8192),
        Ok(false)
    ));
    assert!(matches!(
        target.render_to_buffer(5, 1, 20, Ok(()), 8192),
        Ok(true)
    ));
}

#[test]
fn a_frame_is_refused_in_a_fixed_order() {
    let large = || Err(BackendError::SceneTooLarge { used: 2, max: 1 });
    let mut target = TargetSize::new();
    assert!(matches!(
        target.render_to_buffer(1, 1, 3, large(), 0),
        Err(BackendError::BufferSize { .. })
    ));
    assert!(matches!(
        target.render_to_buffer(1, 1, 4, large(), 0),
        Err(BackendError::SceneTooLarge { .. })
    ));
    assert!(matches!(
        target.render_to_buffer(1, 1, 4, Ok(()), 0),
        Err(BackendError::FrameTooLarge { .. })
    ));
    assert!(target.current.is_none());
}

fn wanted(keys: &[u64]) -> Vec<WantedImage> {
    keys.iter()
        .map(|&key| WantedImage { key, pixels: true })
        .collect()
}

#[test]
fn a_resize_rebuilds_and_forgets_the_images() {
    let mut sized = SizeBound::new();
    assert_eq!(sized.size(), None);
    assert!(matches!(sized.ensure_sized(10, 20, 0), Ok(Some((10, 20)))));
    assert_eq!(sized.size(), Some((10, 20)));
    assert_eq!(sized.upload_images(&wanted(&[5, 6, 5])).0, vec![5, 6]);
    assert!(matches!(sized.ensure_sized(10, 20, 0), Ok(None)));
    assert_eq!(sized.upload_images(&wanted(&[6, 7])).0, vec![7]);
    // Another format is another target.
    assert!(matches!(sized.ensure_sized(10, 20, 1), Ok(Some((10, 20)))));
    assert_eq!(sized.upload_images(&wanted(&[6, 7])).0, vec![6, 7]);
}

#[test]
fn an_image_without_pixels_stops_an_upload_or_is_passed_over() {
    let mut images = wanted(&[1, 2, 3]);
    images[1].pixels = false;
    let mut sized = SizeBound::new();
    let (fresh, outcome) = sized.upload_images(&images);
    assert_eq!(fresh, vec![1]);
    assert_eq!(
        outcome.expect_err("no pixels").message(),
        "image conversion did not yield pixel data"
    );
    let (mut canvas, _) = HybridWebGlRenderer::new(1, 1).expect("fits");
    assert_eq!(canvas.present(&images), vec![1, 3]);
    let (fresh, outcome) = sized.upload_images(&wanted(&[3]));
    assert!(fresh == vec![3] && outcome.is_ok());
    // One that is resident needs no conversion.
    images[2].pixels = false;
    images.remove(1);
    let (fresh, outcome) = sized.upload_images(&images);
    assert!(fresh.is_empty() && outcome.is_ok());
}

#[test]
fn a_canvas_keeps_everything_while_it_keeps_its_size() {
    let (mut canvas, size) = HybridWebGlRenderer::new(10, 20).expect("fits");
    assert_eq!(size, (10, 20));
    assert_eq!(canvas.size(), (10, 20));
    assert_eq!(canvas.present(&wanted(&[5, 6, 5])), vec![5, 6]);
    assert!(matches!(canvas.resize(10, 20), Ok(None)));
    assert_eq!(canvas.present(&wanted(&[6, 7])), vec![7]);
    assert!(matches!(
        canvas.resize(70_000, 80_000),
        Err(BackendError::EdgeTooLong { edge: 70_000 })
    ));
    assert!(matches!(
        canvas.resize(1, 80_000),
        Err(BackendError::EdgeTooLong { edge: 80_000 })
    ));
    assert_eq!(canvas.size(), (10, 20));
    assert!(canvas.present(&wanted(&[5, 6, 7])).is_empty());
    assert!(matches!(canvas.resize(20, 10), Ok(Some((20, 10)))));
    assert_eq!(canvas.size(), (20, 10));
    assert_eq!(canvas.present(&wanted(&[6, 7])), vec![6, 7]);
    assert!(matches!(
        HybridWebGlRenderer::new(1, 65_536),
        Err(BackendError::EdgeTooLong { edge: 65_536 })
    ));
}

#[test]
fn a_frame_is_prepared_in_a_fixed_order() {
    let mut state = HybridState::new();
    let images = wanted(&[4]);
    let (plan, fresh) =
        state.render_to_buffer(2, 2, 15, 1, &images);
    assert!(matches!(plan.outcome, Err(BackendError::BufferSize { .. })) && !fresh);
    let (plan, fresh) =
        state.render_to_buffer(2, 2, 16, 1, &images);
    assert!(matches!(plan.outcome, Err(BackendError::FrameTooLarge { .. })) && !fresh);
    let (plan, fresh) = state.render_to_buffer(70_000, 1, 280_000, 100_000, &images);
    assert!(matches!(
        plan.outcome,
        Err(BackendError::EdgeTooLong { edge: 70_000 })
    ));
    assert!(!fresh && plan.upload.is_empty() && plan.rebuild.is_none());

    let (plan, fresh) = state.render_to_buffer(2, 2, 16, 2, &images);
    assert!(plan.outcome.is_ok() && fresh);
    assert_eq!(plan.rebuild, Some((2, 2)));
    assert_eq!(plan.upload, vec![4]);
    let (plan, fresh) = state.render_to_buffer(2, 2, 16, 2, &images);
    assert!(plan.outcome.is_ok() && !fresh);
    assert_eq!(plan.rebuild, None);
    assert!(plan.upload.is_empty());

    // Textures are written in a format of their own.
    assert!(state.render_to_texture(2, 2, 2, &images).rebuild.is_none());
    state.set_target_format(BUFFER_FORMAT + 1);
    let plan = state.render_to_texture(2, 2, 2, &images);
    assert_eq!(plan.rebuild, Some((2, 2)));
    assert_eq!(plan.upload, vec![4]);
}

#[test]
fn an_edge_no_scene_can_have_is_refused() {
    assert_eq!(dimension(65_535).expect("fits"), 65_535);
    let error = dimension(65_536).expect_err("too long");
    assert_eq!(error.message(), "65536 px is longer than a scene can be");
    let mut sized = SizeBound::new();
    assert!(matches!(sized.ensure_sized(1, 2, 0), Ok(Some(_))));
    assert!(matches!(
        sized.ensure_sized(70_000, 2, 0),
        Err(BackendError::EdgeTooLong { edge: 70_000 })
    ));
    assert!(matches!(
        sized.ensure_sized(2, 70_000, 0),
        Err(BackendError::EdgeTooLong { edge: 70_000 })
    ));
    assert!(matches!(sized.ensure_sized(1, 2, 0), Ok(None)));
}

#[test]
fn every_backend_error_says_what_went_wrong() {
    for (error, text) in [
        (BackendError::NoAdapter, "no usable GPU adapter"),
        (
            BackendError::DeviceRequest("limits".to_string()),
            "device request failed: limits",
        ),
        (
            BackendError::SceneTooLarge { used: 9, max: 8 },
            "scene uses 9 draw-info words of 8",
        ),
        (BackendError::Other("else".to_string()), "else"),
    ] {
        assert_eq!(error.message(), text);
    }
}
