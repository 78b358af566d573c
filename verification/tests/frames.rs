use substrate::frames::{
    COPY_BYTES_PER_ROW_ALIGNMENT, FrameData, FrameState, ProjectState, finish_pixels, frame_payload,
    needs_downscale, padded_bytes_per_row, pick_format, strip_row_padding, needs_new_preview_target, newest_frame,
    present_decision, surface_error_outcome, PresentDecision, SurfaceErrorKind, SurfaceErrorOutcome,
};
use substrate::effects::TextureFormat;

#[test]
fn strip_row_padding_single_row_removes_alignment() {
    // 2-pixel wide row = 8 bytes of real data, padded to 256
    let padded_bpr = COPY_BYTES_PER_ROW_ALIGNMENT;
    let mut data = vec![0u8; padded_bpr as usize];
    data[0..8].copy_from_slice(&[1, 2, 3, 4, 5, 6, 7, 8]);
    let out = strip_row_padding(&data, 2, 1, padded_bpr);
    assert_eq!(out, vec![1, 2, 3, 4, 5, 6, 7, 8]);
}

#[test]
fn strip_row_padding_multi_row_extracts_correct_rows() {
    let padded_bpr = COPY_BYTES_PER_ROW_ALIGNMENT;
    let mut data = vec![0u8; padded_bpr as usize * 2];
    // Row 0: single pixel [10, 20, 30, 40]
    data[0..4].copy_from_slice(&[10, 20, 30, 40]);
    // Row 1: single pixel [50, 60, 70, 80]
    data[padded_bpr as usize..padded_bpr as usize + 4].copy_from_slice(&[50, 60, 70, 80]);
    let out = strip_row_padding(&data, 1, 2, padded_bpr);
    assert_eq!(out, vec![10, 20, 30, 40, 50, 60, 70, 80]);
}

#[test]
fn strip_row_padding_tightly_packed_is_identity() {
    // When padded_bpr equals unpadded_bpr, strip is a no-op copy
    let data = vec![1u8, 2, 3, 4, 5, 6, 7, 8];
    let out = strip_row_padding(&data, 2, 1, 8);
    assert_eq!(out, data);
}

#[test]
fn strip_row_padding_zero_height_is_empty() {
    let out = strip_row_padding(&[], 4, 0, 256);
    assert!(out.is_empty());
}

#[test]
fn padded_bytes_per_row_rounds_up_to_alignment() {
    assert_eq!(padded_bytes_per_row(1), 256);
    assert_eq!(padded_bytes_per_row(64), 256);
    assert_eq!(padded_bytes_per_row(65), 512);
    assert_eq!(padded_bytes_per_row(0), 0);
}

#[test]
fn downscale_only_when_preview_is_smaller() {
    assert!(!needs_downscale(1920, 1080, 0, 0));
    assert!(!needs_downscale(640, 360, 1280, 720));
    assert!(needs_downscale(1920, 1080, 1280, 720));
    assert!(needs_downscale(640, 1080, 1280, 720));
    assert!(!needs_downscale(1920, 1080, 1280, 0));
}

#[test]
fn finish_pixels_swaps_bgra_and_makes_opaque() {
    let mut bytes = vec![1u8, 2, 3, 4, 5, 6, 7, 8, 9];
    finish_pixels(&mut bytes, true);
    assert_eq!(bytes, vec![3, 2, 1, 255, 7, 6, 5, 255, 9]);
    let mut rgba = vec![1u8, 2, 3, 4];
    finish_pixels(&mut rgba, false);
    assert_eq!(rgba, vec![1, 2, 3, 255]);
}

#[test]
fn frame_payload_is_little_endian_header_then_pixels() {
    assert!(frame_payload(None).is_empty());
    let frame = FrameData {
        bytes: vec![9, 8, 7, 6],
        width: 1,
        height: 258,
        src_width: 2,
        src_height: 3,
        generation: 0x0102030405060708,
    };
    let payload = frame_payload(Some(&frame));
    assert_eq!(
        payload,
        vec![
            1, 0, 0, 0, 2, 1, 0, 0, 2, 0, 0, 0, 3, 0, 0, 0, 8, 7, 6, 5, 4, 3, 2, 1, 9, 8, 7, 6
        ]
    );
}

#[test]
fn frame_state_starts_empty() {
    let state = FrameState::new();
    assert!(state.latest_frame.is_none());
    assert_eq!(state.generation, 0);
    assert_eq!(state.preview_width, 0);
    assert_eq!(state.preview_height, 0);
}

#[test]
fn project_state_holds_id() {
    let state = ProjectState::new(Some("abc".to_string()));
    assert_eq!(state.id.as_deref(), Some("abc"));
    assert!(ProjectState::new(None).id.is_none());
}

#[test]
fn pick_format_prefers_rgba_then_bgra() {
    assert_eq!(
        pick_format(&vec![TextureFormat::Bgra8Unorm, TextureFormat::Rgba8Unorm]),
        TextureFormat::Rgba8Unorm
    );
    assert_eq!(
        pick_format(&vec![TextureFormat::Other, TextureFormat::Bgra8Unorm]),
        TextureFormat::Bgra8Unorm
    );
    assert_eq!(pick_format(&vec![TextureFormat::Rgba16Float]), TextureFormat::Rgba16Float);
}

#[test]
fn present_decisions() {
    assert_eq!(present_decision(false, 800, 600, false, None), PresentDecision::NoSurface);
    assert_eq!(present_decision(true, 0, 600, false, None), PresentDecision::Minimized);
    assert_eq!(present_decision(true, 800, 600, true, Some((800, 600))), PresentDecision::Unchanged);
    assert_eq!(present_decision(true, 800, 600, false, Some((800, 600))), PresentDecision::Present { configure: false });
    assert_eq!(present_decision(true, 800, 600, false, Some((640, 480))), PresentDecision::Present { configure: true });
    assert_eq!(present_decision(true, 800, 600, false, None), PresentDecision::Present { configure: true });
    assert_eq!(surface_error_outcome(SurfaceErrorKind::Outdated), SurfaceErrorOutcome::Reconfigure);
    assert_eq!(surface_error_outcome(SurfaceErrorKind::Lost), SurfaceErrorOutcome::Reconfigure);
    assert_eq!(surface_error_outcome(SurfaceErrorKind::Timeout), SurfaceErrorOutcome::Skip);
    assert_eq!(surface_error_outcome(SurfaceErrorKind::Other), SurfaceErrorOutcome::Fail);
}

#[test]
fn preview_target_and_frame_loop() {
    assert!(needs_new_preview_target(None, 320, 180));
    assert!(needs_new_preview_target(Some((320, 200)), 320, 180));
    assert!(!needs_new_preview_target(Some((320, 180)), 320, 180));
    assert_eq!(newest_frame(Some(1), vec![2, 3, 4]), (Some(4), true));
    assert_eq!(newest_frame(Some(1), vec![]), (Some(1), false));
    assert_eq!(newest_frame::<u8>(None, vec![]), (None, false));
}
