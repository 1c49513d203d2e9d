use luma::renderer::ImageError;
use luma::wayland::capture::{
    BufferParameters, CaptureFailure, CaptureSession, CopyDecision, ShmFormat,
    MAX_CAPTURE_PIXELS, MAX_TOTAL_CAPTURE_BYTES,
};

fn parameters(width: u32, height: u32, stride: u32) -> BufferParameters {
    BufferParameters { format: ShmFormat::Xrgb8888, width, height, stride }
}

#[test]
fn completes_a_capture_into_a_normalized_image() {
    let mut session = CaptureSession::new(0);
    let index = session.add_output("DP-1".to_owned());
    assert_eq!(index, 0);
    assert!(!session.done());

    assert_eq!(
        session.on_buffer(0, Some(parameters(2, 2, 8))),
        CopyDecision::Allocate { size: 16, width: 2, height: 2, stride: 8, format: ShmFormat::Xrgb8888 }
    );
    session.on_flags(0, true);
    assert_eq!(session.on_ready(0), Some(parameters(2, 2, 8)));
    let pixels = [1, 2, 3, 0, 4, 5, 6, 0, 7, 8, 9, 0, 10, 11, 12, 0];
    session.complete_frame(0, &pixels);
    assert!(session.done());

    let captured = session.into_result().expect("capture should complete");
    assert_eq!(captured.len(), 1);
    assert_eq!(captured[0].name, "DP-1");
    assert_eq!(
        captured[0].image.pixels(),
        &[7, 8, 9, 255, 10, 11, 12, 255, 1, 2, 3, 255, 4, 5, 6, 255]
    );
}

#[test]
fn a_second_buffer_offer_for_the_same_frame_allocates_nothing() {
    let mut session = CaptureSession::new(0);
    session.add_output("DP-1".to_owned());
    assert!(matches!(session.on_buffer(0, Some(parameters(2, 2, 8))), CopyDecision::Allocate { .. }));
    assert_eq!(session.on_buffer(0, Some(parameters(2, 2, 8))), CopyDecision::Skip);
}

#[test]
fn unsupported_formats_are_skipped_until_the_frame_is_ready() {
    let mut session = CaptureSession::new(0);
    session.add_output("DP-1".to_owned());
    assert_eq!(session.on_buffer(0, None), CopyDecision::Skip);
    assert!(!session.done());
    assert_eq!(session.on_ready(0), None);
    assert_eq!(session.into_result().err(), Some(CaptureFailure::UnsupportedFormat));
}

#[test]
fn unknown_frames_stop_the_capture() {
    let mut session = CaptureSession::new(0);
    session.add_output("DP-1".to_owned());
    assert_eq!(session.on_buffer(3, Some(parameters(2, 2, 8))), CopyDecision::Skip);
    assert_eq!(session.into_result().err(), Some(CaptureFailure::UnknownFrame));

    let mut session = CaptureSession::new(0);
    session.add_output("DP-1".to_owned());
    assert_eq!(session.on_ready(1), None);
    assert_eq!(session.into_result().err(), Some(CaptureFailure::UnknownCompletedFrame));
}

#[test]
fn oversized_buffers_break_the_memory_limit() {
    let mut session = CaptureSession::new(0);
    session.add_output("DP-1".to_owned());
    assert_eq!(session.on_buffer(0, Some(parameters(4097, 4096, 4097 * 4))), CopyDecision::Skip);
    assert_eq!(session.into_result().err(), Some(CaptureFailure::MemoryLimit));

    let mut session = CaptureSession::new(0);
    session.add_output("DP-1".to_owned());
    assert_eq!(session.on_buffer(0, Some(parameters(4, 4, 15))), CopyDecision::Skip);
    assert_eq!(session.into_result().err(), Some(CaptureFailure::MemoryLimit));

    let mut session = CaptureSession::new(0);
    session.add_output("DP-1".to_owned());
    assert_eq!(session.on_buffer(0, Some(parameters(0, 4, 16))), CopyDecision::Skip);
    assert_eq!(session.into_result().err(), Some(CaptureFailure::MemoryLimit));
}

#[test]
fn all_buffers_together_stay_within_the_total_limit() {
    let side = 4096;
    assert_eq!(u64::from(side) * u64::from(side), MAX_CAPTURE_PIXELS);
    let mut session = CaptureSession::new(0);
    for index in 0..5 {
        session.add_output(format!("output-{index}"));
    }
    for index in 0..4 {
        assert!(matches!(
            session.on_buffer(index, Some(parameters(side, side, side * 4))),
            CopyDecision::Allocate { size, .. } if size as u64 * 4 == MAX_TOTAL_CAPTURE_BYTES
        ));
    }
    assert_eq!(session.on_buffer(4, Some(parameters(1, 1, 4))), CopyDecision::Skip);
    assert_eq!(session.into_result().err(), Some(CaptureFailure::MemoryLimit));
}

#[test]
fn short_pixel_buffers_are_image_errors() {
    let mut session = CaptureSession::new(2);
    session.add_output("DP-1".to_owned());
    session.on_buffer(0, Some(parameters(2, 2, 8)));
    assert!(session.on_ready(0).is_some());
    session.complete_frame(0, &[0; 12]);
    assert_eq!(
        session.into_result().err(),
        Some(CaptureFailure::Image(ImageError::BufferTooSmall))
    );
}

#[test]
fn rejection_and_allocation_failures_stop_the_capture() {
    let mut session = CaptureSession::new(0);
    session.add_output("DP-1".to_owned());
    session.on_failed();
    assert!(session.done());
    assert_eq!(session.into_result().err(), Some(CaptureFailure::Rejected));

    let mut session = CaptureSession::new(0);
    session.add_output("DP-1".to_owned());
    session.on_buffer(0, Some(parameters(2, 2, 8)));
    session.allocation_failed("out of memory".to_owned());
    assert_eq!(
        session.into_result().err(),
        Some(CaptureFailure::Allocation("out of memory".to_owned()))
    );
}

#[test]
fn missing_frames_are_incomplete() {
    let mut session = CaptureSession::new(0);
    session.add_output("DP-1".to_owned());
    assert_eq!(session.into_result().err(), Some(CaptureFailure::Incomplete));

    let mut session = CaptureSession::new(0);
    session.add_output("DP-1".to_owned());
    session.on_buffer(0, Some(parameters(2, 2, 8)));
    assert!(session.on_ready(0).is_some());
    assert_eq!(session.on_ready(0), None);
    assert_eq!(session.into_result().err(), Some(CaptureFailure::Incomplete));
}
