use substrate::effects::TextureFormat;
use substrate::readback::{finish_frame, InFlightCopy, MapPoll, ReadRequest, ReadbackError, ReadbackTracker};

fn rb_request(width: u32, height: u32, format: TextureFormat) -> ReadRequest {
    ReadRequest { width, height, src_width: width * 2, src_height: height * 2, format }
}

#[test]
fn first_tick_submits_a_copy_and_waits() {
    let mut t = ReadbackTracker::new();
    let plan = t.tick(&rb_request(2, 3, TextureFormat::Bgra8Unorm), MapPoll::StillMapping);
    assert_eq!(plan.result, Ok(None));
    let copy = plan.submit.unwrap();
    assert_eq!(copy.padded_bytes_per_row, 256);
    assert_eq!(copy.buffer_size, 768);
    assert!(copy.new_staging_buffer);
    let flying = t.in_flight().unwrap();
    assert!(flying.swap_bgra);
    assert_eq!((flying.src_width, flying.src_height), (4, 6));
}

#[test]
fn copy_still_mapping_blocks_a_new_submit() {
    let mut t = ReadbackTracker::new();
    t.tick(&rb_request(2, 3, TextureFormat::Rgba8Unorm), MapPoll::StillMapping);
    let plan = t.tick(&rb_request(5, 5, TextureFormat::Rgba8Unorm), MapPoll::StillMapping);
    assert_eq!(plan.result, Ok(None));
    assert!(plan.submit.is_none());
    assert_eq!(t.in_flight().unwrap().width, 2);
}

#[test]
fn mapped_copy_is_handed_out_and_the_next_submitted() {
    let mut t = ReadbackTracker::new();
    t.tick(&rb_request(2, 3, TextureFormat::Rgba8Unorm), MapPoll::StillMapping);
    let plan = t.tick(&rb_request(2, 3, TextureFormat::Rgba8Unorm), MapPoll::Mapped);
    let done = plan.result.unwrap().unwrap();
    assert_eq!((done.width, done.height), (2, 3));
    let copy = plan.submit.unwrap();
    assert!(!copy.new_staging_buffer);
    let plan = t.tick(&rb_request(100, 1, TextureFormat::Rgba8Unorm), MapPoll::Mapped);
    let copy = plan.submit.unwrap();
    assert_eq!(copy.padded_bytes_per_row, 512);
    assert!(copy.new_staging_buffer);
}

#[test]
fn failed_mapping_drops_the_copy() {
    let mut t = ReadbackTracker::new();
    t.tick(&rb_request(2, 2, TextureFormat::Rgba8Unorm), MapPoll::StillMapping);
    let plan = t.tick(&rb_request(2, 2, TextureFormat::Rgba8Unorm), MapPoll::Failed);
    assert_eq!(plan.result, Err(ReadbackError::MapFailed));
    assert!(plan.submit.is_none());
    assert!(t.in_flight().is_none());
    let plan = t.tick(&rb_request(2, 2, TextureFormat::Rgba8Unorm), MapPoll::CallbackDropped);
    assert_eq!(plan.result, Ok(None));
    assert!(plan.submit.is_some());
    let plan = t.tick(&rb_request(2, 2, TextureFormat::Rgba8Unorm), MapPoll::CallbackDropped);
    assert_eq!(plan.result, Err(ReadbackError::CallbackDropped));
    assert_eq!(ReadbackError::CallbackDropped.message(), "map callback dropped");
}

#[test]
fn zero_sized_frame_is_refused() {
    let mut t = ReadbackTracker::new();
    let plan = t.tick(&rb_request(0, 4, TextureFormat::Rgba8Unorm), MapPoll::Mapped);
    assert_eq!(plan.result, Err(ReadbackError::ZeroSized));
    assert!(plan.submit.is_none());
    assert!(t.in_flight().is_none());
    assert_eq!(ReadbackError::ZeroSized.message(), "zero-sized frame");
}

#[test]
fn finished_frame_is_packed_rgba_and_opaque() {
    let copy = InFlightCopy { width: 1, height: 2, padded_bytes_per_row: 8, swap_bgra: true, src_width: 3, src_height: 4 };
    let mapped = vec![1u8, 2, 3, 4, 0, 0, 0, 0, 5, 6, 7, 8];
    let frame = finish_frame(copy, &mapped);
    assert_eq!(frame.bytes, vec![3, 2, 1, 255, 7, 6, 5, 255]);
    assert_eq!((frame.width, frame.height, frame.src_width, frame.src_height), (1, 2, 3, 4));
}

#[test]
fn zero_height_with_a_huge_width_is_refused() {
    let mut t = ReadbackTracker::new();
    let req = ReadRequest { width: u32::MAX, height: 0, src_width: 1, src_height: 1, format: TextureFormat::Rgba8Unorm };
    let plan = t.tick(&req, MapPoll::Mapped);
    assert_eq!(plan.result, Err(ReadbackError::ZeroSized));
    assert!(plan.submit.is_none());
}
