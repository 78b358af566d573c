use substrate::schema::EngineNodeId;
use substrate::streams::{
    exceeds_image_cap, NodeFrameStreamRequest, StreamBook, StreamKey, StreamKind, StreamStatus, MAX_IMAGE_DIMENSION,
};

fn st_request(node: u64, path: &str, kind: StreamKind) -> NodeFrameStreamRequest {
    NodeFrameStreamRequest { node_id: EngineNodeId(node), file_path: path.to_string(), stream_kind: kind }
}

fn st_key(node: u64, path: &str, kind: StreamKind) -> StreamKey {
    StreamKey { node_id: EngineNodeId(node), file_path: path.to_string(), stream_kind: kind }
}

#[test]
fn first_request_starts_one_load_and_one_notice() {
    let mut book: StreamBook<u32> = StreamBook::new();
    let req = st_request(1, "a.mp4", StreamKind::Video);
    assert_eq!(book.request(&req, true), StreamStatus::Loading { announce: true, request_load: true });
    assert_eq!(book.request(&req, true), StreamStatus::Loading { announce: false, request_load: false });
}

#[test]
fn notice_waits_for_events() {
    let mut book: StreamBook<u32> = StreamBook::new();
    let req = st_request(1, "a.mp4", StreamKind::Video);
    assert_eq!(book.request(&req, false), StreamStatus::Loading { announce: false, request_load: true });
    assert_eq!(book.request(&req, true), StreamStatus::Loading { announce: true, request_load: false });
}

#[test]
fn finished_load_makes_stream_ready() {
    let mut book: StreamBook<u32> = StreamBook::new();
    let req = st_request(1, "a.png", StreamKind::Image);
    book.request(&req, true);
    book.finish_load(st_key(1, "a.png", StreamKind::Image), Some(7));
    assert_eq!(book.request(&req, true), StreamStatus::Ready);
    assert_eq!(book.stream_mut(&st_key(1, "a.png", StreamKind::Image)).map(|s| *s), Some(7));
    assert!(book.stream_mut(&st_key(2, "a.png", StreamKind::Image)).is_none());
}

#[test]
fn failed_load_can_be_requested_again() {
    let mut book: StreamBook<u32> = StreamBook::new();
    let req = st_request(1, "a.png", StreamKind::Image);
    book.request(&req, true);
    book.finish_load(st_key(1, "a.png", StreamKind::Image), None);
    assert_eq!(book.request(&req, true), StreamStatus::Loading { announce: true, request_load: true });
}

#[test]
fn new_file_drops_the_old_stream_of_the_node() {
    let mut book: StreamBook<u32> = StreamBook::new();
    book.request(&st_request(1, "a.png", StreamKind::Image), true);
    book.finish_load(st_key(1, "a.png", StreamKind::Image), Some(1));
    book.request(&st_request(2, "b.png", StreamKind::Image), true);
    book.finish_load(st_key(2, "b.png", StreamKind::Image), Some(2));
    let status = book.request(&st_request(1, "c.png", StreamKind::Image), true);
    assert_eq!(status, StreamStatus::Loading { announce: true, request_load: true });
    assert!(book.stream_mut(&st_key(1, "a.png", StreamKind::Image)).is_none());
    assert_eq!(book.stream_mut(&st_key(2, "b.png", StreamKind::Image)).map(|s| *s), Some(2));
}

#[test]
fn clear_and_pause() {
    let mut book: StreamBook<u32> = StreamBook::new();
    assert!(!book.paused());
    book.set_paused(true);
    assert!(book.paused());
    book.request(&st_request(1, "a.png", StreamKind::Image), true);
    book.finish_load(st_key(1, "a.png", StreamKind::Image), Some(1));
    book.clear();
    assert!(book.paused());
    assert!(book.stream_mut(&st_key(1, "a.png", StreamKind::Image)).is_none());
    let status = book.request(&st_request(1, "a.png", StreamKind::Image), true);
    assert_eq!(status, StreamStatus::Loading { announce: true, request_load: true });
}

#[test]
fn image_cap() {
    assert_eq!(MAX_IMAGE_DIMENSION, 2048);
    assert!(!exceeds_image_cap(2048, 2048));
    assert!(exceeds_image_cap(2049, 10));
    assert!(exceeds_image_cap(10, 4096));
}

#[test]
fn new_frame_rate_skips_videos_and_inactive_nodes() {
    let mut book: StreamBook<u32> = StreamBook::new();
    book.request(&st_request(1, "a.png", StreamKind::Image), true);
    book.finish_load(st_key(1, "a.png", StreamKind::Image), Some(10));
    book.request(&st_request(2, "b.mp4", StreamKind::Video), true);
    book.finish_load(st_key(2, "b.mp4", StreamKind::Video), Some(20));
    book.request(&st_request(3, "c.png", StreamKind::Image), true);
    book.finish_load(st_key(3, "c.png", StreamKind::Image), Some(30));
    assert_eq!(book.retarget_positions(None), vec![0, 2]);
    let active = vec![EngineNodeId(3), EngineNodeId(2)];
    assert_eq!(book.retarget_positions(Some(&active)), vec![2]);
    *book.stream_at_mut(2) = 31;
    assert_eq!(book.stream_mut(&st_key(3, "c.png", StreamKind::Image)).map(|s| *s), Some(31));
}
