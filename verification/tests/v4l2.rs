use mobcam::v4l2::{video_number, Format};

#[test]
fn formats_have_their_fourcc() {
    assert_eq!(&Format::I420.fourcc(), b"YU12");
    assert_eq!(&Format::Nv12.fourcc(), b"NV12");
    assert_ne!(Format::I420, Format::Nv12);
}

#[test]
fn video_nodes_are_numbered() {
    assert_eq!(video_number("video0"), Some(0));
    assert_eq!(video_number("video12"), Some(12));
    assert_eq!(video_number("video"), None);
    assert_eq!(video_number("media0"), None);
    assert_eq!(video_number("video1a"), None);
    assert_eq!(video_number("vid"), None);
}
