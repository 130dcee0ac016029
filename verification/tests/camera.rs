use mobcam::camera::{
    after_session, choose_camera, colorspace, keep_waiting, microphone_note, wants_nv12, writing_note, Next, Output, Video,
    RECONNECT_DELAY_MS, STOP_POLL_INTERVAL_MS,
};
use mobcam::options::PixelFormat as Requested;
use mobcam::convert::Source;
use mobcam::frame::{Frame, FrameColorspace, PictureFormat, SampleFormat};
use mobcam::v4l2::{Colorspace, Format, Picture, Quantization};

fn picture(format: PictureFormat, colorspace: FrameColorspace, full_range: bool, pts: i64) -> Frame<'static> {
    Frame {
        width: 640,
        height: 480,
        picture_format: format,
        colorspace,
        full_range,
        pts,
        sample_format: SampleFormat::Other(-1),
        sample_rate: 0,
        channels: 0,
        samples: 0,
        planes: Vec::new(),
    }
}

#[test]
fn colorspaces_map_to_what_the_camera_knows() {
    let of = |space| colorspace(&picture(PictureFormat::Nv12, space, false, 0));
    assert_eq!(of(FrameColorspace::Bt470bg), Colorspace::Smpte170m);
    assert_eq!(of(FrameColorspace::Smpte170m), Colorspace::Smpte170m);
    assert_eq!(of(FrameColorspace::Bt2020Ncl), Colorspace::Rec2020);
    assert_eq!(of(FrameColorspace::Other), Colorspace::Rec709);
}

#[test]
fn a_conversion_is_noted_once() {
    let mut output = Output::new(true);
    let frame = picture(PictureFormat::Nv12, FrameColorspace::Bt2020Ncl, true, 1_000_000);
    match output.video(&frame, || 7_000_000_000) {
        Video::Write { image, picture, timestamp, note } => {
            assert_eq!(image.source, Source::AsIs);
            assert_eq!(
                picture,
                Picture {
                    width: 640,
                    height: 480,
                    format: Format::Nv12,
                    colorspace: Colorspace::Rec2020,
                    quantization: Quantization::FullRange,
                }
            );
            assert_eq!(timestamp, 7_000_000_000);
            assert_eq!(note, Some((PictureFormat::Nv12, Format::Nv12)));
        }
        Video::Drop(_) => panic!("the frame was dropped"),
    }
    let next = picture(PictureFormat::Nv12, FrameColorspace::Other, false, 1_033_333);
    match output.video(&next, || unreachable!()) {
        Video::Write { picture, timestamp, note, .. } => {
            assert_eq!(picture.quantization, Quantization::LimitedRange);
            assert_eq!(timestamp, 7_033_333_000);
            assert_eq!(note, None);
        }
        Video::Drop(_) => panic!("the frame was dropped"),
    }
}

#[test]
fn an_unknown_layout_is_dropped_and_said_once() {
    let mut output = Output::new(false);
    let frame = picture(PictureFormat::Other(-1), FrameColorspace::Other, false, 0);
    assert!(matches!(output.video(&frame, || 1), Video::Drop(Some(PictureFormat::Other(-1)))));
    assert!(matches!(output.video(&frame, || 1), Video::Drop(None)));
    let converted = picture(PictureFormat::Nv12, FrameColorspace::Other, false, 0);
    match output.video(&converted, || 5) {
        Video::Write { image, note, .. } => {
            assert_eq!(image.format, Format::I420);
            assert_eq!(note, Some((PictureFormat::Nv12, Format::I420)));
        }
        Video::Drop(_) => panic!("the frame was dropped"),
    }
    assert!(matches!(output.video(&frame, || 1), Video::Drop(None)));
}

#[test]
fn each_unknown_layout_is_said_once() {
    let mut output = Output::new(false);
    let first = picture(PictureFormat::Other(-1), FrameColorspace::Other, false, 0);
    let second = picture(PictureFormat::Other(61), FrameColorspace::Other, false, 0);
    assert!(matches!(output.video(&first, || 1), Video::Drop(Some(PictureFormat::Other(-1)))));
    assert!(matches!(output.video(&second, || 1), Video::Drop(Some(PictureFormat::Other(61)))));
    assert!(matches!(output.video(&second, || 1), Video::Drop(None)));
}

#[test]
fn a_failed_write_stops_with_its_reason() {
    let mut output = Output::new(true);
    assert!(!output.written(Ok(())));
    assert_eq!(output.failure, None);
    assert!(output.written(Err(String::from("No space left on device"))));
    assert_eq!(output.failure, Some(String::from("failed to write a frame: No space left on device")));
}

#[test]
fn the_camera_asked_for_comes_first() {
    let loopback = vec![
        (String::from("/dev/video4"), String::from("Dummy video device")),
        (String::from("/dev/video5"), String::from("Other")),
    ];
    assert_eq!(choose_camera(Some("/dev/video9"), &loopback), Ok(String::from("/dev/video9")));
    assert_eq!(choose_camera(None, &loopback), Ok(String::from("/dev/video4")));
    assert_eq!(
        choose_camera(None, &Vec::new()),
        Err(String::from(
            "no v4l2loopback device found; load the module with `sudo modprobe v4l2loopback` (Debian and Ubuntu have it in v4l2loopback-dkms)"
        ))
    );
}

#[test]
fn nv12_only_when_nothing_else_is_asked_for() {
    assert!(wants_nv12(Requested::Auto, true));
    assert!(!wants_nv12(Requested::Auto, false));
    assert!(!wants_nv12(Requested::I420, true));
    assert_eq!(writing_note("/dev/video4", true), "writing to /dev/video4 in NV12 or I420, whichever the decoder produces");
    assert_eq!(writing_note("/dev/video4", false), "writing to /dev/video4 in I420");
}

#[test]
fn a_missing_microphone_is_said() {
    assert_eq!(
        microphone_note(true, false, "load snd-aloop"),
        Some(String::from("no virtual microphone; load snd-aloop, and the audio plays into it"))
    );
    assert_eq!(microphone_note(true, true, "load snd-aloop"), None);
    assert_eq!(microphone_note(false, false, "load snd-aloop"), None);
}

#[test]
fn a_session_ends_in_a_failure_or_a_wait() {
    assert!(matches!(after_session(Some(String::from("broken"))), Next::Fail(message) if message == "broken"));
    assert!(matches!(
        after_session(None),
        Next::Reconnect { wait_ms: 1000, poll_ms: 100 }
    ));
    assert_eq!((RECONNECT_DELAY_MS, STOP_POLL_INTERVAL_MS), (1000, 100));
    assert!(keep_waiting(false, 200, 1000));
    assert!(!keep_waiting(true, 200, 1000));
    assert!(!keep_waiting(false, 1000, 1000));
}
