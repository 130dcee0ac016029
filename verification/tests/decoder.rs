use mobcam::decoder::{
    attempt, audio_failed_text, audio_received, frame_refused_text, maps_cheaply, none_working_text, open_failed_text,
    reads_on, receive_failed_text, received, video_received, Access, AfterReceive, Attempt, Choice, Configure, Decoding,
    Fetch, Hardware, Received, Selection,
};
use mobcam::ffmpeg::Status;

#[test]
fn a_configuration_reopens_only_when_it_changes() {
    let mut decoding = Decoding::new();
    assert_eq!(decoding.configure_video(false, true, 1, &[1], 1, &[1]), Configure::Reject);
    assert_eq!(decoding.configure_video(true, true, 1, &[1, 2], 1, &[1, 2]), Configure::Keep);
    assert_eq!(decoding.configure_video(true, false, 1, &[1, 2], 1, &[1, 2]), Configure::Reopen);
    assert_eq!(decoding.configure_video(true, true, 1, &[1, 2], 2, &[1, 2]), Configure::Reopen);
    assert_eq!(decoding.configure_video(true, true, 1, &[1, 2], 1, &[1, 3]), Configure::Reopen);
}

#[test]
fn audio_not_wanted_takes_any_configuration() {
    let mut decoding = Decoding::new();
    assert_eq!(decoding.configure_audio(false, false, 0, &[], 9, &[]), Configure::Reject);
    decoding.audio_wanted = false;
    assert_eq!(decoding.configure_audio(false, false, 0, &[], 9, &[]), Configure::Keep);
}

#[test]
fn video_waits_for_a_keyframe() {
    let mut decoding = Decoding::new();
    assert!(!decoding.admit_video(false, true));
    assert!(!decoding.admit_video(true, false));
    assert!(decoding.admit_video(true, true));
    assert!(decoding.admit_video(true, false));
    decoding.video_refused();
    assert!(!decoding.admit_video(true, false));
    assert!(decoding.admit_video(true, true));
    assert_eq!(decoding.configure_video(true, false, 0, &[], 1, &[]), Configure::Reopen);
    assert!(!decoding.got_keyframe);
    decoding.got_keyframe = true;
    decoding.reset();
    assert!(!decoding.got_keyframe);
}

#[test]
fn statuses_and_attempts_decide_what_follows() {
    assert_eq!(received(Status::Success), Received::Frame);
    assert_eq!(received(Status::Again), Received::Drained);
    assert_eq!(received(Status::Eof), Received::Drained);
    assert_eq!(received(Status::Error(-5)), Received::Failed);
    assert_eq!(attempt(false, true), Attempt::GiveUp);
    assert_eq!(attempt(true, false), Attempt::Next);
    assert_eq!(attempt(true, true), Attempt::Opened);
}

#[test]
fn hardware_frames_are_mapped_until_that_fails() {
    assert!(maps_cheaply("rkmpp"));
    assert!(maps_cheaply("drm"));
    assert!(!maps_cheaply("vaapi"));
    let mut hardware = Hardware { access: Access::Unknown };
    assert_eq!(hardware.plan(true, Some(23)), (Fetch::Mapping(23), true));
    assert_eq!(hardware.plan(true, Some(23)), (Fetch::Mapping(23), false));
    assert_eq!(hardware.map_failed(), Fetch::Download);
    assert_eq!(hardware.plan(true, Some(23)), (Fetch::Download, false));
    let mut copied = Hardware { access: Access::Unknown };
    assert_eq!(copied.plan(false, Some(23)), (Fetch::Download, false));
    assert_eq!(copied.access, Access::Copy);
    let mut unnamed = Hardware { access: Access::Unknown };
    assert_eq!(unnamed.plan(true, None), (Fetch::Download, false));
}

#[test]
fn decoders_are_tried_best_first_until_one_opens() {
    let (mut selection, first) = Selection::new(3);
    assert_eq!(first, Choice::Try(0));
    assert_eq!(selection.tried(true, false), Choice::Try(1));
    assert_eq!(selection.tried(true, true), Choice::Opened(1));
    let (mut failing, _) = Selection::new(2);
    assert_eq!(failing.tried(true, false), Choice::Try(1));
    assert_eq!(failing.tried(true, false), Choice::NoneWorked);
    let (mut broken, _) = Selection::new(2);
    assert_eq!(broken.tried(false, false), Choice::GiveUp);
    assert_eq!(Selection::new(0).1, Choice::NoneWorked);
    assert_eq!(open_failed_text("h264_v4l2m2m"), "failed to open the h264_v4l2m2m decoder");
    assert_eq!(none_working_text("H.264"), "no working H.264 decoder available");
}

#[test]
fn a_failed_receive_closes_video_and_flushes_audio() {
    assert_eq!(video_received(Received::Frame), AfterReceive::Show);
    assert_eq!(video_received(Received::Drained), AfterReceive::Done);
    assert_eq!(video_received(Received::Failed), AfterReceive::Close);
    assert_eq!(audio_received(Received::Failed), AfterReceive::Flush);
    assert_eq!(audio_received(Received::Drained), AfterReceive::Done);
    assert!(!reads_on(AfterReceive::Close));
    assert!(reads_on(AfterReceive::Flush));
    assert!(reads_on(AfterReceive::Done));
    assert_eq!(receive_failed_text(), "failed to receive a frame, reopening the decoder");
    assert_eq!(frame_refused_text(), "failed to decode a frame, flushing the decoder");
    assert_eq!(audio_failed_text(), "failed to decode audio, flushing the decoder");
}
