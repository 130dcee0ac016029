use mobcam::frame::{Frame, FrameColorspace, PictureFormat, SampleFormat};
use mobcam::obs::{ObsAudio, ObsOutput, ObsVideo};

fn frame(pts: i64, full_range: bool) -> Frame<'static> {
    Frame {
        width: 1280,
        height: 720,
        picture_format: PictureFormat::Nv12,
        colorspace: FrameColorspace::Other,
        full_range,
        pts,
        sample_format: SampleFormat::Fltp,
        sample_rate: 48000,
        channels: 2,
        samples: 1024,
        planes: Vec::new(),
    }
}

#[test]
fn pictures_are_shown_at_their_times() {
    let mut output = ObsOutput::new();
    match output.video(&frame(0, false), Some((7, true)), || 100) {
        ObsVideo::Show { format, width, height, full_range, timestamp } => {
            assert_eq!((format, width, height, full_range, timestamp), (7, 1280, 720, true, 100));
        }
        _ => panic!("the picture was not shown"),
    }
    match output.video(&frame(40_000, false), Some((7, false)), || unreachable!()) {
        ObsVideo::Show { full_range, timestamp, .. } => assert_eq!((full_range, timestamp), (false, 40_000_100)),
        _ => panic!("the picture was not shown"),
    }
}

#[test]
fn an_unsupported_layout_is_said_once() {
    let mut output = ObsOutput::new();
    assert!(matches!(output.video(&frame(0, false), None, || 1), ObsVideo::Unsupported(Some(PictureFormat::Nv12))));
    assert!(matches!(output.video(&frame(0, false), None, || 1), ObsVideo::Unsupported(None)));
    assert!(matches!(output.audio(&frame(0, false), None, Some(2), || 1), ObsAudio::UnsupportedFormat(Some(SampleFormat::Fltp))));
    assert!(matches!(output.audio(&frame(0, false), None, Some(2), || 1), ObsAudio::UnsupportedFormat(None)));
    assert!(matches!(output.audio(&frame(0, false), Some(1), None, || 1), ObsAudio::UnsupportedChannels(Some(2))));
    assert!(matches!(output.audio(&frame(0, false), Some(1), None, || 1), ObsAudio::UnsupportedChannels(None)));
}

#[test]
fn audio_is_played_on_its_speakers() {
    let mut output = ObsOutput::new();
    match output.audio(&frame(1_000, false), Some(4), Some(2), || 9) {
        ObsAudio::Play { format, speakers, frames, samples_per_sec, timestamp } => {
            assert_eq!((format, speakers, frames, samples_per_sec, timestamp), (4, 2, 1024, 48000, 9));
        }
        _ => panic!("the audio was not played"),
    }
}
