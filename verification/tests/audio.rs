use mobcam::audio::{devices, hint, interleave, planes, resolve, Audio, Backend, Play, Sample, Spec, LATENCY_US};
use mobcam::options::AudioBackend;
use mobcam::frame::{Frame, FrameColorspace, FramePlane, PictureFormat, SampleFormat};

/// Whether this machine keeps the low byte of a word first.
fn little_endian() -> bool {
    u16::from_ne_bytes([1, 0]) == 1
}

fn interleaved(planes: &[&[u8]], samples: usize, channels: usize, sample: Sample) -> Option<Vec<u8>> {
    let mut out = Vec::new();
    interleave(&mut out, planes, samples, channels, sample.width(), |bytes: &[u8]| sample.read(bytes, little_endian())).then_some(out)
}

#[test]
fn planar_channels_are_woven_together() {
    let left = 1i16.to_ne_bytes();
    let right = 2i16.to_ne_bytes();
    let planes: [&[u8]; 2] = [&left, &right];
    assert_eq!(interleaved(&planes, 1, 2, Sample::S16), Some(vec![1, 0, 2, 0]));
}

#[test]
fn packed_samples_are_copied_as_they_are() {
    let packed: Vec<u8> = [1i16, 2, 3, 4].iter().flat_map(|s| s.to_ne_bytes()).collect();
    let planes: [&[u8]; 1] = [&packed];
    assert_eq!(
        interleaved(&planes, 2, 2, Sample::S16),
        Some(vec![1, 0, 2, 0, 3, 0, 4, 0])
    );
}

#[test]
fn samples_beyond_what_the_decoder_gave_are_refused() {
    let plane = 1i16.to_ne_bytes();
    let planes: [&[u8]; 1] = [&plane];
    assert_eq!(interleaved(&planes, 2, 1, Sample::S16), None);
    assert_eq!(interleaved(&planes, 1, 2, Sample::S16), None);
}

#[test]
fn the_buffer_size_follows_the_sample_rate() {
    let spec = Spec {
        rate: 48000,
        channels: 2,
    };
    assert_eq!(spec.frame_size(), 4);
    assert_eq!(spec.bytes_for(LATENCY_US), 48000 / 10 * 4);
}

#[test]
fn whole_number_samples_narrow_to_sixteen_bits() {
    assert_eq!(Sample::U8.read(&[255], little_endian()), 127 << 8);
    assert_eq!(Sample::U8.read(&[128], little_endian()), 0);
    assert_eq!(Sample::U8.read(&[0], little_endian()), -128 << 8);
    assert_eq!(Sample::S16.read(&(-1234i16).to_ne_bytes(), little_endian()), -1234);
    assert_eq!(Sample::S32.read(&i32::MIN.to_ne_bytes(), little_endian()), i16::MIN);
    assert_eq!(Sample::S32.read(&0x1234_5678i32.to_ne_bytes(), little_endian()), 0x1234);
}

#[test]
fn samples_are_read_in_the_order_they_were_written() {
    assert_eq!(Sample::S16.read(&[0x34, 0x12], true), 0x1234);
    assert_eq!(Sample::S16.read(&[0x34, 0x12], false), 0x3412);
    assert_eq!(Sample::S16.read(&(-2i16).to_be_bytes(), false), -2);
    assert_eq!(Sample::S32.read(&0x1234_5678i32.to_le_bytes(), true), 0x1234);
    assert_eq!(Sample::S32.read(&0x1234_5678i32.to_be_bytes(), false), 0x1234);
    assert_eq!(Sample::S32.read(&(-65536i32).to_be_bytes(), false), -1);
}

#[test]
fn each_layout_has_its_sample() {
    assert_eq!(Sample::of(SampleFormat::U8p), Some(Sample::U8));
    assert_eq!(Sample::of(SampleFormat::S16), Some(Sample::S16));
    assert_eq!(Sample::of(SampleFormat::S32p), Some(Sample::S32));
    assert_eq!(Sample::of(SampleFormat::Fltp), Some(Sample::Float));
    assert_eq!(Sample::of(SampleFormat::Dbl), Some(Sample::Double));
    assert_eq!(Sample::of(SampleFormat::Other(-1)), None);
    assert_eq!(Sample::Double.width(), 8);
    assert_eq!(Sample::U8.width(), 1);
}

#[test]
fn a_long_latency_is_capped() {
    let spec = Spec {
        rate: u32::MAX,
        channels: 8,
    };
    assert_eq!(spec.bytes_for(u32::MAX), u32::MAX);
    let spec = Spec { rate: 44100, channels: 1 };
    assert_eq!(spec.bytes_for(1_000_000), 88200);
    assert_eq!(spec.bytes_for(10), 0);
}

fn audio_frame<'a>(sample_rate: i32, channels: i32, samples: i32, planes: Vec<FramePlane<'a>>) -> Frame<'a> {
    Frame {
        width: 0,
        height: 0,
        picture_format: PictureFormat::Other(-1),
        colorspace: FrameColorspace::Other,
        full_range: false,
        pts: 0,
        sample_format: SampleFormat::S16p,
        sample_rate,
        channels,
        samples,
        planes,
    }
}

#[test]
fn only_playable_audio_has_a_spec() {
    assert_eq!(
        Spec::of(&audio_frame(48000, 2, 0, Vec::new())),
        Some(Spec { rate: 48000, channels: 2 })
    );
    assert_eq!(Spec::of(&audio_frame(0, 2, 0, Vec::new())), None);
    assert_eq!(Spec::of(&audio_frame(48000, 0, 0, Vec::new())), None);
    assert_eq!(Spec::of(&audio_frame(48000, 9, 0, Vec::new())), None);
}

#[test]
fn planes_are_cut_to_the_samples() {
    let left = [1u8, 2, 3, 4, 5, 6];
    let right = [7u8, 8, 9, 10, 11, 12];
    let frame = audio_frame(
        48000,
        2,
        2,
        vec![FramePlane { data: &left, linesize: 0 }, FramePlane { data: &right, linesize: 0 }],
    );
    let spec = Spec { rate: 48000, channels: 2 };
    let cut = planes(&frame, spec, Sample::S16).unwrap();
    assert_eq!(cut, vec![&left[..4], &right[..4]]);
    let short = audio_frame(48000, 2, 4, vec![FramePlane { data: &left, linesize: 0 }]);
    assert_eq!(planes(&short, spec, Sample::S16), None);
    let negative = audio_frame(48000, 2, -1, Vec::new());
    assert_eq!(planes(&negative, spec, Sample::S16), None);
}

#[test]
fn hints_follow_the_backends_built_in() {
    assert_eq!(
        hint(true, true),
        "create a sink with `pactl load-module module-null-sink sink_name=Mobcam` or load the module with `sudo modprobe snd-aloop`"
    );
    assert_eq!(hint(false, true), "load the module with `sudo modprobe snd-aloop`");
    assert_eq!(
        hint(false, false),
        "install libpulse-dev or libasound2-dev and build mobcam-virtualcam again"
    );
    assert_eq!(Backend::Pulse.describe("Mobcam"), "the PulseAudio sink Mobcam");
    assert_eq!(Backend::Alsa.describe("hw:1"), "the ALSA device hw:1");
    assert_eq!(
        Backend::Pulse.hint("Mic"),
        "create it with `pactl load-module module-null-sink sink_name=Mic`"
    );
}

#[test]
fn microphones_are_listed_in_order() {
    let loopback = vec![(String::from("plughw:CARD=Loopback,DEV=0"), String::from("Loopback - Loopback"))];
    assert_eq!(
        devices(true, &loopback),
        vec![
            String::from("PulseAudio or PipeWire sinks, Mobcam by default (list them with `pactl list short sinks`)"),
            String::from("plughw:CARD=Loopback,DEV=0 (Loopback - Loopback)"),
        ]
    );
    assert!(devices(false, &Vec::new()).is_empty());
}

fn stereo_frame<'a>(format: SampleFormat, rate: i32, channels: i32, planes: Vec<FramePlane<'a>>) -> Frame<'a> {
    let mut frame = audio_frame(rate, channels, 1, planes);
    frame.sample_format = format;
    frame
}

fn player() -> Audio {
    Audio::open(AudioBackend::Pulse, Some("Mic"), true, false, &Vec::new()).unwrap()
}

fn read_whole(bytes: &[u8]) -> i16 {
    Sample::S16.read(bytes, little_endian())
}

#[test]
fn audio_goes_where_the_machine_has_room_for_it() {
    let loopback = vec![(String::from("plughw:CARD=Loopback,DEV=0"), String::from("Loopback"))];
    assert_eq!(resolve(AudioBackend::Auto, None, true, true, &loopback), Some((Backend::Pulse, String::from("Mobcam"))));
    assert_eq!(
        resolve(AudioBackend::Auto, None, false, true, &loopback),
        Some((Backend::Alsa, String::from("plughw:CARD=Loopback,DEV=0")))
    );
    assert_eq!(resolve(AudioBackend::Alsa, Some("hw:2"), true, true, &Vec::new()), Some((Backend::Alsa, String::from("hw:2"))));
    assert_eq!(resolve(AudioBackend::Alsa, None, true, true, &Vec::new()), None);
    assert_eq!(resolve(AudioBackend::Pulse, None, false, true, &loopback), None);
    assert_eq!(player().description(), "the PulseAudio sink Mic");
}

#[test]
fn a_new_spec_opens_a_playback_and_then_plays() {
    let mut audio = player();
    let left = 1i16.to_ne_bytes();
    let right = 2i16.to_ne_bytes();
    let frame = stereo_frame(
        SampleFormat::S16p,
        48000,
        2,
        vec![FramePlane { data: &left, linesize: 0 }, FramePlane { data: &right, linesize: 0 }],
    );
    let spec = Spec { rate: 48000, channels: 2 };
    assert!(matches!(audio.play(&frame, read_whole), Play::Open(opened) if opened == spec));
    assert_eq!(audio.pcm, vec![1, 0, 2, 0]);
    assert_eq!(audio.opened(spec, Ok(())), Ok(String::from("playing 48000 Hz 2 channel audio into Mic")));
    assert!(matches!(audio.play(&frame, read_whole), Play::Write));
    assert_eq!(audio.written(Ok(())), None);
    assert_eq!(
        audio.written(Err(String::from("broken pipe"))),
        Some(String::from("failed to play audio into Mic: broken pipe"))
    );
    assert!(audio.failed);
    assert!(matches!(audio.play(&frame, read_whole), Play::Skip));
    audio.reset();
    assert!(matches!(audio.play(&frame, read_whole), Play::Open(_)));
}

#[test]
fn unplayable_audio_stops_the_playing() {
    let mut audio = player();
    let frame = stereo_frame(SampleFormat::S16, -1, 12, Vec::new());
    assert!(matches!(audio.play(&frame, read_whole), Play::Fail(message) if message == "unsupported audio of -1 Hz and 12 channels"));
    assert!(audio.failed);
    let mut audio = player();
    let other = stereo_frame(SampleFormat::Other(-1), 48000, 2, Vec::new());
    assert!(matches!(audio.play(&other, read_whole), Play::UnsupportedSampleFormat(SampleFormat::Other(-1))));
    assert!(matches!(audio.play(&other, read_whole), Play::Skip));
    assert!(!audio.failed);
    let spec = Spec { rate: 44100, channels: 1 };
    assert_eq!(
        audio.opened(spec, Err(String::from("no such entity"))),
        Err(String::from(
            "failed to open the PulseAudio sink Mic: no such entity; create it with `pactl load-module module-null-sink sink_name=Mic`"
        ))
    );
    assert!(audio.failed);
}
