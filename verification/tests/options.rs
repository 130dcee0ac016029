use mobcam::options::{AudioBackend, Options, PixelFormat, DEFAULT_PORT};

fn options(udid: Option<&str>) -> Options {
    Options {
        device: None,
        udid: udid.map(String::from),
        port: DEFAULT_PORT,
        audio: true,
        audio_backend: AudioBackend::Auto,
        audio_device: None,
        hardware_decode: true,
        pixel_format: PixelFormat::Auto,
        debug: false,
        list: false,
    }
}

#[test]
fn no_udid_is_the_first_device() {
    assert_eq!(options(None).udid(), "");
    assert_eq!(options(Some("00008101-000A")).udid(), "00008101-000A");
    assert_eq!(DEFAULT_PORT, 7790);
}
