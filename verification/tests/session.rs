use mobcam::session::{after, payload_size, Message};

#[test]
fn a_malformed_message_ends_the_session_with_a_warning() {
    assert_eq!(after(Message::DeviceHello, false, true), (false, Some("malformed device hello")));
    assert_eq!(after(Message::VideoConfig, false, true), (false, Some("malformed video config")));
    assert_eq!(after(Message::VideoFrame, false, true), (false, Some("malformed video frame")));
    assert_eq!(after(Message::AudioConfig, false, true), (false, Some("malformed audio config")));
    assert_eq!(after(Message::AudioFrame, false, true), (false, Some("malformed audio frame")));
}

#[test]
fn only_failed_video_ends_a_well_formed_message() {
    assert_eq!(after(Message::VideoConfig, true, false), (false, None));
    assert_eq!(after(Message::VideoFrame, true, false), (false, None));
    assert_eq!(after(Message::VideoFrame, true, true), (true, None));
    assert_eq!(after(Message::AudioConfig, true, false), (true, None));
    assert_eq!(after(Message::AudioFrame, true, false), (true, None));
    assert_eq!(after(Message::DeviceHello, true, false), (true, None));
    assert_eq!(after(Message::Other, false, false), (true, None));
}

#[test]
fn a_message_too_big_is_refused() {
    assert_eq!(payload_size(16, 1024), Ok(16));
    assert_eq!(payload_size(1024, 1024), Ok(1024));
    assert_eq!(payload_size(1025, 1024), Err(String::from("message of 1025 bytes is too big")));
}
