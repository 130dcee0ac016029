use mobcam::ffmpeg::{eagain, version, Library, Status, AVERROR_EOF};

fn library() -> Library {
    Library {
        name: "libavcodec",
        built: version(62, 28, 102),
    }
}

#[test]
fn the_version_it_was_built_against_is_accepted() {
    assert!(library().check(version(62, 28, 102)).is_ok());
}

#[test]
fn a_newer_version_of_the_same_major_is_accepted() {
    assert!(library().check(version(62, 29, 0)).is_ok());
}

#[test]
fn an_older_version_of_the_same_major_is_rejected() {
    assert!(library().check(version(62, 27, 100)).is_err());
}

#[test]
fn another_major_version_is_rejected() {
    assert!(library().check(version(63, 0, 0)).is_err());
    assert!(library().check(version(61, 40, 0)).is_err());
}

#[test]
fn versions_pack_and_write_out() {
    assert_eq!(version(62, 28, 102), (62 << 16) | (28 << 8) | 102);
    assert_eq!(mobcam::ffmpeg::format(version(62, 28, 102)), "62.28.102");
    assert_eq!(mobcam::ffmpeg::format(version(0, 0, 0)), "0.0.0");
    assert_eq!(mobcam::ffmpeg::format(version(61, 3, 100)), "61.3.100");
}

#[test]
fn a_rejection_says_both_versions() {
    assert_eq!(
        library().check(version(61, 40, 0)),
        Err(String::from(
            "libavcodec 62.28.102 was built against, but 61.40.0 is loaded, and the two do not have the same structure layouts"
        ))
    );
}

#[test]
fn results_become_statuses() {
    assert_eq!(Status::of(0, false), Status::Success);
    assert_eq!(Status::of(5, true), Status::Success);
    assert_eq!(Status::of(-11, false), Status::Again);
    assert_eq!(Status::of(-11, true), Status::Error(-11));
    assert_eq!(Status::of(-35, true), Status::Again);
    assert_eq!(Status::of(AVERROR_EOF, false), Status::Eof);
    assert_eq!(Status::of(-22, false), Status::Error(-22));
    assert_eq!(eagain(false), -11);
    assert_eq!(
        AVERROR_EOF,
        -((b'E' as i32) | ((b'O' as i32) << 8) | ((b'F' as i32) << 16) | ((b' ' as i32) << 24))
    );
}

#[test]
fn only_success_and_again_are_ok() {
    assert!(Status::Success.is_ok());
    assert!(Status::Again.is_ok());
    assert!(!Status::Eof.is_ok());
    assert!(!Status::Error(-1).is_ok());
}
