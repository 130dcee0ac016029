//! What the virtual camera makes of each decoded picture: whether the camera
//! can be written it, as what, when it is to be shown, and what is worth
//! logging about it.

use crate::clock::Clock;
use crate::convert::{conversion, frame_dimensions, image, Image};
use crate::frame::{Frame, FrameColorspace, PictureFormat};
use crate::logging::Changed;
use crate::options::PixelFormat as Requested;
use crate::v4l2::{Colorspace, Format, Picture, Quantization};
use vstd::prelude::*;
use vstd::string::StringExecFns;

verus! {

/// The colorspace a camera is told a picture is in.
pub open spec fn colorspace_of(colorspace: FrameColorspace) -> Colorspace {
    match colorspace {
        FrameColorspace::Bt470bg | FrameColorspace::Smpte170m => Colorspace::Smpte170m,
        FrameColorspace::Bt2020Ncl => Colorspace::Rec2020,
        FrameColorspace::Other => Colorspace::Rec709,
    }
}

/// The colorspace a camera is told a frame is in.
pub fn colorspace(frame: &Frame<'_>) -> (r: Colorspace)
    ensures
        r == colorspace_of(frame.colorspace),
{
    match frame.colorspace {
        FrameColorspace::Bt470bg | FrameColorspace::Smpte170m => Colorspace::Smpte170m,
        FrameColorspace::Bt2020Ncl => Colorspace::Rec2020,
        FrameColorspace::Other => Colorspace::Rec709,
    }
}

/// What a camera is told about the image a frame becomes.
pub open spec fn picture_of(image: Image, frame: &Frame) -> Picture {
    Picture {
        width: image.width,
        height: image.height,
        format: image.format,
        colorspace: colorspace_of(frame.colorspace),
        quantization: if frame.full_range {
            Quantization::FullRange
        } else {
            Quantization::LimitedRange
        },
    }
}

/// What to do with a decoded picture.
pub enum Video {
    /// Nothing the camera takes: drop it, and when a layout is given, say
    /// that frames of it are dropped.
    Drop(Option<PictureFormat>),
    /// Write the frame as `image`, telling the camera `picture`, to be shown
    /// at `timestamp`; when a conversion is given, say that frames of that
    /// layout are now written in that format.
    Write { image: Image, picture: Picture, timestamp: u64, note: Option<(PictureFormat, Format)> },
}

/// The pictures of a stream on their way to a camera.
pub struct Output {
    /// Whether the camera takes interleaved chroma.
    pub nv12: bool,
    pub clock: Clock,
    pub logged_conversion: Changed<(PictureFormat, Format)>,
    pub logged_pixel_format: Changed<PictureFormat>,
    /// Why writing to the camera failed, which stops the program.
    pub failure: Option<String>,
}

/// What is said when a frame would not go to the camera.
pub open spec fn unwritten(error: Seq<char>) -> Seq<char> {
    "failed to write a frame: "@ + error
}

impl Output {
    /// A stream's pictures, none of them seen yet.
    pub fn new(nv12: bool) -> (r: Output)
        ensures
            r.nv12 == nv12,
            !r.clock.is_anchored(),
            r.logged_conversion.last() is None,
            r.logged_pixel_format.last() is None,
            r.failure is None,
    {
        Output {
            nv12,
            clock: Clock::new(),
            logged_conversion: Changed::default(),
            logged_pixel_format: Changed::default(),
            failure: None,
        }
    }

    /// Take what writing a frame to the camera came to, and say whether to
    /// stop: a failed write is kept as the failure and stops the program;
    /// a successful one changes nothing.
    pub fn written(&mut self, result: Result<(), String>) -> (r: bool)
        ensures
            final(self).nv12 == old(self).nv12,
            final(self).clock == old(self).clock,
            final(self).logged_conversion == old(self).logged_conversion,
            final(self).logged_pixel_format == old(self).logged_pixel_format,
            result is Ok ==> !r && final(self).failure == old(self).failure,
            result matches Err(error) ==> r && (final(self).failure matches Some(message) && message@
                == unwritten(error@)),
    {
        match result {
            Ok(()) => false,
            Err(error) => {
                let mut message = String::from_str("failed to write a frame: ");
                message.append(error.as_str());
                self.failure = Some(message);
                true
            },
        }
    }

    /// What to do with a decoded picture. `now_ns` reads the host's clock;
    /// it is only called when the picture anchors the clock anew.
    pub fn video<F: FnOnce() -> u64>(&mut self, frame: &Frame<'_>, now_ns: F) -> (r: Video)
        requires
            call_requires(now_ns, ()),
        ensures
            final(self).nv12 == old(self).nv12,
            final(self).failure == old(self).failure,
            match (frame_dimensions(frame.width, frame.height), conversion(frame.picture_format, old(self).nv12)) {
                (Some((width, height)), Some((format, source))) => {
                    let made = Image { width: width as u32, height: height as u32, format, source };
                    let pts = frame.pts as u64;
                    if old(self).clock.reanchors(pts) || 0 <= old(self).clock.follows(pts) <= u64::MAX {
                        &&& r matches Video::Write { image, picture, timestamp, note } && {
                            &&& image == made
                            &&& picture == picture_of(made, frame)
                            &&& (old(self).clock.reanchors(pts) ==> call_ensures(now_ns, (), timestamp))
                            &&& (!old(self).clock.reanchors(pts) ==> timestamp == old(self).clock.follows(pts))
                            &&& final(self).clock.latest() == timestamp
                            &&& (note is Some <==> old(self).logged_conversion.differs((frame.picture_format, format)))
                            &&& (note matches Some(said) ==> said == (frame.picture_format, format))
                        }
                        &&& final(self).clock.is_anchored()
                        &&& final(self).clock.previous() == pts
                        &&& final(self).logged_conversion.last() == Some((frame.picture_format, format))
                        &&& final(self).logged_pixel_format == old(self).logged_pixel_format
                    } else {
                        &&& r matches Video::Drop(note) && note is None
                        &&& final(self).clock == old(self).clock
                        &&& final(self).logged_conversion == old(self).logged_conversion
                        &&& final(self).logged_pixel_format == old(self).logged_pixel_format
                    }
                },
                _ => {
                    &&& r matches Video::Drop(note) && {
                        &&& (note is Some <==> old(self).logged_pixel_format.differs(frame.picture_format))
                        &&& (note matches Some(said) ==> said == frame.picture_format)
                    }
                    &&& final(self).logged_pixel_format.last() == Some(frame.picture_format)
                    &&& final(self).clock == old(self).clock
                    &&& final(self).logged_conversion == old(self).logged_conversion
                },
            },
    {
        let decoded = frame.picture_format;
        let made = match image(frame, self.nv12) {
            Some(made) => made,
            None => {
                let changed = self.logged_pixel_format.changed(decoded);
                proof {
                    if !changed {
                        assert(old(self).logged_pixel_format.last() == Some(decoded));
                    }
                }
                return Video::Drop(if changed {
                    Some(decoded)
                } else {
                    None
                });
            },
        };
        let pts = frame.pts as u64;
        if !self.clock.can_follow(pts) {
            return Video::Drop(None);
        }
        let changed = self.logged_conversion.changed((decoded, made.format));
        proof {
            if !changed {
                assert(old(self).logged_conversion.last() == Some((decoded, made.format)));
            }
        }
        let picture = Picture {
            width: made.width,
            height: made.height,
            format: made.format,
            colorspace: colorspace(frame),
            quantization: if frame.full_range {
                Quantization::FullRange
            } else {
                Quantization::LimitedRange
            },
        };
        let timestamp = self.clock.timestamp(pts, now_ns);
        Video::Write {
            image: made,
            picture,
            timestamp,
            note: if changed {
                Some((decoded, made.format))
            } else {
                None
            },
        }
    }
}


// ------------------------------------------------------------------------
// Running the camera.

/// How long to wait before connecting again, in milliseconds.
pub const RECONNECT_DELAY_MS: u64 = 1000;

/// How often to look whether to stop while waiting, in milliseconds.
pub const STOP_POLL_INTERVAL_MS: u64 = 100;

/// What is said when there is no loopback camera to write to.
pub open spec fn no_camera() -> Seq<char> {
    "no v4l2loopback device found; load the module with `sudo modprobe v4l2loopback` (Debian and Ubuntu have it in v4l2loopback-dkms)"@
}

/// The camera to write to: the one asked for, or else the first loopback
/// device found; an error saying how to get one when there is none.
pub fn choose_camera(requested: Option<&str>, loopback: &Vec<(String, String)>) -> (r: Result<String, String>)
    ensures
        match requested {
            Some(path) => r matches Ok(chosen) && chosen@ == path@,
            None => if loopback@.len() > 0 {
                r matches Ok(chosen) && chosen@ == loopback@[0].0@
            } else {
                r matches Err(message) && message@ == no_camera()
            },
        },
{
    match requested {
        Some(path) => Ok(String::from_str(path)),
        None => if loopback.len() > 0 {
            Ok(loopback[0].0.clone())
        } else {
            Err(
                String::from_str(
                    "no v4l2loopback device found; load the module with `sudo modprobe v4l2loopback` (Debian and Ubuntu have it in v4l2loopback-dkms)",
                ),
            )
        },
    }
}

/// Whether the camera is written NV12 frames as they are decoded: only when
/// no format is asked for and the camera takes them.
pub fn wants_nv12(requested: Requested, takes_nv12: bool) -> (r: bool)
    ensures
        r == (requested is Auto && takes_nv12),
{
    match requested {
        Requested::Auto => takes_nv12,
        Requested::I420 => false,
    }
}

/// What is said of where frames are written, and as what.
pub open spec fn writing_to(path: Seq<char>, nv12: bool) -> Seq<char> {
    "writing to "@ + path + " in "@ + if nv12 {
        "NV12 or I420, whichever the decoder produces"@
    } else {
        "I420"@
    }
}

pub fn writing_note(path: &str, nv12: bool) -> (r: String)
    ensures
        r@ == writing_to(path@, nv12),
{
    let mut text = String::from_str("writing to ");
    text.append(path);
    text.append(" in ");
    if nv12 {
        text.append("NV12 or I420, whichever the decoder produces");
    } else {
        text.append("I420");
    }
    text
}

/// What is said when audio is wanted but there is nowhere to play it, when
/// there is anything to say.
pub fn microphone_note(audio_wanted: bool, have_audio: bool, hint: &str) -> (r: Option<String>)
    ensures
        (audio_wanted && !have_audio) ==> (r matches Some(text) && text@ == "no virtual microphone; "@ + hint@
            + ", and the audio plays into it"@),
        !(audio_wanted && !have_audio) ==> r is None,
{
    if audio_wanted && !have_audio {
        let mut text = String::from_str("no virtual microphone; ");
        text.append(hint);
        text.append(", and the audio plays into it");
        Some(text)
    } else {
        None
    }
}

/// What comes after a session with a device ends.
pub enum Next {
    /// Writing to the camera failed: stop, with this error.
    Fail(String),
    /// Wait, looking every `poll_ms` whether to stop, then connect again.
    Reconnect { wait_ms: u64, poll_ms: u64 },
}

/// What comes after a session that ended with `failure`, if writing to the
/// camera failed.
pub fn after_session(failure: Option<String>) -> (r: Next)
    ensures
        match failure {
            Some(message) => r matches Next::Fail(said) && said == message,
            None => r matches Next::Reconnect { wait_ms, poll_ms } && wait_ms == RECONNECT_DELAY_MS
                && poll_ms == STOP_POLL_INTERVAL_MS,
        },
{
    match failure {
        Some(message) => Next::Fail(message),
        None => Next::Reconnect { wait_ms: RECONNECT_DELAY_MS, poll_ms: STOP_POLL_INTERVAL_MS },
    }
}

/// Whether to go on waiting before connecting again: not when stopping,
/// and not past the deadline.
pub fn keep_waiting(stopping: bool, now_ms: u64, deadline_ms: u64) -> (r: bool)
    ensures
        r == (!stopping && now_ms < deadline_ms),
{
    !stopping && now_ms < deadline_ms
}

} // verus!
