//! What the virtual camera is told on its command line.

use vstd::prelude::*;

verus! {

/// The port Moblin streams to unless told otherwise.
pub const DEFAULT_PORT: u16 = 7790;

/// Which virtual microphone the audio is played into.
#[derive(Clone, Copy, PartialEq, Eq, Structural, Debug)]
pub enum AudioBackend {
    /// The first of the ones below that the machine has.
    Auto,
    /// A PulseAudio or PipeWire sink.
    Pulse,
    /// An ALSA loopback device.
    Alsa,
}

/// Which pixel format the camera is written.
#[derive(Clone, Copy, PartialEq, Eq, Structural, Debug)]
pub enum PixelFormat {
    /// The one the decoder produces, when the camera takes it.
    Auto,
    /// I420 always, for programs that read nothing else.
    I420,
}

/// The options the program runs with.
pub struct Options {
    /// The v4l2loopback device to write to, the first one found by default.
    pub device: Option<String>,
    /// The iPhone or iPad to read from, the first one attached by default.
    pub udid: Option<String>,
    /// The port Moblin streams to.
    pub port: u16,
    /// Whether to play the audio into a virtual microphone.
    pub audio: bool,
    /// The virtual microphone to play the audio into.
    pub audio_backend: AudioBackend,
    /// The sink or device to play the audio into.
    pub audio_device: Option<String>,
    /// Whether to decode in hardware when the machine can.
    pub hardware_decode: bool,
    /// The pixel format to write to the camera.
    pub pixel_format: PixelFormat,
    /// Whether to log a line for every frame written to the camera.
    pub debug: bool,
    /// Whether to list the devices and exit.
    pub list: bool,
}

impl Options {
    /// The device to read from, empty for the first one attached.
    pub fn udid(&self) -> (r: &str)
        ensures
            r@ == (match self.udid {
                Some(udid) => udid@,
                None => Seq::empty(),
            }),
    {
        match &self.udid {
            Some(udid) => udid.as_str(),
            None => {
                proof {
                    reveal_strlit("");
                }
                ""
            },
        }
    }
}

} // verus!
