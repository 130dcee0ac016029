//! Verified logic of a camera and microphone fed by an iPhone or iPad running
//! Moblin over USB: the JSON of the device hello, the usbmux framing, the
//! clock that turns presentation times into host times, the layout of decoded
//! pictures for a v4l2 loopback camera and the interleaving of decoded audio.

pub mod alsa;
pub mod audio;
pub mod camera;
pub mod clock;
pub mod decoder;
pub mod json;
pub mod obs;
pub mod logging;
pub mod options;
pub mod session;
pub mod text;
pub mod usbmux;
pub mod v4l2;
pub mod ffmpeg;
pub mod frame;
pub mod convert;
