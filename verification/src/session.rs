//! What a program that shows a stream provides to whoever reads it from the
//! device: somewhere to put the decoded frames, and an ear for the hello the
//! device says when it connects.

use crate::frame::Frame;
use crate::text::{decimal, push_decimal};
use vstd::prelude::*;

verus! {

/// What a device says of itself when it connects.
pub struct DeviceHello {
    /// The name the device goes by.
    pub name: String,
    /// The version of Moblin it runs.
    pub app_version: String,
}

/// Somewhere to put decoded frames.
pub trait Sink {
    fn video(&mut self, frame: &Frame<'_>);

    fn audio(&mut self, frame: &Frame<'_>);
}

/// What a caller has to provide to run a session: somewhere to put the
/// decoded frames, and the device's hello.
pub trait Handler: Sink {
    fn hello(&mut self, hello: &DeviceHello);
}

/// The messages a device sends, by what they carry.
#[derive(Clone, Copy, Debug, PartialEq, Eq, Structural)]
pub enum Message {
    DeviceHello,
    VideoConfig,
    VideoFrame,
    AudioConfig,
    AudioFrame,
    /// A message this side does not read, which is passed over.
    Other,
}

/// What a session makes of a message: whether it reads on, and the warning
/// it gives, if any.
pub open spec fn after_message(message: Message, parsed: bool, handled: bool) -> (bool, Option<Seq<char>>) {
    match message {
        Message::Other => (true, None),
        _ => if !parsed {
            (false, Some(malformed(message)))
        } else {
            match message {
                Message::VideoConfig | Message::VideoFrame => (handled, None),
                _ => (true, None),
            }
        },
    }
}

/// What is said of a message whose payload does not read as what it
/// should carry.
pub open spec fn malformed(message: Message) -> Seq<char> {
    match message {
        Message::DeviceHello => "malformed device hello"@,
        Message::VideoConfig => "malformed video config"@,
        Message::VideoFrame => "malformed video frame"@,
        Message::AudioConfig => "malformed audio config"@,
        _ => "malformed audio frame"@,
    }
}

/// Whether a session reads on after `message`, whose payload read as what
/// it carries where `parsed` holds, and whose handling came to `handled`:
/// a malformed message ends the session with a warning; a video
/// configuration or frame ends it when handling it failed; a hello and
/// audio go on whatever came of them, and so do messages of other kinds.
pub fn after(message: Message, parsed: bool, handled: bool) -> (r: (bool, Option<&'static str>))
    ensures
        r.0 == after_message(message, parsed, handled).0,
        match after_message(message, parsed, handled).1 {
            Some(text) => r.1 matches Some(said) && said@ == text,
            None => r.1 is None,
        },
{
    match message {
        Message::Other => (true, None),
        _ => if !parsed {
            let text = match message {
                Message::DeviceHello => "malformed device hello",
                Message::VideoConfig => "malformed video config",
                Message::VideoFrame => "malformed video frame",
                Message::AudioConfig => "malformed audio config",
                _ => "malformed audio frame",
            };
            (false, Some(text))
        } else {
            match message {
                Message::VideoConfig | Message::VideoFrame => (handled, None),
                _ => (true, None),
            }
        },
    }
}

/// A session ends only on trouble: a message that read as what it carries
/// and whose handling succeeded never ends it, and neither does one of a
/// kind this side does not read; a malformed message of a kind it reads
/// always ends it, with a warning; a video configuration or frame whose
/// handling failed ends it, silently; a hello or audio never ends it once it
/// read well, whatever came of handling it.
pub proof fn lemma_session_ends_only_on_trouble(message: Message, parsed: bool, handled: bool)
    ensures
        parsed && handled ==> after_message(message, parsed, handled) == (true, None::<Seq<char>>),
        message == Message::Other ==> after_message(message, parsed, handled) == (true, None::<Seq<char>>),
        message != Message::Other && !parsed ==> !after_message(message, parsed, handled).0 && after_message(
            message,
            parsed,
            handled,
        ).1 is Some,
        (message == Message::VideoConfig || message == Message::VideoFrame) && parsed && !handled
            ==> after_message(message, parsed, handled) == (false, None::<Seq<char>>),
        (message == Message::DeviceHello || message == Message::AudioConfig || message == Message::AudioFrame)
            && parsed ==> after_message(message, parsed, handled) == (true, None::<Seq<char>>),
        !after_message(message, parsed, handled).0 ==> message != Message::Other && (!parsed || !handled),
{
}

/// Each kind of malformed message is named in its warning, no two alike.
pub proof fn lemma_warnings_name_the_message(a: Message, b: Message)
    requires
        a != Message::Other,
        b != Message::Other,
        a != b,
    ensures
        malformed(a) != malformed(b),
{
    reveal_strlit("malformed device hello");
    reveal_strlit("malformed video config");
    reveal_strlit("malformed video frame");
    reveal_strlit("malformed audio config");
    reveal_strlit("malformed audio frame");
    let (x, y) = (malformed(a), malformed(b));
    if a == Message::DeviceHello || b == Message::DeviceHello {
        assert(x[10] != y[10] || x[16] != y[16]);
    } else if (a == Message::VideoConfig || a == Message::VideoFrame) && (b == Message::VideoConfig || b
        == Message::VideoFrame) {
        assert(x[16] != y[16]);
    } else if (a == Message::AudioConfig || a == Message::AudioFrame) && (b == Message::AudioConfig || b
        == Message::AudioFrame) {
        assert(x[16] != y[16]);
    } else {
        assert(x[10] != y[10]);
    }
}

/// What is said of a message too big to take.
pub open spec fn too_big_text(length: u32) -> Seq<char> {
    "message of "@ + decimal(length as nat) + " bytes is too big"@
}

/// How many bytes to read for a message of `length` bytes, or, when it is
/// longer than the `max` a session takes, what is said before the session
/// ends.
pub fn payload_size(length: u32, max: u32) -> (r: Result<usize, String>)
    ensures
        length <= max ==> (r matches Ok(size) && size == length),
        length > max ==> (r matches Err(text) && text@ == too_big_text(length)),
{
    if length > max {
        let mut text = String::from_str("message of ");
        push_decimal(&mut text, length as u64);
        text.append(" bytes is too big");
        Err(text)
    } else {
        Ok(length as usize)
    }
}

} // verus!
