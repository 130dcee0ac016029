//! The decisions of decoding a stream: when a decoder is opened anew, which
//! frames are handed to it, what its answers mean, and how a hardware
//! decoder's frames are fetched. The decoders themselves are FFmpeg's; what
//! they answer is handed in here.

use crate::ffmpeg::Status;
use crate::text::same_text;
use vstd::prelude::*;

verus! {

/// What to do when a stream is configured.
#[derive(Clone, Copy, PartialEq, Eq, Structural, Debug)]
pub enum Configure {
    /// The codec is not one that can be decoded: refuse the configuration.
    Reject,
    /// The decoder that is open already decodes it: keep it.
    Keep,
    /// Close the decoder and open one for the new configuration.
    Reopen,
}

/// What to do when a stream is configured with `codec` and `record`, the
/// open decoder (if `open`) decoding `current_codec` with `current_record`;
/// `supported` says whether the codec is one there are decoders for.
pub open spec fn configure_step(
    supported: bool,
    open: bool,
    current_codec: u8,
    current_record: Seq<u8>,
    codec: u8,
    record: Seq<u8>,
) -> Configure {
    if !supported {
        Configure::Reject
    } else if open && current_codec == codec && current_record == record {
        Configure::Keep
    } else {
        Configure::Reopen
    }
}

fn same_bytes(a: &[u8], b: &[u8]) -> (r: bool)
    ensures
        r == (a@ == b@),
{
    if a.len() != b.len() {
        return false;
    }
    let mut i: usize = 0;
    while i < a.len()
        invariant
            a@.len() == b@.len(),
            i <= a@.len(),
            forall|k: int| 0 <= k < i ==> a@[k] == b@[k],
        decreases a@.len() - i,
    {
        if a[i] != b[i] {
            return false;
        }
        i = i + 1;
    }
    assert(a@ =~= b@);
    true
}

/// How the frames a hardware decoder hands back are fetched.
#[derive(Clone, Copy, PartialEq, Eq, Structural, Debug)]
pub enum Access {
    /// Not settled yet: settled on the first frame.
    Unknown,
    /// Mapped, in this pixel format, rather than copied.
    Mapping(i32),
    /// Copied out.
    Copy,
}

/// How to fetch one frame.
#[derive(Clone, Copy, PartialEq, Eq, Structural, Debug)]
pub enum Fetch {
    /// Map it in this pixel format; tell `map_failed` if that fails.
    Mapping(i32),
    /// Copy it out.
    Download,
}

/// The access settled on: mapping when the device's frames map cheaply and
/// it names a format to map them in, copying otherwise.
pub open spec fn settled(access: Access, maps_cheaply: bool, transfer_format: Option<i32>) -> Access {
    match access {
        Access::Unknown => if maps_cheaply && transfer_format is Some {
            Access::Mapping(transfer_format->0)
        } else {
            Access::Copy
        },
        _ => access,
    }
}

/// What comes of a receive call.
#[derive(Clone, Copy, PartialEq, Eq, Structural, Debug)]
pub enum Received {
    /// A frame arrived.
    Frame,
    /// No frame is ready: the decoder wants more input, or has ended.
    Drained,
    /// The decoder failed.
    Failed,
}

/// What a receive call's status says.
pub fn received(status: Status) -> (r: Received)
    ensures
        r == match status {
            Status::Success => Received::Frame,
            Status::Again | Status::Eof => Received::Drained,
            Status::Error(_) => Received::Failed,
        },
{
    match status {
        Status::Again | Status::Eof => Received::Drained,
        Status::Error(_) => Received::Failed,
        Status::Success => Received::Frame,
    }
}

/// Whether the frames of the hardware device named `name` are cheaper to
/// map than to copy out: only where the decoder writes ordinary cached
/// memory, which the `rkmpp` and `drm` devices do.
pub fn maps_cheaply(name: &str) -> (r: bool)
    ensures
        r == (name@ == "rkmpp"@ || name@ == "drm"@),
{
    same_text(name, "rkmpp") || same_text(name, "drm")
}

/// What the decoding of a stream has settled: whether audio is wanted, and
/// whether a keyframe has come since the video decoder opened or failed.
pub struct Decoding {
    pub hardware: bool,
    pub audio_wanted: bool,
    pub got_keyframe: bool,
}

/// What is done with one attempt at opening a decoder.
#[derive(Clone, Copy, PartialEq, Eq, Structural, Debug)]
pub enum Attempt {
    /// It opened: decode with it.
    Opened,
    /// It would not open: try the next decoder.
    Next,
    /// Its context could not even be made: give up.
    GiveUp,
}

/// What an attempt at opening a decoder comes to: `begun` says whether its
/// context was made, `opened` whether it opened.
pub fn attempt(begun: bool, opened: bool) -> (r: Attempt)
    ensures
        r == (if !begun {
            Attempt::GiveUp
        } else if opened {
            Attempt::Opened
        } else {
            Attempt::Next
        }),
{
    if !begun {
        Attempt::GiveUp
    } else if opened {
        Attempt::Opened
    } else {
        Attempt::Next
    }
}

/// The hardware decoder's frames, and how they are fetched.
pub struct Hardware {
    pub access: Access,
}

impl Hardware {
    /// How to fetch the next frame, settling the access on the first one.
    /// Says too whether mapping was just settled on, which is worth logging.
    pub fn plan(&mut self, maps_cheaply: bool, transfer_format: Option<i32>) -> (r: (Fetch, bool))
        ensures
            final(self).access == settled(old(self).access, maps_cheaply, transfer_format),
            r.0 == match final(self).access {
                Access::Mapping(format) => Fetch::Mapping(format),
                _ => Fetch::Download,
            },
            r.1 == (old(self).access is Unknown && final(self).access is Mapping),
    {
        let mut settling = false;
        if let Access::Unknown = self.access {
            self.access = match transfer_format {
                Some(format) => if maps_cheaply {
                    settling = true;
                    Access::Mapping(format)
                } else {
                    Access::Copy
                },
                None => Access::Copy,
            };
        }
        match self.access {
            Access::Mapping(format) => (Fetch::Mapping(format), settling),
            _ => (Fetch::Download, settling),
        }
    }

    /// A frame would not map: copy it, and every later one, out instead.
    pub fn map_failed(&mut self) -> (r: Fetch)
        ensures
            final(self).access == Access::Copy,
            r == Fetch::Download,
    {
        self.access = Access::Copy;
        Fetch::Download
    }
}

impl Decoding {
    pub fn new() -> (r: Decoding)
        ensures
            r == (Decoding { hardware: false, audio_wanted: true, got_keyframe: false }),
    {
        Decoding { hardware: false, audio_wanted: true, got_keyframe: false }
    }

    /// A new stream starts: wait for a keyframe.
    pub fn reset(&mut self)
        ensures
            *final(self) == (Decoding { got_keyframe: false, ..*old(self) }),
    {
        self.got_keyframe = false;
    }

    /// What to do with a video configuration of `codec` and `record`; the
    /// video decoder that is open (if `open`) decodes `current_codec` with
    /// `current_record`. Opening anew waits for a keyframe again.
    pub fn configure_video(
        &mut self,
        supported: bool,
        open: bool,
        current_codec: u8,
        current_record: &[u8],
        codec: u8,
        record: &[u8],
    ) -> (r: Configure)
        ensures
            r == configure_step(supported, open, current_codec, current_record@, codec, record@),
            final(self).hardware == old(self).hardware,
            final(self).audio_wanted == old(self).audio_wanted,
            final(self).got_keyframe == (old(self).got_keyframe && r != Configure::Reopen),
    {
        if !supported {
            return Configure::Reject;
        }
        if open && current_codec == codec && same_bytes(current_record, record) {
            return Configure::Keep;
        }
        self.got_keyframe = false;
        Configure::Reopen
    }

    /// What to do with an audio configuration; with no audio wanted, the
    /// configuration is taken and nothing opened.
    pub fn configure_audio(
        &self,
        supported: bool,
        open: bool,
        current_codec: u8,
        current_record: &[u8],
        codec: u8,
        record: &[u8],
    ) -> (r: Configure)
        ensures
            r == (if !self.audio_wanted {
                Configure::Keep
            } else {
                configure_step(supported, open, current_codec, current_record@, codec, record@)
            }),
    {
        if !self.audio_wanted {
            return Configure::Keep;
        }
        if !supported {
            return Configure::Reject;
        }
        if open && current_codec == codec && same_bytes(current_record, record) {
            return Configure::Keep;
        }
        Configure::Reopen
    }

    /// Whether to hand a video frame to the decoder: only when one is open,
    /// and from the first keyframe on.
    pub fn admit_video(&mut self, open: bool, keyframe: bool) -> (r: bool)
        ensures
            r == (open && (old(self).got_keyframe || keyframe)),
            final(self).got_keyframe == (old(self).got_keyframe || (open && keyframe)),
            final(self).hardware == old(self).hardware,
            final(self).audio_wanted == old(self).audio_wanted,
    {
        if !open {
            return false;
        }
        if !self.got_keyframe {
            if !keyframe {
                return false;
            }
            self.got_keyframe = true;
        }
        true
    }

    /// The decoder would not take a frame: it is flushed, and waits for a
    /// keyframe again.
    pub fn video_refused(&mut self)
        ensures
            *final(self) == (Decoding { got_keyframe: false, ..*old(self) }),
    {
        self.got_keyframe = false;
    }
}

/// Once a frame was refused, nothing but a keyframe is handed over again.
pub proof fn lemma_refusal_waits_for_keyframe(decoding: Decoding, open: bool, keyframe: bool)
    requires
        !decoding.got_keyframe,
    ensures
        (open && (decoding.got_keyframe || keyframe)) ==> keyframe,
{
}

/// Trying the decoders for a codec one after the other, best first, until
/// one opens: `next` is the one being tried, of `count`.
pub struct Selection {
    pub next: usize,
    pub count: usize,
}

/// Where trying decoders stands.
#[derive(Clone, Copy, PartialEq, Eq, Structural, Debug)]
pub enum Choice {
    /// Try this decoder.
    Try(usize),
    /// This decoder opened: decode with it.
    Opened(usize),
    /// A decoder's context could not be made: stop trying.
    GiveUp,
    /// Every decoder was tried and none opened.
    NoneWorked,
}

/// Where trying decoders stands once decoder `index` of `count` has been
/// tried, if it would not open: the next one, or, past the last, none.
pub open spec fn next_choice(index: int, count: int) -> Choice {
    if index + 1 < count {
        Choice::Try((index + 1) as usize)
    } else {
        Choice::NoneWorked
    }
}

impl Selection {
    /// Trying `count` decoders, none tried yet.
    pub fn new(count: usize) -> (r: (Selection, Choice))
        ensures
            r.0.next == 0,
            r.0.count == count,
            r.1 == (if count == 0 {
                Choice::NoneWorked
            } else {
                Choice::Try(0)
            }),
    {
        let choice = if count == 0 {
            Choice::NoneWorked
        } else {
            Choice::Try(0)
        };
        (Selection { next: 0, count }, choice)
    }

    /// The decoder being tried came to `begun` (its context was made) and
    /// `opened`: what comes next.
    pub fn tried(&mut self, begun: bool, opened: bool) -> (r: Choice)
        requires
            old(self).next < old(self).count,
        ensures
            final(self).count == old(self).count,
            !begun ==> r == Choice::GiveUp,
            begun && opened ==> r == Choice::Opened(old(self).next),
            begun && !opened ==> r == next_choice(old(self).next as int, old(self).count as int),
            r matches Choice::Try(index) ==> index == final(self).next && final(self).next < final(self).count,
    {
        match attempt(begun, opened) {
            Attempt::GiveUp => Choice::GiveUp,
            Attempt::Opened => Choice::Opened(self.next),
            Attempt::Next => {
                self.next = self.next + 1;
                if self.next < self.count {
                    Choice::Try(self.next)
                } else {
                    Choice::NoneWorked
                }
            },
        }
    }
}

/// Decoders are tried in order: the next one is only tried when the one
/// before it would not open, and none is skipped.
pub proof fn lemma_decoders_are_tried_in_order(index: usize, count: usize, next: usize)
    requires
        index < count,
        next_choice(index as int, count as int) == Choice::Try(next),
    ensures
        next == index + 1,
{
}

/// No decoder is skipped, and none is given up on early: when a decoder
/// would not open, the one right after it is tried, as long as there is
/// one; only after the last has failed does trying end with none working.
pub proof fn lemma_every_decoder_is_tried(index: usize, count: usize)
    requires
        index < count,
    ensures
        index + 1 < count ==> next_choice(index as int, count as int) == Choice::Try((index + 1) as usize),
        index + 1 == count ==> next_choice(index as int, count as int) == Choice::NoneWorked,
        next_choice(index as int, count as int) == Choice::NoneWorked ==> index + 1 == count,
{
}

/// What is said when the decoder named `name` would not open.
pub open spec fn open_failed(name: Seq<char>) -> Seq<char> {
    "failed to open the "@ + name + " decoder"@
}

/// What is said when no decoder for the codec named `codec` would open.
pub open spec fn none_working(codec: Seq<char>) -> Seq<char> {
    "no working "@ + codec + " decoder available"@
}

pub fn open_failed_text(name: &str) -> (r: String)
    ensures
        r@ == open_failed(name@),
{
    let mut text = String::from_str("failed to open the ");
    text.append(name);
    text.append(" decoder");
    text
}

pub fn none_working_text(codec: &str) -> (r: String)
    ensures
        r@ == none_working(codec@),
{
    let mut text = String::from_str("no working ");
    text.append(codec);
    text.append(" decoder available");
    text
}

/// What to do after receiving from a decoder.
#[derive(Clone, Copy, PartialEq, Eq, Structural, Debug)]
pub enum AfterReceive {
    /// Hand the frame on, release it, and receive again.
    Show,
    /// Nothing more for now: the packet is done.
    Done,
    /// The video decoder failed: close it, and end the session so that it
    /// is opened anew.
    Close,
    /// The audio decoder failed: flush it, and go on.
    Flush,
}

/// What a receive from the video decoder leads to: a failure closes it,
/// and the session ends to open it anew.
pub fn video_received(received: Received) -> (r: AfterReceive)
    ensures
        r == match received {
            Received::Frame => AfterReceive::Show,
            Received::Drained => AfterReceive::Done,
            Received::Failed => AfterReceive::Close,
        },
{
    match received {
        Received::Frame => AfterReceive::Show,
        Received::Drained => AfterReceive::Done,
        Received::Failed => AfterReceive::Close,
    }
}

/// What a receive from the audio decoder leads to: a failure flushes it,
/// and decoding goes on.
pub fn audio_received(received: Received) -> (r: AfterReceive)
    ensures
        r == match received {
            Received::Frame => AfterReceive::Show,
            Received::Drained => AfterReceive::Done,
            Received::Failed => AfterReceive::Flush,
        },
{
    match received {
        Received::Frame => AfterReceive::Show,
        Received::Drained => AfterReceive::Done,
        Received::Failed => AfterReceive::Flush,
    }
}

/// Whether the session reads on after what a receive led to: only a video
/// decoder's failure ends it.
pub fn reads_on(after: AfterReceive) -> (r: bool)
    ensures
        r == !(after is Close),
{
    match after {
        AfterReceive::Close => false,
        _ => true,
    }
}

/// What is said when a receive from the video decoder fails.
pub fn receive_failed_text() -> (r: &'static str)
    ensures
        r@ == "failed to receive a frame, reopening the decoder"@,
{
    "failed to receive a frame, reopening the decoder"
}

/// What is said when the video decoder would not take a frame.
pub fn frame_refused_text() -> (r: &'static str)
    ensures
        r@ == "failed to decode a frame, flushing the decoder"@,
{
    "failed to decode a frame, flushing the decoder"
}

/// What is said when the audio decoder would not take or give audio.
pub fn audio_failed_text() -> (r: &'static str)
    ensures
        r@ == "failed to decode audio, flushing the decoder"@,
{
    "failed to decode audio, flushing the decoder"
}

} // verus!
