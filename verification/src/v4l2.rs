//! What a v4l2 loopback camera is told about the images written to it.

use crate::text::{chars_of, digits_value, is_u32_text, parse_u32, unsigned_digits};
use vstd::prelude::*;

verus! {

/// The layouts an image can be written to a camera in.
#[derive(Clone, Copy, Debug)]
pub enum Format {
    /// A luma plane followed by two chroma planes at half width and height.
    I420,
    /// A luma plane followed by one plane of interleaved chroma pairs.
    Nv12,
}

impl PartialEq for Format {
    fn eq(&self, other: &Self) -> (r: bool) {
        match (self, other) {
            (Format::I420, Format::I420) | (Format::Nv12, Format::Nv12) => true,
            _ => false,
        }
    }
}

impl vstd::std_specs::cmp::PartialEqSpecImpl for Format {
    open spec fn obeys_eq_spec() -> bool {
        true
    }

    open spec fn eq_spec(&self, other: &Self) -> bool {
        (*self is I420 && *other is I420) || (*self is Nv12 && *other is Nv12)
    }
}

impl Eq for Format {}

impl Format {
    /// The name the format goes by.
    pub fn name(self) -> (r: &'static str)
        ensures
            r@ == (match self {
                Format::I420 => "I420"@,
                Format::Nv12 => "NV12"@,
            }),
    {
        match self {
            Format::I420 => "I420",
            Format::Nv12 => "NV12",
        }
    }

    /// The FOURCC code a device knows the format by.
    pub fn fourcc(self) -> (r: [u8; 4])
        ensures
            r@ == match self {
                Format::I420 => seq![0x59u8, 0x55u8, 0x31u8, 0x32u8],
                Format::Nv12 => seq![0x4eu8, 0x56u8, 0x31u8, 0x32u8],
            },
    {
        let r = match self {
            Format::I420 => [0x59u8, 0x55u8, 0x31u8, 0x32u8],
            Format::Nv12 => [0x4eu8, 0x56u8, 0x31u8, 0x32u8],
        };
        assert(r@ =~= match self {
            Format::I420 => seq![0x59u8, 0x55u8, 0x31u8, 0x32u8],
            Format::Nv12 => seq![0x4eu8, 0x56u8, 0x31u8, 0x32u8],
        });
        r
    }
}

/// How the colors of a frame are encoded.
#[derive(Clone, Copy, PartialEq, Eq, Structural, Debug)]
pub enum Colorspace {
    Smpte170m,
    Rec709,
    Rec2020,
}

/// The range the color components use.
#[derive(Clone, Copy, PartialEq, Eq, Structural, Debug)]
pub enum Quantization {
    FullRange,
    LimitedRange,
}

/// The kind of image a device is written.
#[derive(Clone, Copy, PartialEq, Eq, Debug)]
pub struct Picture {
    pub width: u32,
    pub height: u32,
    pub format: Format,
    pub colorspace: Colorspace,
    pub quantization: Quantization,
}


/// The number of a video device whose node is named `name`: `video` and
/// the number.
pub open spec fn node_number(name: Seq<char>) -> Option<u32> {
    if "video"@.is_prefix_of(name) && is_u32_text(name.subrange(5, name.len() as int)) {
        Some(digits_value(unsigned_digits(name.subrange(5, name.len() as int))) as u32)
    } else {
        None
    }
}

/// The number of a video device whose node is named `name`, if it is a
/// video device's.
pub fn video_number(name: &str) -> (r: Option<u32>)
    ensures
        r == node_number(name@),
{
    proof {
        reveal_strlit("video");
    }
    let chars = chars_of(name);
    let prefix = chars_of("video");
    if chars.len() < prefix.len() {
        return None;
    }
    let mut i: usize = 0;
    while i < prefix.len()
        invariant
            i <= prefix@.len() <= chars@.len(),
            prefix@ == "video"@,
            chars@ == name@,
            forall|k: int| 0 <= k < i ==> prefix@[k] == chars@[k],
        decreases prefix@.len() - i,
    {
        if chars[i] != prefix[i] {
            return None;
        }
        i = i + 1;
    }
    parse_u32(&chars, 5, chars.len())
}

} // verus!
