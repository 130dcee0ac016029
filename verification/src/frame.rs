//! A frame as the decoder hands it over: what a picture or a run of audio
//! samples holds, and the planes of bytes it is made of.

use vstd::prelude::*;
use vstd::std_specs::cmp::PartialEqSpec;

verus! {

/// The layouts a decoder hands pictures over in, as far as a camera cares.
#[derive(Clone, Copy, Debug)]
pub enum PictureFormat {
    Yuv420p,
    Yuvj420p,
    Nv12,
    Nv21,
    Yuv422p,
    Yuv444p,
    Yuv420p10le,
    P010le,
    /// Any layout not named above, by the number FFmpeg gives it.
    Other(i32),
}

impl PictureFormat {
    /// The number the layout goes by here, one for each.
    pub open spec fn number(self) -> u8 {
        match self {
            PictureFormat::Yuv420p => 0,
            PictureFormat::Yuvj420p => 1,
            PictureFormat::Nv12 => 2,
            PictureFormat::Nv21 => 3,
            PictureFormat::Yuv422p => 4,
            PictureFormat::Yuv444p => 5,
            PictureFormat::Yuv420p10le => 6,
            PictureFormat::P010le => 7,
            PictureFormat::Other(_) => 8,
        }
    }

    fn numbered(&self) -> (r: u8)
        ensures
            r == self.number(),
    {
        match self {
            PictureFormat::Yuv420p => 0,
            PictureFormat::Yuvj420p => 1,
            PictureFormat::Nv12 => 2,
            PictureFormat::Nv21 => 3,
            PictureFormat::Yuv422p => 4,
            PictureFormat::Yuv444p => 5,
            PictureFormat::Yuv420p10le => 6,
            PictureFormat::P010le => 7,
            PictureFormat::Other(_) => 8,
        }
    }
}

impl PartialEq for PictureFormat {
    fn eq(&self, other: &Self) -> (r: bool) {
        match (self, other) {
            (PictureFormat::Other(a), PictureFormat::Other(b)) => *a == *b,
            _ => self.numbered() == other.numbered(),
        }
    }
}

impl vstd::std_specs::cmp::PartialEqSpecImpl for PictureFormat {
    open spec fn obeys_eq_spec() -> bool {
        true
    }

    open spec fn eq_spec(&self, other: &Self) -> bool {
        match (*self, *other) {
            (PictureFormat::Other(a), PictureFormat::Other(b)) => a == b,
            _ => self.number() == other.number(),
        }
    }
}

impl Eq for PictureFormat {}

/// Two layouts are `==` exactly when they are the same layout.
pub proof fn lemma_picture_format_eq_is_equality()
    ensures
        crate::logging::lawful_eq::<PictureFormat>(),
{
    assert forall|a: PictureFormat, b: PictureFormat| #[trigger] a.eq_spec(&b) <==> a == b by {
        if a.eq_spec(&b) {
            assert(a == b);
        }
    }
}

/// How the colors of a picture are encoded, as far as a camera cares.
#[derive(Clone, Copy, PartialEq, Eq, Structural, Debug)]
pub enum FrameColorspace {
    Bt470bg,
    Smpte170m,
    Bt2020Ncl,
    /// Any encoding not named above.
    Other,
}

/// The layouts a decoder hands audio samples over in. The planar ones
/// (`...p`) keep each channel in a plane of its own.
#[derive(Clone, Copy, PartialEq, Eq, Structural, Debug)]
pub enum SampleFormat {
    U8,
    U8p,
    S16,
    S16p,
    S32,
    S32p,
    Flt,
    Fltp,
    Dbl,
    Dblp,
    /// Any layout not named above, by the number FFmpeg gives it.
    Other(i32),
}

/// One plane of a frame: its bytes, and for a picture how far apart its
/// rows start.
pub struct FramePlane<'a> {
    pub data: &'a [u8],
    pub linesize: i32,
}

/// A decoded frame. A plane the decoder did not fill is simply absent, so
/// `planes` holds the planes from the first up to the last one present.
pub struct Frame<'a> {
    pub width: i32,
    pub height: i32,
    pub picture_format: PictureFormat,
    pub colorspace: FrameColorspace,
    /// Whether the color components take their full range.
    pub full_range: bool,
    /// When the frame is to be shown, in the stream's time base.
    pub pts: i64,
    pub sample_format: SampleFormat,
    pub sample_rate: i32,
    pub channels: i32,
    pub samples: i32,
    pub planes: Vec<FramePlane<'a>>,
}

} // verus!
