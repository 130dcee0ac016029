//! The audio of a stream, played into a virtual microphone: what it is
//! played as, and turning the samples a decoder hands over into the
//! interleaved sixteen bit samples a sound server takes.

use crate::frame::{Frame, SampleFormat};
use crate::options::AudioBackend;
use crate::text::{decimal, push_decimal, push_signed_decimal, signed_decimal};
use vstd::prelude::*;
use vstd::slice::slice_subrange;
use vstd::string::StringExecFns;

verus! {

/// How much audio a sound server is asked to buffer, in microseconds.
pub const LATENCY_US: u32 = 100000;

/// The most channels played.
pub const MAX_CHANNELS: i32 = 8;

/// How many bytes a sample takes once it is played.
pub const BYTES_PER_SAMPLE: usize = 2;

/// What audio is played as.
#[derive(Clone, Copy, PartialEq, Eq, Structural, Debug)]
pub struct Spec {
    pub rate: u32,
    pub channels: u8,
}

/// What a frame of `sample_rate` samples a second in `channels` channels is
/// played as, when the rate is positive and the channels between one and
/// the most played.
pub open spec fn spec_of(sample_rate: i32, channels: i32) -> Option<Spec> {
    if sample_rate > 0 && 1 <= channels <= MAX_CHANNELS {
        Some(Spec { rate: sample_rate as u32, channels: channels as u8 })
    } else {
        None
    }
}

impl Spec {
    /// What a frame is played as.
    pub fn of(frame: &Frame<'_>) -> (r: Option<Spec>)
        ensures
            r == spec_of(frame.sample_rate, frame.channels),
    {
        if frame.sample_rate <= 0 {
            return None;
        }
        let rate = frame.sample_rate as u32;
        let channels = frame.channels;
        if 1 <= channels && channels <= MAX_CHANNELS {
            Some(Spec { rate, channels: channels as u8 })
        } else {
            None
        }
    }

    /// How many bytes a sample of every channel takes.
    pub fn frame_size(&self) -> (r: usize)
        ensures
            r == BYTES_PER_SAMPLE * self.channels,
    {
        BYTES_PER_SAMPLE * self.channels as usize
    }

    /// How many bytes `microseconds` of audio take, whole frames of samples
    /// only, as many as a `u32` holds at most.
    pub fn bytes_for(&self, microseconds: u32) -> (r: u32)
        ensures
            r == min_u32(self.rate * microseconds / 1000000 * (BYTES_PER_SAMPLE * self.channels)),
    {
        proof {
            assert(self.rate as u64 * microseconds as u64 <= 0xffff_ffff_ffff_ffffu64) by (nonlinear_arith)
                requires
                    self.rate <= 0xffff_ffff,
                    microseconds <= 0xffff_ffff,
            ;
        }
        let frames: u64 = self.rate as u64 * microseconds as u64 / 1000000;
        let size = self.frame_size();
        proof {
            assert(frames <= 18446744073709u64);
            assert(frames * (size as u64) <= 18446744073709u64 * 510) by (nonlinear_arith)
                requires
                    frames <= 18446744073709u64,
                    size <= 510,
            ;
        }
        let bytes: u64 = frames * size as u64;
        if bytes > 0xffff_ffffu64 {
            0xffff_ffffu32
        } else {
            bytes as u32
        }
    }
}

/// The bytes of a latency are whole frames of samples of every channel,
/// unless there are too many to count.
pub proof fn lemma_latency_is_whole_frames(spec: Spec, microseconds: u32)
    requires
        spec.rate * microseconds / 1000000 * (BYTES_PER_SAMPLE * spec.channels) <= u32::MAX,
    ensures
        min_u32(spec.rate * microseconds / 1000000 * (BYTES_PER_SAMPLE * spec.channels)) % (BYTES_PER_SAMPLE
            * spec.channels) as int == 0 || spec.channels == 0,
{
    let frames = spec.rate * microseconds / 1000000;
    let size = BYTES_PER_SAMPLE * spec.channels;
    if spec.channels > 0 {
        assert((frames * size) % size == 0) by (nonlinear_arith)
            requires
                size > 0,
                frames >= 0,
        ;
    }
}

/// `value`, or the most a `u32` holds when it holds no more.
pub open spec fn min_u32(value: int) -> int {
    if value > u32::MAX {
        u32::MAX as int
    } else {
        value
    }
}

/// Where the audio is played.
#[derive(Clone, Copy, PartialEq, Eq, Structural, Debug)]
pub enum Backend {
    Pulse,
    Alsa,
}

/// How a sink or device of a backend is named to whoever reads the log.
pub open spec fn described(backend: Backend, device: Seq<char>) -> Seq<char> {
    match backend {
        Backend::Pulse => "the PulseAudio sink "@ + device,
        Backend::Alsa => "the ALSA device "@ + device,
    }
}

/// What to do about a backend whose sink or device would not open.
pub open spec fn backend_hint(backend: Backend, device: Seq<char>) -> Seq<char> {
    match backend {
        Backend::Pulse => "create it with `pactl load-module module-null-sink sink_name="@ + device + "`"@,
        Backend::Alsa => "load the module with `sudo modprobe snd-aloop`"@,
    }
}

impl Backend {
    pub fn describe(self, device: &str) -> (r: String)
        ensures
            r@ == described(self, device@),
    {
        let mut text = match self {
            Backend::Pulse => String::from_str("the PulseAudio sink "),
            Backend::Alsa => String::from_str("the ALSA device "),
        };
        text.append(device);
        text
    }

    pub fn hint(self, device: &str) -> (r: String)
        ensures
            r@ == backend_hint(self, device@),
    {
        match self {
            Backend::Pulse => {
                let mut text = String::from_str("create it with `pactl load-module module-null-sink sink_name=");
                text.append(device);
                text.append("`");
                text
            },
            Backend::Alsa => String::from_str("load the module with `sudo modprobe snd-aloop`"),
        }
    }
}

/// The sink played into when none is named.
pub open spec fn default_sink() -> Seq<char> {
    "Mobcam"@
}

/// The sink played into when none is named.
pub fn default_sink_name() -> (r: &'static str)
    ensures
        r@ == default_sink(),
{
    "Mobcam"
}

/// What to do to have a virtual microphone, by the backends built in.
pub open spec fn setup_hint(pulse: bool, alsa: bool) -> Seq<char> {
    let pulse_hint = "create a sink with `pactl load-module module-null-sink sink_name="@ + default_sink() + "`"@;
    let alsa_hint = "load the module with `sudo modprobe snd-aloop`"@;
    if pulse && alsa {
        pulse_hint + " or "@ + alsa_hint
    } else if pulse {
        pulse_hint
    } else if alsa {
        alsa_hint
    } else {
        "install libpulse-dev or libasound2-dev and build mobcam-virtualcam again"@
    }
}

/// What to do to have a virtual microphone; `pulse` and `alsa` say which
/// backends the program was built with.
pub fn hint(pulse: bool, alsa: bool) -> (r: String)
    ensures
        r@ == setup_hint(pulse, alsa),
{
    let mut text = String::new();
    if pulse {
        text.append("create a sink with `pactl load-module module-null-sink sink_name=");
        text.append(default_sink_name());
        text.append("`");
    }
    if alsa {
        if pulse {
            text.append(" or ");
        }
        text.append("load the module with `sudo modprobe snd-aloop`");
    }
    if !pulse && !alsa {
        text = String::from_str("install libpulse-dev or libasound2-dev and build mobcam-virtualcam again");
    }
    proof {
        reveal_strlit("");
    }
    assert(text@ =~= setup_hint(pulse, alsa));
    text
}

/// The line the sinks of a sound server are listed under.
pub open spec fn pulse_line() -> Seq<char> {
    "PulseAudio or PipeWire sinks, "@ + default_sink() + " by default (list them with `pactl list short sinks`)"@
}

/// The line a loopback device is listed under: its name for ALSA, and what
/// the card calls itself.
pub open spec fn device_line(device: (String, String)) -> Seq<char> {
    device.0@ + " ("@ + device.1@ + ")"@
}

/// Where the loopback devices start in the list of virtual microphones.
pub open spec fn first_device(pulse: bool) -> int {
    if pulse {
        1
    } else {
        0
    }
}

/// The virtual microphones to play into: a sound server's sinks when one is
/// running, then every loopback device, in order.
pub fn devices(pulse: bool, loopback: &Vec<(String, String)>) -> (r: Vec<String>)
    ensures
        r@.len() == first_device(pulse) + loopback@.len(),
        pulse ==> r@[0]@ == pulse_line(),
        forall|i: int|
            0 <= i < loopback@.len() ==> r@[i + first_device(pulse)]@ == device_line(#[trigger] loopback@[i]),
{
    let mut lines: Vec<String> = Vec::new();
    if pulse {
        let mut line = String::from_str("PulseAudio or PipeWire sinks, ");
        line.append(default_sink_name());
        line.append(" by default (list them with `pactl list short sinks`)");
        lines.push(line);
    }
    let skip: usize = if pulse {
        1
    } else {
        0
    };
    let mut i: usize = 0;
    while i < loopback.len()
        invariant
            i <= loopback@.len(),
            lines@.len() == skip + i,
            skip == first_device(pulse),
            pulse ==> lines@[0]@ == pulse_line(),
            forall|j: int| 0 <= j < i ==> lines@[j + skip]@ == device_line(#[trigger] loopback@[j]),
        decreases loopback@.len() - i,
    {
        let mut line = loopback[i].0.clone();
        line.append(" (");
        line.append(loopback[i].1.as_str());
        line.append(")");
        lines.push(line);
        i = i + 1;
    }
    lines
}

/// How a decoder hands audio samples over, whatever the planes.
#[derive(Clone, Copy, PartialEq, Eq, Structural, Debug)]
pub enum Sample {
    U8,
    S16,
    S32,
    Float,
    Double,
}

/// The sample a layout holds, for the layouts that can be played.
pub open spec fn sample_of(format: SampleFormat) -> Option<Sample> {
    match format {
        SampleFormat::U8 | SampleFormat::U8p => Some(Sample::U8),
        SampleFormat::S16 | SampleFormat::S16p => Some(Sample::S16),
        SampleFormat::S32 | SampleFormat::S32p => Some(Sample::S32),
        SampleFormat::Flt | SampleFormat::Fltp => Some(Sample::Float),
        SampleFormat::Dbl | SampleFormat::Dblp => Some(Sample::Double),
        SampleFormat::Other(_) => None,
    }
}

/// How many bytes a sample takes.
pub open spec fn sample_width(sample: Sample) -> int {
    match sample {
        Sample::U8 => 1,
        Sample::S16 => 2,
        Sample::S32 => 4,
        Sample::Float => 4,
        Sample::Double => 8,
    }
}

/// The sixteen bit sample whose low byte is `low` and high byte `high`.
pub open spec fn word(low: u8, high: u8) -> i16 {
    ((low + high * 256) as u16) as i16
}

/// The sixteen bit sample of a low and a high byte.
fn word_of(low: u8, high: u8) -> (r: i16)
    ensures
        r == word(low, high),
{
    let whole: u16 = low as u16 + high as u16 * 256;
    whole as i16
}

impl Sample {
    pub fn of(format: SampleFormat) -> (r: Option<Sample>)
        ensures
            r == sample_of(format),
    {
        match format {
            SampleFormat::U8 | SampleFormat::U8p => Some(Sample::U8),
            SampleFormat::S16 | SampleFormat::S16p => Some(Sample::S16),
            SampleFormat::S32 | SampleFormat::S32p => Some(Sample::S32),
            SampleFormat::Flt | SampleFormat::Fltp => Some(Sample::Float),
            SampleFormat::Dbl | SampleFormat::Dblp => Some(Sample::Double),
            SampleFormat::Other(_) => None,
        }
    }

    pub fn width(self) -> (r: usize)
        ensures
            r == sample_width(self),
    {
        match self {
            Sample::U8 => 1,
            Sample::S16 => 2,
            Sample::S32 => 4,
            Sample::Float => 4,
            Sample::Double => 8,
        }
    }

    /// Whether the samples are whole numbers, which are narrowed here; the
    /// rest are floating point.
    pub open spec fn is_integer(self) -> bool {
        self is U8 || self is S16 || self is S32
    }

    /// Narrow a whole number sample, from the first bytes of `bytes`, to
    /// sixteen bits: unsigned eight bit samples are centred on zero and
    /// widened, wider ones keep their top sixteen bits. The bytes are in the
    /// machine's order, little endian where `little_endian` holds and big
    /// endian where it does not.
    pub fn read(self, bytes: &[u8], little_endian: bool) -> (r: i16)
        requires
            self.is_integer(),
            bytes@.len() >= sample_width(self),
        ensures
            self is U8 ==> r == (bytes@[0] - 128) * 256,
            self is S16 ==> r == if little_endian {
                word(bytes@[0], bytes@[1])
            } else {
                word(bytes@[1], bytes@[0])
            },
            self is S32 ==> r == if little_endian {
                word(bytes@[2], bytes@[3])
            } else {
                word(bytes@[1], bytes@[0])
            },
    {
        match self {
            Sample::U8 => {
                let centred: i16 = bytes[0] as i16 - 128;
                centred * 256
            },
            Sample::S16 => if little_endian {
                word_of(bytes[0], bytes[1])
            } else {
                word_of(bytes[1], bytes[0])
            },
            _ => if little_endian {
                word_of(bytes[2], bytes[3])
            } else {
                word_of(bytes[1], bytes[0])
            },
        }
    }
}


/// How many bytes each plane of a frame holds for `samples` samples: every
/// channel's when they are packed in one plane, one channel's when each
/// channel has a plane of its own.
pub open spec fn plane_length(width: int, samples: int, channels: int, planar: bool) -> int {
    width * samples * (if planar {
        1
    } else {
        channels
    })
}

/// The planes of a frame's audio, each cut to what its samples take; none
/// when the frame gives a negative number of samples, or a plane holds
/// fewer bytes than that.
pub open spec fn audio_planes(frame: &Frame, spec: Spec, sample: Sample) -> Option<Seq<Seq<u8>>> {
    let length = plane_length(sample_width(sample), frame.samples as int, spec.channels as int, frame.planes@.len() > 1);
    if frame.samples >= 0 && length <= usize::MAX && forall|i: int|
        0 <= i < frame.planes@.len() ==> length <= #[trigger] frame.planes@[i].data@.len() {
        Some(Seq::new(frame.planes@.len(), |i: int| frame.planes@[i].data@.subrange(0, length)))
    } else {
        None
    }
}

/// Each layout is read as its own type, the packed and planar forms alike,
/// and a sample of it takes the bytes of that type: one for `u8`, two for
/// `i16`, four for `i32` and `f32`, eight for `f64`; a layout not named has
/// no reading.
pub proof fn lemma_samples_take_their_type(format: SampleFormat)
    ensures
        match format {
            SampleFormat::U8 | SampleFormat::U8p => sample_of(format) == Some(Sample::U8) && sample_width(
                Sample::U8,
            ) == 1,
            SampleFormat::S16 | SampleFormat::S16p => sample_of(format) == Some(Sample::S16) && sample_width(
                Sample::S16,
            ) == 2,
            SampleFormat::S32 | SampleFormat::S32p => sample_of(format) == Some(Sample::S32) && sample_width(
                Sample::S32,
            ) == 4,
            SampleFormat::Flt | SampleFormat::Fltp => sample_of(format) == Some(Sample::Float) && sample_width(
                Sample::Float,
            ) == 4,
            SampleFormat::Dbl | SampleFormat::Dblp => sample_of(format) == Some(Sample::Double) && sample_width(
                Sample::Double,
            ) == 8,
            SampleFormat::Other(_) => sample_of(format) is None,
        },
{
}

/// A frame whose planes hold what its samples take is read whole: a sample
/// takes the bytes of its type (one for `u8`, two for `i16`, four for `i32`
/// and `f32`, eight for `f64`), times the channels where they are packed in
/// one plane; each plane is then cut to just that.
pub proof fn lemma_full_planes_are_read(frame: &Frame, spec: Spec, sample: Sample, bytes: int)
    requires
        bytes == match sample {
            Sample::U8 => 1int,
            Sample::S16 => 2,
            Sample::S32 => 4,
            Sample::Float => 4,
            Sample::Double => 8,
        },
        frame.samples >= 0,
        frame.samples * bytes * (if frame.planes@.len() > 1 {
            1
        } else {
            spec.channels as int
        }) <= usize::MAX,
        forall|i: int|
            0 <= i < frame.planes@.len() ==> #[trigger] frame.planes@[i].data@.len() >= frame.samples * bytes * (
            if frame.planes@.len() > 1 {
                1
            } else {
                spec.channels as int
            }),
    ensures
        audio_planes(frame, spec, sample) matches Some(planes) && planes.len() == frame.planes@.len() && forall|
            i: int,
        |
            0 <= i < planes.len() ==> #[trigger] planes[i] == frame.planes@[i].data@.subrange(
                0,
                frame.samples * bytes * (if frame.planes@.len() > 1 {
                    1
                } else {
                    spec.channels as int
                }),
            ),
{
}

/// The planes of a frame's audio, each cut to what its samples take.
pub fn planes<'a>(frame: &Frame<'a>, spec: Spec, sample: Sample) -> (r: Option<Vec<&'a [u8]>>)
    ensures
        match audio_planes(frame, spec, sample) {
            Some(planes) => r matches Some(found) && found@.len() == planes.len() && forall|i: int|
                0 <= i < planes.len() ==> #[trigger] found@[i]@ == planes[i],
            None => r is None,
        },
{
    if frame.samples < 0 {
        return None;
    }
    let samples = frame.samples as usize;
    let channels = spec.channels as usize;
    let planar = frame.planes.len() > 1;
    let per_sample = sample.width();
    let ghost wanted = plane_length(sample_width(sample), frame.samples as int, spec.channels as int, planar);
    let factor: usize = if planar {
        1
    } else {
        channels
    };
    let length = if factor == 0 {
        proof {
            assert(wanted == 0) by (nonlinear_arith)
                requires
                    wanted == per_sample * samples * factor,
                    factor == 0,
            ;
        }
        0
    } else {
        let spread = match per_sample.checked_mul(samples) {
            Some(spread) => spread,
            None => {
                proof {
                    assert(wanted >= per_sample * samples) by (nonlinear_arith)
                        requires
                            wanted == per_sample * samples * factor,
                            per_sample * samples >= 0,
                            factor >= 1,
                    ;
                }
                return None;
            },
        };
        match spread.checked_mul(factor) {
            Some(length) => length,
            None => return None,
        }
    };
    let mut found: Vec<&'a [u8]> = Vec::new();
    let mut i: usize = 0;
    while i < frame.planes.len()
        invariant
            i <= frame.planes@.len(),
            length == wanted,
            frame.samples >= 0,
            wanted == plane_length(sample_width(sample), frame.samples as int, spec.channels as int, frame.planes@.len() > 1),
            found@.len() == i,
            forall|j: int| 0 <= j < i ==> length <= #[trigger] frame.planes@[j].data@.len(),
            forall|j: int| 0 <= j < i ==> #[trigger] found@[j]@ == frame.planes@[j].data@.subrange(0, length as int),
        decreases frame.planes@.len() - i,
    {
        let data = frame.planes[i].data;
        if data.len() < length {
            assert(!(length <= frame.planes@[i as int].data@.len()));
            return None;
        }
        found.push(slice_subrange(data, 0, length));
        i = i + 1;
    }
    Some(found)
}


/// The bytes from where sample `index` of `channel` starts to the end of
/// its plane, when the plane holds the whole sample: all channels in turn
/// in a single plane, or each channel in a plane of its own.
pub open spec fn sample_bytes(planes: Seq<Seq<u8>>, channels: int, width: int, index: int, channel: int) -> Option<
    Seq<u8>,
> {
    let plane = if planes.len() == 1 {
        0
    } else {
        channel
    };
    let offset = if planes.len() == 1 {
        index * channels + channel
    } else {
        index
    };
    if 0 <= plane < planes.len() && offset * width + width <= planes[plane].len() {
        Some(planes[plane].subrange(offset * width, planes[plane].len() as int))
    } else {
        None
    }
}

/// Whether the planes hold every sample of every channel.
pub open spec fn all_samples_held(planes: Seq<Seq<u8>>, samples: int, channels: int, width: int) -> bool {
    forall|index: int, channel: int|
        0 <= index < samples && 0 <= channel < channels ==> #[trigger] sample_bytes(
            planes,
            channels,
            width,
            index,
            channel,
        ) is Some
}

/// Whether `read` can turn bytes holding `bytes` into `value`.
pub open spec fn reads_as<F: Fn(&[u8]) -> i16>(read: F, bytes: Seq<u8>, value: i16) -> bool {
    exists|source: &[u8]| source@ == bytes && #[trigger] call_ensures(read, (source,), value)
}

/// The sample `k` of interleaved sixteen bit little endian samples.
pub open spec fn played_sample(pcm: Seq<u8>, k: int) -> i16 {
    word(pcm[2 * k], pcm[2 * k + 1])
}

/// Whether `pcm` holds, where sample `index` of `channel` goes, what `read`
/// made of the bytes of that sample.
pub open spec fn holds_sample<F: Fn(&[u8]) -> i16>(
    read: F,
    planes: Seq<Seq<u8>>,
    channels: int,
    width: int,
    pcm: Seq<u8>,
    index: int,
    channel: int,
) -> bool {
    reads_as(
        read,
        sample_bytes(planes, channels, width, index, channel)->0,
        played_sample(pcm, index * channels + channel),
    )
}

/// The planes as the bytes they hold.
pub open spec fn plane_bytes(planes: Seq<&[u8]>) -> Seq<Seq<u8>> {
    planes.map_values(|plane: &[u8]| plane@)
}

proof fn lemma_le_bytes_of_sample(value: i16)
    ensures
        word(((value as u16) % 256) as u8, ((value as u16) / 256) as u8) == value,
{
    let unsigned = value as u16;
    assert(unsigned % 256 + (unsigned / 256) * 256 == unsigned);
    assert(((unsigned % 256) as u8) as int == unsigned % 256);
    assert(((unsigned / 256) as u8) as int == unsigned / 256);
    assert((value as u16) as i16 == value) by (bit_vector);
}

/// Interleave `samples` samples of each of `channels` channels into `out`,
/// as sixteen bit little endian samples, each read by `read` from the
/// `width` bytes it takes. Fails, leaving `out` partly filled, when a plane
/// does not hold every sample it should.
pub fn interleave<F: Fn(&[u8]) -> i16>(
    out: &mut Vec<u8>,
    planes: &[&[u8]],
    samples: usize,
    channels: usize,
    width: usize,
    read: F,
) -> (r: bool)
    requires
        samples * channels * width <= usize::MAX,
        samples * channels * BYTES_PER_SAMPLE <= usize::MAX,
        forall|source: &[u8]| source@.len() >= width ==> #[trigger] call_requires(read, (source,)),
    ensures
        r == all_samples_held(plane_bytes(planes@), samples as int, channels as int, width as int),
        r ==> final(out)@.len() == samples * channels * BYTES_PER_SAMPLE,
        r ==> forall|index: int, channel: int|
            0 <= index < samples && 0 <= channel < channels ==> #[trigger] holds_sample(
                read,
                plane_bytes(planes@),
                channels as int,
                width as int,
                final(out)@,
                index,
                channel,
            ),
{
    let ghost views = plane_bytes(planes@);
    out.clear();
    out.reserve(samples * channels * BYTES_PER_SAMPLE);
    let mut index: usize = 0;
    while index < samples
        invariant
            views == plane_bytes(planes@),
            index <= samples,
            samples * channels * width <= usize::MAX,
            samples * channels * BYTES_PER_SAMPLE <= usize::MAX,
            forall|source: &[u8]| source@.len() >= width ==> #[trigger] call_requires(read, (source,)),
            out@.len() == 2 * (index * channels),
            forall|i: int, c: int|
                0 <= i < index && 0 <= c < channels ==> #[trigger] sample_bytes(views, channels as int, width as int, i, c) is Some,
            forall|i: int, c: int|
                0 <= i < index && 0 <= c < channels ==> #[trigger] holds_sample(
                    read,
                    views,
                    channels as int,
                    width as int,
                    out@,
                    i,
                    c,
                ),
        decreases samples - index,
    {
        proof {
            assert(index * channels + channels <= samples * channels) by (nonlinear_arith)
                requires
                    index < samples,
            ;
        }
        let mut channel: usize = 0;
        while channel < channels
            invariant
                views == plane_bytes(planes@),
                index < samples,
                channel <= channels,
                index * channels + channels <= samples * channels,
                samples * channels * width <= usize::MAX,
                samples * channels * BYTES_PER_SAMPLE <= usize::MAX,
                forall|source: &[u8]| source@.len() >= width ==> #[trigger] call_requires(read, (source,)),
                out@.len() == 2 * (index * channels + channel),
                forall|i: int, c: int|
                    (0 <= i < index && 0 <= c < channels) || (i == index && 0 <= c < channel) ==> #[trigger] sample_bytes(views, channels as int, width as int, i, c) is Some,
                forall|i: int, c: int|
                    (0 <= i < index && 0 <= c < channels) || (i == index && 0 <= c < channel) ==> #[trigger] holds_sample(
                        read,
                        views,
                        channels as int,
                        width as int,
                        out@,
                        i,
                        c,
                    ),
            decreases channels - channel,
        {
            let packed = planes.len() == 1;
            let plane: usize = if packed {
                0
            } else {
                channel
            };
            proof {
                assert((index * channels + channel) * width + width <= samples * channels * width) by (nonlinear_arith)
                    requires
                        index * channels + channel + 1 <= samples * channels,
                ;
                assert(index * width + width <= samples * channels * width) by (nonlinear_arith)
                    requires
                        index + 1 <= samples,
                        channel < channels,
                ;
            }
            let offset: usize = if packed {
                index * channels + channel
            } else {
                index
            };
            if plane >= planes.len() {
                return false;
            }
            let source = planes[plane];
            let start = offset * width;
            if start > source.len() {
                return false;
            }
            let bytes = slice_subrange(source, start, source.len());
            if bytes.len() < width {
                return false;
            }
            assert(bytes@ == sample_bytes(views, channels as int, width as int, index as int, channel as int)->0);
            let value = read(bytes);
            let ghost before = out@;
            out.push(((value as u16) % 256) as u8);
            out.push(((value as u16) / 256) as u8);
            proof {
                lemma_le_bytes_of_sample(value);
                let k = index * channels + channel;
                assert(2 * (index * channels + channel + 1) == 2 * k + 2);
                assert(reads_as(read, bytes@, played_sample(out@, k)));
                assert(holds_sample(read, views, channels as int, width as int, out@, index as int, channel as int));
                assert forall|i: int, c: int|
                    (0 <= i < index && 0 <= c < channels) || (i == index && 0 <= c < channel) implies #[trigger] holds_sample(
                        read,
                        views,
                        channels as int,
                        width as int,
                        out@,
                        i,
                        c,
                    ) by {
                        assert(holds_sample(read, views, channels as int, width as int, before, i, c));
                        let k2 = i * channels + c;
                        assert(k2 < k) by (nonlinear_arith)
                            requires
                                (0 <= i < index && 0 <= c < channels) || (i == index && 0 <= c < channel),
                                k == index * channels + channel,
                                k2 == i * channels + c,
                        ;
                        assert(k2 >= 0) by (nonlinear_arith)
                            requires
                                0 <= i,
                                0 <= c,
                                channels >= 0,
                                k2 == i * channels + c,
                        ;
                        assert(played_sample(out@, k2) == played_sample(before, k2));
                    }
            }
            channel = channel + 1;
        }
        proof {
            assert((index + 1) * channels == index * channels + channels) by (nonlinear_arith);
        }
        index = index + 1;
    }
    true
}


// ------------------------------------------------------------------------
// Playing the audio of a stream.

/// Where to play the audio, asked for with `backend` and `device`, when the
/// machine has it: a sound server's sink, `Mobcam` unless another is named,
/// or an ALSA device, the first loopback device unless another is named.
/// `pulse` and `alsa` say whether the machine has either, and `loopback`
/// lists its loopback devices.
pub open spec fn resolved(
    backend: AudioBackend,
    device: Option<Seq<char>>,
    pulse: bool,
    alsa: bool,
    loopback: Seq<Seq<char>>,
) -> Option<(Backend, Seq<char>)> {
    let on_pulse = if pulse {
        Some(
            (
                Backend::Pulse,
                match device {
                    Some(name) => name,
                    None => default_sink(),
                },
            ),
        )
    } else {
        None
    };
    let on_alsa = if !alsa {
        None
    } else {
        match device {
            Some(name) => Some((Backend::Alsa, name)),
            None => if loopback.len() > 0 {
                Some((Backend::Alsa, loopback[0]))
            } else {
                None
            },
        }
    };
    match backend {
        AudioBackend::Auto => if on_pulse is Some {
            on_pulse
        } else {
            on_alsa
        },
        AudioBackend::Pulse => on_pulse,
        AudioBackend::Alsa => on_alsa,
    }
}

/// Where to play the audio: a sink or device the machine has, of the
/// backend asked for.
pub fn resolve(
    backend: AudioBackend,
    device: Option<&str>,
    pulse: bool,
    alsa: bool,
    loopback: &Vec<(String, String)>,
) -> (r: Option<(Backend, String)>)
    ensures
        match resolved(
            backend,
            match device {
                Some(name) => Some(name@),
                None => None,
            },
            pulse,
            alsa,
            loopback@.map_values(|entry: (String, String)| entry.0@),
        ) {
            Some((chosen, name)) => r matches Some(found) && found.0 == chosen && found.1@ == name,
            None => r is None,
        },
{
    let on_pulse = if pulse {
        let name = match device {
            Some(name) => String::from_str(name),
            None => String::from_str(default_sink_name()),
        };
        Some((Backend::Pulse, name))
    } else {
        None
    };
    let on_alsa = if !alsa {
        None
    } else {
        match device {
            Some(name) => Some((Backend::Alsa, String::from_str(name))),
            None => if loopback.len() > 0 {
                Some((Backend::Alsa, loopback[0].0.clone()))
            } else {
                None
            },
        }
    };
    match backend {
        AudioBackend::Auto => if on_pulse.is_some() {
            on_pulse
        } else {
            on_alsa
        },
        AudioBackend::Pulse => on_pulse,
        AudioBackend::Alsa => on_alsa,
    }
}

/// What playing a frame of audio comes to, for whoever holds the playback.
pub enum Play {
    /// Nothing to play.
    Skip,
    /// The frame's samples are laid out in a way nothing here plays; said
    /// once for each such layout in a row.
    UnsupportedSampleFormat(SampleFormat),
    /// Playing failed, and no more audio is played until a reset: let the
    /// playback go and log the message.
    Fail(String),
    /// The audio changed what it is played as: let the playback go, open
    /// one for the new spec, and tell `opened` how that went.
    Open(Spec),
    /// Play the samples in `pcm`, and tell `written` how that went.
    Write,
}

/// The playing of a stream's audio into a virtual microphone.
pub struct Audio {
    /// Where it is played.
    pub backend: Backend,
    pub device: String,
    /// What the playback that is open plays; none when none is.
    pub spec: Option<Spec>,
    /// The samples of the latest frame, interleaved.
    pub pcm: Vec<u8>,
    /// The latest layout of samples that could not be played.
    pub logged_sample_format: Option<SampleFormat>,
    /// Whether playing failed, which stops it until a reset.
    pub failed: bool,
}

/// What is logged when a frame's audio cannot be played as it is.
pub open spec fn unsupported_audio(sample_rate: i32, channels: i32) -> Seq<char> {
    "unsupported audio of "@ + signed_decimal(sample_rate as int) + " Hz and "@ + signed_decimal(channels as int)
        + " channels"@
}

/// What is logged when a frame's samples could not be read.
pub open spec fn unreadable_audio() -> Seq<char> {
    "failed to read the decoded audio"@
}

/// What is logged when a playback opened.
pub open spec fn playing(spec: Spec, device: Seq<char>) -> Seq<char> {
    "playing "@ + decimal(spec.rate as nat) + " Hz "@ + decimal(spec.channels as nat) + " channel audio into "@
        + device
}

/// What is logged when a playback would not open.
pub open spec fn unopened(backend: Backend, device: Seq<char>, error: Seq<char>) -> Seq<char> {
    "failed to open "@ + described(backend, device) + ": "@ + error + "; "@ + backend_hint(backend, device)
}

/// What is logged when samples would not play.
pub open spec fn unplayed(device: Seq<char>, error: Seq<char>) -> Seq<char> {
    "failed to play audio into "@ + device + ": "@ + error
}

impl Audio {
    /// Play audio where `resolve` says to, or nowhere when it finds nowhere.
    pub fn open(
        backend: AudioBackend,
        device: Option<&str>,
        pulse: bool,
        alsa: bool,
        loopback: &Vec<(String, String)>,
    ) -> (r: Option<Audio>)
        ensures
            match resolved(
                backend,
                match device {
                    Some(name) => Some(name@),
                    None => None,
                },
                pulse,
                alsa,
                loopback@.map_values(|entry: (String, String)| entry.0@),
            ) {
                Some((chosen, name)) => r matches Some(audio) && audio.backend == chosen && audio.device@ == name
                    && audio.spec is None && audio.logged_sample_format is None && !audio.failed,
                None => r is None,
            },
    {
        match resolve(backend, device, pulse, alsa, loopback) {
            Some((backend, device)) => Some(
                Audio {
                    backend,
                    device,
                    spec: None,
                    pcm: Vec::new(),
                    logged_sample_format: None,
                    failed: false,
                },
            ),
            None => None,
        }
    }

    /// Where the audio is played, to whoever reads the log.
    pub fn description(&self) -> (r: String)
        ensures
            r@ == described(self.backend, self.device@),
    {
        self.backend.describe(self.device.as_str())
    }

    /// Play again after a failure, as a new stream starts.
    pub fn reset(&mut self)
        ensures
            *final(self) == (Audio { failed: false, ..*old(self) }),
    {
        self.failed = false;
    }

    /// Stop playing: the playback is let go, and nothing is played until a
    /// reset.
    fn fail(&mut self, message: String) -> (r: Play)
        ensures
            r matches Play::Fail(said) && said@ == message@,
            *final(self) == (Audio { spec: None, failed: true, ..*old(self) }),
    {
        self.spec = None;
        self.failed = true;
        Play::Fail(message)
    }

    /// What to do with a decoded frame of audio. The samples are read by
    /// `read`, which is handed the bytes from where each sample starts.
    pub fn play<F: Fn(&[u8]) -> i16>(&mut self, frame: &Frame<'_>, read: F) -> (r: Play)
        requires
            sample_of(frame.sample_format) matches Some(sample) ==> forall|source: &[u8]|
                source@.len() >= sample_width(sample) ==> #[trigger] call_requires(read, (source,)),
        ensures
            final(self).backend == old(self).backend,
            final(self).device == old(self).device,
            old(self).failed ==> r is Skip && *final(self) == *old(self),
            !old(self).failed && sample_of(frame.sample_format) is None ==> {
                &&& *final(self) == (Audio { logged_sample_format: Some(frame.sample_format), ..*old(self) })
                &&& old(self).logged_sample_format == Some(frame.sample_format) ==> r is Skip
                &&& old(self).logged_sample_format != Some(frame.sample_format) ==> r
                    == Play::UnsupportedSampleFormat(frame.sample_format)
            },
            !old(self).failed && sample_of(frame.sample_format) is Some && spec_of(
                frame.sample_rate,
                frame.channels,
            ) is None ==> {
                &&& r matches Play::Fail(message) && message@ == unsupported_audio(
                    frame.sample_rate,
                    frame.channels,
                )
                &&& final(self).failed && final(self).spec is None
            },
            !old(self).failed ==> (sample_of(frame.sample_format) matches Some(sample) ==> (spec_of(
                frame.sample_rate,
                frame.channels,
            ) matches Some(spec) ==> match audio_planes(frame, spec, sample) {
                None => r is Skip && *final(self) == *old(self),
                Some(planes) => if all_samples_held(
                    planes,
                    frame.samples as int,
                    spec.channels as int,
                    sample_width(sample),
                ) && frame.samples * spec.channels * sample_width(sample) <= usize::MAX && frame.samples
                    * spec.channels * BYTES_PER_SAMPLE <= usize::MAX {
                    &&& final(self).pcm@.len() == frame.samples * spec.channels * BYTES_PER_SAMPLE
                    &&& forall|index: int, channel: int|
                        0 <= index < frame.samples && 0 <= channel < spec.channels ==> #[trigger] holds_sample(
                            read,
                            planes,
                            spec.channels as int,
                            sample_width(sample),
                            final(self).pcm@,
                            index,
                            channel,
                        )
                    &&& !final(self).failed
                    &&& old(self).spec == Some(spec) ==> r is Write && final(self).spec == old(self).spec
                    &&& old(self).spec != Some(spec) ==> r == Play::Open(spec) && final(self).spec is None
                } else {
                    &&& r matches Play::Fail(message) && message@ == unreadable_audio()
                    &&& final(self).failed && final(self).spec is None
                },
            })),
    {
        if self.failed {
            return Play::Skip;
        }
        let sample = match Sample::of(frame.sample_format) {
            Some(sample) => sample,
            None => {
                if self.logged_sample_format == Some(frame.sample_format) {
                    return Play::Skip;
                }
                self.logged_sample_format = Some(frame.sample_format);
                return Play::UnsupportedSampleFormat(frame.sample_format);
            },
        };
        let spec = match Spec::of(frame) {
            Some(spec) => spec,
            None => {
                let mut message = String::from_str("unsupported audio of ");
                push_signed_decimal(&mut message, frame.sample_rate);
                message.append(" Hz and ");
                push_signed_decimal(&mut message, frame.channels);
                message.append(" channels");
                assert(message@ =~= unsupported_audio(frame.sample_rate, frame.channels));
                return self.fail(message);
            },
        };
        let planes = match planes(frame, spec, sample) {
            Some(planes) => planes,
            None => return Play::Skip,
        };
        let samples = frame.samples as usize;
        let channels = spec.channels as usize;
        let width = sample.width();
        let ghost views = audio_planes(frame, spec, sample)->0;
        assert(plane_bytes(planes@) =~= views);
        let fits = match samples.checked_mul(channels) {
            Some(count) => count.checked_mul(width).is_some() && count.checked_mul(BYTES_PER_SAMPLE).is_some(),
            None => false,
        };
        proof {
            if samples * channels > usize::MAX {
                assert(samples * channels * width >= samples * channels) by (nonlinear_arith)
                    requires
                        samples * channels >= 0,
                        width >= 1,
                ;
            }
        }
        if !fits || !interleave(&mut self.pcm, &planes, samples, channels, width, read) {
            return self.fail(String::from_str("failed to read the decoded audio"));
        }
        if self.spec != Some(spec) {
            self.spec = None;
            return Play::Open(spec);
        }
        Play::Write
    }

    /// Take what opening a playback for `spec` came to: on success the
    /// samples are to be played, and what is logged is said; on failure,
    /// playing stops, and the message says why.
    pub fn opened(&mut self, spec: Spec, result: Result<(), String>) -> (r: Result<String, String>)
        ensures
            final(self).backend == old(self).backend,
            final(self).device == old(self).device,
            final(self).pcm == old(self).pcm,
            result is Ok ==> (r matches Ok(message) && message@ == playing(spec, old(self).device@))
                && *final(self) == (Audio { spec: Some(spec), ..*old(self) }),
            result matches Err(error) ==> (r matches Err(message) && message@ == unopened(
                old(self).backend,
                old(self).device@,
                error@,
            )) && *final(self) == (Audio { spec: None, failed: true, ..*old(self) }),
    {
        match result {
            Ok(()) => {
                self.spec = Some(spec);
                let mut message = String::from_str("playing ");
                push_decimal(&mut message, spec.rate as u64);
                message.append(" Hz ");
                push_decimal(&mut message, spec.channels as u64);
                message.append(" channel audio into ");
                message.append(self.device.as_str());
                assert(message@ =~= playing(spec, old(self).device@));
                Ok(message)
            },
            Err(error) => {
                let mut message = String::from_str("failed to open ");
                message.append(self.backend.describe(self.device.as_str()).as_str());
                message.append(": ");
                message.append(error.as_str());
                message.append("; ");
                message.append(self.backend.hint(self.device.as_str()).as_str());
                assert(message@ =~= unopened(old(self).backend, old(self).device@, error@));
                let said = self.fail(message);
                match said {
                    Play::Fail(message) => Err(message),
                    _ => Err(String::new()),
                }
            },
        }
    }

    /// Take what playing the samples came to: on failure playing stops, and
    /// the message says why.
    pub fn written(&mut self, result: Result<(), String>) -> (r: Option<String>)
        ensures
            final(self).backend == old(self).backend,
            final(self).device == old(self).device,
            final(self).pcm == old(self).pcm,
            result is Ok ==> r is None && *final(self) == *old(self),
            result matches Err(error) ==> (r matches Some(message) && message@ == unplayed(
                old(self).device@,
                error@,
            )) && *final(self) == (Audio { spec: None, failed: true, ..*old(self) }),
    {
        match result {
            Ok(()) => None,
            Err(error) => {
                let mut message = String::from_str("failed to play audio into ");
                message.append(self.device.as_str());
                message.append(": ");
                message.append(error.as_str());
                assert(message@ =~= unplayed(old(self).device@, error@));
                match self.fail(message) {
                    Play::Fail(message) => Some(message),
                    _ => None,
                }
            },
        }
    }
}

} // verus!
