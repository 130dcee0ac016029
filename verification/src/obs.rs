//! What the OBS source makes of each decoded frame: whether OBS can show or
//! play it, as what, when, and what is worth logging about it. The formats
//! and speaker layouts OBS has for FFmpeg's are looked up by the caller and
//! handed in.

use crate::clock::Clock;
use crate::frame::{Frame, PictureFormat, SampleFormat};
use vstd::prelude::*;

verus! {

/// What to do with a decoded picture.
pub enum ObsVideo {
    /// OBS has no format for its layout: drop it, saying so when a layout is
    /// given.
    Unsupported(Option<PictureFormat>),
    /// Its time cannot be counted: drop it.
    Late,
    /// Show it in OBS `format`, at this size and range, at `timestamp`.
    Show { format: u32, width: u32, height: u32, full_range: bool, timestamp: u64 },
}

/// What to do with a decoded frame of audio.
pub enum ObsAudio {
    /// OBS has no format for its samples: drop it, saying so when a layout
    /// is given.
    UnsupportedFormat(Option<SampleFormat>),
    /// OBS has no speaker layout for its channels: drop it, saying so when a
    /// count is given.
    UnsupportedChannels(Option<i32>),
    /// Its time cannot be counted: drop it.
    Late,
    /// Play it as OBS `format` on `speakers`.
    Play { format: u32, speakers: u32, frames: u32, samples_per_sec: u32, timestamp: u64 },
}

/// The frames of one connection, on their way into an OBS source.
pub struct ObsOutput {
    pub clock: Clock,
    pub logged_pixel_format: Option<PictureFormat>,
    pub logged_sample_format: Option<SampleFormat>,
    pub logged_channels: Option<i32>,
}

impl ObsOutput {
    pub fn new() -> (r: ObsOutput)
        ensures
            !r.clock.is_anchored(),
            r.logged_pixel_format is None,
            r.logged_sample_format is None,
            r.logged_channels is None,
    {
        ObsOutput { clock: Clock::new(), logged_pixel_format: None, logged_sample_format: None, logged_channels: None }
    }

    /// What to do with a picture; `format` is the OBS format for its layout
    /// and whether that format is full range by itself, if OBS has one.
    pub fn video<F: FnOnce() -> u64>(&mut self, frame: &Frame<'_>, format: Option<(u32, bool)>, now_ns: F) -> (r:
        ObsVideo)
        requires
            call_requires(now_ns, ()),
        ensures
            final(self).logged_sample_format == old(self).logged_sample_format,
            final(self).logged_channels == old(self).logged_channels,
            match format {
                None => {
                    &&& r matches ObsVideo::Unsupported(note) && (note is Some <==> old(
                        self,
                    ).logged_pixel_format != Some(frame.picture_format)) && (note is Some ==> note
                        == Some(frame.picture_format))
                    &&& final(self).logged_pixel_format == Some(frame.picture_format)
                    &&& final(self).clock == old(self).clock
                },
                Some((obs_format, full_range)) => {
                    let pts = frame.pts as u64;
                    &&& final(self).logged_pixel_format == old(self).logged_pixel_format
                    &&& if old(self).clock.reanchors(pts) || 0 <= old(self).clock.follows(pts) <= u64::MAX {
                        &&& r matches ObsVideo::Show { format: shown, width, height, full_range: range, timestamp }
                            && {
                            &&& shown == obs_format
                            &&& width == frame.width as u32
                            &&& height == frame.height as u32
                            &&& range == (full_range || frame.full_range)
                            &&& (old(self).clock.reanchors(pts) ==> call_ensures(now_ns, (), timestamp))
                            &&& (!old(self).clock.reanchors(pts) ==> timestamp == old(self).clock.follows(pts))
                            &&& final(self).clock.latest() == timestamp
                        }
                        &&& final(self).clock.previous() == pts
                    } else {
                        r is Late && final(self).clock == old(self).clock
                    }
                },
            },
    {
        let (obs_format, format_is_full_range) = match format {
            Some(found) => found,
            None => {
                let note = if self.logged_pixel_format != Some(frame.picture_format) {
                    self.logged_pixel_format = Some(frame.picture_format);
                    Some(frame.picture_format)
                } else {
                    None
                };
                proof {
                    crate::frame::lemma_picture_format_eq_is_equality();
                }
                return ObsVideo::Unsupported(note);
            },
        };
        let pts = frame.pts as u64;
        if !self.clock.can_follow(pts) {
            return ObsVideo::Late;
        }
        let timestamp = self.clock.timestamp(pts, now_ns);
        ObsVideo::Show {
            format: obs_format,
            width: frame.width as u32,
            height: frame.height as u32,
            full_range: format_is_full_range || frame.full_range,
            timestamp,
        }
    }

    /// What to do with a frame of audio; `format` is the OBS format for its
    /// samples and `speakers` the OBS layout for its channels, if OBS has
    /// them.
    pub fn audio<F: FnOnce() -> u64>(
        &mut self,
        frame: &Frame<'_>,
        format: Option<u32>,
        speakers: Option<u32>,
        now_ns: F,
    ) -> (r: ObsAudio)
        requires
            call_requires(now_ns, ()),
        ensures
            final(self).logged_pixel_format == old(self).logged_pixel_format,
            match (format, speakers) {
                (None, _) => {
                    &&& r matches ObsAudio::UnsupportedFormat(note) && (note is Some <==> old(
                        self,
                    ).logged_sample_format != Some(frame.sample_format)) && (note is Some ==> note
                        == Some(frame.sample_format))
                    &&& final(self).logged_sample_format == Some(frame.sample_format)
                    &&& final(self).logged_channels == old(self).logged_channels
                    &&& final(self).clock == old(self).clock
                },
                (Some(_), None) => {
                    &&& r matches ObsAudio::UnsupportedChannels(note) && (note is Some <==> old(
                        self,
                    ).logged_channels != Some(frame.channels)) && (note is Some ==> note == Some(
                        frame.channels,
                    ))
                    &&& final(self).logged_channels == Some(frame.channels)
                    &&& final(self).logged_sample_format == old(self).logged_sample_format
                    &&& final(self).clock == old(self).clock
                },
                (Some(obs_format), Some(layout)) => {
                    let pts = frame.pts as u64;
                    &&& final(self).logged_sample_format == old(self).logged_sample_format
                    &&& final(self).logged_channels == old(self).logged_channels
                    &&& if old(self).clock.reanchors(pts) || 0 <= old(self).clock.follows(pts) <= u64::MAX {
                        &&& r matches ObsAudio::Play { format: played, speakers: on, frames, samples_per_sec, timestamp }
                            && {
                            &&& played == obs_format
                            &&& on == layout
                            &&& frames == frame.samples as u32
                            &&& samples_per_sec == frame.sample_rate as u32
                            &&& (old(self).clock.reanchors(pts) ==> call_ensures(now_ns, (), timestamp))
                            &&& (!old(self).clock.reanchors(pts) ==> timestamp == old(self).clock.follows(pts))
                            &&& final(self).clock.latest() == timestamp
                        }
                        &&& final(self).clock.previous() == pts
                    } else {
                        r is Late && final(self).clock == old(self).clock
                    }
                },
            },
    {
        let obs_format = match format {
            Some(found) => found,
            None => {
                let note = if self.logged_sample_format != Some(frame.sample_format) {
                    self.logged_sample_format = Some(frame.sample_format);
                    Some(frame.sample_format)
                } else {
                    None
                };
                return ObsAudio::UnsupportedFormat(note);
            },
        };
        let layout = match speakers {
            Some(found) => found,
            None => {
                let note = if self.logged_channels != Some(frame.channels) {
                    self.logged_channels = Some(frame.channels);
                    Some(frame.channels)
                } else {
                    None
                };
                return ObsAudio::UnsupportedChannels(note);
            },
        };
        let pts = frame.pts as u64;
        if !self.clock.can_follow(pts) {
            return ObsAudio::Late;
        }
        let timestamp = self.clock.timestamp(pts, now_ns);
        ObsAudio::Play {
            format: obs_format,
            speakers: layout,
            frames: frame.samples as u32,
            samples_per_sec: frame.sample_rate as u32,
            timestamp,
        }
    }
}

} // verus!
