//! The ALSA loopback cards a machine has, read from the list of sound cards
//! the kernel gives in `/proc/asound/cards`.
//!
//! Each card takes a line of its own, its number, its id in brackets, a
//! colon and its name; lines of details about it follow.

use crate::text::{
    chars_of, find_char, find_from, is_u32_text, lemma_find_from_bounds, parse_u32, string_of, trim_range, trimmed,
};
use crate::text::{decimal, push_decimal};
use vstd::prelude::*;
use vstd::slice::{slice_subrange, slice_to_vec};
use vstd::string::StringExecFns;

verus! {

/// The id and the name of the card a line of the list starts, when it
/// starts one: a number, the id in brackets, a colon and the name.
pub open spec fn card_of(line: Seq<char>) -> Option<(Seq<char>, Seq<char>)> {
    match find_from(line, '[', 0) {
        Some(open) => if is_u32_text(trimmed(line.subrange(0, open))) {
            match find_from(line, ']', open + 1) {
                Some(close) => match find_from(line, ':', close + 1) {
                    Some(colon) => Some(
                        (trimmed(line.subrange(open + 1, close)), trimmed(line.subrange(colon + 1, line.len() as int))),
                    ),
                    None => None,
                },
                None => None,
            }
        } else {
            None
        },
        None => None,
    }
}

fn card_chars(line: &Vec<char>) -> (r: Option<(String, String)>)
    ensures
        match card_of(line@) {
            Some((id, name)) => r matches Some(found) && found.0@ == id && found.1@ == name,
            None => r is None,
        },
{
    let end = line.len();
    assert(line@.subrange(0, end as int) =~= line@);
    let open = match find_char(line, '[', 0, end) {
        Some(open) => open,
        None => return None,
    };
    assert(find_from(line@, '[', 0) == Some(open as int));
    let (a, b) = trim_range(line, 0, open);
    if parse_u32(line, a, b).is_none() {
        return None;
    }
    let close = match find_char(line, ']', open + 1, end) {
        Some(close) => close,
        None => return None,
    };
    assert(find_from(line@, ']', open + 1) == Some(close as int));
    let colon = match find_char(line, ':', close + 1, end) {
        Some(colon) => colon,
        None => return None,
    };
    let (id_start, id_end) = trim_range(line, open + 1, close);
    let (name_start, name_end) = trim_range(line, colon + 1, end);
    Some((string_of(line, id_start, id_end), string_of(line, name_start, name_end)))
}

/// The id and the name of the card a line of the list starts, when it
/// starts one.
pub fn card(line: &str) -> (r: Option<(String, String)>)
    ensures
        match card_of(line@) {
            Some((id, name)) => r matches Some(found) && found.0@ == id && found.1@ == name,
            None => r is None,
        },
{
    let chars = chars_of(line);
    card_chars(&chars)
}

/// A line without the carriage return it ends in, if it ends in one.
pub open spec fn without_return(line: Seq<char>) -> Seq<char> {
    if line.len() > 0 && line.last() == '\r' {
        line.drop_last()
    } else {
        line
    }
}

/// The lines of `text` from `from` on, as `str::lines` is documented to
/// split it: at each line feed, or carriage return and line feed, with the
/// last line ending optional.
pub open spec fn lines_from(text: Seq<char>, from: int) -> Seq<Seq<char>>
    decreases text.len() - from,
{
    if from < 0 || from >= text.len() {
        Seq::empty()
    } else {
        proof {
            lemma_find_from_bounds(text, '\n', from);
        }
        match find_from(text, '\n', from) {
            Some(end) => seq![without_return(text.subrange(from, end))] + lines_from(text, end + 1),
            None => seq![text.subrange(from, text.len() as int)],
        }
    }
}

/// The loopback cards among the cards of some lines: those whose id starts
/// with `Loopback`.
pub open spec fn loopback_of(lines: Seq<Seq<char>>) -> Seq<(Seq<char>, Seq<char>)>
    decreases lines.len(),
{
    if lines.len() == 0 {
        Seq::empty()
    } else {
        let rest = loopback_of(lines.drop_first());
        match card_of(lines[0]) {
            Some((id, name)) => if "Loopback"@.is_prefix_of(id) {
                seq![(id, name)] + rest
            } else {
                rest
            },
            None => rest,
        }
    }
}

/// Only loopback cards are listed: every id listed starts with `Loopback`.
pub proof fn lemma_only_loopback_cards(lines: Seq<Seq<char>>)
    ensures
        forall|k: int|
            0 <= k < loopback_of(lines).len() ==> "Loopback"@.is_prefix_of(#[trigger] loopback_of(lines)[k].0),
    decreases lines.len(),
{
    if lines.len() > 0 {
        lemma_only_loopback_cards(lines.drop_first());
        let rest = loopback_of(lines.drop_first());
        match card_of(lines[0]) {
            Some((id, name)) => if "Loopback"@.is_prefix_of(id) {
                assert forall|k: int| 0 <= k < loopback_of(lines).len() implies "Loopback"@.is_prefix_of(
                    #[trigger] loopback_of(lines)[k].0,
                ) by {
                    if k > 0 {
                        assert(loopback_of(lines)[k] == rest[k - 1]);
                    }
                }
            },
            None => {},
        }
    }
}

proof fn lemma_find_in_prefix(text: Seq<char>, c: char, from: int, end: int)
    requires
        0 <= from <= end <= text.len(),
    ensures
        find_from(text.subrange(0, end), c, from) == (match find_from(text, c, from) {
            Some(i) => if i < end {
                Some(i)
            } else {
                None
            },
            None => None,
        }),
    decreases end - from,
{
    lemma_find_from_bounds(text, c, from);
    if from < end {
        lemma_find_in_prefix(text, c, from + 1, end);
    }
}

fn starts_with_loopback(id: &String) -> (r: bool)
    ensures
        r == "Loopback"@.is_prefix_of(id@),
{
    proof {
        reveal_strlit("Loopback");
    }
    let chars = chars_of(id.as_str());
    let prefix = chars_of("Loopback");
    if chars.len() < prefix.len() {
        return false;
    }
    let mut i: usize = 0;
    while i < prefix.len()
        invariant
            i <= prefix@.len() <= chars@.len(),
            prefix@ == "Loopback"@,
            chars@ == id@,
            forall|k: int| 0 <= k < i ==> prefix@[k] == chars@[k],
        decreases prefix@.len() - i,
    {
        if chars[i] != prefix[i] {
            return false;
        }
        i = i + 1;
    }
    true
}

/// The id and the name of each loopback card in a list of sound cards.
pub fn loopback_cards(cards: &str) -> (r: Vec<(String, String)>)
    ensures
        r@.map_values(|card: (String, String)| (card.0@, card.1@)) == loopback_of(lines_from(cards@, 0)),
{
    let text = chars_of(cards);
    let ghost all = lines_from(text@, 0);
    let mut found: Vec<(String, String)> = Vec::new();
    let mut from: usize = 0;
    let end = text.len();
    while from < end
        invariant
            end == text@.len(),
            text@ == cards@,
            all == lines_from(text@, 0),
            from <= end,
            found@.map_values(|card: (String, String)| (card.0@, card.1@)) + loopback_of(lines_from(text@, from as int))
                == loopback_of(all),
        decreases end - from,
    {
        let ghost lines = lines_from(text@, from as int);
        proof {
            lemma_find_in_prefix(text@, '\n', from as int, end as int);
            assert(text@.subrange(0, end as int) =~= text@);
        }
        let stop = match find_char(&text, '\n', from, end) {
            Some(newline) => newline,
            None => end,
        };
        let mut line_end = stop;
        if stop < end && line_end > from && text[line_end - 1] == '\r' {
            line_end = line_end - 1;
        }
        let line = slice_to_vec(slice_subrange(text.as_slice(), from, line_end));
        let ghost next = if stop < end {
            stop + 1
        } else {
            end as int
        };
        proof {
            if stop < end {
                assert(find_from(text@, '\n', from as int) == Some(stop as int));
                assert(lines == seq![without_return(text@.subrange(from as int, stop as int))] + lines_from(text@, stop + 1));
            } else {
                assert(find_from(text@, '\n', from as int) is None);
                assert(lines == seq![text@.subrange(from as int, end as int)]);
            }
            assert(lines[0] =~= line@);
            assert(lines.drop_first() =~= lines_from(text@, next));
        }
        let ghost before = found@;
        match card_chars(&line) {
            Some(card) => {
                if starts_with_loopback(&card.0) {
                    found.push(card);
                }
            },
            None => {},
        }
        proof {
            let view = |card: (String, String)| (card.0@, card.1@);
            assert(found@.map_values(view) + loopback_of(lines_from(text@, next)) =~= before.map_values(view)
                + loopback_of(lines));
        }
        from = if stop < end {
            stop + 1
        } else {
            end
        };
    }
    found
}

/// The name ALSA knows the first device of the card with id `id` by.
pub open spec fn device_name(id: Seq<char>) -> Seq<char> {
    "plughw:CARD="@ + id + ",DEV=0"@
}

/// The loopback devices to play into, with the names of their cards, from
/// the list of sound cards the kernel gives.
pub fn loopback_devices(cards: &str) -> (r: Vec<(String, String)>)
    ensures
        r@.map_values(|device: (String, String)| (device.0@, device.1@)) == loopback_of(
            lines_from(cards@, 0),
        ).map_values(|card: (Seq<char>, Seq<char>)| (device_name(card.0), card.1)),
{
    let found = loopback_cards(cards);
    let mut devices: Vec<(String, String)> = Vec::new();
    let mut i: usize = 0;
    while i < found.len()
        invariant
            i <= found@.len(),
            devices@.len() == i,
            forall|k: int|
                0 <= k < i ==> (#[trigger] devices@[k]).0@ == device_name(found@[k].0@) && devices@[k].1@
                    == found@[k].1@,
        decreases found@.len() - i,
    {
        let mut name = String::from_str("plughw:CARD=");
        name.append(found[i].0.as_str());
        name.append(",DEV=0");
        let ghost before = devices@;
        let card_name = found[i].1.clone();
        assert(name@ == device_name(found@[i as int].0@));
        assert(card_name@ == found@[i as int].1@);
        devices.push((name, card_name));
        assert(devices@[i as int].0@ == device_name(found@[i as int].0@));
        assert(devices@[i as int].1@ == found@[i as int].1@);
        assert(forall|k: int| 0 <= k < i ==> devices@[k] == before[k]);
        i = i + 1;
    }
    assert(devices@.map_values(|device: (String, String)| (device.0@, device.1@)) =~= found@.map_values(
        |card: (String, String)| (card.0@, card.1@),
    ).map_values(|card: (Seq<char>, Seq<char>)| (device_name(card.0), card.1)));
    devices
}


/// How many times samples are handed to a device before giving up on the
/// ones it has not taken.
pub const WRITE_ATTEMPTS: usize = 3;

/// Handing interleaved samples to an ALSA device, which may take fewer than
/// it is given, or fail and recover.
pub struct PcmWrite {
    /// How many bytes there are to write.
    pub total: usize,
    /// How many bytes a frame of samples of every channel takes.
    pub frame_size: usize,
    /// How many bytes the device has taken.
    pub written: usize,
    /// How many times samples were handed over.
    pub attempts: usize,
}

/// What to do next in handing samples to a device.
pub enum PcmStep {
    /// All of them were taken.
    Done,
    /// Hand over `frames` frames from byte `from` on, and tell `wrote` or
    /// `recovered` how that went.
    Write { from: usize, frames: usize },
    /// Give up: the device has taken only part of them.
    Fail(String),
}

/// What is said when a device took only part of the samples.
pub open spec fn partly_written(written: int, total: int) -> Seq<char> {
    "wrote "@ + decimal(written as nat) + " of "@ + decimal(total as nat) + " bytes"@
}

impl PcmWrite {
    pub open spec fn well_formed(self) -> bool {
        &&& self.frame_size > 0
        &&& self.written <= self.total
        &&& self.attempts <= WRITE_ATTEMPTS
    }

    /// Start handing over `total` bytes of frames of `frame_size` bytes.
    pub fn new(total: usize, frame_size: usize) -> (r: PcmWrite)
        requires
            frame_size > 0,
        ensures
            r == (PcmWrite { total, frame_size, written: 0, attempts: 0 }),
            r.well_formed(),
    {
        PcmWrite { total, frame_size, written: 0, attempts: 0 }
    }

    /// What to do next.
    pub fn next(&self) -> (r: PcmStep)
        requires
            self.well_formed(),
        ensures
            self.attempts < WRITE_ATTEMPTS && self.written < self.total ==> (r matches PcmStep::Write {
                from,
                frames,
            } && from == self.written && frames == (self.total - self.written) / (self.frame_size as int)),
            self.written == self.total ==> r is Done,
            self.attempts == WRITE_ATTEMPTS && self.written < self.total ==> (r matches PcmStep::Fail(
                message,
            ) && message@ == partly_written(self.written as int, self.total as int)),
    {
        if self.written == self.total {
            return PcmStep::Done;
        }
        if self.attempts < WRITE_ATTEMPTS {
            return PcmStep::Write { from: self.written, frames: (self.total - self.written) / self.frame_size };
        }
        let mut message = String::from_str("wrote ");
        push_decimal(&mut message, self.written as u64);
        message.append(" of ");
        push_decimal(&mut message, self.total as u64);
        message.append(" bytes");
        assert(message@ =~= partly_written(self.written as int, self.total as int));
        PcmStep::Fail(message)
    }

    /// The device took `frames` of the frames handed over.
    pub fn wrote(&mut self, frames: usize)
        requires
            old(self).well_formed(),
            old(self).attempts < WRITE_ATTEMPTS,
            frames <= (old(self).total - old(self).written) / (old(self).frame_size as int),
        ensures
            *final(self) == (PcmWrite {
                written: (old(self).written + frames * old(self).frame_size) as usize,
                attempts: (old(self).attempts + 1) as usize,
                ..*old(self)
            }),
            final(self).well_formed(),
    {
        proof {
            let rest = (self.total - self.written) as int;
            assert(frames * self.frame_size <= rest) by (nonlinear_arith)
                requires
                    frames <= rest / (self.frame_size as int),
                    self.frame_size > 0,
                    rest >= 0,
            ;
        }
        self.written = self.written + frames * self.frame_size;
        self.attempts = self.attempts + 1;
    }

    /// The device failed and recovered, having taken nothing.
    pub fn recovered(&mut self)
        requires
            old(self).well_formed(),
            old(self).attempts < WRITE_ATTEMPTS,
        ensures
            *final(self) == (PcmWrite { attempts: (old(self).attempts + 1) as usize, ..*old(self) }),
            final(self).well_formed(),
    {
        self.attempts = self.attempts + 1;
    }
}

} // verus!
