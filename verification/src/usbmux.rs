//! Talking to usbmuxd, the daemon that carries connections to iPhones and
//! iPads over USB: the framing of its messages, the property lists they
//! carry, and what its replies say.
//!
//! Every message is a sixteen byte header, four little endian words giving
//! the whole message's length, the protocol version, the message type and a
//! tag, followed by an XML property list.

use crate::text::same_text;
use vstd::prelude::*;
use vstd::string::StringExecFns;

verus! {

/// How many bytes a message header takes.
pub const HEADER_SIZE: usize = 16;

/// The protocol version of messages that carry property lists.
pub const VERSION_PLIST: u32 = 1;

/// The message type of messages that carry property lists.
pub const TYPE_PLIST: u32 = 8;

/// The longest reply taken from usbmuxd, header included.
pub const MAX_REPLY_SIZE: u32 = 4194304;

/// How reading from a stream to usbmuxd can end short.
#[derive(Clone, Copy, Debug, PartialEq, Eq, Structural)]
pub enum Io {
    Aborted,
    Closed,
    Error,
}

/// Whether whoever is waiting on usbmuxd has given up.
pub trait Abort {
    fn aborted(&self) -> bool;
}

/// Why talking to usbmuxd failed.
#[derive(Clone, Copy, Debug, PartialEq, Eq, Structural)]
pub enum Error {
    NoDaemon,
    NoDevice,
    Refused,
    Failed,
    Aborted,
}

/// What an error says to whoever reads the log.
pub open spec fn error_message(error: Error) -> Seq<char> {
    match error {
        Error::NoDaemon => "usbmuxd is not reachable"@,
        Error::NoDevice => "no device attached over USB"@,
        Error::Refused => "the device refused the connection"@,
        Error::Aborted => "aborted"@,
        Error::Failed => "usbmuxd communication failed"@,
    }
}

impl Error {
    pub fn message(self) -> (r: &'static str)
        ensures
            r@ == error_message(self),
    {
        match self {
            Error::NoDaemon => "usbmuxd is not reachable",
            Error::NoDevice => "no device attached over USB",
            Error::Refused => "the device refused the connection",
            Error::Aborted => "aborted",
            Error::Failed => "usbmuxd communication failed",
        }
    }
}

/// The error a request ends in when reading its reply ends short: it was
/// given up on, or it failed.
pub fn io_error(error: Io) -> (r: Error)
    ensures
        r == (if error is Aborted {
            Error::Aborted
        } else {
            Error::Failed
        }),
{
    match error {
        Io::Aborted => Error::Aborted,
        _ => Error::Failed,
    }
}

/// What one read from a stream to usbmuxd came to.
#[derive(Clone, Copy, Debug, PartialEq, Eq, Structural)]
pub enum Read {
    /// This many bytes were read; none means the stream was closed.
    Bytes(usize),
    /// Nothing yet, but the stream is alive: try again.
    Again,
    /// The stream broke.
    Failed,
}

/// How much of a buffer is filled after a read, `filled` bytes having been
/// filled before it, or how reading it ends short: a closed or broken
/// stream.
pub fn after_read(filled: usize, wanted: usize, read: Read) -> (r: Result<usize, Io>)
    requires
        filled < wanted,
        read matches Read::Bytes(count) ==> filled + count <= wanted,
    ensures
        r == match read {
            Read::Bytes(0) => Err(Io::Closed),
            Read::Bytes(count) => Ok((filled + count) as usize),
            Read::Again => Ok(filled),
            Read::Failed => Err::<usize, Io>(Io::Error),
        },
{
    match read {
        Read::Bytes(0) => Err(Io::Closed),
        Read::Bytes(count) => Ok(filled + count),
        Read::Again => Ok(filled),
        Read::Failed => Err(Io::Error),
    }
}

/// What filling a buffer from a stream to usbmuxd is told.
#[derive(Clone, Copy, Debug, PartialEq, Eq, Structural)]
pub enum Event {
    /// Filling begins.
    Start,
    /// Whoever waits on usbmuxd was asked whether to give up, and said this.
    Asked(bool),
    /// A read came to this.
    Did(Read),
}

/// What filling a buffer does next.
#[derive(Clone, Copy, Debug)]
pub enum Action {
    /// Filling is over, with this outcome.
    Finish(Result<(), Io>),
    /// Ask whether to give up.
    AskAbort,
    /// Read into the buffer from this many bytes on.
    ReadFrom(usize),
}

/// Filling a buffer of `wanted` bytes, `filled` of which hold what was
/// read.
pub struct ExactRead {
    pub filled: usize,
    pub wanted: usize,
}

/// After `filled` bytes: done when the buffer is full, else ask whether to
/// give up before reading more.
pub open spec fn ask_or_finish(filled: usize, wanted: usize) -> Action {
    if filled >= wanted {
        Action::Finish(Ok(()))
    } else {
        Action::AskAbort
    }
}

/// Where filling stands, and what it does, after `event` comes with
/// `filled` of `wanted` bytes read: a full buffer needs no read and no
/// question; otherwise whether to give up is asked before every read, a
/// yes ends it, a no reads, and a read either fills more or ends it as
/// `after_read` says.
pub open spec fn exact_step(filled: usize, wanted: usize, event: Event) -> (usize, Action) {
    match event {
        Event::Start => (filled, ask_or_finish(filled, wanted)),
        Event::Asked(true) => (filled, Action::Finish(Err(Io::Aborted))),
        Event::Asked(false) => (filled, Action::ReadFrom(filled)),
        Event::Did(read) => match read {
            Read::Bytes(0) => (filled, Action::Finish(Err(Io::Closed))),
            Read::Bytes(count) => (
                (filled + count) as usize,
                ask_or_finish((filled + count) as usize, wanted),
            ),
            Read::Again => (filled, Action::AskAbort),
            Read::Failed => (filled, Action::Finish(Err(Io::Error))),
        },
    }
}

/// Whether `event` can come to filling that stands at `filled` of `wanted`
/// bytes: a read only while the buffer is not full, and never of more than
/// it has room for.
pub open spec fn may_come(filled: usize, wanted: usize, event: Event) -> bool {
    event matches Event::Did(read) ==> filled < wanted && (read matches Read::Bytes(count) ==> filled
        + count <= wanted)
}

impl ExactRead {
    /// Whether no more than the buffer holds was read.
    pub open spec fn well_formed(self) -> bool {
        self.filled <= self.wanted
    }

    /// Filling a buffer of `wanted` bytes, nothing read yet.
    pub fn new(wanted: usize) -> (r: ExactRead)
        ensures
            r.well_formed(),
            r.filled == 0,
            r.wanted == wanted,
    {
        ExactRead { filled: 0, wanted }
    }

    /// Take `event`, and say what to do next.
    pub fn step(&mut self, event: Event) -> (r: Action)
        requires
            old(self).well_formed(),
            may_come(old(self).filled, old(self).wanted, event),
        ensures
            final(self).well_formed(),
            final(self).wanted == old(self).wanted,
            (final(self).filled, r) == exact_step(old(self).filled, old(self).wanted, event),
    {
        match event {
            Event::Start => {
                if self.filled >= self.wanted {
                    Action::Finish(Ok(()))
                } else {
                    Action::AskAbort
                }
            },
            Event::Asked(aborted) => {
                if aborted {
                    Action::Finish(Err(Io::Aborted))
                } else {
                    Action::ReadFrom(self.filled)
                }
            },
            Event::Did(read) => match after_read(self.filled, self.wanted, read) {
                Err(error) => Action::Finish(Err(error)),
                Ok(filled) => {
                    self.filled = filled;
                    match read {
                        Read::Again => Action::AskAbort,
                        _ => if filled >= self.wanted {
                            Action::Finish(Ok(()))
                        } else {
                            Action::AskAbort
                        },
                    }
                },
            },
        }
    }
}

/// Filling an empty buffer is over at once, and well: it reads nothing and
/// asks nobody whether to give up.
pub proof fn lemma_empty_buffer_is_done()
    ensures
        exact_step(0, 0, Event::Start) == (0usize, Action::Finish(Ok(()))),
{
}

/// A read is only ever asked for right after whoever waits said not to give
/// up, and from where the bytes read so far end.
pub proof fn lemma_reads_follow_a_no(filled: usize, wanted: usize, event: Event, from: usize)
    requires
        exact_step(filled, wanted, event).1 == Action::ReadFrom(from),
    ensures
        event == Event::Asked(false),
        from == filled,
{
}

/// A buffer is only reported filled once every byte of it was read.
pub proof fn lemma_done_means_full(filled: usize, wanted: usize, event: Event)
    requires
        filled <= wanted,
        may_come(filled, wanted, event),
        exact_step(filled, wanted, event).1 == Action::Finish(Ok(())),
    ensures
        exact_step(filled, wanted, event).0 == wanted,
{
}

/// A device usbmuxd has attached.
pub struct Device {
    pub device_id: u32,
    pub serial: String,
}

/// A device as its number and serial number.
pub open spec fn device_view(device: Device) -> (u32, Seq<char>) {
    (device.device_id, device.serial@)
}

pub open spec fn devices_view(devices: Seq<Device>) -> Seq<(u32, Seq<char>)> {
    devices.map_values(|device: Device| device_view(device))
}

// ------------------------------------------------------------------------
// The framing of messages.

/// The little endian bytes of a word.
pub open spec fn le_bytes(value: u32) -> Seq<u8> {
    seq![
        (value % 256) as u8,
        ((value / 256) % 256) as u8,
        ((value / 65536) % 256) as u8,
        ((value / 16777216) % 256) as u8,
    ]
}

/// The word four little endian bytes make up.
pub open spec fn le_value(bytes: Seq<u8>) -> int {
    bytes[0] + bytes[1] * 256 + bytes[2] * 65536 + bytes[3] * 16777216
}

/// The header of a request with a body of `body_len` bytes.
pub open spec fn request_header_bytes(body_len: int, tag: u32) -> Seq<u8> {
    le_bytes((body_len + HEADER_SIZE) as u32) + le_bytes(VERSION_PLIST) + le_bytes(TYPE_PLIST) + le_bytes(
        tag,
    )
}

/// A word read back from its little endian bytes is the word.
pub proof fn lemma_le_value_of_le_bytes(value: u32)
    ensures
        le_value(le_bytes(value)) == value,
{
    let b0 = value % 256;
    let b1 = (value / 256) % 256;
    let b2 = (value / 65536) % 256;
    let b3 = (value / 16777216) % 256;
    assert(b0 + b1 * 256 + b2 * 65536 + b3 * 16777216 == value) by (nonlinear_arith)
        requires
            b0 == value % 256,
            b1 == (value / 256) % 256,
            b2 == (value / 65536) % 256,
            b3 == (value / 16777216) % 256,
            0 <= value < 0x1_0000_0000,
    ;
}

fn put_le(header: &mut [u8; 16], at: usize, value: u32)
    requires
        at + 4 <= 16,
    ensures
        final(header)@ == old(header)@.subrange(0, at as int) + le_bytes(value) + old(header)@.subrange(
            at + 4,
            16,
        ),
{
    header[at] = (value % 256) as u8;
    header[at + 1] = ((value / 256) % 256) as u8;
    header[at + 2] = ((value / 65536) % 256) as u8;
    header[at + 3] = ((value / 16777216) % 256) as u8;
    assert(header@ =~= old(header)@.subrange(0, at as int) + le_bytes(value) + old(header)@.subrange(
        at + 4,
        16,
    ));
}

/// The header of a request whose body is `body_len` bytes, or `Failed`
/// when the whole request is too long for its length to be told.
pub fn request_header(body_len: usize, tag: u32) -> (r: Result<[u8; 16], Error>)
    ensures
        body_len + HEADER_SIZE <= u32::MAX ==> (r matches Ok(header) && header@ == request_header_bytes(
            body_len as int,
            tag,
        )),
        body_len + HEADER_SIZE > u32::MAX ==> r == Err::<[u8; 16], Error>(Error::Failed),
{
    let total = match HEADER_SIZE.checked_add(body_len) {
        Some(total) => total,
        None => return Err(Error::Failed),
    };
    if total > 0xffff_ffffusize {
        return Err(Error::Failed);
    }
    let mut header = [0u8; 16];
    put_le(&mut header, 0, total as u32);
    put_le(&mut header, 4, VERSION_PLIST);
    put_le(&mut header, 8, TYPE_PLIST);
    put_le(&mut header, 12, tag);
    assert(header@ =~= request_header_bytes(body_len as int, tag));
    Ok(header)
}

/// How long the body of a reply is, by its header, or `Failed` when the
/// header gives a length shorter than itself or longer than a reply may be.
pub fn reply_payload_size(header: &[u8; 16]) -> (r: Result<usize, Error>)
    ensures
        ({
            let total = le_value(header@.subrange(0, 4));
            if HEADER_SIZE <= total <= MAX_REPLY_SIZE {
                r == Ok::<usize, Error>((total - HEADER_SIZE) as usize)
            } else {
                r == Err::<usize, Error>(Error::Failed)
            }
        }),
{
    let total: u64 = header[0] as u64 + header[1] as u64 * 256 + header[2] as u64 * 65536 + header[3] as u64
        * 16777216;
    if total < 16 || total > MAX_REPLY_SIZE as u64 {
        return Err(Error::Failed);
    }
    Ok((total - 16) as usize)
}

/// The length a request's header announces is the length of the request:
/// read back as a reply's header, it gives the body's length.
pub proof fn lemma_announced_length_reads_back(body_len: int, tag: u32)
    requires
        0 <= body_len,
        body_len + HEADER_SIZE <= MAX_REPLY_SIZE,
    ensures
        le_value(request_header_bytes(body_len, tag).subrange(0, 4)) - HEADER_SIZE == body_len,
{
    let total = (body_len + HEADER_SIZE) as u32;
    lemma_le_value_of_le_bytes(total);
    assert(request_header_bytes(body_len, tag).subrange(0, 4) =~= le_bytes(total));
}

// ------------------------------------------------------------------------
// Property lists.

/// A property list, as the replies of usbmuxd hold them. Integers are kept
/// as far as they fit an `i64`; dates, reals and UIDs, which no reply here
/// is read for, are all `Other`.
pub enum Plist {
    Array(Vec<Plist>),
    Dictionary(Vec<(String, Plist)>),
    Boolean(bool),
    Data(Vec<u8>),
    Integer(Option<i64>),
    Text(String),
    Other,
}

/// A value of the flat dictionaries requests are made of.
pub enum Field {
    Text(String),
    Number(i64),
}

/// The value `key` has in a dictionary, from `from` on: the first entry
/// with that key.
pub open spec fn lookup_from(entries: Seq<(String, Plist)>, key: Seq<char>, from: int) -> Option<Plist>
    decreases entries.len() - from,
{
    if from < 0 || from >= entries.len() {
        None
    } else if entries[from].0@ == key {
        Some(entries[from].1)
    } else {
        lookup_from(entries, key, from + 1)
    }
}

/// The value `key` has in a dictionary.
pub open spec fn lookup(entries: Seq<(String, Plist)>, key: Seq<char>) -> Option<Plist> {
    lookup_from(entries, key, 0)
}

/// The value `key` has in a dictionary.
pub fn get<'a>(entries: &'a Vec<(String, Plist)>, key: &str) -> (r: Option<&'a Plist>)
    ensures
        match lookup(entries@, key@) {
            Some(value) => r matches Some(found) && *found == value,
            None => r is None,
        },
{
    let mut i: usize = 0;
    while i < entries.len()
        invariant
            i <= entries@.len(),
            lookup_from(entries@, key@, 0) == lookup_from(entries@, key@, i as int),
        decreases entries@.len() - i,
    {
        if same_text(entries[i].0.as_str(), key) {
            return Some(&entries[i].1);
        }
        i = i + 1;
    }
    None
}

/// A device of a `ListDevices` reply: a dictionary with a `DeviceID`
/// integer and a `Properties` dictionary whose `SerialNumber` is text, left
/// out when its `ConnectionType` says it is attached other than over USB.
pub open spec fn listed_device(entry: Plist) -> Option<(u32, Seq<char>)> {
    match entry {
        Plist::Dictionary(device) => match lookup(device@, "Properties"@) {
            Some(Plist::Dictionary(properties)) => match lookup(properties@, "SerialNumber"@) {
                Some(Plist::Text(serial)) => match lookup(device@, "DeviceID"@) {
                    Some(Plist::Integer(Some(id))) => match lookup(properties@, "ConnectionType"@) {
                        Some(Plist::Text(connection)) if connection@ != "USB"@ => None,
                        _ => Some((id as u32, serial@)),
                    },
                    _ => None,
                },
                _ => None,
            },
            _ => None,
        },
        _ => None,
    }
}

/// The devices a list of entries holds, in order.
pub open spec fn listed_devices(entries: Seq<Plist>) -> Seq<(u32, Seq<char>)>
    decreases entries.len(),
{
    if entries.len() == 0 {
        Seq::empty()
    } else {
        let before = listed_devices(entries.drop_last());
        match listed_device(entries.last()) {
            Some(device) => before.push(device),
            None => before,
        }
    }
}

/// The devices a `ListDevices` reply lists, when it holds a `DeviceList`
/// array.
pub open spec fn reply_devices(reply: Seq<(String, Plist)>) -> Option<Seq<(u32, Seq<char>)>> {
    match lookup(reply, "DeviceList"@) {
        Some(Plist::Array(entries)) => Some(listed_devices(entries@)),
        _ => None,
    }
}

fn device_entry(entry: &Plist) -> (r: Option<Device>)
    ensures
        match listed_device(*entry) {
            Some(device) => r matches Some(found) && device_view(found) == device,
            None => r is None,
        },
{
    proof {
        reveal_strlit("Properties");
        reveal_strlit("SerialNumber");
        reveal_strlit("DeviceID");
        reveal_strlit("ConnectionType");
        reveal_strlit("USB");
    }
    let device = match entry {
        Plist::Dictionary(device) => device,
        _ => return None,
    };
    let properties = match get(device, "Properties") {
        Some(Plist::Dictionary(properties)) => properties,
        _ => return None,
    };
    let serial = match get(properties, "SerialNumber") {
        Some(Plist::Text(serial)) => serial,
        _ => return None,
    };
    let device_id = match get(device, "DeviceID") {
        Some(Plist::Integer(Some(id))) => *id,
        _ => return None,
    };
    match get(properties, "ConnectionType") {
        Some(Plist::Text(connection)) => if !same_text(connection.as_str(), "USB") {
            return None;
        },
        _ => {},
    }
    Some(Device { device_id: device_id as u32, serial: serial.clone() })
}

/// The devices a `ListDevices` reply lists, or `Failed` when it holds no
/// `DeviceList` array.
pub fn attached_devices(reply: &Vec<(String, Plist)>) -> (r: Result<Vec<Device>, Error>)
    ensures
        match reply_devices(reply@) {
            Some(devices) => r matches Ok(found) && devices_view(found@) == devices,
            None => r matches Err(error) && error == Error::Failed,
        },
{
    proof {
        reveal_strlit("DeviceList");
    }
    let entries = match get(reply, "DeviceList") {
        Some(Plist::Array(entries)) => entries,
        _ => return Err(Error::Failed),
    };
    let mut devices: Vec<Device> = Vec::new();
    let mut i: usize = 0;
    while i < entries.len()
        invariant
            i <= entries@.len(),
            devices_view(devices@) == listed_devices(entries@.subrange(0, i as int)),
        decreases entries@.len() - i,
    {
        let ghost before = devices@;
        assert(entries@.subrange(0, i + 1).drop_last() =~= entries@.subrange(0, i as int));
        match device_entry(&entries[i]) {
            Some(device) => {
                devices.push(device);
                assert(devices_view(devices@) =~= devices_view(before).push(device_view(device)));
            },
            None => {},
        }
        i = i + 1;
    }
    assert(entries@.subrange(0, entries@.len() as int) =~= entries@);
    Ok(devices)
}

/// The first device whose serial number is `serial`, or the first of all
/// when `serial` is empty.
pub open spec fn first_chosen(devices: Seq<Device>, serial: Seq<char>, from: int) -> Option<int>
    decreases devices.len() - from,
{
    if from < 0 || from >= devices.len() {
        None
    } else if serial.len() == 0 || devices[from].serial@ == serial {
        Some(from)
    } else {
        first_chosen(devices, serial, from + 1)
    }
}

/// The device to connect to: the first whose serial number is `serial`, or
/// the first of all when `serial` is empty; `NoDevice` when there is none.
pub fn choose_device<'a>(devices: &'a Vec<Device>, serial: &str) -> (r: Result<&'a Device, Error>)
    ensures
        match first_chosen(devices@, serial@, 0) {
            Some(k) => r matches Ok(device) && *device == devices@[k],
            None => r matches Err(error) && error == Error::NoDevice,
        },
{
    let mut i: usize = 0;
    while i < devices.len()
        invariant
            i <= devices@.len(),
            first_chosen(devices@, serial@, 0) == first_chosen(devices@, serial@, i as int),
        decreases devices@.len() - i,
    {
        if serial.is_empty() || same_text(devices[i].serial.as_str(), serial) {
            return Ok(&devices[i]);
        }
        i = i + 1;
    }
    Err(Error::NoDevice)
}

/// Whether a `Connect` reply says the device took the connection: its
/// `Number` is the integer zero. `Refused` otherwise.
pub fn accepted(reply: &Vec<(String, Plist)>) -> (r: Result<(), Error>)
    ensures
        (r is Ok) <==> (lookup(reply@, "Number"@) matches Some(Plist::Integer(Some(number))) && number == 0),
        r is Err ==> r == Err::<(), Error>(Error::Refused),
{
    proof {
        reveal_strlit("Number");
    }
    match get(reply, "Number") {
        Some(Plist::Integer(Some(number))) => if *number == 0 {
            return Ok(());
        },
        _ => {},
    }
    Err(Error::Refused)
}

/// Whether an entry of a request is the text `value` under `key`.
pub open spec fn text_field(entry: (String, Field), key: Seq<char>, value: Seq<char>) -> bool {
    &&& entry.0@ == key
    &&& entry.1 matches Field::Text(text) && text@ == value
}

/// Whether an entry of a request is the number `value` under `key`.
pub open spec fn number_field(entry: (String, Field), key: Seq<char>, value: i64) -> bool {
    &&& entry.0@ == key
    &&& entry.1 matches Field::Number(number) && number == value
}

/// Whether `fields` is the start every request has: who is asking, and what.
pub open spec fn request_fields(fields: Seq<(String, Field)>, message_type: Seq<char>) -> bool {
    &&& fields.len() == 4
    &&& text_field(fields[0], "ClientVersionString"@, "obs-mobcam"@)
    &&& text_field(fields[1], "ProgName"@, "obs-mobcam"@)
    &&& number_field(fields[2], "kLibUSBMuxVersion"@, 3)
    &&& text_field(fields[3], "MessageType"@, message_type)
}

/// The body of a request of type `message_type`.
pub fn create_request(message_type: &str) -> (r: Vec<(String, Field)>)
    ensures
        request_fields(r@, message_type@),
{
    let mut body: Vec<(String, Field)> = Vec::new();
    body.push((String::from_str("ClientVersionString"), Field::Text(String::from_str("obs-mobcam"))));
    body.push((String::from_str("ProgName"), Field::Text(String::from_str("obs-mobcam"))));
    body.push((String::from_str("kLibUSBMuxVersion"), Field::Number(3)));
    body.push((String::from_str("MessageType"), Field::Text(String::from_str(message_type))));
    body
}

/// The two bytes of `value` the other way round.
pub open spec fn swapped(value: u16) -> u16 {
    ((value % 256) * 256 + value / 256) as u16
}

/// `value` with its two bytes the other way round.
fn swap_bytes(value: u16) -> (r: u16)
    ensures
        r == swapped(value),
{
    (value % 256) * 256 + value / 256
}

/// The body of a request to connect to port `port` of device `device_id`.
/// The port goes in network byte order, read as a number in the machine's
/// own: swapped where the machine is little endian, as it is where it is
/// big endian.
pub fn connect_request(device_id: u32, port: u16, little_endian: bool) -> (r: Vec<(String, Field)>)
    ensures
        r@.len() == 6,
        request_fields(r@.subrange(0, 4), "Connect"@),
        number_field(r@[4], "DeviceID"@, device_id as i64),
        r@[5].0@ == "PortNumber"@,
        r@[5].1 matches Field::Number(n) && n == if little_endian {
            swapped(port)
        } else {
            port
        },
{
    let mut body = create_request("Connect");
    let ghost start = body@;
    body.push((String::from_str("DeviceID"), Field::Number(device_id as i64)));
    let network: u16 = if little_endian {
        swap_bytes(port)
    } else {
        port
    };
    body.push((String::from_str("PortNumber"), Field::Number(network as i64)));
    assert(body@.subrange(0, 4) =~= start);
    body
}


// ------------------------------------------------------------------------
// Property lists as XML, through the plist crate.

#[verifier::external_type_specification]
#[verifier::external_body]
pub struct ExPlistValue(plist::Value);

/// The property list an XML document holds, as `plist::Value::from_reader_xml`
/// reads it; none when it holds none.
pub uninterp spec fn plist_from_xml(payload: Seq<u8>) -> Option<Plist>;

/// The XML document `plist::Value::to_writer_xml` writes for a dictionary of
/// the given entries, in their order; none when it fails.
pub uninterp spec fn xml_of_fields(fields: Seq<(String, Field)>) -> Option<Seq<u8>>;

/// A `plist::Value` as the library's own `Plist`, variant for variant; an
/// integer is kept as `plist::Integer::as_signed` gives it.
///
/// Trusted, and claims nothing: it only carries over, unverified, what
/// `parse_xml` hands back, whose result is named rather than described.
#[verifier::external_body]
fn plist_of(value: plist::Value) -> Plist {
    match value {
        plist::Value::Array(items) => Plist::Array(items.into_iter().map(plist_of).collect()),
        plist::Value::Dictionary(entries) => Plist::Dictionary(
            entries.into_iter().map(|(key, value)| (key, plist_of(value))).collect(),
        ),
        plist::Value::Boolean(value) => Plist::Boolean(value),
        plist::Value::Data(bytes) => Plist::Data(bytes),
        plist::Value::Integer(number) => Plist::Integer(number.as_signed()),
        plist::Value::String(text) => Plist::Text(text),
        _ => Plist::Other,
    }
}

/// The property list an XML document holds, through
/// `plist::Value::from_reader_xml`.
///
/// Trusted: the parse depends on the bytes alone, so its result is named
/// rather than described; a document the crate cannot read gives none.
#[verifier::external_body]
fn parse_xml(payload: &[u8]) -> (r: Option<Plist>)
    ensures
        r == plist_from_xml(payload@),
{
    plist::Value::from_reader_xml(payload).ok().map(plist_of)
}

/// A dictionary of the given entries written as an XML document, through
/// `plist::Value::to_writer_xml`.
///
/// Trusted: what is written depends on the entries alone, so it is named
/// rather than described.
#[verifier::external_body]
fn write_xml(fields: &Vec<(String, Field)>) -> (r: Option<Vec<u8>>)
    ensures
        match xml_of_fields(fields@) {
            Some(bytes) => r matches Some(written) && written@ == bytes,
            None => r is None,
        },
{
    let mut body = plist::Dictionary::new();
    for (key, field) in fields {
        let value = match field {
            Field::Text(text) => plist::Value::from(text.as_str()),
            Field::Number(number) => plist::Value::from(*number),
        };
        body.insert(key.clone(), value);
    }
    let mut xml = Vec::new();
    plist::Value::Dictionary(body).to_writer_xml(&mut xml).ok().map(|()| xml)
}

/// The body of a request as an XML property list, or `Failed`.
pub fn encode(body: &Vec<(String, Field)>) -> (r: Result<Vec<u8>, Error>)
    ensures
        match xml_of_fields(body@) {
            Some(bytes) => r matches Ok(xml) && xml@ == bytes,
            None => r matches Err(error) && error == Error::Failed,
        },
{
    match write_xml(body) {
        Some(xml) => Ok(xml),
        None => Err(Error::Failed),
    }
}

/// The dictionary the body of a reply holds, or `Failed` when it is no XML
/// property list or not a dictionary.
pub fn decode(payload: &[u8]) -> (r: Result<Vec<(String, Plist)>, Error>)
    ensures
        match plist_from_xml(payload@) {
            Some(Plist::Dictionary(entries)) => r matches Ok(found) && found == entries,
            _ => r matches Err(error) && error == Error::Failed,
        },
{
    match parse_xml(payload) {
        Some(Plist::Dictionary(entries)) => Ok(entries),
        _ => Err(Error::Failed),
    }
}

} // verus!
