use mobcam::usbmux::{
    after_read, Action, Event, ExactRead, Read, accepted, attached_devices, choose_device, connect_request, create_request, decode, encode, io_error,
    reply_payload_size, request_header, Device, Error, Field, Io, Plist,
};

fn text(value: &str) -> Plist {
    Plist::Text(String::from(value))
}

fn entry(key: &str, value: Plist) -> (String, Plist) {
    (String::from(key), value)
}

fn listed(id: i64, serial: &str, connection: Option<&str>) -> Plist {
    let mut properties = vec![entry("SerialNumber", text(serial))];
    if let Some(connection) = connection {
        properties.push(entry("ConnectionType", text(connection)));
    }
    Plist::Dictionary(vec![
        entry("DeviceID", Plist::Integer(Some(id))),
        entry("Properties", Plist::Dictionary(properties)),
    ])
}

#[test]
fn a_request_header_gives_the_whole_length() {
    let header = request_header(100, 7).unwrap();
    assert_eq!(header, [116, 0, 0, 0, 1, 0, 0, 0, 8, 0, 0, 0, 7, 0, 0, 0]);
    assert_eq!(reply_payload_size(&header), Ok(100));
    assert_eq!(request_header(usize::MAX, 1), Err(Error::Failed));
}

#[test]
fn reply_lengths_out_of_bounds_are_refused() {
    let mut header = [0u8; 16];
    header[0] = 15;
    assert_eq!(reply_payload_size(&header), Err(Error::Failed));
    header[0] = 16;
    assert_eq!(reply_payload_size(&header), Ok(0));
    header[..4].copy_from_slice(&(4 * 1024 * 1024u32).to_le_bytes());
    assert_eq!(reply_payload_size(&header), Ok(4 * 1024 * 1024 - 16));
    header[..4].copy_from_slice(&(4 * 1024 * 1024 + 1u32).to_le_bytes());
    assert_eq!(reply_payload_size(&header), Err(Error::Failed));
}

#[test]
fn only_usb_devices_with_a_serial_number_are_listed() {
    let reply = vec![entry(
        "DeviceList",
        Plist::Array(vec![
            listed(3, "first", Some("USB")),
            listed(4, "network", Some("Network")),
            listed(5, "plain", None),
            Plist::Dictionary(vec![entry("DeviceID", Plist::Integer(Some(6)))]),
            text("stray"),
        ]),
    )];
    let devices = attached_devices(&reply).unwrap();
    let found: Vec<(u32, String)> = devices.iter().map(|device| (device.device_id, device.serial.clone())).collect();
    assert_eq!(found, vec![(3, String::from("first")), (5, String::from("plain"))]);
    assert_eq!(attached_devices(&Vec::new()).err(), Some(Error::Failed));
    assert_eq!(attached_devices(&vec![entry("DeviceList", text("none"))]).err(), Some(Error::Failed));
}

#[test]
fn the_device_asked_for_is_chosen() {
    let devices = vec![
        Device { device_id: 1, serial: String::from("a") },
        Device { device_id: 2, serial: String::from("b") },
    ];
    assert_eq!(choose_device(&devices, "b").map(|device| device.device_id), Ok(2));
    assert_eq!(choose_device(&devices, "").map(|device| device.device_id), Ok(1));
    assert_eq!(choose_device(&devices, "c").map(|device| device.device_id), Err(Error::NoDevice));
    assert_eq!(choose_device(&Vec::new(), "").map(|device| device.device_id), Err(Error::NoDevice));
}

#[test]
fn a_connection_is_taken_when_the_number_is_zero() {
    assert_eq!(accepted(&vec![entry("Number", Plist::Integer(Some(0)))]), Ok(()));
    assert_eq!(accepted(&vec![entry("Number", Plist::Integer(Some(3)))]), Err(Error::Refused));
    assert_eq!(accepted(&vec![entry("Number", text("0"))]), Err(Error::Refused));
    assert_eq!(accepted(&Vec::new()), Err(Error::Refused));
}

fn described(fields: &[(String, Field)]) -> Vec<(String, String)> {
    fields
        .iter()
        .map(|(key, field)| {
            let value = match field {
                Field::Text(text) => text.clone(),
                Field::Number(number) => number.to_string(),
            };
            (key.clone(), value)
        })
        .collect()
}

#[test]
fn requests_say_who_is_asking() {
    let pairs = |list: &[(&str, &str)]| -> Vec<(String, String)> {
        list.iter().map(|(k, v)| (k.to_string(), v.to_string())).collect()
    };
    assert_eq!(
        described(&create_request("ListDevices")),
        pairs(&[
            ("ClientVersionString", "obs-mobcam"),
            ("ProgName", "obs-mobcam"),
            ("kLibUSBMuxVersion", "3"),
            ("MessageType", "ListDevices"),
        ])
    );
    let little_endian = u16::from_ne_bytes([1, 0]) == 1;
    let connect = described(&connect_request(9, 7790, little_endian));
    assert_eq!(connect[3], (String::from("MessageType"), String::from("Connect")));
    assert_eq!(connect[4], (String::from("DeviceID"), String::from("9")));
    assert_eq!(connect[5], (String::from("PortNumber"), 7790u16.to_be().to_string()));
}

#[test]
fn the_port_goes_in_network_byte_order() {
    let port = |little_endian| described(&connect_request(1, 0x1e6e, little_endian))[5].1.clone();
    assert_eq!(port(true), 0x6e1e.to_string());
    assert_eq!(port(false), 0x1e6e.to_string());
}

#[test]
fn requests_are_written_as_xml_and_read_back() {
    let xml = encode(&create_request("ListDevices")).unwrap();
    let text_of_xml = String::from_utf8(xml.clone()).unwrap();
    assert!(text_of_xml.contains("<key>MessageType</key>"));
    assert!(text_of_xml.contains("<string>ListDevices</string>"));
    let read = decode(&xml).unwrap();
    let keys: Vec<&str> = read.iter().map(|(key, _)| key.as_str()).collect();
    assert_eq!(keys, vec!["ClientVersionString", "ProgName", "kLibUSBMuxVersion", "MessageType"]);
    assert!(matches!(&read[2].1, Plist::Integer(Some(3))));
    assert!(matches!(&read[3].1, Plist::Text(text) if text == "ListDevices"));
}

#[test]
fn a_reply_that_is_no_dictionary_fails() {
    assert_eq!(decode(b"not xml").err(), Some(Error::Failed));
    let array = b"<?xml version=\"1.0\" encoding=\"UTF-8\"?><plist version=\"1.0\"><array><integer>1</integer></array></plist>";
    assert_eq!(decode(array).err(), Some(Error::Failed));
    let reply = b"<?xml version=\"1.0\" encoding=\"UTF-8\"?><plist version=\"1.0\"><dict><key>Number</key><integer>0</integer></dict></plist>";
    assert_eq!(accepted(&decode(reply).unwrap()), Ok(()));
}

#[test]
fn errors_say_what_went_wrong() {
    assert_eq!(Error::NoDaemon.message(), "usbmuxd is not reachable");
    assert_eq!(Error::NoDevice.message(), "no device attached over USB");
    assert_eq!(Error::Refused.message(), "the device refused the connection");
    assert_eq!(Error::Aborted.message(), "aborted");
    assert_eq!(Error::Failed.message(), "usbmuxd communication failed");
    assert_eq!(io_error(Io::Aborted), Error::Aborted);
    assert_eq!(io_error(Io::Closed), Error::Failed);
    assert_eq!(io_error(Io::Error), Error::Failed);
}

#[test]
fn reads_fill_the_buffer_or_end_it() {
    assert_eq!(after_read(0, 16, Read::Bytes(10)), Ok(10));
    assert_eq!(after_read(10, 16, Read::Bytes(6)), Ok(16));
    assert_eq!(after_read(10, 16, Read::Again), Ok(10));
    assert_eq!(after_read(10, 16, Read::Bytes(0)), Err(Io::Closed));
    assert_eq!(after_read(10, 16, Read::Failed), Err(Io::Error));
}

#[test]
fn an_empty_buffer_is_filled_without_asking() {
    let mut reading = ExactRead::new(0);
    assert!(matches!(reading.step(Event::Start), Action::Finish(Ok(()))));
}

#[test]
fn whoever_waits_is_asked_before_every_read() {
    let mut reading = ExactRead::new(16);
    assert!(matches!(reading.step(Event::Start), Action::AskAbort));
    assert!(matches!(reading.step(Event::Asked(false)), Action::ReadFrom(0)));
    assert!(matches!(reading.step(Event::Did(Read::Bytes(10))), Action::AskAbort));
    assert!(matches!(reading.step(Event::Asked(false)), Action::ReadFrom(10)));
    assert!(matches!(reading.step(Event::Did(Read::Again)), Action::AskAbort));
    assert!(matches!(reading.step(Event::Asked(false)), Action::ReadFrom(10)));
    assert!(matches!(reading.step(Event::Did(Read::Bytes(6))), Action::Finish(Ok(()))));
    assert_eq!(reading.filled, 16);
}

#[test]
fn giving_up_closing_and_breaking_end_the_read() {
    let mut reading = ExactRead::new(4);
    reading.step(Event::Start);
    assert!(matches!(reading.step(Event::Asked(true)), Action::Finish(Err(Io::Aborted))));
    let mut closed = ExactRead::new(4);
    assert!(matches!(closed.step(Event::Did(Read::Bytes(0))), Action::Finish(Err(Io::Closed))));
    let mut broken = ExactRead::new(4);
    assert!(matches!(broken.step(Event::Did(Read::Failed)), Action::Finish(Err(Io::Error))));
}
