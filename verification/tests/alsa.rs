use mobcam::alsa::{card, loopback_cards, loopback_devices, PcmStep, PcmWrite};

const CARDS: &str = " 0 [PCH            ]: HDA-Intel - HDA Intel PCH\n                      HDA Intel PCH at 0xf7f10000 irq 33\n 1 [Loopback       ]: Loopback - Loopback\n                      Loopback 1\n";

#[test]
fn only_the_loopback_cards_are_kept() {
    assert_eq!(
        loopback_cards(CARDS),
        vec![(String::from("Loopback"), String::from("Loopback - Loopback"))]
    );
}

#[test]
fn the_lines_of_details_are_not_cards() {
    assert_eq!(card("                      Loopback 1"), None);
    assert_eq!(
        card(" 0 [PCH            ]: HDA-Intel - HDA Intel PCH").unwrap().0,
        "PCH"
    );
}

#[test]
fn no_cards_at_all_is_no_devices() {
    assert!(loopback_cards("--- no soundcards ---\n").is_empty());
}

#[test]
fn loopback_cards_become_alsa_device_names() {
    assert_eq!(
        loopback_devices(CARDS),
        vec![(String::from("plughw:CARD=Loopback,DEV=0"), String::from("Loopback - Loopback"))]
    );
    assert!(loopback_devices("").is_empty());
}

#[test]
fn a_card_needs_a_number_an_id_and_a_name() {
    assert_eq!(
        card("+2 [Loopback_1]:  Loopback  "),
        Some((String::from("Loopback_1"), String::from("Loopback")))
    );
    assert_eq!(card("x [Loopback]: Loopback"), None);
    assert_eq!(card(" [Loopback]: Loopback"), None);
    assert_eq!(card("99999999999 [Loopback]: Loopback"), None);
    assert_eq!(card("1 [Loopback]  Loopback"), None);
    assert_eq!(card("1 [Loopback: Loopback"), None);
}

#[test]
fn lines_may_end_in_carriage_returns() {
    assert_eq!(
        loopback_cards(" 3 [Loopback]: Loop\r\n 4 [Other]: Other\r\n 5 [Loopback2]: Two"),
        vec![
            (String::from("Loopback"), String::from("Loop")),
            (String::from("Loopback2"), String::from("Two")),
        ]
    );
}

#[test]
fn samples_are_handed_over_until_all_are_taken() {
    let mut write = PcmWrite::new(16, 4);
    assert!(matches!(write.next(), PcmStep::Write { from: 0, frames: 4 }));
    write.wrote(1);
    assert!(matches!(write.next(), PcmStep::Write { from: 4, frames: 3 }));
    write.recovered();
    assert!(matches!(write.next(), PcmStep::Write { from: 4, frames: 3 }));
    write.wrote(3);
    assert!(matches!(write.next(), PcmStep::Done));
}

#[test]
fn samples_left_after_the_last_attempt_fail() {
    let mut write = PcmWrite::new(8, 2);
    write.wrote(1);
    write.wrote(1);
    write.wrote(0);
    assert!(matches!(write.next(), PcmStep::Fail(message) if message == "wrote 4 of 8 bytes"));
    assert!(matches!(PcmWrite::new(0, 2).next(), PcmStep::Done));
}
