use network::binding::MessageWrapper;
use network::binding::Network;
use network::error::EncodingErrorKind;
use network::message::Message;
use network::words::vu8_to_vi32;
use network::words::vu8_to_vu16;

#[test]
fn created_messages_are_read_back() {
    let network = Network::new();
    let wrapper = network.deserialize(&network.create_bios_message(vec![1, 2])).unwrap();
    assert!(wrapper.is_bios() && !wrapper.is_rom() && !wrapper.is_play());
    assert!(!wrapper.is_delta_snapshot() && !wrapper.is_snapshot());
    assert_eq!(wrapper.get_bios(), vec![1u8, 2]);

    let wrapper = network.deserialize(&network.create_rom_message(vec![3])).unwrap();
    assert!(wrapper.is_rom() && !wrapper.is_bios());
    assert_eq!(wrapper.get_rom(), vec![3u8]);

    let wrapper = network.deserialize(&network.create_play_message(&[7, 8, 9])).unwrap();
    assert!(wrapper.is_play() && !wrapper.is_snapshot());
    assert_eq!(wrapper.get_play(), vec![7u8, 8, 9]);

    let wrapper = network.deserialize(&network.create_snapshot_message(&[4, 4])).unwrap();
    assert!(wrapper.is_snapshot() && !wrapper.is_delta_snapshot());
    assert_eq!(wrapper.get_snapshot(), vec![4u8, 4]);

    let text =
        network.create_delta_snapshot_message(vec![0, 1, 2, 3, 4, 5], vec![0, 1, 9, 3, 4, 9]);
    assert_eq!(text, "AwAAAAAFAQAAAAAAAAAAAgAAAAAAAAACCQUJ");
    let wrapper = network.deserialize(&text).unwrap();
    assert!(wrapper.is_delta_snapshot() && !wrapper.is_play());
    assert_eq!(wrapper.get_delta_snapshot(&[0, 1, 2, 3, 4, 5]), vec![0u8, 1, 9, 3, 4, 9]);
}

#[test]
fn created_text_is_the_message_text() {
    let network = Network::new();
    assert_eq!(network.create_play_message(&[7, 8, 9]), "AgAAAAMAAAAAAAAABwgJ");
    assert_eq!(network.create_bios_message(vec![]), "AAAAAAAAAAAAAAAA");
    assert_eq!(network.create_rom_message(vec![1, 2]), "AQAAAAIAAAAAAAAAAQI=");
    assert_eq!(network.create_snapshot_message(&[255]), "BAAAAAEAAAAAAAAA/w==");
}

#[test]
fn malformed_text_is_not_wrapped() {
    let error = Network::new().deserialize("!!!").unwrap_err();
    assert!(matches!(error.kind(), EncodingErrorKind::Base64(_)));
}

#[test]
fn wrapper_hands_the_message_back() {
    let wrapper = MessageWrapper::new(Message::Play(vec![1]));
    assert_eq!(wrapper.into_message(), Message::Play(vec![1]));
}

#[test]
fn words_follow_the_machine() {
    let bytes = [1u8, 2, 3, 4, 5, 6, 7, 8, 9];
    assert_eq!(
        vu8_to_vu16(&bytes),
        vec![
            u16::from_ne_bytes([1, 2]),
            u16::from_ne_bytes([3, 4]),
            u16::from_ne_bytes([5, 6]),
            u16::from_ne_bytes([7, 8])
        ]
    );
    assert_eq!(
        vu8_to_vi32(&bytes),
        vec![i32::from_ne_bytes([1, 2, 3, 4]), i32::from_ne_bytes([5, 6, 7, 8])]
    );
    assert_eq!(vu8_to_vu16(&[]), Vec::<u16>::new());
    assert_eq!(vu8_to_vi32(&[1, 2, 3]), Vec::<i32>::new());
    let words = vu8_to_vu16(&[0x34, 0x12]);
    assert!(words == vec![0x1234u16] || words == vec![0x3412u16]);
    let words = vu8_to_vi32(&[0xff, 0xff, 0xff, 0xff, 0, 0, 0, 0x80]);
    assert_eq!(words[0], -1);
    assert!(words[1] == i32::MIN || words[1] == 128);
}

#[test]
fn it_works() {
    let result: i32 = 2 + 2;
    assert_eq!(result, 4);
}
