use network::delta::ChunkedDelta;
use network::delta::DeltaSnapshot;
use network::error::EncodingErrorKind;
use network::error::LayoutError;
use network::message::Message;
use std::collections::BTreeMap;

fn sample_delta() -> DeltaSnapshot {
    DeltaSnapshot::new(&[0, 1, 2, 3, 4, 5], &[0, 1, 9, 3, 4, 9])
}

fn all_kinds() -> Vec<Message> {
    vec![
        Message::Bios(vec![]),
        Message::Bios(vec![1, 2, 3]),
        Message::Rom((0..=255u8).collect()),
        Message::Play(vec![7, 8, 9]),
        Message::DeltaSnapshot(sample_delta()),
        Message::DeltaSnapshot(DeltaSnapshot::new(&[], &[])),
        Message::Snapshot(vec![0; 1000]),
    ]
}

#[test]
fn play_has_the_documented_layout() {
    let bytes = Message::Play(vec![7, 8, 9]).encode_binary();
    assert_eq!(bytes, vec![2u8, 0, 0, 0, 3, 0, 0, 0, 0, 0, 0, 0, 7, 8, 9]);
}

#[test]
fn each_kind_has_its_tag() {
    assert_eq!(Message::Bios(vec![]).encode_binary(), vec![0u8, 0, 0, 0, 0, 0, 0, 0, 0, 0, 0, 0]);
    assert_eq!(Message::Rom(vec![]).encode_binary()[0], 1u8);
    assert_eq!(Message::Play(vec![]).encode_binary()[0], 2u8);
    assert_eq!(Message::DeltaSnapshot(sample_delta()).encode_binary()[0], 3u8);
    assert_eq!(Message::Snapshot(vec![]).encode_binary()[0], 4u8);
}

#[test]
fn delta_has_the_documented_layout() {
    let bytes = Message::DeltaSnapshot(sample_delta()).encode_binary();
    assert_eq!(
        bytes,
        vec![
            3u8, 0, 0, 0, 0, 5, 1, 0, 0, 0, 0, 0, 0, 0, 0, 2, 0, 0, 0, 0, 0, 0, 0, 2, 9, 5, 9
        ]
    );
}

#[test]
fn layout_is_the_one_bincode_writes() {
    assert_eq!(
        Message::Play(vec![7, 8, 9]).encode_binary(),
        bincode::serialize(&(2u32, vec![7u8, 8, 9])).unwrap()
    );
    assert_eq!(
        Message::Snapshot(vec![0; 300]).encode_binary(),
        bincode::serialize(&(4u32, vec![0u8; 300])).unwrap()
    );
    let mut chunks: BTreeMap<u8, Vec<(u8, u8)>> = BTreeMap::new();
    chunks.insert(0, vec![(254, 1)]);
    chunks.insert(1, vec![(0, 2), (254, 3)]);
    chunks.insert(2, vec![(0, 4), (89, 5)]);
    let old = vec![0u8; 600];
    let mut new = old.clone();
    new[254] = 1;
    new[255] = 2;
    new[509] = 3;
    new[510] = 4;
    new[599] = 5;
    assert_eq!(
        Message::DeltaSnapshot(DeltaSnapshot::new(&old, &new)).encode_binary(),
        bincode::serialize(&(3u32, [0u8, 0u8], chunks)).unwrap()
    );
}

#[test]
fn binary_round_trip_of_every_kind() {
    for message in all_kinds() {
        let bytes = message.encode_binary();
        assert_eq!(Message::decode_binary(&bytes), Ok(message));
    }
}

#[test]
fn text_round_trip_of_every_kind() {
    for message in all_kinds() {
        let text = message.encode_text();
        let back = Message::decode_text(&text).unwrap();
        assert_eq!(back, message);
    }
}

#[test]
fn text_is_base64_of_the_layout() {
    assert_eq!(Message::Play(vec![7, 8, 9]).encode_text(), "AgAAAAMAAAAAAAAABwgJ");
    assert_eq!(Message::Bios(vec![]).encode_text(), "AAAAAAAAAAAAAAAA");
    assert_eq!(Message::Snapshot(vec![255]).encode_text(), "BAAAAAEAAAAAAAAA/w==");
    assert_eq!(Message::Rom(vec![1, 2]).encode_text(), "AQAAAAIAAAAAAAAAAQI=");
    assert_eq!(
        Message::DeltaSnapshot(sample_delta()).encode_text(),
        "AwAAAAAFAQAAAAAAAAAAAgAAAAAAAAACCQUJ"
    );
}

#[test]
fn text_is_read_back() {
    assert_eq!(
        Message::decode_text("AgAAAAMAAAAAAAAABwgJ").unwrap(),
        Message::Play(vec![7, 8, 9])
    );
    assert_eq!(
        Message::decode_text("AwAAAAAFAQAAAAAAAAAAAgAAAAAAAAACCQUJ").unwrap(),
        Message::DeltaSnapshot(sample_delta())
    );
}

#[test]
fn decoded_delta_applies() {
    let text = Message::DeltaSnapshot(sample_delta()).encode_text();
    match Message::decode_text(&text).unwrap() {
        Message::DeltaSnapshot(delta) => {
            assert_eq!(delta.apply(&[0, 1, 2, 3, 4, 5]), vec![0u8, 1, 9, 3, 4, 9]);
        }
        other => panic!("not a delta: {:?}", other),
    }
}

#[test]
fn text_that_is_not_base64_is_a_base64_error() {
    let error = Message::decode_text("AgAA*AMA").unwrap_err();
    match error.kind() {
        EncodingErrorKind::Base64(b64::FromBase64Error::InvalidBase64Byte(byte, at)) => {
            assert_eq!(*byte, b'*');
            assert_eq!(*at, 4);
        }
        other => panic!("wrong kind: {:?}", other),
    }
    let error = Message::decode_text("AgAAA").unwrap_err();
    assert!(matches!(
        error.kind(),
        EncodingErrorKind::Base64(b64::FromBase64Error::InvalidBase64Length)
    ));
}

#[test]
fn base64_of_other_bytes_is_a_layout_error() {
    let error = Message::decode_text("").unwrap_err();
    assert!(matches!(error.kind(), EncodingErrorKind::Bincode(LayoutError::UnexpectedEnd)));
    let error = Message::decode_text("BwAAAA==").unwrap_err();
    assert!(matches!(error.kind(), EncodingErrorKind::Bincode(LayoutError::UnknownVariant(7))));
    let error = Message::decode_text("AgAAAAMAAAAAAAAABwg=").unwrap_err();
    assert!(matches!(error.kind(), EncodingErrorKind::Bincode(LayoutError::UnexpectedEnd)));
}

#[test]
fn from_decoded_maps_both_failures() {
    let error = Message::from_decoded(Err(b64::FromBase64Error::InvalidBase64Length)).unwrap_err();
    assert!(matches!(
        error.kind(),
        EncodingErrorKind::Base64(b64::FromBase64Error::InvalidBase64Length)
    ));
    let error = Message::from_decoded(Ok(vec![9, 0, 0, 0])).unwrap_err();
    assert!(matches!(error.kind(), EncodingErrorKind::Bincode(LayoutError::UnknownVariant(9))));
    assert_eq!(
        Message::from_decoded(Ok(vec![1, 0, 0, 0, 1, 0, 0, 0, 0, 0, 0, 0, 42])).unwrap(),
        Message::Rom(vec![42])
    );
}

#[test]
fn truncated_bytes_are_rejected() {
    let whole = Message::DeltaSnapshot(sample_delta()).encode_binary();
    for cut in 0..whole.len() {
        assert_eq!(Message::decode_binary(&whole[..cut]), Err(LayoutError::UnexpectedEnd));
    }
    let whole = Message::Play(vec![7, 8, 9]).encode_binary();
    for cut in 0..whole.len() {
        assert_eq!(Message::decode_binary(&whole[..cut]), Err(LayoutError::UnexpectedEnd));
    }
}

#[test]
fn unknown_tags_are_rejected() {
    assert_eq!(
        Message::decode_binary(&[5, 0, 0, 0, 0, 0, 0, 0, 0, 0, 0, 0]),
        Err(LayoutError::UnknownVariant(5))
    );
    assert_eq!(
        Message::decode_binary(&[0, 1, 0, 0]),
        Err(LayoutError::UnknownVariant(256))
    );
    assert_eq!(
        Message::decode_binary(&[255, 255, 255, 255]),
        Err(LayoutError::UnknownVariant(u32::MAX))
    );
}

#[test]
fn bytes_after_the_message_are_ignored() {
    let mut bytes = Message::Play(vec![7, 8, 9]).encode_binary();
    bytes.extend_from_slice(&[1, 2, 3]);
    assert_eq!(Message::decode_binary(&bytes), Ok(Message::Play(vec![7, 8, 9])));
    let again: (u32, Vec<u8>) = bincode::deserialize(&bytes).unwrap();
    assert_eq!(again, (2u32, vec![7u8, 8, 9]));
}

#[test]
fn huge_lengths_are_rejected() {
    let mut bytes = vec![4u8, 0, 0, 0];
    bytes.extend_from_slice(&[255; 8]);
    bytes.extend_from_slice(&[1, 2, 3]);
    assert_eq!(Message::decode_binary(&bytes), Err(LayoutError::UnexpectedEnd));
    let mut bytes = vec![3u8, 0, 0, 0, 1, 2];
    bytes.extend_from_slice(&[255; 8]);
    assert_eq!(Message::decode_binary(&bytes), Err(LayoutError::UnexpectedEnd));
    let mut bytes = vec![3u8, 0, 0, 0, 1, 2, 1, 0, 0, 0, 0, 0, 0, 0, 9];
    bytes.extend_from_slice(&[255; 8]);
    bytes.extend_from_slice(&[0; 64]);
    assert_eq!(Message::decode_binary(&bytes), Err(LayoutError::UnexpectedEnd));
}

#[test]
fn a_repeated_chunk_key_keeps_the_last_list() {
    let bytes = vec![
        3u8, 0, 0, 0, 1, 2, 2, 0, 0, 0, 0, 0, 0, 0, //
        7, 1, 0, 0, 0, 0, 0, 0, 0, 5, 6, //
        7, 2, 0, 0, 0, 0, 0, 0, 0, 1, 2, 3, 4,
    ];
    match Message::decode_binary(&bytes).unwrap() {
        Message::DeltaSnapshot(delta) => {
            assert_eq!(delta.old_hash(), [1u8, 2u8]);
            assert_eq!(delta.len(), 2);
            let list: Vec<(u32, u8)> =
                delta.chunk(7).unwrap().iter().map(|d| (d.offset(), d.value())).collect();
            assert_eq!(list, vec![(1u32, 2u8), (3u32, 4u8)]);
            assert!(delta.chunk(0).is_none());
        }
        other => panic!("not a delta: {:?}", other),
    }
    let again: (u32, [u8; 2], BTreeMap<u8, Vec<(u8, u8)>>) = bincode::deserialize(&bytes).unwrap();
    assert_eq!(again.2.get(&7), Some(&vec![(1u8, 2u8), (3u8, 4u8)]));
}

#[test]
fn chunks_out_of_order_are_read() {
    let bytes = vec![
        3u8, 0, 0, 0, 0, 0, 2, 0, 0, 0, 0, 0, 0, 0, //
        9, 1, 0, 0, 0, 0, 0, 0, 0, 5, 6, //
        2, 0, 0, 0, 0, 0, 0, 0, 0,
    ];
    match Message::decode_binary(&bytes).unwrap() {
        Message::DeltaSnapshot(delta) => {
            assert_eq!(delta.chunk(9).map(|l| l.len()), Some(1));
            assert_eq!(delta.chunk(2).map(|l| l.len()), Some(0));
            assert_eq!(delta.len(), 1);
            let rewritten = Message::DeltaSnapshot(delta).encode_binary();
            assert_eq!(
                rewritten,
                vec![
                    3u8, 0, 0, 0, 0, 0, 2, 0, 0, 0, 0, 0, 0, 0, //
                    2, 0, 0, 0, 0, 0, 0, 0, 0, //
                    9, 1, 0, 0, 0, 0, 0, 0, 0, 5, 6,
                ]
            );
        }
        other => panic!("not a delta: {:?}", other),
    }
}

#[test]
fn from_parts_builds_what_was_given() {
    let mut chunks: BTreeMap<u8, Vec<ChunkedDelta>> = BTreeMap::new();
    chunks.insert(0, vec![ChunkedDelta::new(2, 9), ChunkedDelta::new(5, 9)]);
    let delta = DeltaSnapshot::from_parts([0, 5], chunks);
    assert_eq!(delta, sample_delta());
}

#[test]
fn conversions_agree_with_the_codec() {
    let message = Message::Play(vec![7, 8, 9]);
    let text: String = (&message).try_into().unwrap();
    assert_eq!(text, "AgAAAAMAAAAAAAAABwgJ");
    let bytes: Vec<u8> = (&message).try_into().unwrap();
    assert_eq!(bytes, vec![2u8, 0, 0, 0, 3, 0, 0, 0, 0, 0, 0, 0, 7, 8, 9]);
    assert_eq!(Message::try_from(text.as_str()).unwrap(), message);
    assert_eq!(Message::try_from(bytes), Ok(Message::Play(vec![7, 8, 9])));
    let text: String = Message::Rom(vec![1, 2]).try_into().unwrap();
    assert_eq!(text, "AQAAAAIAAAAAAAAAAQI=");
    let bytes: Vec<u8> = Message::Bios(vec![]).try_into().unwrap();
    assert_eq!(bytes, vec![0u8; 12]);
    assert_eq!(Message::try_from(vec![8u8, 0, 0, 0]), Err(LayoutError::UnknownVariant(8)));
    assert!(Message::try_from("####").is_err());
}

#[test]
fn errors_wrap_their_cause() {
    let error = network::error::EncodingError::from(LayoutError::UnknownVariant(6));
    assert!(matches!(error.kind(), EncodingErrorKind::Bincode(LayoutError::UnknownVariant(6))));
    let error = network::error::EncodingError::from(b64::FromBase64Error::InvalidBase64Byte(33, 1));
    assert!(matches!(
        error.kind(),
        EncodingErrorKind::Base64(b64::FromBase64Error::InvalidBase64Byte(33, 1))
    ));
    let shown = format!("{:?}", error);
    assert!(shown.contains("Base64"));
    let _ = error.stack();
}

#[test]
fn text_is_read_as_the_base64_reader_reads_it() {
    assert_eq!(
        Message::decode_text("AgAAAAMA\r\nAAAAAAAABwgJ\n").unwrap(),
        Message::Play(vec![7, 8, 9])
    );
    assert_eq!(
        Message::decode_text("BAAAAAEAAAAAAAAA_w").unwrap(),
        Message::Snapshot(vec![255])
    );
    assert!(Message::decode_text("BAAAAAEAAAAAAAAA/w==x").is_err());
}
