use std::collections::BTreeMap;

use typikon::{
    decode_value, encode_value, BorrowedVec, ConstructorDecoder, ConstructorEncoder, DecodeLimits,
    Decoder, Encoder, LayerSupport, LayerVersionNotSupported, WireCodec, WireError,
    DEFAULT_MAX_PACKET_SIZE,
};

const LIMIT: usize = 1024;

#[test]
fn fixed_byte_arrays_round_trip_without_length_prefix() {
    let value = [7u8; 16];
    let encoded = encode_value(&value).unwrap();
    assert_eq!(encoded, vec![7; 16]);
    assert_eq!(decode_value::<[u8; 16]>(&encoded).unwrap(), value);
    assert!(decode_value::<[u8; 16]>(&encoded[..15]).is_err());
}

#[test]
fn varint_golden_vectors() {
    for (value, expected) in [
        (0, vec![0]),
        (1, vec![1]),
        (127, vec![127]),
        (128, vec![128, 1]),
        (300, vec![172, 2]),
        (
            u64::MAX,
            vec![255, 255, 255, 255, 255, 255, 255, 255, 255, 1],
        ),
    ] {
        let mut encoder = Encoder::new(LIMIT);
        encoder.varint(value).unwrap();
        assert_eq!(encoder.finish().unwrap(), expected);
    }
}

#[test]
fn varint_round_trips_deterministic_fuzz_corpus() {
    let mut state = 0x9e3779b97f4a7c15u64;
    for _ in 0..10_000 {
        state ^= state << 7;
        state ^= state >> 9;
        state ^= state << 8;
        let mut encoder = Encoder::new(LIMIT);
        encoder.varint(state).unwrap();
        let bytes = encoder.finish().unwrap();
        let mut decoder = Decoder::new(&bytes, LIMIT).unwrap();
        assert_eq!(decoder.varint().unwrap(), state);
        assert!(decoder.is_finished());
    }
}

#[test]
fn rejects_non_canonical_varints_without_partial_writes() {
    for bytes in [&[0x80, 0x00][..], &[0x81, 0x00], &[0xff, 0x00]] {
        let mut decoder = Decoder::new(bytes, LIMIT).unwrap();
        assert_eq!(decoder.varint(), Err(WireError::InvalidVarInt));
    }

    let mut encoder = Encoder::new(1);
    assert_eq!(encoder.varint(128), Err(WireError::PacketTooLarge));
    encoder.u8(7).unwrap();
    assert_eq!(encoder.finish().unwrap(), [7]);

    let mut encoder = Encoder::new(1);
    assert_eq!(encoder.bytes(b"x"), Err(WireError::PacketTooLarge));
    encoder.u8(9).unwrap();
    assert_eq!(encoder.finish().unwrap(), [9]);
}

#[test]
fn primitive_round_trip() {
    let mut encoder = Encoder::new(LIMIT);
    encoder.u8(7).unwrap();
    encoder.u16(0x1234).unwrap();
    encoder.u32(0x12345678).unwrap();
    encoder.u64(0x0123456789abcdef).unwrap();
    encoder.i32(-42).unwrap();
    encoder.bytes(b"hello").unwrap();
    let bytes = encoder.finish().unwrap();
    assert_eq!(&bytes[0..7], &[7, 0x34, 0x12, 0x78, 0x56, 0x34, 0x12]);
    let mut decoder = Decoder::new(&bytes, LIMIT).unwrap();
    assert_eq!(decoder.u8().unwrap(), 7);
    assert_eq!(decoder.u16().unwrap(), 0x1234);
    assert_eq!(decoder.u32().unwrap(), 0x12345678);
    assert_eq!(decoder.u64().unwrap(), 0x0123456789abcdef);
    assert_eq!(decoder.i32().unwrap(), -42);
    assert_eq!(decoder.bytes().unwrap(), b"hello");
    assert!(decoder.is_finished());
}

#[test]
fn optional_values_use_local_presence_markers_and_compose_in_vectors() {
    let value = vec![Some("yes".to_owned()), None, Some("no".to_owned())];
    let encoded = encode_value(&value).unwrap();
    assert_eq!(encoded[0], 3);
    assert_eq!(encoded[1], 1);
    assert_eq!(decode_value::<Vec<Option<String>>>(&encoded).unwrap(), value);
    assert_eq!(
        decode_value::<Option<String>>(&[2]),
        Err(WireError::MalformedConstructor)
    );
}

#[test]
fn exact_byte_helpers_keep_vec_length_prefix_and_reject_wrong_lengths() {
    let mut encoder = Encoder::new(DEFAULT_MAX_PACKET_SIZE);
    encoder.bytes_exact(b"abcd", 4).unwrap();
    assert_eq!(encoder.finish().unwrap(), vec![4, b'a', b'b', b'c', b'd']);
    let mut decoder = Decoder::new(&[4, b'a', b'b', b'c', b'd'], DEFAULT_MAX_PACKET_SIZE).unwrap();
    assert_eq!(decoder.bytes_exact(4).unwrap(), b"abcd");
    let mut decoder = Decoder::new(&[3, b'a', b'b', b'c'], DEFAULT_MAX_PACKET_SIZE).unwrap();
    assert_eq!(decoder.bytes_exact(4), Err(WireError::MalformedConstructor));
}

#[test]
fn borrowed_bytes_and_strings_share_input_storage() {
    let mut encoder = Encoder::new(LIMIT);
    encoder.bytes(b"payload").unwrap();
    encoder.bytes(b"text").unwrap();
    let bytes = encoder.finish().unwrap();
    let mut decoder = Decoder::new(&bytes, LIMIT).unwrap();
    let payload = decoder.bytes_borrowed().unwrap();
    let text = decoder.string_borrowed().unwrap();
    assert_eq!(payload, b"payload");
    assert_eq!(text, "text");
    assert!(bytes[payload.as_ptr() as usize - bytes.as_ptr() as usize..].starts_with(payload));
    assert!(decoder.is_finished());
}

#[test]
fn borrowed_collections_iterate_without_copying_elements() {
    let mut encoder = Encoder::new(LIMIT);
    encoder.varint(2).unwrap();
    encoder.bytes(b"first").unwrap();
    encoder.bytes(b"second").unwrap();
    let packet = encoder.finish().unwrap();
    let mut decoder = Decoder::new(&packet, LIMIT).unwrap();
    let values: BorrowedVec<'_, &'_ [u8]> = decoder.borrowed_vec().unwrap();
    let first = values.iter().next().unwrap().unwrap();
    let second = values.iter().nth(1).unwrap().unwrap();
    assert_eq!(values.len(), 2);
    assert_eq!(first, b"first");
    assert_eq!(second, b"second");
    let start = packet.as_ptr() as usize;
    let end = start + packet.len();
    assert!((start..end).contains(&(first.as_ptr() as usize)));
    assert!((start..end).contains(&(second.as_ptr() as usize)));
    assert!(decoder.is_finished());
}

#[test]
fn borrowed_collection_scan_rejects_truncated_items() {
    let packet = [1, 3, b'x'];
    let mut decoder = Decoder::new(&packet, LIMIT).unwrap();
    assert!(matches!(
        decoder.borrowed_vec::<&str>(),
        Err(WireError::UnexpectedEof)
    ));
}

#[test]
fn structural_skip_advances_without_utf8_decoding() {
    let packet = [2, 2, 0xff, 1, 1, b'x'];
    let mut decoder = Decoder::new(&packet, LIMIT).unwrap();
    decoder.skip_vec::<&str>().unwrap();
    assert!(decoder.is_finished());
}

#[test]
fn encoder_can_reuse_a_finished_buffer() {
    let mut encoder = Encoder::with_capacity(LIMIT, 32);
    encoder.bytes(b"first").unwrap();
    let buffer = encoder.finish().unwrap();
    let capacity = buffer.capacity();
    let mut encoder = Encoder::with_buffer(LIMIT, buffer).unwrap();
    encoder.bytes(b"second").unwrap();
    let buffer = encoder.finish().unwrap();
    assert_eq!(buffer, [6, b's', b'e', b'c', b'o', b'n', b'd']);
    assert_eq!(buffer.capacity(), capacity);
}

#[test]
fn encoder_reset_retains_buffer_for_hot_path_reuse() {
    let mut encoder = Encoder::with_capacity(LIMIT, 64);
    encoder.bytes(b"first packet").unwrap();
    let capacity = encoder.as_bytes().as_ptr();
    encoder.reset();
    encoder.bytes(b"second packet").unwrap();
    assert_eq!(
        encoder.as_bytes(),
        &[13, b's', b'e', b'c', b'o', b'n', b'd', b' ', b'p', b'a', b'c', b'k', b'e', b't']
    );
    assert_eq!(encoder.as_bytes().as_ptr(), capacity);
}

#[test]
fn decoder_applies_independent_collection_and_bytes_limits() {
    let limits = DecodeLimits {
        max_packet_size: LIMIT,
        max_collection_items: 2,
        max_bytes_field_size: 3,
    };
    let mut bytes = Encoder::new(LIMIT);
    bytes.bytes(b"four").unwrap();
    let packet = bytes.finish().unwrap();
    let mut decoder = Decoder::with_limits(&packet, limits).unwrap();
    assert_eq!(decoder.bytes_borrowed(), Err(WireError::PacketTooLarge));

    let mut values = Encoder::new(LIMIT);
    values.varint(3).unwrap();
    values.u8(1).unwrap();
    values.u8(2).unwrap();
    values.u8(3).unwrap();
    let packet = values.finish().unwrap();
    let mut decoder = Decoder::with_limits(&packet, limits).unwrap();
    assert_eq!(decoder.skip_vec::<u8>(), Err(WireError::PacketTooLarge));
}

#[test]
fn rejects_bad_input_and_limits() {
    assert!(matches!(
        Decoder::new(&[1, 2], 1),
        Err(WireError::PacketTooLarge)
    ));
    assert_eq!(
        Decoder::new(&[], LIMIT).unwrap().u64(),
        Err(WireError::UnexpectedEof)
    );
    assert_eq!(
        Decoder::new(&[0x80; 10], LIMIT).unwrap().varint(),
        Err(WireError::InvalidVarInt)
    );
    let mut encoder = Encoder::new(1);
    encoder.u16(1).unwrap_err();
    let mut encoder = Encoder::new(LIMIT);
    encoder.bytes(b"abc").unwrap();
    let encoded = encoder.finish().unwrap();
    let mut decoder = Decoder::new(&encoded, LIMIT).unwrap();
    assert_eq!(decoder.bytes().unwrap(), b"abc");
}

#[test]
fn fixed_width_collection_lengths_are_constant_time_metadata() {
    let values = vec![1u64, 2, 3, 4];
    assert_eq!(u64::fixed_encoded_len(), Some(8));
    assert_eq!(values.encoded_len(), 1 + 4 * 8);

    let map = BTreeMap::from([(1u16, 10u32), (2u16, 20u32)]);
    assert_eq!(map.encoded_len(), 1 + 2 * (2 + 4));
}

#[test]
fn generic_string_vec_and_map_round_trip() {
    let mut map = BTreeMap::new();
    map.insert(2u16, "two".to_owned());
    map.insert(1u16, "one".to_owned());
    let value = ("привет".to_owned(), vec![1u32, 2, 300], map);
    let mut encoder = Encoder::new(LIMIT);
    value.0.encode(&mut encoder).unwrap();
    value.1.encode(&mut encoder).unwrap();
    value.2.encode(&mut encoder).unwrap();
    let bytes = encoder.finish().unwrap();
    assert_eq!(
        bytes.len(),
        value
            .0
            .encoded_len()
            .saturating_add(value.1.encoded_len())
            .saturating_add(value.2.encoded_len())
    );
    assert_eq!(&bytes[0..2], &[12, 208]);
    let mut decoder = Decoder::new(&bytes, LIMIT).unwrap();
    assert_eq!(String::decode(&mut decoder).unwrap(), value.0);
    assert_eq!(Vec::<u32>::decode(&mut decoder).unwrap(), value.1);
    assert_eq!(
        BTreeMap::<u16, String>::decode(&mut decoder).unwrap(),
        value.2
    );
    assert!(decoder.is_finished());
}

#[test]
fn map_is_sorted_and_duplicate_keys_are_rejected() {
    let mut map = BTreeMap::new();
    map.insert(9u8, 9u8);
    map.insert(1u8, 1u8);
    let mut encoder = Encoder::new(LIMIT);
    map.encode(&mut encoder).unwrap();
    assert_eq!(encoder.finish().unwrap(), vec![2, 1, 1, 9, 9]);

    let duplicate = [2, 1, 7, 1, 8];
    let mut decoder = Decoder::new(&duplicate, LIMIT).unwrap();
    assert_eq!(
        BTreeMap::<u8, u8>::decode(&mut decoder),
        Err(WireError::MalformedConstructor)
    );
}

#[test]
fn invalid_utf8_and_truncated_collections_are_rejected() {
    let mut decoder = Decoder::new(&[2, 0xff, 0xff], LIMIT).unwrap();
    assert_eq!(String::decode(&mut decoder), Err(WireError::InvalidUtf8));
    let mut decoder = Decoder::new(&[3, 1, 2], LIMIT).unwrap();
    assert_eq!(Vec::<u8>::decode(&mut decoder), Err(WireError::UnexpectedEof));
    let mut decoder = Decoder::new(&[100], LIMIT).unwrap();
    assert_eq!(Vec::<u64>::decode(&mut decoder), Err(WireError::UnexpectedEof));
    let mut decoder = Decoder::new(&[10], LIMIT).unwrap();
    assert_eq!(
        BTreeMap::<u64, u64>::decode(&mut decoder),
        Err(WireError::UnexpectedEof)
    );
}

#[test]
fn map_keys_out_of_order_are_read_and_map_sizes_saturate() {
    // Keys that arrive out of order are still read; only a repeated key is refused.
    let unsorted = [2, 9, 90, 1, 10];
    let mut decoder = Decoder::new(&unsorted, LIMIT).unwrap();
    let map = BTreeMap::<u8, u8>::decode(&mut decoder).unwrap();
    assert_eq!(map, BTreeMap::from([(1u8, 10u8), (9u8, 90u8)]));
    assert!(decoder.is_finished());

    let empty: BTreeMap<i32, String> = BTreeMap::new();
    assert_eq!(encode_value(&empty).unwrap(), vec![0]);
    let strings = BTreeMap::from([(-1i32, "a".to_owned()), (3i32, String::new())]);
    let encoded = encode_value(&strings).unwrap();
    assert_eq!(encoded, vec![2, 0xff, 0xff, 0xff, 0xff, 1, b'a', 3, 0, 0, 0, 0]);
    assert_eq!(strings.encoded_len(), encoded.len());
    assert_eq!(decode_value::<BTreeMap<i32, String>>(&encoded).unwrap(), strings);
}

const CID: &str = "a81f2031d72c9f04";

#[test]
fn constructor_round_trip_and_guard() {
    let mut encoder = ConstructorEncoder::new(CID, 1024).unwrap();
    encoder.field(&42u64).unwrap();
    encoder.guarded(false, &99u64).unwrap();
    encoder.guarded(true, &7u8).unwrap();
    let bytes = encoder.finish().unwrap();
    assert_eq!(
        &bytes[..8],
        &[0xa8, 0x1f, 0x20, 0x31, 0xd7, 0x2c, 0x9f, 0x04]
    );
    let mut decoder = ConstructorDecoder::new(&bytes, CID, 1024).unwrap();
    assert_eq!(decoder.field::<u64>().unwrap(), 42);
    assert_eq!(decoder.field::<u8>().unwrap(), 7);
    decoder.finish().unwrap();
}

#[test]
fn constructor_rejects_cid_and_trailing_bytes() {
    assert!(matches!(
        ConstructorEncoder::new("bad", 1024),
        Err(WireError::InvalidCId)
    ));
    let mut encoder = ConstructorEncoder::new(CID, 1024).unwrap();
    encoder.field(&1u8).unwrap();
    let mut bytes = encoder.finish().unwrap();
    bytes.push(1);
    let mut decoder = ConstructorDecoder::new(&bytes, CID, 1024).unwrap();
    assert_eq!(decoder.field::<u8>().unwrap(), 1);
    assert_eq!(decoder.finish(), Err(WireError::MalformedConstructor));
    assert!(matches!(
        ConstructorDecoder::new(&bytes, "0000000000000000", 1024),
        Err(WireError::UnknownCId)
    ));
}

#[test]
fn negotiates_only_compiled_layers() {
    let support = LayerSupport::new([6, 8, 10]);
    assert_eq!(support.negotiate(8), Ok(8));
    assert_eq!(
        support.negotiate(9),
        Err(LayerVersionNotSupported { requested: 9 })
    );
    assert!(!support.supports(7));
}


#[test]
fn guarded_field_fails_as_the_field_does() {
    let text = "hello".to_owned();
    let mut plain = ConstructorEncoder::new(CID, 12).unwrap();
    assert_eq!(plain.field(&text), Err(WireError::PacketTooLarge));
    let mut guarded = ConstructorEncoder::new(CID, 12).unwrap();
    assert_eq!(guarded.guarded(true, &text), Err(WireError::PacketTooLarge));
    let mut skipped = ConstructorEncoder::new(CID, 12).unwrap();
    assert_eq!(skipped.guarded(false, &text), Ok(()));
    assert_eq!(skipped.finish().unwrap().len(), 8);
}

#[test]
fn failed_reads_leave_the_position() {
    let bytes = [1u8, 2, 3];
    let mut decoder = Decoder::new(&bytes, LIMIT).unwrap();
    assert_eq!(decoder.u64(), Err(WireError::UnexpectedEof));
    assert_eq!(decoder.remaining(), 3);
    assert_eq!(decoder.u32(), Err(WireError::UnexpectedEof));
    assert_eq!(decoder.remaining(), 3);
    assert_eq!(decoder.expect_cid_bytes(&[0; 8]), Err(WireError::UnexpectedEof));
    assert_eq!(decoder.remaining(), 3);
    assert_eq!(decoder.u16(), Ok(0x0201));
    assert_eq!(decoder.remaining(), 1);
    assert!(!decoder.is_finished());
    assert_eq!(decoder.u8(), Ok(3));
    assert!(decoder.is_finished());
    assert_eq!(decoder.remaining(), 0);
}
