use std::collections::BTreeMap;

use typikon::abi::{negotiate_layer, INVALID_ARGUMENT, LAYER_UNSUPPORTED};
use typikon::{
    cid_bytes, constructor_cid, decode_value, encode_value, ffi_abi_version, is_backward_compatible,
    parse_schema, struct_constructor_cid, ConstructorDecoder, Decoder, Encoder, Item, LayerSupport, RpcClient, RpcError,
    VectoredWrite, WireCodec, WireError,
};

#[test]
fn c_abi_answers_with_the_layer_or_unsupported() {
    assert_eq!(ffi_abi_version(), 1);
    assert_eq!(negotiate_layer(10, &[10, 11]), 10);
    assert_eq!(negotiate_layer(11, &[10, 11]), 11);
    assert_eq!(negotiate_layer(12, &[10, 11]), LAYER_UNSUPPORTED);
    assert_eq!(negotiate_layer(0, &[]), LAYER_UNSUPPORTED);
    assert_ne!(LAYER_UNSUPPORTED, INVALID_ARGUMENT);
}

#[test]
fn layer_negotiation_returns_the_request_exactly_when_it_is_compiled() {
    let support = LayerSupport::new([3u16, 5, 8]);
    for requested in 0u16..12 {
        match support.negotiate(requested) {
            Ok(layer) => {
                assert_eq!(layer, requested);
                assert!(support.supports(requested));
            }
            Err(error) => {
                assert_eq!(error.requested, requested);
                assert!(!support.supports(requested));
            }
        }
    }
}

#[test]
fn packets_round_trip_and_refuse_trailing_bytes() {
    let value = (7u64, "ok".to_owned());
    let mut encoder = Encoder::new(64);
    value.0.encode(&mut encoder).unwrap();
    value.1.encode(&mut encoder).unwrap();
    let bytes = encoder.finish().unwrap();
    assert_eq!(bytes, vec![7, 0, 0, 0, 0, 0, 0, 0, 2, b'o', b'k']);
    for number in [0u64, 1, 127, 128, 300, u32::MAX as u64, u64::MAX] {
        let packet = encode_value(&number).unwrap();
        assert_eq!(packet.len(), 8);
        assert_eq!(decode_value::<u64>(&packet), Ok(number));
        let mut longer = packet.clone();
        longer.push(0);
        assert_eq!(
            decode_value::<u64>(&longer),
            Err(WireError::MalformedConstructor)
        );
    }
    let strings = vec!["a".to_owned(), String::new(), "ünï".to_owned()];
    assert_eq!(
        decode_value::<Vec<String>>(&encode_value(&strings).unwrap()),
        Ok(strings)
    );
}

#[test]
fn varints_read_back_what_was_written() {
    for value in [0u64, 1, 127, 128, 16_383, 16_384, u32::MAX as u64, u64::MAX] {
        let mut encoder = Encoder::new(16);
        encoder.varint(value).unwrap();
        let bytes = encoder.finish().unwrap();
        assert_eq!(bytes.len(), typikon::varint_len(value));
        let mut decoder = Decoder::new(&bytes, 16).unwrap();
        assert_eq!(decoder.varint(), Ok(value));
        assert!(decoder.is_finished());
    }
    assert_eq!(typikon::varint_len(u64::MAX), 10);
}

#[test]
fn every_wire_error_has_an_input_that_gives_it() {
    assert_eq!(decode_value::<u32>(&[1, 2]), Err(WireError::UnexpectedEof));
    assert_eq!(
        Decoder::new(&[0x81, 0x00], 8).unwrap().varint(),
        Err(WireError::InvalidVarInt)
    );
    assert_eq!(
        Decoder::new(&[0xff, 0xff, 0xff, 0xff, 0xff, 0xff, 0xff, 0xff, 0xff, 0x02], 16)
            .unwrap()
            .varint(),
        Err(WireError::IntegerOverflow)
    );
    assert_eq!(
        Decoder::new(&[0; 9], 8).err(),
        Some(WireError::PacketTooLarge)
    );
    assert_eq!(decode_value::<String>(&[1, 0xc3]), Err(WireError::InvalidUtf8));
    assert_eq!(decode_value::<bool>(&[2]), Err(WireError::MalformedConstructor));
    assert_eq!(cid_bytes("not hex!"), Err(WireError::InvalidCId));
    let packet = [0xa8, 0x1f, 0x20, 0x31, 0xd7, 0x2c, 0x9f, 0x04];
    assert!(matches!(
        ConstructorDecoder::new(&packet, "0000000000000000", 64),
        Err(WireError::UnknownCId)
    ));
}

#[test]
fn constructor_ids_read_back_as_the_same_text() {
    for text in ["a81f2031d72c9f04", "0000000000000000", "ffffffffffffffff"] {
        let bytes = cid_bytes(text).unwrap();
        assert_eq!(constructor_cid(&bytes, 64).unwrap(), text);
    }
    assert_eq!(
        cid_bytes("A81F2031D72C9F04").unwrap(),
        cid_bytes("a81f2031d72c9f04").unwrap()
    );
    assert_eq!(cid_bytes("a81f"), Err(WireError::InvalidCId));
    assert_eq!(constructor_cid(&[1, 2, 3], 64), Err(WireError::UnexpectedEof));
}

#[test]
fn rpc_client_encodes_requests_and_decodes_replies() {
    let client = RpcClient::new("loopback");
    assert_eq!(*client.transport(), "loopback");
    let request = client
        .encode_request::<_, String>(&(42u32))
        .unwrap();
    assert_eq!(request, vec![42, 0, 0, 0]);
    let reply: Result<u32, RpcError<String>> = client.decode_response(&request);
    assert_eq!(reply.unwrap(), 42);
    let short: Result<u32, RpcError<String>> = client.decode_response(&[1]);
    assert!(matches!(short, Err(RpcError::Decode(WireError::UnexpectedEof))));
    let long: Result<u8, RpcError<String>> = client.decode_response(&[1, 2]);
    assert!(matches!(long, Err(RpcError::Decode(WireError::MalformedConstructor))));
}

#[test]
fn guard_bits_are_matched_without_case_or_underscores() {
    let schema = parse_schema(
        "#[version(1)] #[flags(u8)] enum Flags { HasAvatar = 0, } struct User { flags: Flags, #[guard(flags.has_avatar)] avatar: String, }",
    )
    .unwrap();
    assert_eq!(schema.items.len(), 2);
    let error = parse_schema(
        "#[version(1)] #[flags(u8)] enum Flags { Ready = 0, READY = 1, }",
    )
    .unwrap_err();
    assert_eq!(error.position, 0);
    let error = parse_schema(
        "#[version(1)] #[flags(u8)] enum Flags { HasAvatar = 0, } struct User { flags: Flags, #[guard(flags.has_bio)] bio: String, }",
    )
    .unwrap_err();
    assert_eq!(error.message, "guard references an unknown flag bit");
}

#[test]
fn constructor_ids_in_schemas_are_stored_in_lowercase() {
    let expected = blake3::hash(b"Ping|id:u64").to_hex()[..16].to_owned();
    let source = format!(
        "#[version(1)] #[cid({})] struct Ping {{ id: u64, }}",
        expected.to_uppercase()
    );
    let schema = parse_schema(&source).unwrap();
    let Item::Struct(ping) = &schema.items[0] else {
        panic!("expected a struct")
    };
    assert_eq!(ping.cid.as_deref(), Some(expected.as_str()));
}

#[test]
fn unicode_whitespace_separates_tokens() {
    let schema =
        parse_schema("#[version(1)]\u{2003}struct\u{a0}Ping\u{3000}{ id:\tu64,\n}").unwrap();
    let Item::Struct(ping) = &schema.items[0] else {
        panic!("expected a struct")
    };
    assert_eq!(ping.name, "Ping");
    assert_eq!(ping.fields[0].name, "id");
    assert!(parse_schema("#[version(1)] struct\u{200b}Ping { id: u64, }").is_err());
}

#[test]
fn an_enum_and_flags_may_grow_at_their_end_only() {
    let old = parse_schema(
        "#[version(1)] #[flags(u8)] enum F { A = 0, } enum E { X { v: u8, }, }",
    )
    .unwrap();
    let grown = parse_schema(
        "#[version(2)] #[flags(u8)] enum F { A = 0, B = 1, } enum E { X { v: u8, }, Y { w: u64, }, }",
    )
    .unwrap();
    assert_eq!(is_backward_compatible(&old, &grown), Ok(()));
    let moved = parse_schema("#[version(2)] #[flags(u8)] enum F { A = 1, } enum E { X { v: u8, }, }")
        .unwrap();
    assert!(is_backward_compatible(&old, &moved).is_err());
    let dropped =
        parse_schema("#[version(2)] #[flags(u8)] enum F { A = 0, } enum E { Y { w: u64, }, }").unwrap();
    assert!(is_backward_compatible(&old, &dropped).is_err());
}

#[test]
fn decoded_maps_keep_every_entry_of_the_packet() {
    let packet = [3, 5, 50, 1, 10, 3, 30];
    let map = decode_value::<BTreeMap<u8, u8>>(&packet).unwrap();
    assert_eq!(map.len(), 3);
    assert_eq!(map[&5], 50);
    assert_eq!(encode_value(&map).unwrap(), vec![3, 1, 10, 3, 30, 5, 50]);
}

/// Writes `prefix`, `body` and `suffix` with vectored writes, as the
/// library's bookkeeping directs.
fn write_segments<W: std::io::Write>(
    writer: &mut W,
    prefix: &[u8],
    body: &[u8],
    suffix: &[u8],
) -> std::io::Result<usize> {
    let segments = [prefix, body, suffix];
    let lens = [prefix.len(), body.len(), suffix.len()];
    let mut state = VectoredWrite::start(lens);
    while !state.is_done(lens) {
        let slices: Vec<std::io::IoSlice<'_>> = state
            .pending(lens)
            .iter()
            .map(|&(segment, start)| std::io::IoSlice::new(&segments[segment][start..]))
            .collect();
        let progress = writer.write_vectored(&slices)?;
        state = match state.advance(lens, progress) {
            Some(state) => state,
            None => {
                return Err(std::io::Error::new(
                    std::io::ErrorKind::WriteZero,
                    "vectored write made no progress",
                ))
            }
        };
    }
    Ok(state.written)
}

/// A writer that takes at most `step` bytes per call, or nothing once
/// `stall` bytes have been taken.
struct Trickle {
    out: Vec<u8>,
    step: usize,
    stall: usize,
}

impl std::io::Write for Trickle {
    fn write(&mut self, buf: &[u8]) -> std::io::Result<usize> {
        let room = self.stall.saturating_sub(self.out.len());
        let n = buf.len().min(self.step).min(room);
        self.out.extend_from_slice(&buf[..n]);
        Ok(n)
    }

    fn flush(&mut self) -> std::io::Result<()> {
        Ok(())
    }
}

#[test]
fn vectored_write_keeps_framing_segments_separate() {
    let mut encoder = Encoder::new(1024);
    encoder.bytes(b"payload").unwrap();
    let mut output = Vec::new();
    let written = write_segments(&mut output, b"header", encoder.as_bytes(), b"trailer").unwrap();
    assert_eq!(written, 6 + encoder.len() + 7);
    assert_eq!(
        output,
        [b"header".as_slice(), encoder.as_bytes(), b"trailer"].concat()
    );
}

#[test]
fn vectored_writes_resume_where_a_short_write_stopped() {
    let lens = [3usize, 0, 4];
    let state = VectoredWrite::start(lens);
    assert_eq!(state.pending(lens), vec![(0, 0), (2, 0)]);
    let state = state.advance(lens, 2).unwrap();
    assert_eq!((state.segment, state.offset, state.written), (0, 2, 2));
    assert_eq!(state.pending(lens), vec![(0, 2), (2, 0)]);
    let state = state.advance(lens, 1).unwrap();
    assert_eq!((state.segment, state.offset, state.written), (2, 0, 3));
    assert_eq!(state.advance(lens, 0), None);
    let state = state.advance(lens, 4).unwrap();
    assert!(state.is_done(lens));
    assert!(state.pending(lens).is_empty());

    let empty = [0usize, 0, 0];
    assert!(VectoredWrite::start(empty).is_done(empty));

    let mut slow = Trickle { out: Vec::new(), step: 3, stall: usize::MAX };
    assert_eq!(write_segments(&mut slow, b"ab", b"cdefg", b"hij").unwrap(), 10);
    assert_eq!(slow.out, b"abcdefghij");
    let mut stuck = Trickle { out: Vec::new(), step: 3, stall: 4 };
    let error = write_segments(&mut stuck, b"ab", b"cdefg", b"hij").unwrap_err();
    assert_eq!(error.kind(), std::io::ErrorKind::WriteZero);
    assert_eq!(stuck.out, b"abcd");
}

#[test]
fn lazy_collections_compare_by_their_bytes_and_count() {
    let mut encoder = Encoder::new(64);
    vec![1u8, 2, 3].encode(&mut encoder).unwrap();
    let packet = encoder.finish().unwrap();
    let mut first = Decoder::new(&packet, 64).unwrap();
    let mut second = Decoder::new(&packet, 64).unwrap();
    let a = first.borrowed_vec::<u8>().unwrap();
    let b = second.borrowed_vec::<u8>().unwrap();
    assert_eq!(a, b);
    assert_eq!(a.len(), 3);
    let other = [3u8, 1, 2, 4];
    let mut third = Decoder::new(&other, 64).unwrap();
    let c = third.borrowed_vec::<u8>().unwrap();
    assert_ne!(a, c);
}

#[test]
fn formatting_comments_and_layer_do_not_change_constructor_ids() {
    let plain = parse_schema("#[version(1)] struct Ping { id: u64, name: String, }").unwrap();
    let spaced = parse_schema(
        "#[version(9)]\n// a note\nstruct   Ping{/* inline */id:u64,\n\tname :String}",
    )
    .unwrap();
    let (Item::Struct(a), Item::Struct(b)) = (&plain.items[0], &spaced.items[0]) else {
        panic!("expected structs")
    };
    let cid = struct_constructor_cid(a);
    assert_eq!(cid, struct_constructor_cid(b));
    assert_eq!(cid.len(), 16);
    assert!(cid.chars().all(|c| c.is_ascii_digit() || ('a'..='f').contains(&c)));
    let renamed = parse_schema("#[version(1)] struct Ping { id: u64, title: String, }").unwrap();
    let Item::Struct(c) = &renamed.items[0] else {
        panic!("expected a struct")
    };
    assert_ne!(cid, struct_constructor_cid(c));
}

#[test]
fn every_adapter_covers_every_item_at_the_schema_layer() {
    let schema = typikon::parse_schema(
        "#[version(7)] struct Ping { id: u64, } enum Mode { Fast = 1, } #[flags(u8)] enum Bits { Ready = 0, }",
    )
    .unwrap();
    let go = typikon::generate_go_declarations(&schema);
    let typescript = typikon::generate_typescript_binding(&schema);
    let python = typikon::generate_python_binding(&schema);
    for (name, snake) in [("Ping", "ping"), ("Mode", "mode"), ("Bits", "bits")] {
        assert!(go.contains(&format!("func Encode{name}(v {name})([]byte,error)")));
        assert!(go.contains(&format!("C.typikon_7_{snake}_validate_borrowed(")));
        assert!(typescript.contains(&format!("export function encodeBinary{name}(")));
        assert!(typescript.contains(&format!("native.validateBinary(7, \"{snake}\", wire)")));
        assert!(python.contains(&format!("def encode_{snake}(value: Any) -> bytes:")));
        assert!(python.contains(&format!("return BorrowedPacket(wire, \"{name}\")")));
    }
    assert!(python.contains("LAYER = 7"));
}

#[test]
fn varint_len_counts_seven_bit_groups() {
    for (value, len) in [
        (0u64, 1usize),
        (1, 1),
        (127, 1),
        (128, 2),
        (300, 2),
        (16_383, 2),
        (16_384, 3),
        (1 << 35, 6),
        ((1 << 63) - 1, 9),
        (1 << 63, 10),
        (u64::MAX, 10),
    ] {
        let bits = 64 - value.leading_zeros() as usize;
        assert_eq!(typikon::varint_len(value), len);
        assert_eq!(len, if value == 0 { 1 } else { (bits + 6) / 7 });
    }
}

#[test]
fn truncated_packets_fail_to_decode() {
    let strings = vec!["first".to_owned(), String::new(), "ünï".to_owned()];
    let bytes = encode_value(&strings).unwrap();
    for len in 0..bytes.len() {
        assert!(decode_value::<Vec<String>>(&bytes[..len]).is_err());
    }
    let mut map = BTreeMap::new();
    map.insert(7u32, Some(300u64));
    map.insert(9u32, None);
    let bytes = encode_value(&map).unwrap();
    for len in 0..bytes.len() {
        assert!(decode_value::<BTreeMap<u32, Option<u64>>>(&bytes[..len]).is_err());
    }
    assert_eq!(decode_value::<BTreeMap<u32, Option<u64>>>(&bytes), Ok(map));
}
