use meshconf::pool::BufPool;
use meshconf::protocol::{
    build_extension_headers, decode_audio_datagram, decode_varint_from_slice,
    encode_audio_datagram, encode_audio_datagram_into, encode_varint, parse_extension_headers,
    read_object, read_object_header, read_subgroup_header, read_varint, write_object,
    write_subgroup_header, write_varint, Codec, ObjectHeader, ProtocolError, Read, SubgroupHeader,
    TRACK_VIDEO,
};

#[test]
fn test_varint_roundtrip() {
    for val in [0u64, 1, 63, 64, 16383, 16384, 0x3FFF_FFFF, 0x4000_0000] {
        let (buf, len) = encode_varint(val);
        let (decoded, rest) = decode_varint_from_slice(&buf[..len]).unwrap();
        assert_eq!(decoded, val);
        assert!(rest.is_empty());
    }
}

#[test]
fn test_audio_datagram_roundtrip() {
    let ts = 1_700_000_000_000_000u64;
    let payload = b"opus data here";
    let mut buf = Vec::new();
    encode_audio_datagram_into(ts, payload, &mut buf);
    let pool = BufPool::new();
    let obj = decode_audio_datagram(&buf, &pool).unwrap();
    assert_eq!(obj.capture_timestamp_us, ts);
    assert!(obj.payload == payload[..]);
}

#[test]
fn varints_of_rfc_9000() {
    // RFC 9000, appendix A.1.
    for (val, bytes) in [
        (151_288_809_941_952_652u64, vec![0xc2, 0x19, 0x7c, 0x5e, 0xff, 0x14, 0xe8, 0x8c]),
        (494_878_333, vec![0x9d, 0x7f, 0x3e, 0x7d]),
        (15_293, vec![0x7b, 0xbd]),
        (37, vec![0x25]),
    ] {
        let (buf, len) = encode_varint(val);
        assert_eq!(&buf[..len], &bytes[..]);
        assert_eq!(decode_varint_from_slice(&bytes).unwrap().0, val);
    }
    // A longer form than needed is read too.
    assert_eq!(decode_varint_from_slice(&[0x40, 0x25, 9]).unwrap(), (37, &[9u8][..]));
}

#[test]
fn oversized_varint_loses_its_top_bits() {
    let (buf, len) = encode_varint(u64::MAX);
    assert_eq!((buf, len), ([0xFF; 8], 8));
    assert_eq!(decode_varint_from_slice(&buf).unwrap().0, 0x3FFF_FFFF_FFFF_FFFF);
}

#[test]
fn short_varints_are_errors() {
    assert_eq!(decode_varint_from_slice(&[]).unwrap_err(), ProtocolError::UnexpectedEnd);
    for short in [vec![0x40], vec![0x80, 0, 0], vec![0xC0, 0, 0, 0, 0, 0, 0]] {
        assert_eq!(
            decode_varint_from_slice(&short).unwrap_err(),
            ProtocolError::VarintTruncated
        );
    }
}

#[test]
fn reading_a_varint_says_what_is_missing() {
    assert!(matches!(read_varint(&[]), Read::More { need: 1 }));
    assert!(matches!(read_varint(&[0x80, 1]), Read::More { need: 2 }));
    assert!(matches!(read_varint(&[0xC0]), Read::More { need: 7 }));
    assert!(matches!(read_varint(&[0x41, 2, 3]), Read::Done { value: 258, used: 2 }));
}

#[test]
fn subgroup_header_bytes() {
    let mut out = vec![9];
    write_subgroup_header(&mut out, TRACK_VIDEO, 300, 0, 1);
    assert_eq!(out, vec![9, 4, 1, 0x41, 0x2C, 0, 1]);
    write_varint(&mut out, 64);
    assert_eq!(&out[7..], &[0x40, 0x40]);
}

#[test]
fn subgroup_header_roundtrip() {
    let header = SubgroupHeader {
        track_alias: 1,
        group_id: 1 << 40,
        subgroup_id: 77,
        publisher_priority: 200,
    };
    let mut out = Vec::new();
    write_subgroup_header(&mut out, 1, 1 << 40, 77, 200);
    let len = out.len();
    // Every shorter piece of it asks for more.
    for n in 0..len {
        assert!(matches!(read_subgroup_header(&out[..n]), Ok(Read::More { .. })));
    }
    out.extend_from_slice(&[1, 2, 3]);
    match read_subgroup_header(&out).unwrap() {
        Read::Done { value, used } => {
            assert_eq!(value, header);
            assert_eq!(used, len);
        }
        Read::More { .. } => panic!("header is complete"),
    }
}

#[test]
fn other_streams_are_refused() {
    assert_eq!(
        read_subgroup_header(&[0x05, 0, 0, 0, 0]).unwrap_err(),
        ProtocolError::NotSubgroupHeader(5)
    );
}

#[test]
fn codecs_have_numbers() {
    assert_eq!(Codec::from_u64(0), Some(Codec::Av1));
    assert_eq!(Codec::from_u64(1), Some(Codec::Hevc));
    assert_eq!(Codec::from_u64(2), None);
    assert_eq!(Codec::Hevc.to_u64(), 1);
}

#[test]
fn extension_block_bytes() {
    assert_eq!(build_extension_headers(5, None), vec![2, 5]);
    assert_eq!(build_extension_headers(64, Some(Codec::Hevc)), vec![2, 0x40, 64, 4, 1]);
    let vals = parse_extension_headers(&[2, 0x40, 64, 4, 1]).unwrap();
    assert_eq!(vals.capture_timestamp_us, 64);
    assert_eq!(vals.codec, Some(Codec::Hevc));
}

#[test]
fn unknown_extensions_are_skipped() {
    // Type 6 with a varint, type 7 with three bytes, then a timestamp.
    let vals = parse_extension_headers(&[6, 1, 7, 3, 9, 9, 9, 2, 8]).unwrap();
    assert_eq!(vals.capture_timestamp_us, 8);
    assert_eq!(vals.codec, None);
    assert_eq!(parse_extension_headers(&[4, 9]).unwrap().codec, None);
    // The last header of a type counts.
    assert_eq!(parse_extension_headers(&[2, 1, 2, 3]).unwrap().capture_timestamp_us, 3);
}

#[test]
fn broken_extensions_are_errors() {
    assert_eq!(parse_extension_headers(&[2]).unwrap_err(), ProtocolError::UnexpectedEnd);
    assert_eq!(parse_extension_headers(&[2, 0x40]).unwrap_err(), ProtocolError::VarintTruncated);
    assert_eq!(
        parse_extension_headers(&[7, 3, 1, 1]).unwrap_err(),
        ProtocolError::ExtensionTruncated
    );
}

#[test]
fn object_roundtrip() {
    let pool = BufPool::new();
    let mut out = Vec::new();
    write_object(&mut out, 3, 1_000_000, Some(Codec::Hevc), b"frame");
    let len = out.len();
    for n in 0..len {
        assert!(matches!(read_object(&out[..n], &pool), Ok(Read::More { .. })));
    }
    out.push(0xAA);
    match read_object_header(&out).unwrap() {
        Read::Done { value, used } => {
            assert_eq!(
                value,
                ObjectHeader {
                    object_id: 3,
                    capture_timestamp_us: 1_000_000,
                    codec: Some(Codec::Hevc),
                    payload_len: 5,
                }
            );
            assert_eq!(used, len - 5);
        }
        Read::More { .. } => panic!("header is complete"),
    }
    match read_object(&out, &pool).unwrap() {
        Read::Done { value, used } => {
            assert_eq!(value.object_id, 3);
            assert_eq!(value.capture_timestamp_us, 1_000_000);
            assert_eq!(value.codec, Some(Codec::Hevc));
            assert_eq!(value.payload.as_slice(), b"frame");
            assert_eq!(used, len);
        }
        Read::More { .. } => panic!("object is complete"),
    }
}

#[test]
fn object_bytes_on_the_wire() {
    let mut out = Vec::new();
    write_object(&mut out, 1, 5, Some(Codec::Av1), &[7, 8]);
    assert_eq!(out, vec![1, 4, 2, 5, 4, 0, 2, 7, 8]);
}

#[test]
fn an_empty_payload_is_followed_by_a_status() {
    let pool = BufPool::new();
    assert!(matches!(read_object(&[1, 0, 0], &pool), Ok(Read::More { need: 1 })));
    match read_object(&[1, 0, 0, 3, 9], &pool).unwrap() {
        Read::Done { value, used } => {
            assert_eq!(value.payload.len(), 0);
            assert_eq!(used, 4);
        }
        Read::More { .. } => panic!("object is complete"),
    }
}

#[test]
fn objects_without_a_payload() {
    let mut out = Vec::new();
    write_object(&mut out, 1, 5, None, &[]);
    // Id, two bytes of extensions, length 0, status 0.
    assert_eq!(out, vec![1, 2, 2, 5, 0, 0]);
    write_object(&mut out, 2, 6, Some(Codec::Hevc), b"next");
    let pool = BufPool::new();
    match read_object(&out, &pool).unwrap() {
        Read::Done { value, used } => {
            assert_eq!((value.object_id, value.capture_timestamp_us), (1, 5));
            assert_eq!(value.codec, None);
            assert_eq!(value.payload.len(), 0);
            assert_eq!(used, 6);
            match read_object(&out[used..], &pool).unwrap() {
                Read::Done { value, .. } => assert!(value.payload == b"next"[..]),
                Read::More { .. } => panic!("object is complete"),
            }
        }
        Read::More { .. } => panic!("object is complete"),
    }
}

#[test]
fn too_large_extension_blocks_are_refused() {
    let pool = BufPool::new();
    assert_eq!(
        read_object(&[1, 0x40, 65], &pool).err(),
        Some(ProtocolError::ExtensionsTooLarge(65))
    );
    assert!(matches!(read_object(&[1, 0x40, 64], &pool), Ok(Read::More { need: 64 })));
}

#[test]
fn audio_datagram_bytes() {
    let mut buf = vec![1, 2, 3];
    encode_audio_datagram_into(300, b"ab", &mut buf);
    assert_eq!(buf, vec![0x41, 0x2C, b'a', b'b']);
    let pool = BufPool::new();
    let bytes = encode_audio_datagram(300, b"ab", &pool);
    assert_eq!(&bytes[..], &buf[..]);
    assert_eq!(
        decode_audio_datagram(&[], &pool).err(),
        Some(ProtocolError::UnexpectedEnd)
    );
    assert_eq!(
        decode_audio_datagram(&[0x80, 0], &pool).err(),
        Some(ProtocolError::VarintTruncated)
    );
}
