//! The codec: primitive values, frames, headers, record sets and the consumer protocol.

use bytes::{Buf, BufMut, Bytes, BytesMut};
use volant_kafka::codec::{
    decode_request_header, encode_request, encode_request_flexible, encode_response_frame,
    get_bytes, get_compact_array_len, get_compact_bytes, get_compact_nullable_string,
    get_compact_string, get_nullable_string, get_string, get_uuid, put_bytes,
    put_compact_array_len, put_compact_bytes, put_compact_nullable_string, put_compact_string,
    put_empty_tag_buffer, put_nullable_string, put_response_header, put_response_header_v1,
    put_string, put_unsigned_varint, put_uuid, read_unsigned_varint, read_varint, skip_tag_buffer,
    try_decode_request, write_varint, MAX_FRAME,
};
use volant_kafka::compress::CompressionCodec;
use volant_kafka::consumer_protocol::{
    decode_consumer_assignment, decode_consumer_subscription, encode_consumer_assignment,
    encode_consumer_subscription,
};
use volant_kafka::error::Error;
use volant_kafka::model::{Message, Offset, Record};
use volant_kafka::records::{
    decode_message_set, decode_produce_batches, decode_record_batches,
    decode_record_batches_detailed, decode_records, encode_message_set,
    encode_message_set_compressed, encode_record_batch, encode_record_batch_compressed,
    encode_record_batch_idempotent, RecordBatchProducer,
};

fn record(
    offset: u64,
    key: Option<&'static [u8]>,
    value: Bytes,
    timestamp_ms: i64,
    headers: Vec<(String, Bytes)>,
) -> Record {
    Record {
        offset: Offset::new(offset),
        key: key.map(Bytes::from_static),
        value,
        timestamp_ms,
        headers,
    }
}

#[test]
fn message_set_roundtrip() {
    let msgs = vec![
        Message {
            key: Some(Bytes::from_static(b"k")),
            value: Bytes::from_static(b"v1"),
            timestamp_ms: Some(1000),
            headers: vec![],
        },
        Message {
            key: None,
            value: Bytes::from_static(b"v2"),
            timestamp_ms: Some(2000),
            headers: vec![],
        },
    ];
    let records: Vec<Record> = msgs
        .iter()
        .enumerate()
        .map(|(i, m)| Record {
            offset: Offset::new(i as u64),
            key: m.key.clone(),
            value: m.value.clone(),
            timestamp_ms: m.timestamp_ms.unwrap_or(0),
            headers: vec![],
        })
        .collect();
    let set = encode_message_set(&records);
    let decoded = decode_message_set(&set).unwrap();
    assert_eq!(decoded.len(), 2);
    assert_eq!(decoded[0].key.as_ref().unwrap().as_ref(), b"k");
    assert_eq!(decoded[0].value.as_ref(), b"v1");
    assert_eq!(decoded[1].value.as_ref(), b"v2");
    assert_eq!(decoded[1].timestamp_ms, Some(2000));
}

#[test]
fn request_frame_roundtrip() {
    let body = encode_request(18, 0, 7, Some("test"), &[]);
    let mut buf = body;
    let req = try_decode_request(&mut buf).unwrap().unwrap();
    let mut src = req;
    let hdr = decode_request_header(&mut src).unwrap();
    assert_eq!(hdr.api_key, 18);
    assert_eq!(hdr.correlation_id, 7);
    assert_eq!(hdr.client_id.as_deref(), Some("test"));
}

#[test]
fn unsigned_varint_roundtrip() {
    let cases = [0u32, 1, 127, 128, 255, 300, 16_383, 16_384, u32::MAX / 2];
    for v in cases {
        let mut buf = BytesMut::new();
        put_unsigned_varint(&mut buf, v);
        let mut src = buf.freeze();
        assert_eq!(read_unsigned_varint(&mut src).unwrap(), v);
        assert_eq!(src.remaining(), 0);
    }
}

#[test]
fn compact_string_and_array_roundtrip() {
    let mut buf = BytesMut::new();
    put_compact_string(&mut buf, "hello");
    put_compact_nullable_string(&mut buf, None);
    put_compact_nullable_string(&mut buf, Some(""));
    put_compact_array_len(&mut buf, 3);
    put_empty_tag_buffer(&mut buf);

    let mut src = buf.freeze();
    assert_eq!(get_compact_string(&mut src).unwrap(), "hello");
    assert_eq!(get_compact_nullable_string(&mut src).unwrap(), None);
    assert_eq!(get_compact_nullable_string(&mut src).unwrap().as_deref(), Some(""));
    assert_eq!(get_compact_array_len(&mut src).unwrap(), Some(3));
    skip_tag_buffer(&mut src).unwrap();
    assert_eq!(src.remaining(), 0);
}

#[test]
fn compact_bytes_roundtrip() {
    let mut buf = BytesMut::new();
    put_compact_bytes(&mut buf, None);
    put_compact_bytes(&mut buf, Some(&[]));
    put_compact_bytes(&mut buf, Some(b"abc"));
    let mut src = buf.freeze();
    assert_eq!(get_compact_bytes(&mut src).unwrap(), None);
    assert_eq!(get_compact_bytes(&mut src).unwrap().unwrap().as_ref(), b"");
    assert_eq!(get_compact_bytes(&mut src).unwrap().unwrap().as_ref(), b"abc");
    assert_eq!(src.remaining(), 0);
}

#[test]
fn flexible_request_header_has_tag_buffer() {
    let body = encode_request_flexible(18, 3, 9, Some("flex"), &[]);
    let mut buf = body;
    let req = try_decode_request(&mut buf).unwrap().unwrap();
    let mut src = req;
    let hdr = decode_request_header(&mut src).unwrap();
    assert_eq!(hdr.api_key, 18);
    assert_eq!(hdr.api_version, 3);
    assert_eq!(hdr.client_id.as_deref(), Some("flex"));
    skip_tag_buffer(&mut src).unwrap();
    assert_eq!(src.remaining(), 0);
}

#[test]
fn response_header_v1_has_tag_buffer() {
    let mut buf = BytesMut::new();
    put_response_header_v1(&mut buf, 42);
    let mut src = buf.freeze();
    assert_eq!(src.get_i32(), 42);
    skip_tag_buffer(&mut src).unwrap();
    assert_eq!(src.remaining(), 0);
}

#[test]
fn record_batch_roundtrip_keys_values_headers() {
    let records = vec![
        record(
            10,
            Some(b"k1"),
            Bytes::from_static(b"v1"),
            1_700_000_000_000,
            vec![("h".into(), Bytes::from_static(b"hv"))],
        ),
        record(11, None, Bytes::from_static(b"v2"), 1_700_000_000_050, vec![]),
    ];
    let batch = encode_record_batch(&records);
    assert_eq!(batch[16] as i8, 2);
    let decoded = decode_records(&batch).unwrap();
    assert_eq!(decoded.len(), 2);
    assert_eq!(decoded[0].key.as_ref().unwrap().as_ref(), b"k1");
    assert_eq!(decoded[0].value.as_ref(), b"v1");
    assert_eq!(decoded[0].timestamp_ms, Some(1_700_000_000_000));
    assert_eq!(decoded[0].headers.len(), 1);
    assert_eq!(decoded[0].headers[0].0, "h");
    assert_eq!(decoded[0].headers[0].1.as_ref(), b"hv");
    assert!(decoded[1].key.is_none());
    assert_eq!(decoded[1].value.as_ref(), b"v2");
    assert_eq!(decoded[1].timestamp_ms, Some(1_700_000_000_050));
}

#[test]
fn decode_records_auto_detects_message_set() {
    let records = vec![record(0, Some(b"a"), Bytes::from_static(b"b"), 99, vec![])];
    let set = encode_message_set(&records);
    assert!(matches!(set[16] as i8, 0 | 1));
    let decoded = decode_records(&set).unwrap();
    assert_eq!(decoded[0].value.as_ref(), b"b");
}

#[test]
fn compressed_message_set_roundtrips_all_codecs() {
    let records = vec![
        record(0, Some(b"k"), Bytes::from(b"payload-one ".repeat(40)), 1000, vec![]),
        record(1, None, Bytes::from_static(b"payload-two"), 2000, vec![]),
    ];
    for codec in [
        CompressionCodec::Uncompressed,
        CompressionCodec::Gzip,
        CompressionCodec::Snappy,
        CompressionCodec::Lz4,
        CompressionCodec::Zstd,
    ] {
        let set = encode_message_set_compressed(&records, codec).unwrap();
        if codec != CompressionCodec::Uncompressed {
            assert_eq!(set[16] as i8, 1);
            let attrs = set[17] as i8;
            let expected = if codec == CompressionCodec::Zstd {
                CompressionCodec::Lz4.as_u8()
            } else {
                codec.as_u8()
            };
            assert_eq!(attrs & 0x07, expected as i8, "codec={codec:?}");
        }
        let decoded = decode_message_set(&set).unwrap();
        assert_eq!(decoded.len(), 2, "codec={codec:?}");
        assert_eq!(decoded[0].key.as_ref().unwrap().as_ref(), b"k");
        assert_eq!(decoded[0].value.as_ref(), records[0].value.as_ref());
        assert_eq!(decoded[1].value.as_ref(), b"payload-two");
    }
}

#[test]
fn consumer_subscription_assignment_roundtrip() {
    let sub = encode_consumer_subscription(&["orders", "payments"]);
    let topics = decode_consumer_subscription(&sub).unwrap();
    assert_eq!(topics, vec!["orders".to_string(), "payments".to_string()]);

    let asg = encode_consumer_assignment(&[
        ("orders".into(), 0),
        ("orders".into(), 1),
        ("payments".into(), 0),
    ]);
    let decoded = decode_consumer_assignment(&asg).unwrap();
    assert_eq!(decoded.len(), 3);
    assert!(decoded.contains(&("orders".into(), 0)));
    assert!(decoded.contains(&("payments".into(), 0)));
}

#[test]
fn compressed_record_batch_roundtrips_all_codecs() {
    let records = vec![
        record(
            0,
            Some(b"ck"),
            Bytes::from_static(b"compressed-value-payload-0123456789"),
            1_700_000_000_000,
            vec![("h".into(), Bytes::from_static(b"hv"))],
        ),
        record(1, None, Bytes::from_static(b"second"), 1_700_000_000_100, vec![]),
    ];
    for codec in [
        CompressionCodec::Uncompressed,
        CompressionCodec::Gzip,
        CompressionCodec::Snappy,
        CompressionCodec::Lz4,
        CompressionCodec::Zstd,
    ] {
        let batch = encode_record_batch_compressed(&records, codec).unwrap();
        assert_eq!(batch[16] as i8, 2);
        let decoded = decode_records(&batch).unwrap();
        assert_eq!(decoded.len(), 2, "codec={codec:?}");
        assert_eq!(decoded[0].key.as_ref().unwrap().as_ref(), b"ck");
        assert_eq!(decoded[0].value.as_ref(), b"compressed-value-payload-0123456789");
        assert_eq!(decoded[0].headers.len(), 1);
        assert_eq!(decoded[1].value.as_ref(), b"second");
    }
}

#[test]
fn idempotent_record_batch_preserves_producer_fields() {
    let records = vec![record(
        0,
        Some(b"k"),
        Bytes::from_static(b"v"),
        1_700_000_000_000,
        vec![],
    )];
    let batch = encode_record_batch_idempotent(&records, 7, 3, 11);
    let detailed = decode_record_batches_detailed(&batch).unwrap();
    assert_eq!(detailed.len(), 1);
    assert_eq!(detailed[0].producer.producer_id, 7);
    assert_eq!(detailed[0].producer.producer_epoch, 3);
    assert_eq!(detailed[0].producer.base_sequence, 11);
    assert!(detailed[0].producer.is_idempotent());
    assert_eq!(detailed[0].messages[0].value.as_ref(), b"v");
}

fn batch_with(attributes: i16, records: &[u8]) -> BytesMut {
    let mut crc_payload = BytesMut::new();
    crc_payload.put_i16(attributes);
    crc_payload.put_i32(0);
    crc_payload.put_i64(0);
    crc_payload.put_i64(0);
    crc_payload.put_i64(-1);
    crc_payload.put_i16(-1);
    crc_payload.put_i32(-1);
    crc_payload.extend_from_slice(records);
    let crc = crc32c::crc32c(&crc_payload);
    let mut batch = BytesMut::new();
    batch.put_i64(0);
    batch.put_i32((4 + 1 + 4 + crc_payload.len()) as i32);
    batch.put_i32(-1);
    batch.put_i8(2);
    batch.put_u32(crc);
    batch.extend_from_slice(&crc_payload);
    batch
}

#[test]
fn unknown_compression_codec_rejected() {
    let batch = batch_with(5, &[0, 0, 0, 0]);
    let err = decode_record_batches(&batch).unwrap_err();
    let msg = err.message();
    assert!(
        msg.contains("unsupported") || msg.contains("compression"),
        "{msg}"
    );
}

#[test]
fn strings_and_bytes_are_length_prefixed() {
    let mut buf = BytesMut::new();
    put_string(&mut buf, "ab");
    put_nullable_string(&mut buf, None);
    put_bytes(&mut buf, Some(b"xyz"));
    put_bytes(&mut buf, None);
    assert_eq!(
        &buf[..],
        &[0, 2, b'a', b'b', 255, 255, 0, 0, 0, 3, b'x', b'y', b'z', 255, 255, 255, 255]
    );
    let mut src = buf.freeze();
    assert_eq!(get_string(&mut src).unwrap(), "ab");
    assert_eq!(get_nullable_string(&mut src).unwrap(), None);
    assert_eq!(get_bytes(&mut src).unwrap().unwrap().as_ref(), b"xyz");
    assert_eq!(get_bytes(&mut src).unwrap(), None);
}

#[test]
fn truncated_values_are_protocol_errors() {
    let mut empty = Bytes::new();
    assert!(matches!(get_string(&mut empty), Err(Error::Protocol(_))));
    let mut short = Bytes::from_static(&[0, 5, b'a']);
    assert!(matches!(get_string(&mut short), Err(Error::Protocol(_))));
    let mut null = Bytes::from_static(&[255, 255]);
    assert!(matches!(get_string(&mut null), Err(Error::Protocol(_))));
    let mut bad = Bytes::from_static(&[0, 1, 0xff]);
    assert!(matches!(get_string(&mut bad), Err(Error::Protocol(_))));
    let mut varint = Bytes::from_static(&[0x80, 0x80]);
    assert!(matches!(read_unsigned_varint(&mut varint), Err(Error::Protocol(_))));
    let mut long = Bytes::from_static(&[0x80, 0x80, 0x80, 0x80, 0x80, 0x01]);
    assert!(matches!(read_unsigned_varint(&mut long), Err(Error::Protocol(_))));
    let mut header = Bytes::from_static(&[0, 1, 0, 0]);
    assert!(matches!(decode_request_header(&mut header), Err(Error::Protocol(_))));
}

#[test]
fn signed_varints_are_zigzag() {
    for (v, first) in [(0i32, 0u8), (-1, 1), (1, 2), (-2, 3), (63, 126)] {
        let mut buf = BytesMut::new();
        write_varint(&mut buf, v);
        assert_eq!(buf[0], first);
        let mut src = buf.freeze();
        assert_eq!(read_varint(&mut src).unwrap(), v);
    }
    for v in [i32::MIN, i32::MAX, -64, 64, 8191, -8193] {
        let mut buf = BytesMut::new();
        write_varint(&mut buf, v);
        let mut src = buf.freeze();
        assert_eq!(read_varint(&mut src).unwrap(), v);
        assert_eq!(src.remaining(), 0);
    }
}

#[test]
fn uuids_are_sixteen_raw_bytes() {
    let id = [7u8; 16];
    let mut buf = BytesMut::new();
    put_uuid(&mut buf, &id);
    assert_eq!(buf.len(), 16);
    let mut src = buf.freeze();
    assert_eq!(get_uuid(&mut src).unwrap(), id);
    assert!(get_uuid(&mut src).is_err());
}

#[test]
fn frames_wait_for_their_bytes_and_have_a_limit() {
    let mut buf = BytesMut::new();
    buf.put_i32(3);
    buf.extend_from_slice(b"ab");
    assert!(try_decode_request(&mut buf).unwrap().is_none());
    buf.extend_from_slice(b"cd");
    assert_eq!(try_decode_request(&mut buf).unwrap().unwrap().as_ref(), b"abc");
    assert_eq!(&buf[..], b"d");

    let mut big = BytesMut::new();
    big.put_i32((MAX_FRAME + 1) as i32);
    assert!(try_decode_request(&mut big).is_err());
    let mut negative = BytesMut::new();
    negative.put_i32(-1);
    assert!(try_decode_request(&mut negative).is_err());

    let frame = encode_response_frame(b"hello");
    assert_eq!(&frame[..], &[0, 0, 0, 5, b'h', b'e', b'l', b'l', b'o']);
}

#[test]
fn response_header_v0_is_the_correlation_id() {
    let mut buf = BytesMut::new();
    put_response_header(&mut buf, 7);
    assert_eq!(&buf[..], &[0, 0, 0, 7]);
}

#[test]
fn tag_buffers_are_passed_over() {
    let mut src = Bytes::from_static(&[2, 0, 1, 9, 5, 2, 8, 8, 77]);
    skip_tag_buffer(&mut src).unwrap();
    assert_eq!(src.as_ref(), &[77]);
    let mut short = Bytes::from_static(&[1, 0, 4, 1]);
    assert!(skip_tag_buffer(&mut short).is_err());
}

#[test]
fn a_changed_batch_fails_its_checksum() {
    let records = vec![record(0, None, Bytes::from_static(b"value"), 5, vec![])];
    let mut batch = encode_record_batch(&records);
    let last = batch.len() - 1;
    batch[last] ^= 1;
    assert!(decode_records(&batch).is_err());

    let mut set = encode_message_set(&records);
    let last = set.len() - 1;
    set[last] ^= 1;
    assert!(decode_records(&set).is_err());
}

#[test]
fn message_sets_have_no_producer() {
    let records = vec![record(3, None, Bytes::from_static(b"v"), 5, vec![])];
    let set = encode_message_set(&records);
    let batches = decode_produce_batches(&set).unwrap();
    assert_eq!(batches.len(), 1);
    assert_eq!(batches[0].producer, RecordBatchProducer::none());
    assert!(!batches[0].producer.is_idempotent());
}

#[test]
fn nothing_is_nothing() {
    assert_eq!(encode_record_batch(&[]).len(), 0);
    assert_eq!(encode_message_set(&[]).len(), 0);
    assert!(decode_records(&[]).unwrap().is_empty());
}

#[test]
fn assignments_are_grouped_in_the_order_of_topics() {
    let asg = encode_consumer_assignment(&[
        ("b".to_string(), 1),
        ("a".to_string(), 4),
        ("b".to_string(), 0),
    ]);
    let decoded = decode_consumer_assignment(&asg).unwrap();
    assert_eq!(
        decoded,
        vec![("a".to_string(), 4), ("b".to_string(), 1), ("b".to_string(), 0)]
    );
    assert!(decode_consumer_assignment(&[0]).is_err());
    assert!(decode_consumer_subscription(&[0]).is_err());
}

#[test]
fn assignments_are_sorted_by_topic_only() {
    let given: Vec<(String, u32)> =
        [("b", 9), ("a", 5), ("b", 1), ("a", 5), ("b", 4), ("a", 0)]
            .iter()
            .map(|(t, p)| (t.to_string(), *p))
            .collect();
    let want: Vec<(String, u32)> =
        [("a", 5), ("a", 5), ("a", 0), ("b", 9), ("b", 1), ("b", 4)]
            .iter()
            .map(|(t, p)| (t.to_string(), *p))
            .collect();
    assert_eq!(decode_consumer_assignment(&encode_consumer_assignment(&given)).unwrap(), want);
}
