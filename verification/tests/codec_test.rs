//! Tests for the wire codecs: varints, gRPC framing, and the packet
//! protobuf encoding, including the encode-then-decode round trip.

use buildkit_client::frame::{frame_message, unframe_message, FrameBuffer};
use buildkit_client::proto::{
    decode_packet, decode_stat, decode_string1, encode_health_response, encode_packet,
    encode_stat, Packet, Stat, PACKET_REQ, PACKET_STAT,
};

fn sample_stat() -> Stat {
    Stat {
        path: "app/main.txt".to_string(),
        mode: 0o100644,
        uid: 1000,
        gid: 1000,
        size: 42,
        mod_time: 1700000000,
        linkname: String::new(),
        devmajor: 0,
        devminor: 0,
        xattrs: vec![("user.note".to_string(), b"hello".to_vec())],
    }
}

fn assert_stat_eq(a: &Stat, b: &Stat) {
    assert_eq!(a.path, b.path);
    assert_eq!(a.mode, b.mode);
    assert_eq!(a.uid, b.uid);
    assert_eq!(a.gid, b.gid);
    assert_eq!(a.size, b.size);
    assert_eq!(a.mod_time, b.mod_time);
    assert_eq!(a.linkname, b.linkname);
    assert_eq!(a.devmajor, b.devmajor);
    assert_eq!(a.devminor, b.devminor);
    assert_eq!(a.xattrs, b.xattrs);
}

fn assert_packet_eq(a: &Packet, b: &Packet) {
    assert_eq!(a.ptype, b.ptype);
    assert_eq!(a.id, b.id);
    assert_eq!(a.data, b.data);
    match (&a.stat, &b.stat) {
        (None, None) => {}
        (Some(x), Some(y)) => assert_stat_eq(x, y),
        _ => panic!("stat presence differs"),
    }
}

#[test]
fn test_stat_round_trip() {
    let st = sample_stat();
    let bytes = encode_stat(&st);
    let back = decode_stat(&bytes).unwrap();
    assert_stat_eq(&st, &back);
}

#[test]
fn test_packet_round_trip_with_stat() {
    let pkt = Packet { ptype: PACKET_STAT, stat: Some(sample_stat()), id: 3, data: vec![] };
    let bytes = encode_packet(&pkt);
    let back = decode_packet(&bytes).unwrap();
    assert_packet_eq(&pkt, &back);
}

#[test]
fn test_packet_round_trip_terminator() {
    // The end-of-stats marker is all defaults and encodes to nothing;
    // it still decodes back to itself.
    let pkt = Packet { ptype: PACKET_STAT, stat: None, id: 0, data: vec![] };
    let bytes = encode_packet(&pkt);
    assert!(bytes.is_empty());
    let back = decode_packet(&bytes).unwrap();
    assert_packet_eq(&pkt, &back);
}

#[test]
fn test_packet_round_trip_req() {
    let pkt = Packet { ptype: PACKET_REQ, stat: None, id: 7, data: b"xyz".to_vec() };
    let bytes = encode_packet(&pkt);
    let back = decode_packet(&bytes).unwrap();
    assert_packet_eq(&pkt, &back);
}

#[test]
fn test_decode_rejects_garbage() {
    // A lone continuation byte is a truncated varint.
    assert!(decode_packet(&vec![0xFFu8]).is_err());
}

#[test]
fn test_health_response_bytes() {
    // The health reply is the two-byte encoding of serving status one.
    assert_eq!(encode_health_response(), vec![0x08u8, 0x01u8]);
}

#[test]
fn test_string1_round_trip() {
    // A credentials request carries one string field; the encoding of
    // `registry-1.docker.io` is a tag, a length, and the bytes.
    let mut bytes: Vec<u8> = vec![0x0A, 20];
    bytes.extend_from_slice(b"registry-1.docker.io");
    let host = decode_string1(&bytes).unwrap();
    assert_eq!(host, "registry-1.docker.io");
}

#[test]
fn test_string1_skips_unknown_fields() {
    // A secret request carries annotations in a later field; the
    // decoder skips them and keeps the id.
    let mut bytes: Vec<u8> = vec![0x0A, 7];
    bytes.extend_from_slice(b"api_key");
    // Field 2, length-delimited: an annotation entry the handler ignores.
    bytes.extend_from_slice(&[0x12, 4]);
    bytes.extend_from_slice(b"abcd");
    let id = decode_string1(&bytes).unwrap();
    assert_eq!(id, "api_key");
}

#[test]
fn test_frame_round_trip() {
    let payload = b"framed-message".to_vec();
    let framed = frame_message(&payload);
    assert_eq!(framed.len(), payload.len() + 5);
    assert_eq!(framed[0], 0);
    assert_eq!(framed[4], payload.len() as u8);

    let back = unframe_message(&framed).unwrap();
    assert_eq!(back, payload);
}

#[test]
fn test_frame_buffer_reassembles_split_chunks() {
    let first = frame_message(&b"one".to_vec());
    let second = frame_message(&b"two-longer".to_vec());
    let mut all: Vec<u8> = Vec::new();
    all.extend_from_slice(&first);
    all.extend_from_slice(&second);

    // Feed the stream three bytes at a time.
    let mut fb = FrameBuffer::new();
    let mut out: Vec<Vec<u8>> = Vec::new();
    for chunk in all.chunks(3) {
        fb.push_chunk(&chunk.to_vec());
        while let Some((flag, payload)) = fb.next_message() {
            assert_eq!(flag, 0);
            out.push(payload);
        }
    }

    assert_eq!(out.len(), 2);
    assert_eq!(out[0], b"one".to_vec());
    assert_eq!(out[1], b"two-longer".to_vec());
}

#[test]
fn test_frame_buffer_waits_for_whole_frame() {
    let framed = frame_message(&b"abcdef".to_vec());
    let mut fb = FrameBuffer::new();
    fb.push_chunk(&framed[..4].to_vec());
    assert!(fb.next_message().is_none());
    fb.push_chunk(&framed[4..].to_vec());
    let (flag, payload) = fb.next_message().unwrap();
    assert_eq!(flag, 0);
    assert_eq!(payload, b"abcdef".to_vec());
}

#[test]
fn test_framed_packet_stream() {
    // A whole framed packet, as the daemon would send a REQ, comes back
    // out of the reassembly buffer and decodes to the same packet.
    let pkt = Packet { ptype: PACKET_REQ, stat: None, id: 2, data: vec![] };
    let framed = frame_message(&encode_packet(&pkt));

    let mut fb = FrameBuffer::new();
    fb.push_chunk(&framed);
    let (flag, payload) = fb.next_message().unwrap();
    assert_eq!(flag, 0);
    let back = decode_packet(&payload).unwrap();
    assert_packet_eq(&pkt, &back);
}
