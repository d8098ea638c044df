use tamichat::content::{Claim, ClaimFieldEntry, Delete, ImageManifest, Post, Range};
use tamichat::event::{
    Event, Events, Index, Indices, LwwElement, LwwElementSet, ModerationTag, Reference, SignedEvent, VectorClock,
};
use tamichat::keys::{Digest, Pointer, Process, PublicKey};
use tamichat::query::{
    QueryReferencesRequest, QueryReferencesRequestCountLwwElementReferences, QueryReferencesRequestCountReferences,
    QueryReferencesRequestEvents, QueryReferencesResponse, QueryReferencesResponseEventItem,
    ResultEventsAndRelatedEventsAndCursor,
};
use tamichat::wire::{decode_varint, encode_varint};

fn prost_varint(v: u64) -> Vec<u8> {
    let mut out = Vec::new();
    prost::encoding::encode_varint(v, &mut out);
    out
}

#[test]
fn varint_matches_prost() {
    let values = [0u64, 1, 127, 128, 255, 300, 16_383, 16_384, 1 << 35, u64::MAX - 1, u64::MAX];
    for v in values {
        let mut out = Vec::new();
        encode_varint(v, &mut out);
        assert_eq!(out, prost_varint(v), "value {}", v);
        assert_eq!(decode_varint(&out, 0, out.len()), Some((v, out.len())));
    }
}

#[test]
fn varint_known_bytes() {
    let mut out = vec![9u8];
    encode_varint(300, &mut out);
    assert_eq!(out, vec![9, 0xac, 0x02]);
    assert_eq!(decode_varint(&out, 1, 3), Some((300, 2)));
}

#[test]
fn varint_truncated_or_overlong_is_refused() {
    assert_eq!(decode_varint(&[0x80, 0x80], 0, 2), None);
    assert_eq!(decode_varint(&[], 0, 0), None);
    let too_long = [0xffu8, 0xff, 0xff, 0xff, 0xff, 0xff, 0xff, 0xff, 0xff, 0x02];
    assert_eq!(decode_varint(&too_long, 0, too_long.len()), None);
    let max = [0xffu8, 0xff, 0xff, 0xff, 0xff, 0xff, 0xff, 0xff, 0xff, 0x01];
    assert_eq!(decode_varint(&max, 0, max.len()), Some((u64::MAX, 10)));
}

#[test]
fn public_key_encoding_matches_prost() {
    let k = PublicKey { key_type: 1, key: vec![7u8; 32] };
    let mut expected = Vec::new();
    prost::encoding::uint64::encode(1, &1u64, &mut expected);
    prost::encoding::bytes::encode(2, &vec![7u8; 32], &mut expected);
    assert_eq!(k.encode(), expected);
    assert_eq!(PublicKey::decode(&expected), Some(k));
}

#[test]
fn defaults_are_left_out() {
    assert_eq!(PublicKey::default().encode(), Vec::<u8>::new());
    assert_eq!(Event::default().encode(), Vec::<u8>::new());
    assert_eq!(PublicKey::decode(&[]), Some(PublicKey::default()));
    let zero = Pointer { logical_clock: 0, ..Default::default() };
    assert_eq!(zero.encode(), Vec::<u8>::new());
}

#[test]
fn pointer_encoding_matches_prost() {
    let p = Pointer {
        system: Some(PublicKey { key_type: 1, key: vec![1, 2, 3] }),
        process: Some(Process { process: vec![4, 5] }),
        logical_clock: 42,
        event_digest: Some(Digest { digest_type: 1, digest: vec![9; 4] }),
    };
    let mut expected = Vec::new();
    prost::encoding::bytes::encode(1, &PublicKey { key_type: 1, key: vec![1, 2, 3] }.encode(), &mut expected);
    prost::encoding::bytes::encode(2, &Process { process: vec![4, 5] }.encode(), &mut expected);
    prost::encoding::uint64::encode(3, &42u64, &mut expected);
    prost::encoding::bytes::encode(4, &Digest { digest_type: 1, digest: vec![9; 4] }.encode(), &mut expected);
    assert_eq!(p.encode(), expected);
    assert_eq!(Pointer::decode(&expected), Some(p));
}

fn sample_event() -> Event {
    Event {
        system: Some(PublicKey { key_type: 1, key: vec![0xaa; 32] }),
        process: Some(Process { process: vec![0x11; 16] }),
        logical_clock: 7,
        content_type: 3,
        content: Post { content: Some("hi".to_string()), images: vec![] }.encode(),
        vector_clock: Some(VectorClock { logical_clocks: vec![1, 300, 5] }),
        indices: Some(Indices { indices: vec![Index { index_type: 3, logical_clock: 6 }] }),
        lww_element_set: Some(LwwElementSet { operation: 1, value: b"v".to_vec(), unix_milliseconds: 9 }),
        lww_element: Some(LwwElement { value: b"name".to_vec(), unix_milliseconds: 10 }),
        references: vec![
            Reference { reference_type: 3, reference: b"tamichat".to_vec() },
            Reference { reference_type: 2, reference: vec![] },
        ],
        unix_milliseconds: Some(1_700_000_000_000),
    }
}

#[test]
fn event_encoding_matches_prost() {
    let e = sample_event();
    let mut expected = Vec::new();
    prost::encoding::bytes::encode(1, &e.system.as_ref().unwrap().encode(), &mut expected);
    prost::encoding::bytes::encode(2, &e.process.as_ref().unwrap().encode(), &mut expected);
    prost::encoding::uint64::encode(3, &7u64, &mut expected);
    prost::encoding::uint64::encode(4, &3u64, &mut expected);
    prost::encoding::bytes::encode(5, &e.content, &mut expected);
    let mut vc = Vec::new();
    prost::encoding::uint64::encode_packed(1, &[1, 300, 5], &mut vc);
    prost::encoding::bytes::encode(6, &vc, &mut expected);
    let mut index = Vec::new();
    prost::encoding::uint64::encode(1, &3u64, &mut index);
    prost::encoding::uint64::encode(2, &6u64, &mut index);
    let mut indices = Vec::new();
    prost::encoding::bytes::encode(1, &index, &mut indices);
    prost::encoding::bytes::encode(7, &indices, &mut expected);
    let mut set = Vec::new();
    prost::encoding::int32::encode(1, &1i32, &mut set);
    prost::encoding::bytes::encode(2, &b"v".to_vec(), &mut set);
    prost::encoding::uint64::encode(3, &9u64, &mut set);
    prost::encoding::bytes::encode(8, &set, &mut expected);
    let mut elem = Vec::new();
    prost::encoding::bytes::encode(1, &b"name".to_vec(), &mut elem);
    prost::encoding::uint64::encode(2, &10u64, &mut elem);
    prost::encoding::bytes::encode(9, &elem, &mut expected);
    let mut r1 = Vec::new();
    prost::encoding::uint64::encode(1, &3u64, &mut r1);
    prost::encoding::bytes::encode(2, &b"tamichat".to_vec(), &mut r1);
    prost::encoding::bytes::encode(10, &r1, &mut expected);
    let mut r2 = Vec::new();
    prost::encoding::uint64::encode(1, &2u64, &mut r2);
    prost::encoding::bytes::encode(10, &r2, &mut expected);
    prost::encoding::uint64::encode(11, &1_700_000_000_000u64, &mut expected);
    assert_eq!(e.encode(), expected);
}

#[test]
fn event_round_trip() {
    let e = sample_event();
    assert_eq!(Event::decode(&e.encode()), Some(e));
}

#[test]
fn negative_operation_round_trip() {
    let s = LwwElementSet { operation: -5, value: vec![], unix_milliseconds: 0 };
    let mut expected = Vec::new();
    prost::encoding::int32::encode(1, &-5i32, &mut expected);
    assert_eq!(s.encode(), expected);
    assert_eq!(LwwElementSet::decode(&expected), Some(s));
}

#[test]
fn unknown_fields_are_skipped() {
    let mut bytes = Vec::new();
    prost::encoding::uint64::encode(15, &99u64, &mut bytes);
    prost::encoding::bytes::encode(16, &vec![1u8, 2, 3], &mut bytes);
    prost::encoding::uint64::encode(1, &1u64, &mut bytes);
    bytes.extend_from_slice(&[0x1d, 1, 2, 3, 4]);
    bytes.extend_from_slice(&[0x21, 1, 2, 3, 4, 5, 6, 7, 8]);
    let k = PublicKey::decode(&bytes).expect("decodes");
    assert_eq!(k, PublicKey { key_type: 1, key: vec![] });
}

#[test]
fn later_scalar_wins_and_repeated_accumulate() {
    let mut bytes = Vec::new();
    prost::encoding::uint64::encode(1, &1u64, &mut bytes);
    prost::encoding::uint64::encode(1, &2u64, &mut bytes);
    assert_eq!(PublicKey::decode(&bytes), Some(PublicKey { key_type: 2, key: vec![] }));
    let mut vc = Vec::new();
    prost::encoding::uint64::encode_packed(1, &[1, 2], &mut vc);
    prost::encoding::uint64::encode(1, &3u64, &mut vc);
    assert_eq!(VectorClock::decode(&vc), Some(VectorClock { logical_clocks: vec![1, 2, 3] }));
}

#[test]
fn malformed_bytes_are_refused() {
    assert_eq!(PublicKey::decode(&[0x08]), None);
    assert_eq!(PublicKey::decode(&[0x12, 0x05, 1, 2]), None);
    assert_eq!(PublicKey::decode(&[0x0a, 0x00]), None);
    assert_eq!(PublicKey::decode(&[0x00]), None);
    assert_eq!(PublicKey::decode(&[0x0b]), None);
    assert_eq!(Event::decode(&[0x0a, 0x02, 0x08]), None);
    assert_eq!(Post::decode(&[0x0a, 0x01, 0xff]), None);
}

#[test]
fn content_messages_round_trip() {
    let image = ImageManifest {
        mime: "image/png".to_string(),
        width: 640,
        height: 480,
        byte_count: 12_345,
        process: Some(Process { process: vec![3; 16] }),
        sections: vec![Range { low: 0, high: 10 }, Range { low: 11, high: 20 }],
    };
    let post = Post { content: Some("hello".to_string()), images: vec![image.clone()] };
    assert_eq!(Post::decode(&post.encode()), Some(post));
    let claim = Claim {
        claim_type: 4,
        claim_fields: vec![ClaimFieldEntry { key: 1, value: "alice".to_string() }],
        images: vec![image],
    };
    assert_eq!(Claim::decode(&claim.encode()), Some(claim));
    let delete = Delete {
        process: Some(Process { process: vec![1; 16] }),
        logical_clock: 3,
        indices: Some(Indices { indices: vec![] }),
        unix_milliseconds: Some(0),
        content_type: 3,
    };
    assert_eq!(Delete::decode(&delete.encode()), Some(delete));
}

#[test]
fn post_encoding_matches_prost() {
    let post = Post { content: Some(String::new()), images: vec![] };
    let mut expected = Vec::new();
    prost::encoding::string::encode(1, &String::new(), &mut expected);
    assert_eq!(post.encode(), expected);
    assert_eq!(Post { content: None, images: vec![] }.encode(), Vec::<u8>::new());
}

#[test]
fn signed_event_and_events_round_trip() {
    let se = SignedEvent {
        signature: vec![5; 64],
        event: sample_event().encode(),
        moderation_tags: vec![ModerationTag { name: "spam".to_string(), level: 2 }],
    };
    assert_eq!(SignedEvent::decode(&se.encode()), Some(se.clone()));
    let events = Events { events: vec![se.clone(), SignedEvent::default()] };
    assert_eq!(Events::decode(&events.encode()), Some(events));
    let mut tag = Vec::new();
    prost::encoding::string::encode(1, &"spam".to_string(), &mut tag);
    prost::encoding::uint32::encode(2, &2u32, &mut tag);
    assert_eq!(se.moderation_tags[0].encode(), tag);
}

#[test]
fn query_messages_round_trip() {
    let q = QueryReferencesRequest {
        reference: Some(Reference { reference_type: 3, reference: b"music".to_vec() }),
        cursor: Some(vec![1, 2, 3]),
        request_events: Some(QueryReferencesRequestEvents {
            from_type: Some(3),
            count_lww_element_references: vec![QueryReferencesRequestCountLwwElementReferences {
                value: b"x".to_vec(),
                from_type: Some(0),
            }],
            count_references: vec![QueryReferencesRequestCountReferences { from_type: None }],
        }),
        count_lww_element_references: vec![],
        count_references: vec![QueryReferencesRequestCountReferences { from_type: Some(8) }],
        extra_byte_references: vec![b"a".to_vec(), vec![]],
    };
    assert_eq!(QueryReferencesRequest::decode(&q.encode()), Some(q));
    let resp = QueryReferencesResponse {
        items: vec![QueryReferencesResponseEventItem { event: Some(SignedEvent::default()), counts: vec![1, 2] }],
        related_events: vec![SignedEvent { signature: vec![1], event: vec![], moderation_tags: vec![] }],
        cursor: Some(vec![]),
        counts: vec![0, 7],
    };
    assert_eq!(QueryReferencesResponse::decode(&resp.encode()), Some(resp));
    let explore = ResultEventsAndRelatedEventsAndCursor {
        result_events: Some(Events { events: vec![] }),
        related_events: None,
        cursor: Some(vec![4]),
    };
    assert_eq!(ResultEventsAndRelatedEventsAndCursor::decode(&explore.encode()), Some(explore));
}

#[test]
fn optional_zero_is_written() {
    let c = QueryReferencesRequestCountReferences { from_type: Some(0) };
    let mut expected = Vec::new();
    prost::encoding::uint64::encode(1, &0u64, &mut expected);
    assert_eq!(c.encode(), expected);
    assert_eq!(QueryReferencesRequestCountReferences { from_type: None }.encode(), Vec::<u8>::new());
}

fn key(tag: u32, wire_type: u64) -> Vec<u8> {
    prost_varint(((tag as u64) << 3) | wire_type)
}

fn prost_skips_all(bytes: &[u8]) -> bool {
    let mut buf = bytes;
    while !buf.is_empty() {
        let (tag, wire_type) = match prost::encoding::decode_key(&mut buf) {
            Ok(k) => k,
            Err(_) => return false,
        };
        if prost::encoding::skip_field(wire_type, tag, &mut buf, prost::encoding::DecodeContext::default()).is_err() {
            return false;
        }
    }
    true
}

fn nested_groups(depth: u32, inner: &[u8]) -> Vec<u8> {
    let mut out = Vec::new();
    for i in 0..depth {
        out.extend(key(20 + i, 3));
    }
    out.extend_from_slice(inner);
    for i in (0..depth).rev() {
        out.extend(key(20 + i, 4));
    }
    out
}

#[test]
fn unknown_groups_are_skipped() {
    let mut bytes = key(9, 3);
    bytes.extend(key(1, 0));
    bytes.push(5);
    bytes.extend(key(2, 2));
    bytes.extend_from_slice(&[2, 0xaa, 0xbb]);
    bytes.extend(key(3, 1));
    bytes.extend_from_slice(&[0; 8]);
    bytes.extend(key(4, 5));
    bytes.extend_from_slice(&[0; 4]);
    bytes.extend(key(9, 4));
    bytes.extend(key(1, 0));
    bytes.push(1);
    assert_eq!(PublicKey::decode(&bytes), Some(PublicKey { key_type: 1, key: vec![] }));
    assert!(prost_skips_all(&bytes[..bytes.len() - 2]));
}

#[test]
fn group_skipping_matches_prost() {
    let mut inputs: Vec<Vec<u8>> = Vec::new();
    for depth in [1u32, 2, 50, 98, 99, 100, 101] {
        inputs.push(nested_groups(depth, &[]));
        let mut field = key(5, 0);
        field.push(1);
        inputs.push(nested_groups(depth, &field));
    }
    let mut mismatched = key(29, 3);
    mismatched.extend(key(28, 4));
    inputs.push(mismatched);
    inputs.push(key(29, 4));
    inputs.push(key(29, 3));
    let mut bad_wire_type = key(29, 3);
    bad_wire_type.extend(key(1, 6));
    bad_wire_type.extend(key(29, 4));
    inputs.push(bad_wire_type);
    let mut zero_tag = key(29, 3);
    zero_tag.push(0);
    zero_tag.extend(key(29, 4));
    inputs.push(zero_tag);
    let mut short = key(29, 3);
    short.extend(key(2, 2));
    short.extend_from_slice(&[5, 1]);
    short.extend(key(29, 4));
    inputs.push(short);
    let mut two = nested_groups(3, &[]);
    two.extend(nested_groups(2, &key(7, 5)));
    inputs.push(two);
    for b in inputs {
        assert_eq!(PublicKey::decode(&b).is_some(), prost_skips_all(&b), "{:?}", b);
        assert_eq!(Event::decode(&b).is_some(), prost_skips_all(&b), "{:?}", b);
    }
}

#[test]
fn known_field_as_group_is_refused() {
    let mut bytes = key(1, 3);
    bytes.extend(key(1, 4));
    assert_eq!(PublicKey::decode(&bytes), None);
}
