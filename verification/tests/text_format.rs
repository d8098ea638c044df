use base64::engine::general_purpose::{STANDARD, URL_SAFE_NO_PAD};
use base64::Engine;

use tamichat::api::{default_query_url, topic_query};
use tamichat::clock::format_timestamp;
use tamichat::event::Reference;
use tamichat::format::{
    decode_public_key_from_base64, encode_public_key_to_base64, short_base64, truncate_base64,
    truncate_base64_display,
};
use tamichat::inspect::{decode_query_text, format_query_references_request};
use tamichat::keys::{Digest, Pointer, Process, PublicKey};
use tamichat::query::{
    QueryReferencesRequest, QueryReferencesRequestCountLwwElementReferences, QueryReferencesRequestCountReferences,
    QueryReferencesRequestEvents,
};
use tamichat::text::{
    decimal, decode_base64_std, decode_base64_url, has_prefix, is_blank, is_white_space, string_bytes,
    string_from_utf8,
};

#[test]
fn decimal_numerals() {
    assert_eq!(decimal(0), "0");
    assert_eq!(decimal(7), "7");
    assert_eq!(decimal(10), "10");
    assert_eq!(decimal(1_700_000_000_123), "1700000000123");
    assert_eq!(decimal(u64::MAX), u64::MAX.to_string());
}

#[test]
fn utf8_conversions() {
    assert_eq!(string_from_utf8("héllo".as_bytes()), Some("héllo".to_string()));
    assert_eq!(string_from_utf8(&[0xff, 0x41]), None);
    assert_eq!(string_bytes("é"), vec![0xc3, 0xa9]);
}

#[test]
fn white_space_matches_std() {
    for c in ['a', ' ', '\t', '\n', '\u{0b}', '\u{0c}', '\r', '\u{85}', '\u{a0}', '\u{1680}', '\u{2000}', '\u{200a}',
        '\u{200b}', '\u{2028}', '\u{2029}', '\u{202f}', '\u{205f}', '\u{3000}', '\u{feff}', 'x', '0', '\u{180e}']
    {
        assert_eq!(is_white_space(c), c.is_whitespace(), "char {:?}", c);
    }
}

#[test]
fn blank_matches_trim() {
    for s in ["", " ", "\t\n", " a ", "hello", "\u{3000}", "\u{200b}", " \u{a0}x"] {
        assert_eq!(is_blank(s), s.trim().is_empty(), "text {:?}", s);
    }
}

#[test]
fn prefixes() {
    assert!(has_prefix("Error: bad", "Error"));
    assert!(has_prefix("Error", "Error"));
    assert!(!has_prefix("Erro", "Error"));
    assert!(!has_prefix("error: x", "Error"));
    assert!(has_prefix("anything", ""));
    assert!(has_prefix("äbc", "ä"));
}

#[test]
fn base64_decoding() {
    assert_eq!(decode_base64_std("aGVsbG8="), Ok(b"hello".to_vec()));
    assert!(decode_base64_std("aGVsbG8").is_err());
    assert!(decode_base64_std("aGVsbG9=").is_err());
    assert_eq!(decode_base64_url("aGVsbG8"), Ok(b"hello".to_vec()));
    assert_eq!(decode_base64_url("-_8"), Ok(vec![0xfb, 0xff]));
    assert!(decode_base64_url("aGVsbG8=").is_err());
    assert_eq!(decode_base64_std(""), Ok(vec![]));
}

#[test]
fn public_key_text_round_trip() {
    let k = PublicKey { key_type: 1, key: (0u8..32).collect() };
    let text = encode_public_key_to_base64(&k);
    let mut bytes = Vec::new();
    prost::encoding::uint64::encode(1, &1u64, &mut bytes);
    prost::encoding::bytes::encode(2, &k.key, &mut bytes);
    assert_eq!(text, URL_SAFE_NO_PAD.encode(&bytes));
    assert_eq!(decode_public_key_from_base64(&text), Ok(k));
}

#[test]
fn public_key_text_errors() {
    let e = decode_public_key_from_base64("!!").unwrap_err();
    assert!(e.starts_with("Base64 decode error: "), "{}", e);
    let not_a_key = URL_SAFE_NO_PAD.encode([0x08u8]);
    let e = decode_public_key_from_base64(&not_a_key).unwrap_err();
    assert_eq!(e, "Protobuf decode error: failed to decode Protobuf message");
}

#[test]
fn truncation() {
    assert_eq!(truncate_base64("abcdef".to_string()), "abcdef");
    assert_eq!(truncate_base64_display("abcdef", 10), "abcdef");
    assert_eq!(truncate_base64_display("abcdef", 6), "abcdef");
    assert_eq!(truncate_base64_display("abcdef", 3), "abc...");
    assert_eq!(truncate_base64_display("abcdef", 0), "...");
    assert_eq!(truncate_base64_display("héllo", 3), "hé...");
    assert_eq!(short_base64("ABCDEFGHIJ", 4), "ABCD...");
    assert_eq!(short_base64("AB", 4), "AB");
    assert_eq!(short_base64("héllo", 3), "hé...");
}

#[test]
fn times_of_day() {
    assert_eq!(format_timestamp(0), "00:00");
    assert_eq!(format_timestamp(999), "00:00");
    assert_eq!(format_timestamp((13 * 3600 + 5 * 60) * 1000 + 42_000), "13:05");
    assert_eq!(format_timestamp(1_700_000_000_000), "22:13");
    assert_eq!(format_timestamp(86_400_000 + 59_999), "00:00");
    let far = format_timestamp(u64::MAX);
    assert_eq!(far.len(), 5);
    assert_eq!(&far[2..3], ":");
}

fn expected_format(request: &QueryReferencesRequest) -> String {
    let mut output = String::new();
    if let Some(ref reference) = request.reference {
        output.push_str("Reference:\n");
        output.push_str(&format!("  Type: {}\n", reference.reference_type));
        match reference.reference_type {
            2 => {
                if let Some(pointer) = Pointer::decode(&reference.reference) {
                    output.push_str("  Pointer:\n");
                    if let Some(ref system) = pointer.system {
                        output.push_str(&format!("    System: {}\n", URL_SAFE_NO_PAD.encode(system.encode())));
                    }
                    if let Some(ref process) = pointer.process {
                        output.push_str(&format!("    Process: {}\n", URL_SAFE_NO_PAD.encode(&process.process)));
                    }
                    output.push_str(&format!("    Logical Clock: {}\n", pointer.logical_clock));
                    if let Some(ref digest) = pointer.event_digest {
                        output.push_str(&format!("    Digest Type: {}\n", digest.digest_type));
                        output.push_str(&format!("    Digest: {}\n", URL_SAFE_NO_PAD.encode(&digest.digest)));
                    }
                } else {
                    output.push_str(&format!("  Raw: {}\n", URL_SAFE_NO_PAD.encode(&reference.reference)));
                }
            }
            3 => {
                if let Ok(topic) = String::from_utf8(reference.reference.clone()) {
                    output.push_str(&format!("  Topic: \"{}\"\n", topic));
                } else {
                    output.push_str(&format!("  Bytes: {}\n", URL_SAFE_NO_PAD.encode(&reference.reference)));
                }
            }
            _ => {
                output.push_str(&format!("  Raw: {}\n", URL_SAFE_NO_PAD.encode(&reference.reference)));
            }
        }
    }
    if let Some(ref cursor) = request.cursor {
        output.push_str(&format!("\nCursor: {}\n", URL_SAFE_NO_PAD.encode(cursor)));
    }
    if let Some(ref req_events) = request.request_events {
        output.push_str("\nRequest Events:\n");
        if let Some(from_type) = req_events.from_type {
            output.push_str(&format!("  From Type: {}\n", from_type));
        }
        if !req_events.count_lww_element_references.is_empty() {
            output.push_str(&format!(
                "  Count LWW Element References: {}\n",
                req_events.count_lww_element_references.len()
            ));
        }
        if !req_events.count_references.is_empty() {
            output.push_str(&format!("  Count References: {}\n", req_events.count_references.len()));
        }
    }
    if !request.count_lww_element_references.is_empty() {
        output.push_str(&format!(
            "\nCount LWW Element References: {}\n",
            request.count_lww_element_references.len()
        ));
        for (i, lww_ref) in request.count_lww_element_references.iter().enumerate() {
            output.push_str(&format!("  [{}]:\n", i));
            if let Ok(value_str) = String::from_utf8(lww_ref.value.clone()) {
                output.push_str(&format!("    Value: \"{}\"\n", value_str));
            } else {
                output.push_str(&format!("    Value: {}\n", URL_SAFE_NO_PAD.encode(&lww_ref.value)));
            }
            if let Some(from_type) = lww_ref.from_type {
                output.push_str(&format!("    From Type: {}\n", from_type));
            }
        }
    }
    if !request.count_references.is_empty() {
        output.push_str(&format!("\nCount References: {}\n", request.count_references.len()));
        for (i, count_ref) in request.count_references.iter().enumerate() {
            output.push_str(&format!("  [{}]:\n", i));
            if let Some(from_type) = count_ref.from_type {
                output.push_str(&format!("    From Type: {}\n", from_type));
            }
        }
    }
    if !request.extra_byte_references.is_empty() {
        output.push_str(&format!("\nExtra Byte References: {}\n", request.extra_byte_references.len()));
        for (i, bytes) in request.extra_byte_references.iter().enumerate() {
            if let Ok(text) = String::from_utf8(bytes.clone()) {
                output.push_str(&format!("  [{}]: \"{}\"\n", i, text));
            } else {
                output.push_str(&format!("  [{}]: {}\n", i, URL_SAFE_NO_PAD.encode(bytes)));
            }
        }
    }
    output
}

fn default_query() -> QueryReferencesRequest {
    let url = default_query_url();
    let start = url.find("query=").unwrap() + "query=".len();
    let end = url.find('&').unwrap();
    let bytes = URL_SAFE_NO_PAD.decode(&url[start..end]).unwrap();
    QueryReferencesRequest::decode(&bytes).expect("the default query decodes")
}

#[test]
fn default_query_is_a_pointer_query() {
    let q = default_query();
    let reference = q.reference.clone().unwrap();
    assert_eq!(reference.reference_type, 2);
    let pointer = Pointer::decode(&reference.reference).unwrap();
    assert_eq!(pointer.system.unwrap().key_type, 1);
    assert_eq!(pointer.logical_clock, 7);
    assert_eq!(q.request_events.clone().unwrap().from_type, Some(3));
    assert!(q.count_references.is_empty());
    assert_eq!(q.cursor, None);
}

#[test]
fn formatting_matches_the_client() {
    let pointer = Pointer {
        system: Some(PublicKey { key_type: 1, key: vec![1; 32] }),
        process: Some(Process { process: vec![2; 16] }),
        logical_clock: 3,
        event_digest: Some(Digest { digest_type: 1, digest: vec![4; 32] }),
    };
    let requests = vec![
        default_query(),
        topic_query("tamichat"),
        QueryReferencesRequest {
            reference: Some(Reference { reference_type: 2, reference: pointer.encode() }),
            cursor: Some(vec![0xff, 0x00]),
            request_events: Some(QueryReferencesRequestEvents {
                from_type: Some(3),
                count_lww_element_references: vec![QueryReferencesRequestCountLwwElementReferences::default()],
                count_references: vec![QueryReferencesRequestCountReferences::default(); 2],
            }),
            count_lww_element_references: vec![
                QueryReferencesRequestCountLwwElementReferences { value: b"yes".to_vec(), from_type: Some(4) },
                QueryReferencesRequestCountLwwElementReferences { value: vec![0xff], from_type: None },
            ],
            count_references: vec![QueryReferencesRequestCountReferences { from_type: None }],
            extra_byte_references: vec![b"topic".to_vec(), vec![0xc3]],
        },
        QueryReferencesRequest {
            reference: Some(Reference { reference_type: 2, reference: vec![0x08] }),
            ..Default::default()
        },
        QueryReferencesRequest {
            reference: Some(Reference { reference_type: 3, reference: vec![0xff, 0xfe] }),
            ..Default::default()
        },
        QueryReferencesRequest {
            reference: Some(Reference { reference_type: 9, reference: b"zz".to_vec() }),
            ..Default::default()
        },
        QueryReferencesRequest::default(),
    ];
    for q in requests {
        assert_eq!(format_query_references_request(&q), expected_format(&q), "{:?}", q);
    }
}

#[test]
fn topic_query_formatting_example() {
    let text = format_query_references_request(&topic_query("music"));
    assert_eq!(text, "Reference:\n  Type: 3\n  Topic: \"music\"\n\nRequest Events:\n  From Type: 3\n");
}

#[test]
fn query_decoder_messages() {
    assert_eq!(decode_query_text(""), "Error: Input is empty");
    assert!(decode_query_text("***").starts_with("Error decoding base64: "));
    let bad = URL_SAFE_NO_PAD.encode([0x0au8, 0x05]);
    assert_eq!(decode_query_text(&bad), "Error decoding protobuf: failed to decode Protobuf message");
    let good = URL_SAFE_NO_PAD.encode(topic_query("music").encode());
    assert_eq!(decode_query_text(&good), format_query_references_request(&topic_query("music")));
}
