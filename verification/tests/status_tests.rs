use grpcurl::AnyDetail;
use grpcurl::StatusCode;
use grpcurl::decode_status_details;
use grpcurl::status_details_stanza;

/// One varint-tagged length-delimited field.
fn ld_field(field: u8, payload: &[u8]) -> Vec<u8> {
    let mut out = vec![field << 3 | 2, payload.len() as u8];
    out.extend_from_slice(payload);
    out
}

fn any_bytes(type_url: &str, value: &[u8]) -> Vec<u8> {
    let mut out = ld_field(1, type_url.as_bytes());
    out.extend_from_slice(&ld_field(2, value));
    out
}

#[test]
fn decode_details_extracts_any_entries() {
    // A google.rpc.Status with code 3, a message, and one Any detail.
    let any = any_bytes("type.googleapis.com/google.rpc.ErrorInfo", b"\x0a\x03abc");
    let mut status = vec![1 << 3, 3]; // field 1 varint: code 3
    status.extend_from_slice(&ld_field(2, b"bad input")); // field 2: message
    status.extend_from_slice(&ld_field(3, &any)); // field 3: Any
    let details = decode_status_details(&status);
    assert_eq!(details.len(), 1);
    assert_eq!(details[0].type_url, "type.googleapis.com/google.rpc.ErrorInfo");
    assert_eq!(details[0].value, b"\x0a\x03abc".to_vec());
}

#[test]
fn decode_details_keeps_order() {
    let first = any_bytes("a/First", b"");
    let second = any_bytes("a/Second", b"x");
    let mut status = ld_field(3, &first);
    status.extend_from_slice(&ld_field(3, &second));
    let details = decode_status_details(&status);
    assert_eq!(details.len(), 2);
    assert_eq!(details[0].type_url, "a/First");
    assert_eq!(details[1].type_url, "a/Second");
    assert_eq!(details[1].value, b"x".to_vec());
}

#[test]
fn decode_details_malformed_yields_nothing() {
    // A truncated length-delimited field decodes to no details.
    let status = vec![3 << 3 | 2, 10, 1, 2];
    let details = decode_status_details(&status);
    assert!(details.is_empty());
    // So does an empty buffer.
    assert!(decode_status_details(&Vec::new()).is_empty());
}

#[test]
fn details_stanza_renders_blocks() {
    let details = vec![
        AnyDetail {
            type_url: "a/Resolved".to_string(),
            value: b"xy".to_vec(),
        },
        AnyDetail {
            type_url: "a/Opaque".to_string(),
            value: b"abc".to_vec(),
        },
    ];
    let rendered = vec![Some("{\n  \"k\": 1\n}".to_string()), None];
    let text = status_details_stanza(StatusCode::InvalidArgument, "bad", &details, &rendered);
    assert_eq!(
        text,
        "ERROR:\n  Code: InvalidArgument\n  Message: bad\n  Details:\n  - a/Resolved\n      {\n        \"k\": 1\n      }\n  - a/Opaque (3 bytes)\n"
    );
}

#[test]
fn ok_status_has_no_details_block() {
    let details: Vec<AnyDetail> = Vec::new();
    let rendered: Vec<Option<String>> = Vec::new();
    assert_eq!(
        status_details_stanza(StatusCode::Okay, "", &details, &rendered),
        "OK\n"
    );
}
