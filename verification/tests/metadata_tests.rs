use grpcurl::HeaderValue;
use grpcurl::MetadataEntry;
use grpcurl::expand_headers;
use grpcurl::filter_grpc_internal_headers;
use grpcurl::metadata_from_headers;
use grpcurl::metadata_to_string;
use grpcurl::try_base64_decode;

fn ascii_value(md: &Vec<MetadataEntry>, name: &str) -> Option<String> {
    for e in md {
        if e.name == name {
            if let HeaderValue::Ascii(s) = &e.value {
                return Some(s.clone());
            }
        }
    }
    None
}

fn binary_value(md: &Vec<MetadataEntry>, name: &str) -> Option<Vec<u8>> {
    for e in md {
        if e.name == name {
            if let HeaderValue::Binary(b) = &e.value {
                return Some(b.clone());
            }
        }
    }
    None
}

#[test]
fn parse_ascii_header() {
    let headers = vec!["Authorization: Bearer token123".to_string()];
    let md = metadata_from_headers(&headers);
    let val = ascii_value(&md, "authorization").expect("header exists");
    assert_eq!(val, "Bearer token123");
}

#[test]
fn parse_header_lowercases_name() {
    let headers = vec!["Content-Type: application/grpc".to_string()];
    let md = metadata_from_headers(&headers);
    assert!(ascii_value(&md, "content-type").is_some());
}

#[test]
fn parse_header_no_colon() {
    let headers = vec!["myheader".to_string()];
    let md = metadata_from_headers(&headers);
    let val = ascii_value(&md, "myheader").expect("header exists");
    assert_eq!(val, "");
}

#[test]
fn parse_header_value_with_colons() {
    let headers = vec!["x-time: 12:34:56".to_string()];
    let md = metadata_from_headers(&headers);
    let val = ascii_value(&md, "x-time").expect("header exists");
    assert_eq!(val, "12:34:56");
}

#[test]
fn parse_binary_header_base64() {
    let headers = vec!["x-data-bin: aGVsbG8=".to_string()];
    let md = metadata_from_headers(&headers);
    let val = binary_value(&md, "x-data-bin").expect("binary header exists");
    assert_eq!(val, b"hello".to_vec());
}

#[test]
fn parse_multiple_headers() {
    let headers = vec!["x-first: one".to_string(), "x-second: two".to_string()];
    let md = metadata_from_headers(&headers);
    assert!(ascii_value(&md, "x-first").is_some());
    assert!(ascii_value(&md, "x-second").is_some());
}

#[test]
fn parse_empty_name_skipped() {
    let headers = vec![": value only".to_string()];
    let md = metadata_from_headers(&headers);
    assert_eq!(md.len(), 0);
}

#[test]
fn expand_env_vars_in_headers() {
    let env = vec![("GRPCURL_TEST_TOKEN".to_string(), "secret123".to_string())];
    let headers = vec!["Authorization: Bearer ${GRPCURL_TEST_TOKEN}".to_string()];
    let expanded = expand_headers(&headers, &env).unwrap();
    assert_eq!(expanded[0], "Authorization: Bearer secret123");
}

#[test]
fn expand_env_vars_missing_var_fails() {
    let env: Vec<(String, String)> = Vec::new();
    let headers = vec!["x-val: ${GRPCURL_NONEXISTENT_VAR_12345}".to_string()];
    let result = expand_headers(&headers, &env);
    assert!(result.is_err());
    let err = result.unwrap_err();
    assert!(err.message().contains("GRPCURL_NONEXISTENT_VAR_12345"));
}

#[test]
fn expand_env_vars_no_expansion_needed() {
    let env: Vec<(String, String)> = Vec::new();
    let headers = vec!["x-plain: just a value".to_string()];
    let expanded = expand_headers(&headers, &env).unwrap();
    assert_eq!(expanded[0], "x-plain: just a value");
}

#[test]
fn metadata_to_string_format() {
    let md = vec![
        MetadataEntry { name: "x-beta".to_string(), value: HeaderValue::Ascii("two".to_string()) },
        MetadataEntry { name: "x-alpha".to_string(), value: HeaderValue::Ascii("one".to_string()) },
    ];
    let output = metadata_to_string(&md);
    assert!(output.contains("x-alpha: one"));
    assert!(output.contains("x-beta: two"));
    let lines: Vec<&str> = output.lines().collect();
    assert_eq!(lines.len(), 2);
    assert!(lines[0].starts_with("x-alpha"));
}

#[test]
fn metadata_to_string_empty() {
    let md: Vec<MetadataEntry> = Vec::new();
    assert_eq!(metadata_to_string(&md), "(empty)");
}

#[test]
fn header_round_trip_single() {
    // Parsing `k: v` then rendering yields the lowercased key and the value.
    let headers = vec!["X-Custom: some value".to_string()];
    let md = metadata_from_headers(&headers);
    assert_eq!(metadata_to_string(&md), "x-custom: some value");
}

#[test]
fn binary_header_round_trip() {
    // A binary header re-encodes in standard base64 on rendering.
    let headers = vec!["x-data-bin: aGVsbG8=".to_string()];
    let md = metadata_from_headers(&headers);
    assert_eq!(metadata_to_string(&md), "x-data-bin: aGVsbG8=");
}

#[test]
fn base64_decode_standard() {
    let decoded = try_base64_decode("aGVsbG8=");
    assert_eq!(decoded, Some(b"hello".to_vec()));
}

#[test]
fn base64_decode_no_padding() {
    let decoded = try_base64_decode("aGVsbG8");
    assert_eq!(decoded, Some(b"hello".to_vec()));
}

#[test]
fn base64_decode_invalid() {
    let decoded = try_base64_decode("not!valid!base64!@#$");
    assert!(decoded.is_none());
}

#[test]
fn base64_decode_url_safe() {
    // `-` and `_` only decode under the URL-safe alphabet.
    let decoded = try_base64_decode("-_-_");
    assert!(decoded.is_some());
}

#[test]
fn filter_drops_pseudo_headers() {
    let md = vec![
        MetadataEntry {
            name: "grpc-status".to_string(),
            value: HeaderValue::Ascii("0".to_string()),
        },
        MetadataEntry {
            name: "x-keep".to_string(),
            value: HeaderValue::Ascii("yes".to_string()),
        },
        MetadataEntry {
            name: "grpc-message".to_string(),
            value: HeaderValue::Ascii("ok".to_string()),
        },
        MetadataEntry {
            name: "grpc-encoding".to_string(),
            value: HeaderValue::Ascii("gzip".to_string()),
        },
    ];
    let kept = filter_grpc_internal_headers(md);
    assert_eq!(kept.len(), 1);
    assert_eq!(kept[0].name, "x-keep");
}
