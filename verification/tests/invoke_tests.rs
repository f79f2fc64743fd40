use grpcurl::GrpcurlError;
use grpcurl::ReflectionVersion;
use grpcurl::StatusCode;
use grpcurl::StreamingShape;
use grpcurl::code_from_i32;
use grpcurl::composite_find;
use grpcurl::composite_list_services;
use grpcurl::is_unimplemented;
use grpcurl::latch_version;
use grpcurl::next_attempt;
use grpcurl::should_fall_back;
use grpcurl::split_method_name;
use grpcurl::status_code_name;
use grpcurl::status_exit_code;
use grpcurl::status_stanza;
use grpcurl::streaming_shape;
use grpcurl::summary_line;
use grpcurl::unary_request_count;

#[test]
fn split_on_slash() {
    let (service, method) = split_method_name("my.pkg.Service/Method").unwrap();
    assert_eq!(service, "my.pkg.Service");
    assert_eq!(method, "Method");
}

#[test]
fn split_on_last_dot_without_slash() {
    let (service, method) = split_method_name("my.pkg.Service.Method").unwrap();
    assert_eq!(service, "my.pkg.Service");
    assert_eq!(method, "Method");
}

#[test]
fn split_prefers_last_slash_over_dot() {
    let (service, method) = split_method_name("my.pkg.Service/Do.Thing").unwrap();
    assert_eq!(service, "my.pkg.Service");
    assert_eq!(method, "Do.Thing");
}

#[test]
fn split_without_separator_fails() {
    let err = split_method_name("Method").unwrap_err();
    assert!(matches!(err, GrpcurlError::InvalidArgument(_)));
    assert!(err.message().contains("Service/Method"));
}

#[test]
fn streaming_dispatch_table() {
    assert_eq!(streaming_shape(false, false), StreamingShape::Unary);
    assert_eq!(streaming_shape(false, true), StreamingShape::ServerStream);
    assert_eq!(streaming_shape(true, false), StreamingShape::ClientStream);
    assert_eq!(streaming_shape(true, true), StreamingShape::BidiStream);
}

#[test]
fn unary_counts_at_least_one() {
    assert_eq!(unary_request_count(0), 1);
    assert_eq!(unary_request_count(1), 1);
    assert_eq!(unary_request_count(5), 5);
}

#[test]
fn summary_line_pluralization() {
    assert_eq!(
        summary_line(1, 3),
        "Sent 1 request and received 3 responses"
    );
    assert_eq!(
        summary_line(2, 1),
        "Sent 2 requests and received 1 response"
    );
}

#[test]
fn status_stanza_format() {
    let text = status_stanza(StatusCode::InvalidArgument, "bad input");
    assert_eq!(text, "ERROR:\n  Code: InvalidArgument\n  Message: bad input\n");
    assert_eq!(status_stanza(StatusCode::Okay, ""), "OK\n");
}

#[test]
fn non_ok_status_exit_code() {
    // InvalidArgument is code 3; the process exits with 64 + 3.
    assert_eq!(status_exit_code(StatusCode::InvalidArgument), 67);
    assert_eq!(status_exit_code(StatusCode::Okay), 0);
    assert_eq!(status_exit_code(StatusCode::NotFound), 69);
}

#[test]
fn status_code_names() {
    assert_eq!(status_code_name(StatusCode::Okay), "OK");
    assert_eq!(status_code_name(StatusCode::Cancelled), "Canceled");
    assert_eq!(status_code_name(StatusCode::DeadlineExceeded), "DeadlineExceeded");
    assert_eq!(code_from_i32(12), StatusCode::Unimplemented);
    assert_eq!(code_from_i32(99), StatusCode::Unknown);
}

#[test]
fn version_latches_once() {
    // From unknown, the first success latches; later successes never
    // change the cell.
    let cell = ReflectionVersion::Unknown;
    let after_first = latch_version(cell, ReflectionVersion::V1alpha);
    assert_eq!(after_first, ReflectionVersion::V1alpha);
    let after_second = latch_version(after_first, ReflectionVersion::V1);
    assert_eq!(after_second, ReflectionVersion::V1alpha);
}

#[test]
fn version_fallback_only_while_unknown() {
    assert!(should_fall_back(ReflectionVersion::Unknown, true));
    assert!(!should_fall_back(ReflectionVersion::Unknown, false));
    assert!(!should_fall_back(ReflectionVersion::V1, true));
    // Once latched to v1alpha, the next attempt goes there directly.
    assert_eq!(next_attempt(ReflectionVersion::V1alpha), ReflectionVersion::V1alpha);
    assert_eq!(next_attempt(ReflectionVersion::Unknown), ReflectionVersion::V1);
}

#[test]
fn unimplemented_detection() {
    assert!(is_unimplemented(&GrpcurlError::ReflectionNotSupported));
    assert!(is_unimplemented(&GrpcurlError::GrpcStatus(
        StatusCode::Unimplemented,
        "no reflection".to_string(),
    )));
    assert!(!is_unimplemented(&GrpcurlError::NotFound("x".to_string())));
}

#[test]
fn composite_prefers_reflection() {
    let r: Result<u32, GrpcurlError> = Ok(1);
    let f: Result<u32, GrpcurlError> = Ok(2);
    assert_eq!(composite_find(r, f).unwrap(), 1);

    let r: Result<u32, GrpcurlError> = Err(GrpcurlError::ReflectionNotSupported);
    let f: Result<u32, GrpcurlError> = Ok(2);
    assert_eq!(composite_find(r, f).unwrap(), 2);
}

#[test]
fn composite_list_services_is_reflections() {
    let r: Result<Vec<String>, GrpcurlError> = Ok(vec!["a.B".to_string()]);
    assert_eq!(composite_list_services(r).unwrap(), vec!["a.B".to_string()]);
}

#[test]
fn error_messages_and_exit_codes() {
    let err = GrpcurlError::NotFound("my.Service".to_string());
    assert_eq!(err.message(), "Symbol not found: my.Service");
    assert!(err.is_not_found());
    assert_eq!(err.exit_code(), 1);

    let err = GrpcurlError::ReflectionNotSupported;
    assert_eq!(err.message(), "server does not support the reflection API");
    assert!(!err.is_not_found());

    let err = GrpcurlError::InvalidArgument("bad".to_string());
    assert_eq!(err.exit_code(), 2);

    let err = GrpcurlError::GrpcStatus(StatusCode::NotFound, "gone".to_string());
    assert!(err.is_not_found());
    assert_eq!(err.exit_code(), 69);
}
