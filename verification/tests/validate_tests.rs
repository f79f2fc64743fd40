use grpcurl::Cli;
use grpcurl::Command;
use grpcurl::Format;
use grpcurl::normalize_args;
use grpcurl::validate;

fn args(list: &[&str]) -> Vec<String> {
    list.iter().map(|s| s.to_string()).collect()
}

#[test]
fn too_few_arguments() {
    let cli = Cli::default();
    let (_, result) = validate(&cli);
    assert_eq!(result.unwrap_err(), "Too few arguments.");
}

#[test]
fn plaintext_and_insecure_conflict() {
    let mut cli = Cli::default();
    cli.plaintext = true;
    cli.insecure = true;
    cli.args = args(&["localhost:8080", "list"]);
    let (_, result) = validate(&cli);
    assert!(result.unwrap_err().contains("insecure"));
}

#[test]
fn cert_without_key_rejected() {
    let mut cli = Cli::default();
    cli.cert = Some("foo.pem".to_string());
    cli.args = args(&["localhost:8080", "list"]);
    let (_, result) = validate(&cli);
    assert!(result.unwrap_err().contains("cert"));
}

#[test]
fn protoset_and_proto_conflict() {
    let mut cli = Cli::default();
    cli.protoset = args(&["a.pb"]);
    cli.proto = args(&["b.proto"]);
    cli.args = args(&["localhost:8080", "list"]);
    let (_, result) = validate(&cli);
    assert!(result.unwrap_err().contains("protoset"));
}

#[test]
fn negative_connect_timeout_rejected() {
    let mut cli = Cli::default();
    cli.connect_timeout_ms = Some(-1000);
    cli.args = args(&["localhost:8080", "list"]);
    let (_, result) = validate(&cli);
    assert!(result.unwrap_err().contains("connect-timeout"));
}

#[test]
fn unknown_format_rejected() {
    let err = Format::from_str("xml").unwrap_err();
    assert!(err.contains("format"));
}

#[test]
fn servername_authority_mismatch_rejected() {
    let mut cli = Cli::default();
    cli.servername = Some("x".to_string());
    cli.authority = Some("y".to_string());
    cli.args = args(&["localhost:8080", "list"]);
    let (_, result) = validate(&cli);
    assert!(result.unwrap_err().contains("servername"));
}

#[test]
fn too_many_arguments() {
    let mut cli = Cli::default();
    cli.args = args(&["localhost:8080", "list", "foo", "bar"]);
    let (_, result) = validate(&cli);
    assert_eq!(result.unwrap_err(), "Too many arguments.");
}

#[test]
fn list_with_address_parses() {
    let mut cli = Cli::default();
    cli.args = args(&["localhost:8080", "list"]);
    let (warnings, result) = validate(&cli);
    assert!(warnings.is_empty());
    let parsed = result.unwrap();
    assert_eq!(parsed.address.as_deref(), Some("localhost:8080"));
    assert_eq!(parsed.command, Command::List);
    assert!(parsed.symbol.is_none());
}

#[test]
fn describe_with_symbol_parses() {
    let mut cli = Cli::default();
    cli.protoset = args(&["a.pb"]);
    cli.args = args(&["describe", "my.pkg.Service"]);
    let (warnings, result) = validate(&cli);
    // --reflect-header/-d warnings absent; no warnings expected
    assert!(warnings.is_empty());
    let parsed = result.unwrap();
    assert!(parsed.address.is_none());
    assert_eq!(parsed.command, Command::Describe);
    assert_eq!(parsed.symbol.as_deref(), Some("my.pkg.Service"));
}

#[test]
fn lone_symbol_is_taken_as_address() {
    // A single positional that is not a verb is read as the address, and
    // the verb or method symbol is then missing.
    let mut cli = Cli::default();
    cli.protoset = args(&["a.pb"]);
    cli.args = args(&["my.pkg.Service/Method"]);
    let (_, result) = validate(&cli);
    assert_eq!(result.unwrap_err(), "Too few arguments.");
}

#[test]
fn invoke_parses_symbol() {
    let mut cli = Cli::default();
    cli.args = args(&["localhost:8080", "my.pkg.Service/Method"]);
    let (_, result) = validate(&cli);
    let parsed = result.unwrap();
    assert_eq!(parsed.command, Command::Invoke);
    assert_eq!(parsed.symbol.as_deref(), Some("my.pkg.Service/Method"));
}

#[test]
fn emit_defaults_warning_with_text_format() {
    let mut cli = Cli::default();
    cli.emit_defaults = true;
    cli.format = Format::Text;
    cli.args = args(&["localhost:8080", "list"]);
    let (warnings, result) = validate(&cli);
    assert!(result.is_ok());
    assert_eq!(warnings.len(), 1);
    assert!(warnings[0].contains("emit-defaults"));
}

#[test]
fn use_reflection_false_without_sources_rejected() {
    let mut cli = Cli::default();
    cli.use_reflection = Some(false);
    cli.args = args(&["localhost:8080", "list"]);
    let (_, result) = validate(&cli);
    assert!(result.unwrap_err().contains("use-reflection"));
}

#[test]
fn normalize_single_dash_long_flags() {
    let input = args(&["-plaintext", "-connect-timeout=5", "-d", "{}", "--proto", "a.proto", "-x"]);
    let out = normalize_args(&input);
    assert_eq!(out[0], "--plaintext");
    assert_eq!(out[1], "--connect-timeout=5");
    assert_eq!(out[2], "-d");
    assert_eq!(out[3], "{}");
    assert_eq!(out[4], "--proto");
    assert_eq!(out[5], "a.proto");
    assert_eq!(out[6], "-x");
}
