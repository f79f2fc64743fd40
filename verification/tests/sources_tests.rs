use grpcurl::Cli;
use grpcurl::DescriptorPool;
use grpcurl::ExtensionModel;
use grpcurl::FieldKind;
use grpcurl::FileModel;
use grpcurl::FileOptionsModel;
use grpcurl::Format;
use grpcurl::build_user_agent;
use grpcurl::merge_extensions;
use grpcurl::missing_dependencies;

fn ext(name: &str, number: u32) -> ExtensionModel {
    ExtensionModel {
        name: name.to_string(),
        full_name: format!("test.{}", name),
        number,
        kind: FieldKind::Int32,
        repeated: false,
        extendee: "test.Extendee".to_string(),
    }
}

fn bare_file(name: &str, deps: &[&str]) -> FileModel {
    FileModel {
        name: name.to_string(),
        package: String::new(),
        syntax: "proto3".to_string(),
        dependencies: deps.iter().map(|d| d.to_string()).collect(),
        public_dependency: Vec::new(),
        weak_dependency: Vec::new(),
        options: FileOptionsModel {
            java_package: None,
            java_outer_classname: None,
            java_multiple_files: false,
            go_package: None,
            csharp_namespace: None,
            objc_class_prefix: None,
            php_namespace: None,
            ruby_package: None,
            swift_prefix: None,
            cc_enable_arenas: false,
            optimize_for: None,
        },
        messages: Vec::new(),
        enums: Vec::new(),
        services: Vec::new(),
        extensions: Vec::new(),
    }
}

#[test]
fn merge_extensions_dedups_by_number() {
    let refl = vec![ext("a", 100), ext("b", 101)];
    let file = vec![ext("b_file", 101), ext("c", 102)];
    let merged = merge_extensions(refl, file);
    let numbers: Vec<u32> = merged.iter().map(|e| e.number).collect();
    assert_eq!(numbers, vec![100, 101, 102]);
    // Reflection takes precedence on the duplicate number.
    assert_eq!(merged[1].name, "b");
}

#[test]
fn missing_dependencies_skips_pool_and_batch() {
    let pool = DescriptorPool { files: vec![bare_file("known.proto", &[])] };
    let batch = vec![
        bare_file("x.proto", &["known.proto", "absent_one.proto"]),
        bare_file("y.proto", &["x.proto", "absent_two.proto"]),
    ];
    let missing = missing_dependencies(&pool, &batch);
    assert_eq!(
        missing,
        vec!["absent_one.proto".to_string(), "absent_two.proto".to_string()]
    );
}

#[test]
fn user_agent_with_and_without_custom() {
    let mut cli = Cli::default();
    let config = cli.connection_config();
    assert_eq!(build_user_agent(&config), "grpcurl/0.1.0");
    cli.user_agent = Some("mytool/9".to_string());
    let config = cli.connection_config();
    assert_eq!(build_user_agent(&config), "mytool/9 grpcurl/0.1.0");
}

#[test]
fn cli_builders_copy_flags() {
    let mut cli = Cli::default();
    cli.plaintext = true;
    cli.connect_timeout_ms = Some(5000);
    cli.header = vec!["x-a: 1".to_string()];
    cli.rpc_header = vec!["x-b: 2".to_string()];
    cli.format = Format::Text;
    cli.very_verbose = true;
    let conn = cli.connection_config();
    assert!(conn.plaintext);
    assert_eq!(conn.connect_timeout_ms, Some(5000));
    let inv = cli.invoke_config();
    assert_eq!(inv.format, Format::Text);
    assert_eq!(inv.headers, vec!["x-a: 1".to_string()]);
    assert_eq!(inv.rpc_headers, vec!["x-b: 2".to_string()]);
    assert_eq!(inv.verbosity, 2);
}
