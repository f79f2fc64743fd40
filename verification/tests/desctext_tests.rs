use grpcurl::EnumModel;
use grpcurl::FileModel;
use grpcurl::FileOptionsModel;
use grpcurl::format_proto_file;
use grpcurl::EnumValueModel;
use grpcurl::FieldKind;
use grpcurl::FieldModel;
use grpcurl::MessageModel;
use grpcurl::MethodModel;
use grpcurl::ServiceModel;
use grpcurl::format_enum;
use grpcurl::format_enum_value;
use grpcurl::format_field;
use grpcurl::format_message;
use grpcurl::format_method;
use grpcurl::format_service;
use grpcurl::short_name;
use grpcurl::to_lower_camel_case;

fn field(name: &str, full: &str, number: u32, kind: FieldKind) -> FieldModel {
    FieldModel {
        name: name.to_string(),
        full_name: full.to_string(),
        number,
        kind,
        repeated: false,
        map_kinds: None,
        oneof_index: None,
        proto3_optional: false,
        is_group: false,
        deprecated: false,
        packed: None,
        jstype: None,
        json_name: Some(to_lower_camel_case(name)),
    }
}

fn method(name: &str, full: &str, input: &str, output: &str) -> MethodModel {
    MethodModel {
        name: name.to_string(),
        full_name: full.to_string(),
        input_type: input.to_string(),
        output_type: output.to_string(),
        client_streaming: false,
        server_streaming: false,
    }
}

fn greeter() -> ServiceModel {
    ServiceModel {
        name: "Greeter".to_string(),
        full_name: "test.v1.Greeter".to_string(),
        methods: vec![
            method(
                "SayHello",
                "test.v1.Greeter.SayHello",
                "test.v1.HelloRequest",
                "test.v1.HelloReply",
            ),
            method(
                "SayGoodbye",
                "test.v1.Greeter.SayGoodbye",
                "test.v1.HelloRequest",
                "test.v1.HelloReply",
            ),
        ],
    }
}

fn hello_request() -> MessageModel {
    MessageModel {
        name: "HelloRequest".to_string(),
        full_name: "test.v1.HelloRequest".to_string(),
        fields: vec![field("name", "test.v1.HelloRequest.name", 1, FieldKind::Str)],
        oneofs: Vec::new(),
        nested_messages: Vec::new(),
        nested_enums: Vec::new(),
        reserved_ranges: Vec::new(),
        reserved_names: Vec::new(),
        is_map_entry: false,
    }
}

fn status_enum() -> EnumModel {
    EnumModel {
        name: "Status".to_string(),
        full_name: "test.v1.Status".to_string(),
        values: vec![
            EnumValueModel {
                name: "UNKNOWN".to_string(),
                full_name: "test.v1.Status.UNKNOWN".to_string(),
                number: 0,
            },
            EnumValueModel {
                name: "ACTIVE".to_string(),
                full_name: "test.v1.Status.ACTIVE".to_string(),
                number: 1,
            },
        ],
    }
}

#[test]
fn service_text() {
    let text = format_service(&greeter());
    assert!(text.contains("service Greeter {"));
    assert!(text.contains("rpc SayGoodbye"));
    assert!(text.contains("rpc SayHello"));
    // Methods are sorted alphabetically
    let goodbye_pos = text.find("SayGoodbye").unwrap();
    let hello_pos = text.find("SayHello").unwrap();
    assert!(goodbye_pos < hello_pos);
}

#[test]
fn message_text() {
    let text = format_message(&hello_request());
    assert_eq!(text, "message HelloRequest {\n  string name = 1;\n}");
}

#[test]
fn method_text() {
    let m = method(
        "SayHello",
        "test.v1.Greeter.SayHello",
        "test.v1.HelloRequest",
        "test.v1.HelloReply",
    );
    let text = format_method(&m);
    assert_eq!(
        text,
        "rpc SayHello ( .test.v1.HelloRequest ) returns ( .test.v1.HelloReply );"
    );
}

#[test]
fn streaming_method_text() {
    let mut m = method("Chat", "test.v1.Greeter.Chat", "test.v1.Msg", "test.v1.Msg");
    m.client_streaming = true;
    m.server_streaming = true;
    let text = format_method(&m);
    assert_eq!(
        text,
        "rpc Chat ( stream .test.v1.Msg ) returns ( stream .test.v1.Msg );"
    );
}

#[test]
fn enum_text() {
    let text = format_enum(&status_enum());
    assert!(text.contains("enum Status {"));
    assert!(text.contains("UNKNOWN = 0;"));
    assert!(text.contains("ACTIVE = 1;"));
}

#[test]
fn field_text() {
    let f = field("name", "test.v1.HelloRequest.name", 1, FieldKind::Str);
    assert_eq!(format_field(&f), "string name = 1;");
}

#[test]
fn repeated_field_text() {
    let mut f = field("tags", "test.v1.HelloRequest.tags", 3, FieldKind::Str);
    f.repeated = true;
    assert_eq!(format_field(&f), "repeated string tags = 3;");
}

#[test]
fn map_field_text() {
    let mut f = field(
        "labels",
        "test.v1.HelloRequest.labels",
        4,
        FieldKind::MessageType("test.v1.HelloRequest.LabelsEntry".to_string()),
    );
    f.map_kinds = Some((Box::new(FieldKind::Str), Box::new(FieldKind::Int32)));
    assert_eq!(format_field(&f), "map<string, int32> labels = 4;");
}

#[test]
fn field_json_name_option_text() {
    let mut f = field("user_id", "test.v1.HelloRequest.user_id", 2, FieldKind::Int64);
    f.json_name = Some("uid".to_string());
    assert_eq!(format_field(&f), "int64 user_id = 2 [json_name = \"uid\"];");
}

#[test]
fn enum_value_text() {
    let v = EnumValueModel {
        name: "ACTIVE".to_string(),
        full_name: "test.v1.Status.ACTIVE".to_string(),
        number: 1,
    };
    assert_eq!(format_enum_value(&v), "ACTIVE = 1;");
}

#[test]
fn short_name_same_package() {
    assert_eq!(
        short_name("test.v1.HelloRequest", "test.v1"),
        "HelloRequest"
    );
    assert_eq!(short_name("other.pkg.Foo", "test.v1"), ".other.pkg.Foo");
    assert_eq!(short_name("Foo", ""), "Foo");
}

#[test]
fn lower_camel_case_mapping() {
    assert_eq!(to_lower_camel_case("user_id"), "userId");
    assert_eq!(to_lower_camel_case("name"), "name");
    assert_eq!(to_lower_camel_case("a_b_c"), "aBC");
}

#[test]
fn format_proto_file_output() {
    let file = FileModel {
        name: "test.proto".to_string(),
        package: "test.v1".to_string(),
        syntax: "proto3".to_string(),
        dependencies: Vec::new(),
        public_dependency: Vec::new(),
        weak_dependency: Vec::new(),
        options: FileOptionsModel {
            java_package: None,
            java_outer_classname: None,
            java_multiple_files: false,
            go_package: None,
            csharp_namespace: None,
            objc_class_prefix: None,
            php_namespace: None,
            ruby_package: None,
            swift_prefix: None,
            cc_enable_arenas: false,
            optimize_for: None,
        },
        messages: vec![
            hello_request(),
            grpcurl::MessageModel {
                name: "HelloReply".to_string(),
                full_name: "test.v1.HelloReply".to_string(),
                fields: vec![field("message", "test.v1.HelloReply.message", 1, FieldKind::Str)],
                oneofs: Vec::new(),
                nested_messages: Vec::new(),
                nested_enums: Vec::new(),
                reserved_ranges: Vec::new(),
                reserved_names: Vec::new(),
                is_map_entry: false,
            },
        ],
        enums: vec![status_enum()],
        services: vec![grpcurl::ServiceModel {
            name: "Greeter".to_string(),
            full_name: "test.v1.Greeter".to_string(),
            methods: vec![
                method(
                    "SayHello",
                    "test.v1.Greeter.SayHello",
                    "test.v1.HelloRequest",
                    "test.v1.HelloReply",
                ),
                method(
                    "SayGoodbye",
                    "test.v1.Greeter.SayGoodbye",
                    "test.v1.HelloRequest",
                    "test.v1.HelloReply",
                ),
            ],
        }],
        extensions: Vec::new(),
    };
    let text = format_proto_file(&file);

    // Syntax and package header
    assert!(text.starts_with("syntax = \"proto3\";\n"));
    assert!(text.contains("package test.v1;\n"));

    // Messages use short names within the same package
    assert!(text.contains("message HelloRequest {"));
    assert!(text.contains("message HelloReply {"));

    // The service preserves method order and uses short names
    assert!(text.contains("service Greeter {"));
    assert!(text.contains("rpc SayHello ( HelloRequest ) returns ( HelloReply );"));
    assert!(text.contains("rpc SayGoodbye ( HelloRequest ) returns ( HelloReply );"));
    let hello_pos = text.find("rpc SayHello").unwrap();
    let goodbye_pos = text.find("rpc SayGoodbye").unwrap();
    assert!(hello_pos < goodbye_pos);

    // The enum lists its values
    assert!(text.contains("enum Status {"));
    assert!(text.contains("UNKNOWN = 0;"));
    assert!(text.contains("ACTIVE = 1;"));
}
