use grpcurl::DescriptorPool;
use grpcurl::FieldKind;
use grpcurl::FieldModel;
use grpcurl::FileModel;
use grpcurl::FileOptionsModel;
use grpcurl::MessageModel;
use grpcurl::TemplateValue;
use grpcurl::make_template;

fn no_options() -> FileOptionsModel {
    FileOptionsModel {
        java_package: None,
        java_outer_classname: None,
        java_multiple_files: false,
        go_package: None,
        csharp_namespace: None,
        objc_class_prefix: None,
        php_namespace: None,
        ruby_package: None,
        swift_prefix: None,
        cc_enable_arenas: false,
        optimize_for: None,
    }
}

fn field(name: &str, number: u32, kind: FieldKind) -> FieldModel {
    FieldModel {
        name: name.to_string(),
        full_name: format!("test.PingRequest.{}", name),
        number,
        kind,
        repeated: false,
        map_kinds: None,
        oneof_index: None,
        proto3_optional: false,
        is_group: false,
        deprecated: false,
        packed: None,
        jstype: None,
        json_name: None,
    }
}

fn message(full: &str, fields: Vec<FieldModel>) -> MessageModel {
    let name = full.rsplit('.').next().unwrap_or(full).to_string();
    MessageModel {
        name,
        full_name: full.to_string(),
        fields,
        oneofs: Vec::new(),
        nested_messages: Vec::new(),
        nested_enums: Vec::new(),
        reserved_ranges: Vec::new(),
        reserved_names: Vec::new(),
        is_map_entry: false,
    }
}

fn pool_of(messages: Vec<MessageModel>) -> DescriptorPool {
    DescriptorPool {
        files: vec![FileModel {
            name: "test.proto".to_string(),
            package: "test".to_string(),
            syntax: "proto3".to_string(),
            dependencies: Vec::new(),
            public_dependency: Vec::new(),
            weak_dependency: Vec::new(),
            options: no_options(),
            messages,
            enums: Vec::new(),
            services: Vec::new(),
            extensions: Vec::new(),
        }],
    }
}

#[test]
fn describe_template_sets_structured_fields() {
    // A template of a message sets its message, repeated and map fields
    // and leaves the scalars at their defaults.
    let inner = message("test.Inner", vec![field("value", 1, FieldKind::Int32)]);
    let mut repeated = field("tags", 3, FieldKind::Str);
    repeated.repeated = true;
    let mut map_field = field("labels", 4, FieldKind::MessageType("test.LabelsEntry".to_string()));
    map_field.map_kinds = Some((Box::new(FieldKind::Str), Box::new(FieldKind::Int32)));
    let outer = message(
        "test.PingRequest",
        vec![
            field("msg", 1, FieldKind::Str),
            field("inner", 2, FieldKind::MessageType("test.Inner".to_string())),
            repeated,
            map_field,
        ],
    );
    let pool = pool_of(vec![inner, outer]);
    let t = make_template(&pool, &pool.files[0].messages[1]);
    assert_eq!(t.full_name, "test.PingRequest");
    // The scalar field contributes no entry; the others do, in order.
    assert_eq!(t.entries.len(), 3);
    assert_eq!(t.entries[0].0, "inner");
    match &t.entries[0].1 {
        TemplateValue::Message(sub) => assert_eq!(sub.full_name, "test.Inner"),
        _ => panic!("expected a message entry"),
    }
    assert_eq!(t.entries[1].0, "tags");
    match &t.entries[1].1 {
        TemplateValue::List(items) => assert_eq!(items.len(), 1),
        _ => panic!("expected a one-element list"),
    }
    assert_eq!(t.entries[2].0, "labels");
    assert!(matches!(t.entries[2].1, TemplateValue::MapEntry(_, _)));
}

#[test]
fn any_template_names_the_empty_type() {
    // A message holding a google.protobuf.Any field gets a template whose
    // Any names the empty message as its type.
    let any = message("google.protobuf.Any", Vec::new());
    let outer = message(
        "test.PingRequest",
        vec![field("payload", 1, FieldKind::MessageType("google.protobuf.Any".to_string()))],
    );
    let pool = pool_of(vec![any, outer]);
    let t = make_template(&pool, &pool.files[0].messages[1]);
    assert_eq!(t.entries.len(), 1);
    match &t.entries[0].1 {
        TemplateValue::Message(sub) => {
            assert_eq!(sub.full_name, "google.protobuf.Any");
            assert_eq!(sub.entries.len(), 1);
            assert_eq!(sub.entries[0].0, "type_url");
            match &sub.entries[0].1 {
                TemplateValue::StrVal(s) => {
                    assert_eq!(s, "type.googleapis.com/google.protobuf.Empty");
                },
                _ => panic!("expected the type URL string"),
            }
        },
        _ => panic!("expected an Any message entry"),
    }
}

#[test]
fn cyclic_message_template_terminates() {
    // A message that contains itself gets one level of nesting, then an
    // empty template on reentry.
    let node = message(
        "test.Node",
        vec![field("next", 1, FieldKind::MessageType("test.Node".to_string()))],
    );
    let pool = pool_of(vec![node]);
    let t = make_template(&pool, &pool.files[0].messages[0]);
    assert_eq!(t.entries.len(), 1);
    match &t.entries[0].1 {
        TemplateValue::Message(sub) => {
            assert_eq!(sub.full_name, "test.Node");
            assert!(sub.entries.is_empty());
        },
        _ => panic!("expected a nested message entry"),
    }
}

#[test]
fn value_template_holds_hint() {
    let value = message("google.protobuf.Value", Vec::new());
    let pool = pool_of(vec![value]);
    let t = make_template(&pool, &pool.files[0].messages[0]);
    assert_eq!(t.entries.len(), 1);
    assert_eq!(t.entries[0].0, "string_value");
    match &t.entries[0].1 {
        TemplateValue::StrVal(s) => {
            assert_eq!(s, "google.protobuf.Value supports arbitrary JSON");
        },
        _ => panic!("expected the hint string"),
    }
}

#[test]
fn any_template_applies_without_pool_entry() {
    // The well-known types keep their fixed shapes even when the pool
    // does not carry their descriptors.
    let outer = message(
        "test.PingRequest",
        vec![field("payload", 1, FieldKind::MessageType("google.protobuf.Any".to_string()))],
    );
    let pool = pool_of(vec![outer]);
    let t = make_template(&pool, &pool.files[0].messages[0]);
    match &t.entries[0].1 {
        TemplateValue::Message(sub) => {
            assert_eq!(sub.entries.len(), 1);
            assert_eq!(sub.entries[0].0, "type_url");
        },
        _ => panic!("expected an Any message entry"),
    }
}

#[test]
fn repeated_any_element_keeps_shape() {
    let mut repeated = field(
        "payloads",
        1,
        FieldKind::MessageType("google.protobuf.Any".to_string()),
    );
    repeated.repeated = true;
    let outer = message("test.PingRequest", vec![repeated]);
    let pool = pool_of(vec![outer]);
    let t = make_template(&pool, &pool.files[0].messages[0]);
    match &t.entries[0].1 {
        TemplateValue::List(items) => match &items[0] {
            TemplateValue::Message(sub) => {
                assert_eq!(sub.full_name, "google.protobuf.Any");
                assert_eq!(sub.entries[0].0, "type_url");
            },
            _ => panic!("expected an Any element"),
        },
        _ => panic!("expected a one-element list"),
    }
}

#[test]
fn list_value_and_struct_templates() {
    let lv = message("google.protobuf.ListValue", Vec::new());
    let st = message("google.protobuf.Struct", Vec::new());
    let pool = pool_of(vec![lv, st]);
    let t = make_template(&pool, &pool.files[0].messages[0]);
    assert_eq!(t.entries[0].0, "values");
    match &t.entries[0].1 {
        TemplateValue::List(items) => assert_eq!(items.len(), 1),
        _ => panic!("expected a list"),
    }
    let t = make_template(&pool, &pool.files[0].messages[1]);
    assert_eq!(t.entries[0].0, "fields");
    assert!(matches!(t.entries[0].1, TemplateValue::MapEntry(_, _)));
}
