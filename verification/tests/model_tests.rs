use grpcurl::DescriptorPool;
use grpcurl::EnumModel;
use grpcurl::EnumValueModel;
use grpcurl::FieldKind;
use grpcurl::FieldModel;
use grpcurl::FileModel;
use grpcurl::FileOptionsModel;
use grpcurl::GrpcurlError;
use grpcurl::MessageModel;
use grpcurl::MethodModel;
use grpcurl::ServiceModel;
use grpcurl::SymbolDescriptor;
use grpcurl::find_symbol_in_pool;
use grpcurl::list_methods;
use grpcurl::list_services;
use grpcurl::transitive_file_closure;

fn no_options() -> FileOptionsModel {
    FileOptionsModel {
        java_package: None,
        java_outer_classname: None,
        java_multiple_files: false,
        go_package: None,
        csharp_namespace: None,
        objc_class_prefix: None,
        php_namespace: None,
        ruby_package: None,
        swift_prefix: None,
        cc_enable_arenas: false,
        optimize_for: None,
    }
}

fn empty_file(name: &str, package: &str) -> FileModel {
    FileModel {
        name: name.to_string(),
        package: package.to_string(),
        syntax: "proto3".to_string(),
        dependencies: Vec::new(),
        public_dependency: Vec::new(),
        weak_dependency: Vec::new(),
        options: no_options(),
        messages: Vec::new(),
        enums: Vec::new(),
        services: Vec::new(),
        extensions: Vec::new(),
    }
}

fn field(name: &str, full: &str, number: u32, kind: FieldKind) -> FieldModel {
    FieldModel {
        name: name.to_string(),
        full_name: full.to_string(),
        number,
        kind,
        repeated: false,
        map_kinds: None,
        oneof_index: None,
        proto3_optional: false,
        is_group: false,
        deprecated: false,
        packed: None,
        jstype: None,
        json_name: None,
    }
}

fn make_test_pool() -> DescriptorPool {
    let mut file = empty_file("test.proto", "test.v1");
    file.messages.push(MessageModel {
        name: "HelloRequest".to_string(),
        full_name: "test.v1.HelloRequest".to_string(),
        fields: vec![field("name", "test.v1.HelloRequest.name", 1, FieldKind::Str)],
        oneofs: Vec::new(),
        nested_messages: Vec::new(),
        nested_enums: Vec::new(),
        reserved_ranges: Vec::new(),
        reserved_names: Vec::new(),
        is_map_entry: false,
    });
    file.enums.push(EnumModel {
        name: "Status".to_string(),
        full_name: "test.v1.Status".to_string(),
        values: vec![
            EnumValueModel {
                name: "UNKNOWN".to_string(),
                full_name: "test.v1.Status.UNKNOWN".to_string(),
                number: 0,
            },
            EnumValueModel {
                name: "ACTIVE".to_string(),
                full_name: "test.v1.Status.ACTIVE".to_string(),
                number: 1,
            },
        ],
    });
    file.services.push(ServiceModel {
        name: "Greeter".to_string(),
        full_name: "test.v1.Greeter".to_string(),
        methods: vec![MethodModel {
            name: "SayHello".to_string(),
            full_name: "test.v1.Greeter.SayHello".to_string(),
            input_type: "test.v1.HelloRequest".to_string(),
            output_type: "test.v1.HelloRequest".to_string(),
            client_streaming: false,
            server_streaming: false,
        }],
    });
    DescriptorPool { files: vec![file] }
}

#[test]
fn file_source_list_services() {
    let pool = make_test_pool();
    let services = list_services(&pool);
    assert_eq!(services, vec!["test.v1.Greeter".to_string()]);
}

#[test]
fn file_source_find_service() {
    let pool = make_test_pool();
    let sym = find_symbol_in_pool(&pool, "test.v1.Greeter").unwrap();
    assert_eq!(sym.type_label(), "a service");
    assert_eq!(sym.full_name(), "test.v1.Greeter");
}

#[test]
fn file_source_find_message() {
    let pool = make_test_pool();
    let sym = find_symbol_in_pool(&pool, "test.v1.HelloRequest").unwrap();
    assert_eq!(sym.type_label(), "a message");
}

#[test]
fn file_source_find_method() {
    let pool = make_test_pool();
    let sym = find_symbol_in_pool(&pool, "test.v1.Greeter.SayHello").unwrap();
    assert_eq!(sym.type_label(), "a method");
}

#[test]
fn file_source_find_field() {
    let pool = make_test_pool();
    let sym = find_symbol_in_pool(&pool, "test.v1.HelloRequest.name").unwrap();
    assert_eq!(sym.type_label(), "a field");
}

#[test]
fn file_source_find_enum() {
    let pool = make_test_pool();
    let sym = find_symbol_in_pool(&pool, "test.v1.Status").unwrap();
    assert_eq!(sym.type_label(), "an enum");
}

#[test]
fn file_source_find_enum_value() {
    let pool = make_test_pool();
    let sym = find_symbol_in_pool(&pool, "test.v1.Status.ACTIVE").unwrap();
    assert_eq!(sym.type_label(), "an enum value");
}

#[test]
fn file_source_find_file() {
    let pool = make_test_pool();
    let sym = find_symbol_in_pool(&pool, "test.proto").unwrap();
    assert_eq!(sym.type_label(), "a file");
}

#[test]
fn file_source_find_not_found() {
    let pool = make_test_pool();
    let result = find_symbol_in_pool(&pool, "does.not.Exist");
    assert!(result.is_err());
    assert!(matches!(result.unwrap_err(), GrpcurlError::NotFound(_)));
}

#[test]
fn list_methods_helper() {
    let pool = make_test_pool();
    let methods = list_methods(&pool, "test.v1.Greeter").unwrap();
    assert_eq!(methods, vec!["test.v1.Greeter.SayHello".to_string()]);
}

#[test]
fn list_methods_on_message_is_error() {
    let pool = make_test_pool();
    let err = list_methods(&pool, "test.v1.HelloRequest").unwrap_err();
    assert!(err.message().contains("Service not found"));
}

#[test]
fn find_symbol_prefers_service_over_file() {
    let pool = make_test_pool();
    match find_symbol_in_pool(&pool, "test.v1.Greeter").unwrap() {
        SymbolDescriptor::Service(_, svc) => assert_eq!(svc.name, "Greeter"),
        _ => panic!("expected a service"),
    }
}

#[test]
fn transitive_closure_topological_chain() {
    // c depends on b depends on a: the export lists each dependency
    // before its dependent and covers the whole chain.
    let a = empty_file("a.proto", "a");
    let mut b = empty_file("b.proto", "b");
    b.dependencies.push("a.proto".to_string());
    let mut c = empty_file("c.proto", "c");
    c.dependencies.push("b.proto".to_string());
    let pool = DescriptorPool { files: vec![c, b, a] };
    let order = transitive_file_closure(&pool, &vec!["c.proto".to_string()]);
    assert_eq!(
        order,
        vec!["a.proto".to_string(), "b.proto".to_string(), "c.proto".to_string()]
    );
}

#[test]
fn transitive_closure_shared_dependency_once() {
    let base = empty_file("base.proto", "base");
    let mut left = empty_file("left.proto", "left");
    left.dependencies.push("base.proto".to_string());
    let mut right = empty_file("right.proto", "right");
    right.dependencies.push("base.proto".to_string());
    let pool = DescriptorPool { files: vec![base, left, right] };
    let order = transitive_file_closure(
        &pool,
        &vec!["left.proto".to_string(), "right.proto".to_string()],
    );
    assert_eq!(
        order,
        vec!["base.proto".to_string(), "left.proto".to_string(), "right.proto".to_string()]
    );
}

#[test]
fn sub_symbol_full_names_match_query() {
    // A resolved dotted sub-symbol reports the query as its full name.
    let pool = make_test_pool();
    let sym = find_symbol_in_pool(&pool, "test.v1.Greeter.SayHello").unwrap();
    assert_eq!(sym.full_name(), "test.v1.Greeter.SayHello");
    let sym = find_symbol_in_pool(&pool, "test.v1.HelloRequest.name").unwrap();
    assert_eq!(sym.full_name(), "test.v1.HelloRequest.name");
    let sym = find_symbol_in_pool(&pool, "test.v1.Status.ACTIVE").unwrap();
    assert_eq!(sym.full_name(), "test.v1.Status.ACTIVE");
}

#[test]
fn transitive_closure_lists_each_file_once() {
    let base = empty_file("base.proto", "base");
    let mut mid = empty_file("mid.proto", "mid");
    mid.dependencies.push("base.proto".to_string());
    let mut top = empty_file("top.proto", "top");
    top.dependencies.push("base.proto".to_string());
    top.dependencies.push("mid.proto".to_string());
    let pool = DescriptorPool { files: vec![base, mid, top] };
    let order = transitive_file_closure(&pool, &vec!["top.proto".to_string()]);
    assert_eq!(
        order,
        vec!["base.proto".to_string(), "mid.proto".to_string(), "top.proto".to_string()]
    );
}
