use prost_reflect::{DeserializeOptions, DynamicMessage, SerializeOptions, Value};

fn make_pool() -> prost_reflect::DescriptorPool {
    let mut field_name = prost_types::FieldDescriptorProto::default();
    field_name.name = Some("name".into());
    field_name.number = Some(1);
    field_name.set_type(prost_types::field_descriptor_proto::Type::String);
    field_name.label = Some(1);
    field_name.json_name = Some("name".into());

    let mut field_count = prost_types::FieldDescriptorProto::default();
    field_count.name = Some("count".into());
    field_count.number = Some(2);
    field_count.set_type(prost_types::field_descriptor_proto::Type::Int64);
    field_count.label = Some(1);
    field_count.json_name = Some("count".into());

    let mut message = prost_types::DescriptorProto::default();
    message.name = Some("HelloRequest".into());
    message.field = vec![field_name, field_count];

    let mut file = prost_types::FileDescriptorProto::default();
    file.name = Some("test.proto".into());
    file.package = Some("test.v1".into());
    file.message_type = vec![message];
    file.syntax = Some("proto3".into());

    let fds = prost_types::FileDescriptorSet { file: vec![file] };
    prost_reflect::DescriptorPool::from_file_descriptor_set(fds).unwrap()
}

fn to_json(msg: &DynamicMessage) -> String {
    let opts = SerializeOptions::new().skip_default_fields(false).stringify_64_bit_integers(true);
    let mut buf = Vec::new();
    let mut ser = serde_json::Serializer::pretty(&mut buf);
    msg.serialize_with_options(&mut ser, &opts).unwrap();
    String::from_utf8(buf).unwrap()
}

#[test]
fn json_format_round_trip() {
    // Formatting a message with defaults emitted and parsing the result
    // back with unknown fields refused yields an equal message.
    let pool = make_pool();
    let desc = pool.get_message_by_name("test.v1.HelloRequest").unwrap();
    let mut msg = DynamicMessage::new(desc.clone());
    msg.set_field(&desc.get_field_by_name("name").unwrap(), Value::String("hi there".into()));
    msg.set_field(&desc.get_field_by_name("count").unwrap(), Value::I64(9007199254740993));

    let json = to_json(&msg);

    // The request parser scans exactly one JSON value off the input.
    let mut parser = grpcurl::JsonRequestParser::new(Some(&json));
    let text = match parser.next() {
        Ok(t) => t,
        Err(_) => panic!("expected one JSON value"),
    };
    assert_eq!(parser.num_requests(), 1);
    assert!(matches!(parser.next(), Err(grpcurl::ParseError::Eof)));

    let value: serde_json::Value = serde_json::from_str(&text).unwrap();
    let opts = DeserializeOptions::new().deny_unknown_fields(true);
    let back = DynamicMessage::deserialize_with_options(desc, value, &opts).unwrap();
    assert_eq!(back, msg);
}

#[test]
fn json_round_trip_through_multiple_values() {
    let pool = make_pool();
    let desc = pool.get_message_by_name("test.v1.HelloRequest").unwrap();
    let mut first = DynamicMessage::new(desc.clone());
    first.set_field(&desc.get_field_by_name("name").unwrap(), Value::String("one".into()));
    first.set_field(&desc.get_field_by_name("count").unwrap(), Value::I64(1));
    let mut second = DynamicMessage::new(desc.clone());
    second.set_field(&desc.get_field_by_name("name").unwrap(), Value::String("two".into()));
    second.set_field(&desc.get_field_by_name("count").unwrap(), Value::I64(2));

    let stream = format!("{} {}", to_json(&first), to_json(&second));
    let mut parser = grpcurl::JsonRequestParser::new(Some(&stream));
    let opts = DeserializeOptions::new().deny_unknown_fields(true);
    let mut out = Vec::new();
    while let Ok(text) = parser.next() {
        let value: serde_json::Value = serde_json::from_str(&text).unwrap();
        out.push(
            DynamicMessage::deserialize_with_options(desc.clone(), value, &opts).unwrap(),
        );
    }
    assert_eq!(out.len(), 2);
    assert_eq!(out[0], first);
    assert_eq!(out[1], second);
    assert_eq!(parser.num_requests(), 2);
}
