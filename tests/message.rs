use rerun_ros::ros_introspection::{
    parse_message_definitions, split_multiple_message_definitions, BuiltinType, IntrospectionError,
    Message, Type,
};

#[test]
fn message_test_new() {
    let def = r#"
            MSG: std_msgs/String
            string data
        "#;
    let msg = Message::new(def).unwrap();

    assert_eq!(msg.type_().name(), "std_msgs/String");
    assert_eq!(msg.fields().len(), 1);
    assert_eq!(msg.fields()[0].name(), "data");
    assert_eq!(msg.fields()[0].type_().name(), "string");
}

#[test]
fn message_test_getters() {
    let def = r#"
            MSG: std_msgs/String
            string data
        "#;
    let msg = Message::new(def).unwrap();

    assert_eq!(msg.type_().name(), "std_msgs/String");
    assert_eq!(msg.fields().len(), 1);
    assert_eq!(msg.fields()[0].name(), "data");
    assert_eq!(msg.fields()[0].type_().name(), "string");
}

#[test]
fn test_set_type() {
    let def = r#"
            string data
        "#;
    let mut msg = Message::new(def).unwrap();
    let new_type = Type::new("std_msgs/String").unwrap();
    msg.set_type(new_type.clone());

    assert_eq!(msg.type_(), &new_type);
}

#[test]
fn test_split_multiple_message_definitions() {
    let multi_def = r#"
            std_msgs/String
            string data
            ========
            std_msgs/Int32
            int32 data
        "#;
    let parts = split_multiple_message_definitions(multi_def);

    assert_eq!(parts.len(), 2);
    assert!(parts[0].contains("std_msgs/String"));
    assert!(parts[1].contains("std_msgs/Int32"));
}

#[test]
fn test_parse_message_definitions() {
    let multi_def = r#"
            MSG: std_msgs/String
            string data
            ========
            MSG: std_msgs/Int32
            int32 data
        "#;
    let root_type = Type::new("std_msgs/String").unwrap();
    let msgs = parse_message_definitions(multi_def, &root_type).unwrap();

    assert_eq!(msgs.len(), 2);
    assert_eq!(msgs[0].type_().name(), "std_msgs/String");
    assert_eq!(msgs[0].fields().len(), 1);
    assert_eq!(msgs[0].fields()[0].name(), "data");
    assert_eq!(msgs[0].fields()[0].type_().name(), "string");

    assert_eq!(msgs[1].type_().name(), "std_msgs/Int32");
    assert_eq!(msgs[1].fields().len(), 1);
    assert_eq!(msgs[1].fields()[0].name(), "data");
    assert_eq!(msgs[1].fields()[0].type_().name(), "int32");
}

#[test]
fn bundle_in_original_order() {
    let text = "MSG: std_msgs/String\nstring data\n========\nMSG: std_msgs/Int32\nint32 data\n";
    let root = Type::new("std_msgs/String").unwrap();
    let msgs = parse_message_definitions(text, &root).unwrap();
    assert_eq!(msgs.len(), 2);
    assert_eq!(msgs[0].type_().name(), "std_msgs/String");
    assert_eq!(msgs[1].type_().name(), "std_msgs/Int32");
    assert_eq!(msgs[0].fields()[0].type_().name(), "string");
    assert_eq!(msgs[1].fields()[0].type_().name(), "int32");
}

#[test]
fn unqualified_field_resolves_to_sibling() {
    let text = "Header header\nint32 x\n================================================================================\nMSG: std_msgs/Header\nuint32 seq\n";
    let root = Type::new("geometry_msgs/PointStamped").unwrap();
    let msgs = parse_message_definitions(text, &root).unwrap();
    assert_eq!(msgs.len(), 2);
    assert_eq!(msgs[0].type_().name(), "geometry_msgs/PointStamped");
    assert_eq!(msgs[0].fields()[0].type_().name(), "std_msgs/Header");
    assert_eq!(msgs[0].fields()[0].type_().pkg_name(), "std_msgs");
    assert_eq!(msgs[0].fields()[1].type_().name(), "int32");
}

#[test]
fn resolution_prefers_root_package() {
    let text = "Header h\n========\nMSG: other_msgs/Header\nint32 a\n========\nMSG: std_msgs/Header\nint32 b\n";
    let root = Type::new("std_msgs/Thing").unwrap();
    let msgs = parse_message_definitions(text, &root).unwrap();
    assert_eq!(msgs[0].fields()[0].type_().name(), "std_msgs/Header");

    let root = Type::new("nav_msgs/Thing").unwrap();
    let msgs = parse_message_definitions(text, &root).unwrap();
    // without a candidate in the root's package, the last block's type comes first
    assert_eq!(msgs[0].fields()[0].type_().name(), "std_msgs/Header");
}

#[test]
fn unresolved_reference_stays() {
    let text = "Unknown u\n";
    let root = Type::new("pkg/Root").unwrap();
    let msgs = parse_message_definitions(text, &root).unwrap();
    assert_eq!(msgs[0].fields()[0].type_().name(), "Unknown");
    assert_eq!(msgs[0].fields()[0].type_().pkg_name(), "");
    assert_eq!(msgs[0].fields()[0].type_().id(), &BuiltinType::Other);
}

#[test]
fn unspecified_root_type() {
    let root = Type::new("").unwrap();
    match parse_message_definitions("int32 x\n", &root) {
        Err(IntrospectionError::UnspecifiedType) => {}
        other => panic!("unexpected {:?}", other),
    }
}

#[test]
fn first_header_wins_and_comments_are_skipped() {
    let def = "# a comment\n\nMSG: a_pkg/First\n   # indented comment\nMSG: b_pkg/Second\nint32 x\r\n";
    let msg = Message::new(def).unwrap();
    assert_eq!(msg.type_().name(), "a_pkg/First");
    assert_eq!(msg.fields().len(), 1);
    assert_eq!(msg.fields()[0].name(), "x");
}

#[test]
fn empty_bundle_is_one_empty_block() {
    let parts = split_multiple_message_definitions("");
    assert_eq!(parts, vec![String::new()]);
    let parts = split_multiple_message_definitions("a\n=======\nb\n========\n");
    assert_eq!(parts, vec!["a\n=======\nb\n".to_string(), String::new()]);
}

#[test]
fn field_error_propagates() {
    match Message::new("int32 ok\n??? bad\n") {
        Err(IntrospectionError::Parse { text, .. }) => assert_eq!(text, "??? bad"),
        other => panic!("unexpected {:?}", other),
    }
}

#[test]
fn header_field_resolves_in_root_package() {
    let text = "Header header\n========\nMSG: std_msgs/Header\nuint32 seq\n";
    let root = Type::new("std_msgs/Stamped").unwrap();
    let msgs = parse_message_definitions(text, &root).unwrap();
    let field_type = msgs[0].fields()[0].type_();
    assert_eq!(field_type.name(), "std_msgs/Header");
    assert_eq!(field_type, &Type::new("std_msgs/Header").unwrap());
}

#[test]
fn bad_header_name_is_reported() {
    match Message::new("MSG: /Broken\nint32 x\n") {
        Err(IntrospectionError::Parse { text, .. }) => assert_eq!(text, "/Broken"),
        other => panic!("unexpected {:?}", other),
    }
}
