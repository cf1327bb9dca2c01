use rerun_ros::ros_introspection::{
    calculate_hash, to_builtin_type, BuiltinType, IntrospectionError, ParseErrorKind, Type,
};

#[test]
fn type_test_new() {
    let ros_type = Type::new("std_msgs/msg/String").unwrap();
    assert_eq!(ros_type.pkg_name(), "std_msgs");
    assert_eq!(ros_type.msg_name(), "String");
    assert_eq!(ros_type.id(), &BuiltinType::Other);
    assert_eq!(ros_type.name(), "std_msgs/msg/String");

    let ros_type = Type::new("std_msgs/String").unwrap();
    assert_eq!(ros_type.pkg_name(), "std_msgs");
    assert_eq!(ros_type.msg_name(), "String");
    assert_eq!(ros_type.id(), &BuiltinType::Other);
    assert_eq!(ros_type.name(), "std_msgs/String");

    let ros_type = Type::new("String").unwrap();
    assert_eq!(ros_type.pkg_name(), "");
    assert_eq!(ros_type.msg_name(), "String");
    assert_eq!(ros_type.id(), &BuiltinType::Other);
    assert_eq!(ros_type.name(), "String");

    let ros_type = Type::new("unknown_type").unwrap();
    assert_eq!(ros_type.pkg_name(), "");
    assert_eq!(ros_type.msg_name(), "unknown_type");
    assert_eq!(ros_type.id(), &BuiltinType::Other);
    assert_eq!(ros_type.name(), "unknown_type");

    let ros_type = Type::new("int32").unwrap();
    assert_eq!(ros_type.pkg_name(), "");
    assert_eq!(ros_type.msg_name(), "int32");
    assert_eq!(ros_type.id(), &BuiltinType::Int32);
    assert_eq!(ros_type.name(), "int32");
}

#[test]
fn type_test_getters() {
    let ros_type = Type::new("std_msgs/msg/String").unwrap();

    assert_eq!(ros_type.pkg_name(), "std_msgs");
    assert_eq!(ros_type.msg_name(), "String");
    assert_eq!(ros_type.id(), &BuiltinType::Other);
    assert_eq!(ros_type.name(), "std_msgs/msg/String");
}

#[test]
fn test_partial_eq() {
    let ros_type1 = Type::new("std_msgs/msg/String").unwrap();
    let ros_type2 = Type::new("std_msgs/msg/String").unwrap();
    let ros_type3 = Type::new("std_msgs/msg/Int32").unwrap();

    assert_eq!(ros_type1, ros_type2);
    assert_ne!(ros_type1, ros_type3);
}

#[test]
fn test_hash() {
    let ros_type = Type::new("std_msgs/msg/String").unwrap();
    let expected_hash = calculate_hash("std_msgs/msg/String");

    assert_eq!(ros_type.identity(), expected_hash);
}

#[test]
fn test_display() {
    let ros_type = Type::new("std_msgs/msg/String").unwrap();
    assert_eq!(ros_type.to_string(), "std_msgs/msg/String");
}

#[test]
fn spellings_of_one_type_differ() {
    let short = Type::new("std_msgs/String").unwrap();
    let long = Type::new("std_msgs/msg/String").unwrap();
    assert_eq!(short.pkg_name(), long.pkg_name());
    assert_eq!(short.msg_name(), long.msg_name());
    assert_ne!(short, long);
    assert_ne!(short.identity(), long.identity());
}

#[test]
fn service_prefix_is_stripped() {
    let t = Type::new("std_srvs/srv/Trigger").unwrap();
    assert_eq!(t.pkg_name(), "std_srvs");
    assert_eq!(t.msg_name(), "Trigger");
    assert_eq!(t.name(), "std_srvs/srv/Trigger");
}

#[test]
fn only_first_slash_splits() {
    let t = Type::new("a_pkg/other/Name").unwrap();
    assert_eq!(t.pkg_name(), "a_pkg");
    assert_eq!(t.msg_name(), "other/Name");
}

#[test]
fn builtin_vocabulary() {
    assert_eq!(to_builtin_type("bool"), BuiltinType::Bool);
    assert_eq!(to_builtin_type("byte"), BuiltinType::Byte);
    assert_eq!(to_builtin_type("char"), BuiltinType::Char);
    assert_eq!(to_builtin_type("float32"), BuiltinType::Float32);
    assert_eq!(to_builtin_type("float64"), BuiltinType::Float64);
    assert_eq!(to_builtin_type("int8"), BuiltinType::Int8);
    assert_eq!(to_builtin_type("uint8"), BuiltinType::Uint8);
    assert_eq!(to_builtin_type("int16"), BuiltinType::Int16);
    assert_eq!(to_builtin_type("uint16"), BuiltinType::Uint16);
    assert_eq!(to_builtin_type("uint32"), BuiltinType::Uint32);
    assert_eq!(to_builtin_type("int64"), BuiltinType::Int64);
    assert_eq!(to_builtin_type("uint64"), BuiltinType::Uint64);
    assert_eq!(to_builtin_type("string"), BuiltinType::String);
    assert_eq!(to_builtin_type("wstring"), BuiltinType::WString);
    assert_eq!(to_builtin_type("time"), BuiltinType::Time);
    assert_eq!(to_builtin_type("duration"), BuiltinType::Duration);
    assert_eq!(to_builtin_type("Int32"), BuiltinType::Other);
    assert_eq!(to_builtin_type("int32 "), BuiltinType::Other);
}

#[test]
fn builtin_is_read_from_short_name() {
    let t = Type::new("some_pkg/msg/int32").unwrap();
    assert_eq!(t.id(), &BuiltinType::Int32);
    assert_eq!(t.pkg_name(), "some_pkg");
}

#[test]
fn parent_package_hint() {
    let t = Type::new_with_parent_package("Header", "std_msgs").unwrap();
    assert_eq!(t.pkg_name(), "std_msgs");
    assert_eq!(t.msg_name(), "Header");
    assert_eq!(t.name(), "Header");

    let b = Type::new_with_parent_package("int32", "std_msgs").unwrap();
    assert_eq!(b.pkg_name(), "");

    let q = Type::new_with_parent_package("geometry_msgs/Point", "std_msgs").unwrap();
    assert_eq!(q.pkg_name(), "geometry_msgs");
}

#[test]
fn empty_package_or_name_is_rejected() {
    for bad in ["/String", "std_msgs/", "std_msgs/msg/"] {
        match Type::new(bad) {
            Err(IntrospectionError::Parse { kind, text }) => {
                assert_eq!(kind, ParseErrorKind::BadTypeName);
                assert_eq!(text, bad);
            }
            other => panic!("unexpected {:?}", other),
        }
    }
    assert!(Type::new("").is_ok());
}

#[test]
fn package_set_once() {
    let mut t = Type::new("Header").unwrap();
    t.set_pkg_name("std_msgs");
    assert_eq!(t.pkg_name(), "std_msgs");
    assert_eq!(t.name(), "std_msgs/Header");
    assert_eq!(t.msg_name(), "Header");
    assert_eq!(t.identity(), calculate_hash("std_msgs/Header"));
    assert_eq!(t, Type::new("std_msgs/Header").unwrap());
}
