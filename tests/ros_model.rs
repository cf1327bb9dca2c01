use rerun_ros::{BuiltinType, ROSField, ROSMessage, ROSType};

#[test]
fn ros_type_accepts_any_name() {
    let t = ROSType::new("/Loose");
    assert_eq!(t.pkg_name(), "");
    assert_eq!(t.msg_name(), "Loose");
    let t = ROSType::new("std_msgs/msg/String");
    assert_eq!(t.pkg_name(), "std_msgs");
    assert_eq!(t.msg_name(), "String");
    assert_eq!(t.id(), &BuiltinType::Other);
}

#[test]
fn ros_type_set_pkg_name() {
    let mut t = ROSType::new("Header");
    t.set_pkg_name("std_msgs");
    assert_eq!(t.pkg_name(), "std_msgs");
    assert_eq!(t.name(), "std_msgs/Header");
    assert_eq!(t, ROSType::new("std_msgs/Header"));
}

#[test]
fn ros_field_and_message() {
    let f = ROSField::new_with_definition("uint8[4] data");
    assert_eq!(f.type_().name(), "uint8");
    let mut g = ROSField::new_with_type(ROSType::new("int32"), "x");
    g.change_type(ROSType::new("int64"));
    assert_eq!(g.type_().id(), &BuiltinType::Int64);

    let mut m = ROSMessage::new("MSG: pkg/Thing\nint32 a\nHeader h\n");
    assert_eq!(m.type_().name(), "pkg/Thing");
    assert_eq!(m.fields().len(), 2);
    m.fields_mut().push(f);
    assert_eq!(m.fields().len(), 3);
    m.set_type(ROSType::new("pkg/Other"));
    assert_eq!(m.type_().msg_name(), "Other");
}

#[test]
fn ros_bundle_parser_resolves_siblings() {
    let text = "Header header\n========\nMSG: std_msgs/Header\nuint32 seq\n";
    let root = ROSType::new("std_msgs/Stamped");
    let msgs = rerun_ros::parse_message_definitions(text, &root);
    assert_eq!(msgs.len(), 2);
    assert_eq!(msgs[0].type_().name(), "std_msgs/Stamped");
    assert_eq!(msgs[0].fields()[0].type_().name(), "std_msgs/Header");
    assert_eq!(msgs[1].type_().name(), "std_msgs/Header");
    assert_eq!(msgs[1].fields()[0].type_().id(), &BuiltinType::Uint32);
}

#[test]
fn set_pkg_name_keeps_short_name() {
    let mut t = ROSType::new("Header");
    let before = t.msg_name().to_string();
    t.set_pkg_name("std_msgs");
    assert_eq!(t.msg_name(), before);
}
