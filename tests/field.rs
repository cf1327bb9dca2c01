use rerun_ros::ros_introspection::{BuiltinType, Field, IntrospectionError, ParseErrorKind, Type};

#[test]
fn test_new_with_type() {
    let field_type = Type::new("int32").unwrap();
    let field = Field::new_with_type(field_type.clone(), "test_field");

    assert_eq!(field.name(), "test_field");
    assert_eq!(field.type_(), &field_type);
    assert!(!field.is_array());
    assert_eq!(field.array_size(), 1);
    assert!(!field.is_constant());
    assert_eq!(field.value(), "");
}

#[test]
fn test_new_with_definition() {
    let field = Field::new_with_definition("int32 test_field").unwrap();
    assert_eq!(field.name(), "test_field");
    assert_eq!(field.type_(), &Type::new("int32").unwrap());
    assert!(!field.is_array());
    assert_eq!(field.array_size(), 1);
    assert!(!field.is_constant());
    assert_eq!(field.value(), "");

    let field = Field::new_with_definition("string[10] test_array").unwrap();
    assert_eq!(field.name(), "test_array");
    assert_eq!(field.type_(), &Type::new("string").unwrap());
    assert!(field.is_array());
    assert_eq!(field.array_size(), 10);
    assert!(!field.is_constant());
    assert_eq!(field.value(), "");

    let field = Field::new_with_definition("float64 PI = 3.14159").unwrap();
    assert_eq!(field.name(), "PI");
    assert_eq!(field.type_(), &Type::new("float64").unwrap());
    assert!(!field.is_array());
    assert_eq!(field.array_size(), 1);
    assert!(field.is_constant());
    assert_eq!(field.value(), "3.14159");
}

#[test]
fn field_test_getters() {
    let field = Field::new_with_type(Type::new("int32").unwrap(), "test_field");

    assert_eq!(field.type_(), &Type::new("int32").unwrap());
    assert_eq!(field.name(), "test_field");
    assert!(!field.is_array());
    assert!(!field.is_constant());
    assert_eq!(field.array_size(), 1);
    assert_eq!(field.value(), "");
}

#[test]
fn test_change_type() {
    let mut field = Field::new_with_type(Type::new("int32").unwrap(), "test_field");
    let new_type = Type::new("float64").unwrap();
    field.change_type(new_type.clone());

    assert_eq!(field.type_(), &new_type);
}

#[test]
fn scalar_field_line() {
    let field = Field::new_with_definition("int32 test_field").unwrap();
    assert_eq!(field.name(), "test_field");
    assert_eq!(field.type_().msg_name(), "int32");
    assert_eq!(field.type_().id(), &BuiltinType::Int32);
    assert!(!field.is_array());
    assert_eq!(field.array_size(), 1);
    assert!(!field.is_constant());
}

#[test]
fn unbounded_array_field_line() {
    let field = Field::new_with_definition("string[] test_array").unwrap();
    assert!(field.is_array());
    assert_eq!(field.array_size(), -1);
    assert_eq!(field.type_().name(), "string");
}

#[test]
fn qualified_array_type() {
    let field = Field::new_with_definition("geometry_msgs/Point[3] corners").unwrap();
    assert_eq!(field.type_().name(), "geometry_msgs/Point");
    assert_eq!(field.type_().pkg_name(), "geometry_msgs");
    assert_eq!(field.type_().id(), &BuiltinType::Other);
    assert_eq!(field.array_size(), 3);
    assert_eq!(field.name(), "corners");
}

#[test]
fn constant_literals() {
    let f = Field::new_with_definition("int32 X = 5  # five").unwrap();
    assert!(f.is_constant());
    assert_eq!(f.value(), "5");

    let s = Field::new_with_definition("string GREETING = hello # not a comment").unwrap();
    assert!(s.is_constant());
    assert_eq!(s.value(), "hello # not a comment");

    let c = Field::new_with_definition("int32 x # a comment").unwrap();
    assert!(!c.is_constant());
    assert_eq!(c.value(), "");

    let d = Field::new_with_definition("int32 x 42 # default").unwrap();
    assert!(!d.is_constant());
    assert_eq!(d.value(), "42");
}

#[test]
fn field_line_errors() {
    match Field::new_with_definition("123 x") {
        Err(IntrospectionError::Parse { kind, text }) => {
            assert_eq!(kind, ParseErrorKind::BadType);
            assert_eq!(text, "123 x");
        }
        other => panic!("unexpected {:?}", other),
    }
    match Field::new_with_definition("int32") {
        Err(IntrospectionError::Parse { kind, text }) => {
            assert_eq!(kind, ParseErrorKind::BadField);
            assert_eq!(text, "int32");
        }
        other => panic!("unexpected {:?}", other),
    }
    match Field::new_with_definition("int32[99999999999999999999] x") {
        Err(IntrospectionError::Parse { kind, .. }) => {
            assert_eq!(kind, ParseErrorKind::BadArraySize)
        }
        other => panic!("unexpected {:?}", other),
    }
}

#[test]
fn largest_array_bound() {
    let f = Field::new_with_definition("uint8[9223372036854775807] x").unwrap();
    assert_eq!(f.array_size(), isize::MAX);
}
