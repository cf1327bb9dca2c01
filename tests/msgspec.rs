use rerun_ros::ros_introspection::{Definitions, IntrospectionError, MsgSpec, ParseErrorKind};

fn store() -> Definitions {
    let mut d = Definitions::new();
    d.insert(
        "geometry_msgs",
        "PoseStamped",
        "std_msgs/Header header\nPose pose\n",
    );
    d.insert("geometry_msgs", "Pose", "Point position\nQuaternion orientation\n");
    d.insert("geometry_msgs", "Point", "float64 x\nfloat64 y\nfloat64 z\n");
    d.insert(
        "geometry_msgs",
        "Quaternion",
        "float64 x\nfloat64 y\nfloat64 z\nfloat64 w\n",
    );
    d.insert("std_msgs", "Header", "builtin_interfaces/Time stamp\nstring frame_id\n");
    d.insert("builtin_interfaces", "Time", "int32 sec\nuint32 nanosec\n");
    d
}

#[test]
fn tree_follows_non_builtin_fields() {
    let d = store();
    let spec = MsgSpec::new("geometry_msgs/PoseStamped", &d).unwrap();
    assert_eq!(spec.data().type_().name(), "geometry_msgs/PoseStamped");
    assert_eq!(spec.children().len(), 2);
    let header = &spec.children()[0];
    assert_eq!(header.data().type_().name(), "std_msgs/Header");
    assert_eq!(header.children().len(), 1);
    assert_eq!(header.children()[0].children().len(), 0);
    let pose = &spec.children()[1];
    assert_eq!(pose.data().type_().name(), "Pose");
    assert_eq!(pose.data().type_().pkg_name(), "geometry_msgs");
    assert_eq!(pose.children().len(), 2);
    assert_eq!(pose.children()[0].data().fields().len(), 3);
    assert_eq!(pose.children()[1].data().fields().len(), 4);
}

#[test]
fn missing_definition_is_named() {
    let mut d = store();
    d.insert("geometry_msgs", "Pose", "Point position\nTwist twist\n");
    match MsgSpec::new("geometry_msgs/Pose", &d) {
        Err(IntrospectionError::DefinitionNotFound { package, name }) => {
            assert_eq!(package, "geometry_msgs");
            assert_eq!(name, "Twist");
        }
        Err(e) => panic!("unexpected {:?}", e),
        Ok(_) => panic!("expected a failure"),
    }
}

#[test]
fn cycle_is_reported() {
    let mut d = Definitions::new();
    d.insert("loop_msgs", "A", "B b\n");
    d.insert("loop_msgs", "B", "A a\n");
    match MsgSpec::new("loop_msgs/A", &d) {
        Err(IntrospectionError::CyclicDefinition { package, name }) => {
            assert_eq!(package, "loop_msgs");
            assert_eq!(name, "A");
        }
        Err(e) => panic!("unexpected {:?}", e),
        Ok(_) => panic!("expected a failure"),
    }
}

#[test]
fn later_insert_shadows_earlier() {
    let mut d = Definitions::new();
    d.insert("p", "M", "int32 a\n");
    d.insert("p", "M", "int32 a\nint32 b\n");
    assert_eq!(d.get("p", "M").unwrap(), "int32 a\nint32 b\n");
    assert!(d.get("p", "N").is_none());
    let spec = MsgSpec::new("p/M", &d).unwrap();
    assert_eq!(spec.data().fields().len(), 2);
    assert!(spec.children().is_empty());
}

#[test]
fn unparsable_stored_definition_surfaces_its_error() {
    let mut d = store();
    d.insert("geometry_msgs", "Point", "float64 x\n??? broken\n");
    match MsgSpec::new("geometry_msgs/PoseStamped", &d) {
        Err(IntrospectionError::Parse { kind, text }) => {
            assert_eq!(kind, ParseErrorKind::BadType);
            assert_eq!(text, "??? broken");
        }
        Err(e) => panic!("unexpected {:?}", e),
        Ok(_) => panic!("expected a failure"),
    }
}

#[test]
fn bad_requested_name_is_a_parse_error() {
    match MsgSpec::new("pkg/", &store()) {
        Err(IntrospectionError::Parse { text, .. }) => assert_eq!(text, "pkg/"),
        Err(e) => panic!("unexpected {:?}", e),
        Ok(_) => panic!("expected a failure"),
    }
}

#[test]
fn first_missing_field_is_reported() {
    let mut d = Definitions::new();
    d.insert("p", "Root", "First a\nSecond b\n");
    match MsgSpec::new("p/Root", &d) {
        Err(IntrospectionError::DefinitionNotFound { package, name }) => {
            assert_eq!(package, "p");
            assert_eq!(name, "First");
        }
        Err(e) => panic!("unexpected {:?}", e),
        Ok(_) => panic!("expected a failure"),
    }
}
