//! Runtime introspection of ROS message definitions: parsing of the
//! line-oriented interface-definition dialect, resolution of unqualified type
//! references among sibling definitions, and expansion of a root type into a
//! tree of resolved message specifications.

pub mod text;
pub mod error;
pub mod ros_type;
pub mod field;
pub mod message;
pub mod msgspec;
pub mod ros_introspection;
pub mod ros_model;

pub use ros_model::{parse_message_definitions, ROSField, ROSMessage, ROSType};
pub use ros_type::BuiltinType;
