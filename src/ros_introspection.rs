//! The introspection API under one path.

pub use crate::error::{IntrospectionError, ParseErrorKind};
pub use crate::field::Field;
pub use crate::message::{parse_message_definitions, split_multiple_message_definitions, Message};
pub use crate::msgspec::{Definitions, MsgSpec};
pub use crate::ros_type::{calculate_hash, to_builtin_type, BuiltinType, Type};
