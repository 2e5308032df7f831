//! Schema-driven decoding of ROS 2 messages at runtime.
//!
//! A message definition (the text of a `.msg` file, possibly bundled with the
//! definitions of the messages it depends on) is parsed into a typed schema,
//! and binary CDR payloads are decoded against that schema into value trees.
#![verifier::loop_isolation(false)]

mod data_type;
mod digest;
pub mod dynamic;
mod error;
mod field_info;
pub mod laws;
mod message_path;
mod msg;
mod parse_msg;
mod srv;
mod text;
pub mod wire;
mod time;
mod value;

pub use data_type::{DataType, DataTypeV, I8Variant, U8Variant};
pub use data_type::{find_hash, HashTable};
pub use error::{DecodeCause, Error, Result};
pub use field_info::{FieldCase, FieldCaseV, FieldInfo, FieldV};
pub use message_path::is_valid_package_name;
pub use message_path::{MessagePath, PathView};
pub use msg::{Msg, MsgV};
pub use srv::{Srv, SrvV};
pub use time::{Duration, Time};
pub use value::{clone_value, message_field, FieldValue, MessageValue, Value, ValueV};
