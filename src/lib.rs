//! Annotated values and redaction chunks.
//!
//! A string value can carry remarks that say which of its byte ranges a
//! redaction rule rewrote. `split_chunks` turns a string and its remarks into a
//! sequence of plain and redacted pieces, and `join_chunks` turns such a
//! sequence back into a string and remarks.
pub mod annotated;
pub mod chunks;
pub mod protocol;
pub mod schema;
pub mod types;

pub use chunks::{join_chunks, split_chunks, Chunk};
pub use annotated::{Annotated, Meta, Object, Value};
pub use protocol::{Exception, Geo, IpAddr, JsonLenientString, Mechanism, Stacktrace, ThreadId, User};
pub use types::{Remark, RemarkType};
