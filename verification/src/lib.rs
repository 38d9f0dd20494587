//! Client-side codec for the Cassandra native binary protocol, version 3.
//!
//! The crate models the wire format mathematically — big-endian integers,
//! length-prefixed strings and blobs, recursive column type descriptors and
//! values, result metadata, and the 9-byte frame envelope — and proves that
//! the executable encoders and decoders implement that model exactly.
//! Transport I/O is left to the caller; every function here works on plain
//! byte buffers.

pub mod bytes_be;
pub mod client;
pub mod descr;
pub mod metadata;
pub mod primitives;
pub mod request;
pub mod response;
pub mod roundtrip;
pub mod types;
pub mod value;
pub mod value_read;
pub mod varint;

pub use types::column_type;
pub use types::consistency;
pub use types::opcode;
pub use types::ColumnType;
pub use types::Consistency;
pub use types::Error;
pub use types::Opcode;
pub use types::CQL_VERSION;

pub use client::accept_response;
pub use client::handshake_step;
pub use client::prepared_id;
pub use descr::CqlColDescr;
pub use metadata::str_eq;
pub use metadata::CqlColMetadata;
pub use metadata::Metadata;
pub use metadata::Row;
pub use metadata::Rows;
pub use primitives::StringMultiMap;
pub use request::execute;
pub use request::options;
pub use request::prepare;
pub use request::query;
pub use request::startup;
pub use request::Pair;
pub use request::StringMap;
pub use response::read_cql_response;
pub use response::FrameHeader;
pub use response::Response;
pub use response::ResponseBody;
pub use response::ResponseResult;
pub use value::write_value;
pub use value::InetAddr;
pub use value::Value;
pub use value_read::read_cql_col;
pub use varint::encode_varint;
pub use varint::parse_varint;
