//! The protocol's small closed enumerations: opcodes, consistency levels,
//! column type ids, and the error taxonomy shared by every codec operation.

use vstd::prelude::*;

verus! {

/// The protocol version this client speaks. Requests carry `0x03`; responses
/// from a v3 server carry `0x83` (the same version with the response bit set).
pub const CQL_VERSION: u8 = 0x03;

/// Failure kinds of the codec and of the connection that drives it.
///
/// Server-reported errors (the ERROR opcode) are not of this kind: they decode
/// successfully into a response body. `Io` is never produced by the codec
/// itself; it is reserved for the transport layer around the library.
#[derive(Clone, Copy, Debug, PartialEq, Eq, Structural)]
pub enum Error {
    /// The byte stream violated the protocol.
    Protocol,
    /// A feature the codec does not support was requested.
    Unimplemented,
    /// A decoder needed more bytes than were available.
    UnexpectedEOF,
    /// A length-prefixed string was not valid UTF-8.
    Utf8,
    /// The transport failed; raised only outside the codec.
    Io,
}

/// The kind discriminator of a frame, covering requests and responses.
/// `Unknown` stands for a header byte outside the protocol's enumeration;
/// no frame is ever sent with it, and a response bearing it violates the
/// protocol.
#[derive(Clone, Copy, Debug, PartialEq, Eq, Structural)]
pub enum Opcode {
    Startup,
    Cred,
    Opts,
    Query,
    Prepare,
    Execute,
    Register,
    Error,
    Ready,
    Auth,
    Supported,
    Result,
    Event,
    Unknown,
}

/// The opcode denoted by a header byte; bytes outside the protocol's
/// enumeration map to `Unknown`, kept apart from the genuine ERROR opcode.
pub open spec fn opcode_of(val: u8) -> Opcode {
    match val {
        0x00u8 => Opcode::Error,
        0x01u8 => Opcode::Startup,
        0x04u8 => Opcode::Cred,
        0x05u8 => Opcode::Opts,
        0x07u8 => Opcode::Query,
        0x09u8 => Opcode::Prepare,
        0x0Au8 => Opcode::Execute,
        0x0Bu8 => Opcode::Register,
        0x02u8 => Opcode::Ready,
        0x03u8 => Opcode::Auth,
        0x06u8 => Opcode::Supported,
        0x08u8 => Opcode::Result,
        0x0Cu8 => Opcode::Event,
        _ => Opcode::Unknown,
    }
}

/// The header byte that stands for an opcode on the wire.
pub open spec fn opcode_value_of(op: Opcode) -> u8 {
    match op {
        Opcode::Startup => 0x01u8,
        Opcode::Cred => 0x04u8,
        Opcode::Opts => 0x05u8,
        Opcode::Query => 0x07u8,
        Opcode::Prepare => 0x09u8,
        Opcode::Execute => 0x0Au8,
        Opcode::Register => 0x0Bu8,
        Opcode::Error => 0x00u8,
        Opcode::Ready => 0x02u8,
        Opcode::Auth => 0x03u8,
        Opcode::Supported => 0x06u8,
        Opcode::Result => 0x08u8,
        Opcode::Event => 0x0Cu8,
        Opcode::Unknown => 0xFFu8,
    }
}

/// Maps a header byte to its opcode.
pub fn opcode(val: u8) -> (r: Opcode)
    ensures
        r == opcode_of(val),
{
    match val {
        0x00 => Opcode::Error,
        0x01 => Opcode::Startup,
        0x04 => Opcode::Cred,
        0x05 => Opcode::Opts,
        0x07 => Opcode::Query,
        0x09 => Opcode::Prepare,
        0x0A => Opcode::Execute,
        0x0B => Opcode::Register,
        0x02 => Opcode::Ready,
        0x03 => Opcode::Auth,
        0x06 => Opcode::Supported,
        0x08 => Opcode::Result,
        0x0C => Opcode::Event,
        _ => Opcode::Unknown,
    }
}

/// Maps an opcode to its header byte; decoding that byte gives the opcode
/// back. `Unknown` stands for no defined opcode and gets a byte outside the
/// enumeration.
pub fn opcode_value(op: Opcode) -> (r: u8)
    ensures
        r == opcode_value_of(op),
        opcode_of(r) == op,
{
    match op {
        Opcode::Startup => 0x01,
        Opcode::Cred => 0x04,
        Opcode::Opts => 0x05,
        Opcode::Query => 0x07,
        Opcode::Prepare => 0x09,
        Opcode::Execute => 0x0A,
        Opcode::Register => 0x0B,
        Opcode::Error => 0x00,
        Opcode::Ready => 0x02,
        Opcode::Auth => 0x03,
        Opcode::Supported => 0x06,
        Opcode::Result => 0x08,
        Opcode::Event => 0x0C,
        Opcode::Unknown => 0xFF,
    }
}

/// The replica-agreement level a query demands, carried as an unsigned
/// 16-bit value in query parameters.
#[derive(Clone, Copy, Debug, PartialEq, Eq, Structural)]
pub enum Consistency {
    Any,
    One,
    Two,
    Three,
    Quorum,
    All,
    LocalQuorum,
    EachQuorum,
    Unknown,
}

/// The consistency level denoted by a wire value; values beyond the
/// enumeration map to `Unknown`.
pub open spec fn consistency_of(val: u16) -> Consistency {
    match val {
        0u16 => Consistency::Any,
        1u16 => Consistency::One,
        2u16 => Consistency::Two,
        3u16 => Consistency::Three,
        4u16 => Consistency::Quorum,
        5u16 => Consistency::All,
        6u16 => Consistency::LocalQuorum,
        7u16 => Consistency::EachQuorum,
        _ => Consistency::Unknown,
    }
}

/// The wire value of a consistency level; `Unknown` has no value of its own
/// and falls back to `Any`.
pub open spec fn consistency_value_of(c: Consistency) -> u16 {
    match c {
        Consistency::Any => 0u16,
        Consistency::One => 1u16,
        Consistency::Two => 2u16,
        Consistency::Three => 3u16,
        Consistency::Quorum => 4u16,
        Consistency::All => 5u16,
        Consistency::LocalQuorum => 6u16,
        Consistency::EachQuorum => 7u16,
        Consistency::Unknown => 0u16,
    }
}

/// Maps a wire value to its consistency level.
pub fn consistency(val: u16) -> (r: Consistency)
    ensures
        r == consistency_of(val),
{
    match val {
        0 => Consistency::Any,
        1 => Consistency::One,
        2 => Consistency::Two,
        3 => Consistency::Three,
        4 => Consistency::Quorum,
        5 => Consistency::All,
        6 => Consistency::LocalQuorum,
        7 => Consistency::EachQuorum,
        _ => Consistency::Unknown,
    }
}

/// Maps a wire value to its consistency level.
#[allow(non_snake_case)]
pub fn Consistency(val: u16) -> (r: Consistency)
    ensures
        r == consistency_of(val),
{
    consistency(val)
}

/// Maps a consistency level to the value that encodes it. For every level
/// but `Unknown` decoding the value gives the level back.
pub fn consistency_value(c: Consistency) -> (r: u16)
    ensures
        r == consistency_value_of(c),
        c != Consistency::Unknown ==> consistency_of(r) == c,
{
    match c {
        Consistency::Any => 0,
        Consistency::One => 1,
        Consistency::Two => 2,
        Consistency::Three => 3,
        Consistency::Quorum => 4,
        Consistency::All => 5,
        Consistency::LocalQuorum => 6,
        Consistency::EachQuorum => 7,
        Consistency::Unknown => 0,
    }
}

/// A column type id as it appears in metadata; the leaf ids stand alone,
/// while `Custom`, `List`, `Map`, `Set`, `UDT` and `Tuple` announce further
/// structure. Ids outside the enumeration map to `Unknown`.
#[derive(Clone, Copy, Debug, PartialEq, Eq, Structural)]
pub enum ColumnType {
    Custom,
    Ascii,
    Bigint,
    Blob,
    Boolean,
    Counter,
    Decimal,
    Double,
    Float,
    Int,
    Text,
    Timestamp,
    UUID,
    VarChar,
    VarInt,
    TimeUUID,
    Inet,
    List,
    MapType,
    SetType,
    UDT,
    Tuple,
    Unknown,
}

/// The column type denoted by a 16-bit type id.
pub open spec fn column_type_of(val: u16) -> ColumnType {
    match val {
        0x0000u16 => ColumnType::Custom,
        0x0001u16 => ColumnType::Ascii,
        0x0002u16 => ColumnType::Bigint,
        0x0003u16 => ColumnType::Blob,
        0x0004u16 => ColumnType::Boolean,
        0x0005u16 => ColumnType::Counter,
        0x0006u16 => ColumnType::Decimal,
        0x0007u16 => ColumnType::Double,
        0x0008u16 => ColumnType::Float,
        0x0009u16 => ColumnType::Int,
        0x000Au16 => ColumnType::Text,
        0x000Bu16 => ColumnType::Timestamp,
        0x000Cu16 => ColumnType::UUID,
        0x000Du16 => ColumnType::VarChar,
        0x000Eu16 => ColumnType::VarInt,
        0x000Fu16 => ColumnType::TimeUUID,
        0x0010u16 => ColumnType::Inet,
        0x0020u16 => ColumnType::List,
        0x0021u16 => ColumnType::MapType,
        0x0022u16 => ColumnType::SetType,
        0x0030u16 => ColumnType::UDT,
        0x0031u16 => ColumnType::Tuple,
        _ => ColumnType::Unknown,
    }
}

/// Maps a 16-bit type id to its column type.
pub fn column_type(val: u16) -> (r: ColumnType)
    ensures
        r == column_type_of(val),
{
    match val {
        0x0000 => ColumnType::Custom,
        0x0001 => ColumnType::Ascii,
        0x0002 => ColumnType::Bigint,
        0x0003 => ColumnType::Blob,
        0x0004 => ColumnType::Boolean,
        0x0005 => ColumnType::Counter,
        0x0006 => ColumnType::Decimal,
        0x0007 => ColumnType::Double,
        0x0008 => ColumnType::Float,
        0x0009 => ColumnType::Int,
        0x000A => ColumnType::Text,
        0x000B => ColumnType::Timestamp,
        0x000C => ColumnType::UUID,
        0x000D => ColumnType::VarChar,
        0x000E => ColumnType::VarInt,
        0x000F => ColumnType::TimeUUID,
        0x0010 => ColumnType::Inet,
        0x0020 => ColumnType::List,
        0x0021 => ColumnType::MapType,
        0x0022 => ColumnType::SetType,
        0x0030 => ColumnType::UDT,
        0x0031 => ColumnType::Tuple,
        _ => ColumnType::Unknown,
    }
}

} // verus!
