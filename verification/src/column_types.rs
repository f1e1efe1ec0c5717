//! The names under which the types of the columns of a Parquet file are
//! shown, out of what the file's schema says of each column.
use vstd::prelude::*;

verus! {

/// The unit of a timestamp.
#[derive(Debug, Clone, Copy, PartialEq, Eq, Structural)]
pub enum TimeUnit {
    Millis,
    Micros,
    Nanos,
}

/// The logical type of a column, as far as its name goes.
#[derive(Debug, Clone, Copy, PartialEq, Eq, Structural)]
pub enum LogicalType {
    Unknown,
    Timestamp(TimeUnit),
    Dictionary,
    List,
    String,
    Other,
}

/// The converted type of a column, as far as its name goes.
#[derive(Debug, Clone, Copy, PartialEq, Eq, Structural)]
pub enum ConvertedType {
    Absent,
    Utf8,
    Uint8,
    Uint16,
    Uint32,
    Uint64,
    Int8,
    Int16,
    Int32,
    Int64,
    Dictionary,
    List,
    TimestampMillis,
    TimestampMicros,
    Decimal,
    Other,
}

/// The physical type of a column, as far as its name goes.
#[derive(Debug, Clone, Copy, PartialEq, Eq, Structural)]
pub enum PhysicalType {
    Float,
    Double,
    Int32,
    Int64,
    Other,
}

/// What the schema of a file says of the type of one column.
#[derive(Debug, Clone, Copy, PartialEq, Eq, Structural)]
pub struct ColumnDescriptor {
    pub logical_type: Option<LogicalType>,
    pub converted_type: ConvertedType,
    pub physical_type: PhysicalType,
}

/// The name of the type of a column: its logical type when it has a known
/// one, else its converted type, else, for decimals and columns with no
/// converted type, its physical type.
pub open spec fn column_type_name(c: ColumnDescriptor) -> Seq<char> {
    match c.logical_type {
        Some(l) if l != LogicalType::Unknown => match l {
            LogicalType::Timestamp(TimeUnit::Millis) => "timestamp (ms)"@,
            LogicalType::Timestamp(TimeUnit::Micros) => "timestamp (\u{b5}s)"@,
            LogicalType::Timestamp(TimeUnit::Nanos) => "timestamp (ns)"@,
            LogicalType::Dictionary => "map"@,
            LogicalType::List => "list"@,
            LogicalType::String => "string"@,
            _ => "unknown"@,
        },
        _ => match c.converted_type {
            ConvertedType::Utf8 => "string"@,
            ConvertedType::Uint8 => "uint8"@,
            ConvertedType::Uint16 => "uint16"@,
            ConvertedType::Uint32 => "uint32"@,
            ConvertedType::Uint64 => "uint64"@,
            ConvertedType::Int8 => "int8"@,
            ConvertedType::Int16 => "int16"@,
            ConvertedType::Int32 => "int32"@,
            ConvertedType::Int64 => "int64"@,
            ConvertedType::Dictionary => "map"@,
            ConvertedType::List => "list"@,
            ConvertedType::TimestampMillis => "timestamp (ms)"@,
            ConvertedType::TimestampMicros => "timestamp (\u{b5}s)"@,
            ConvertedType::Decimal | ConvertedType::Absent => match c.physical_type {
                PhysicalType::Float => "float32"@,
                PhysicalType::Double => "float64"@,
                PhysicalType::Int32 => "int32"@,
                PhysicalType::Int64 => "int64"@,
                _ => "unknown"@,
            },
            _ => "unknown"@,
        },
    }
}

/// The name under which the type of a column is shown.
pub fn human_readable_column_type(column: &ColumnDescriptor) -> (r: &'static str)
    ensures
        r@ == column_type_name(*column),
{
    if let Some(logical_type) = column.logical_type {
        if !matches!(logical_type, LogicalType::Unknown) {
            return match logical_type {
                LogicalType::Timestamp(unit) => match unit {
                    TimeUnit::Millis => "timestamp (ms)",
                    TimeUnit::Micros => "timestamp (\u{b5}s)",
                    TimeUnit::Nanos => "timestamp (ns)",
                },
                LogicalType::Dictionary => "map",
                LogicalType::List => "list",
                LogicalType::String => "string",
                _ => "unknown",
            };
        }
    }
    match column.converted_type {
        ConvertedType::Utf8 => "string",
        ConvertedType::Uint8 => "uint8",
        ConvertedType::Uint16 => "uint16",
        ConvertedType::Uint32 => "uint32",
        ConvertedType::Uint64 => "uint64",
        ConvertedType::Int8 => "int8",
        ConvertedType::Int16 => "int16",
        ConvertedType::Int32 => "int32",
        ConvertedType::Int64 => "int64",
        ConvertedType::Dictionary => "map",
        ConvertedType::List => "list",
        ConvertedType::TimestampMillis => "timestamp (ms)",
        ConvertedType::TimestampMicros => "timestamp (\u{b5}s)",
        ConvertedType::Decimal | ConvertedType::Absent => match column.physical_type {
            PhysicalType::Float => "float32",
            PhysicalType::Double => "float64",
            PhysicalType::Int32 => "int32",
            PhysicalType::Int64 => "int64",
            _ => "unknown",
        },
        _ => "unknown",
    }
}

} // verus!
