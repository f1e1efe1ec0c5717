use xan::column_types::{
    human_readable_column_type, ColumnDescriptor, ConvertedType, LogicalType, PhysicalType,
    TimeUnit,
};

fn column(logical: Option<LogicalType>, converted: ConvertedType, physical: PhysicalType) -> ColumnDescriptor {
    ColumnDescriptor {
        logical_type: logical,
        converted_type: converted,
        physical_type: physical,
    }
}

#[test]
fn column_types_are_named() {
    assert_eq!(
        human_readable_column_type(&column(
            Some(LogicalType::Timestamp(TimeUnit::Micros)),
            ConvertedType::Absent,
            PhysicalType::Int64
        )),
        "timestamp (µs)"
    );
    assert_eq!(
        human_readable_column_type(&column(Some(LogicalType::Unknown), ConvertedType::Utf8, PhysicalType::Other)),
        "string"
    );
    assert_eq!(
        human_readable_column_type(&column(None, ConvertedType::Absent, PhysicalType::Double)),
        "float64"
    );
    assert_eq!(
        human_readable_column_type(&column(None, ConvertedType::Decimal, PhysicalType::Other)),
        "unknown"
    );
    assert_eq!(
        human_readable_column_type(&column(Some(LogicalType::Other), ConvertedType::Int8, PhysicalType::Int32)),
        "unknown"
    );
}
