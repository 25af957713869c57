use arrow::array::{Array, ArrayRef, AsArray};
use arrow::datatypes::{
    DataType, Float64Type, Int32Type, Int64Type, TimeUnit, TimestampNanosecondType, UInt64Type,
};
use iox_core::arrow_batch::TextOverflow;
use iox_core::column::{Column, ColumnData};
use iox_core::mutable_batch::{Error, MutableBatch, TypeMismatch};
use iox_core::schema::{InfluxColumnType, InfluxFieldType, Schema, Selection};

const TAG: InfluxColumnType = InfluxColumnType::Tag;
const FLOAT: InfluxColumnType = InfluxColumnType::Field(InfluxFieldType::Float);
const INTEGER: InfluxColumnType = InfluxColumnType::Field(InfluxFieldType::Integer);
const UINTEGER: InfluxColumnType = InfluxColumnType::Field(InfluxFieldType::UInteger);
const STRING: InfluxColumnType = InfluxColumnType::Field(InfluxFieldType::String);
const BOOLEAN: InfluxColumnType = InfluxColumnType::Field(InfluxFieldType::Boolean);
const TIME: InfluxColumnType = InfluxColumnType::Timestamp;

fn numbers(influx_type: InfluxColumnType, values: &[Option<i64>]) -> Column {
    let valid = values.iter().map(|v| v.is_some()).collect();
    let data = values.iter().map(|v| v.unwrap_or(0)).collect();
    Column::new(influx_type, valid, ColumnData::I64(data)).unwrap()
}

fn texts(influx_type: InfluxColumnType, values: &[Option<&str>]) -> Column {
    let valid = values.iter().map(|v| v.is_some()).collect();
    let data = values.iter().map(|v| v.unwrap_or("").to_owned()).collect();
    Column::new(influx_type, valid, ColumnData::Text(data)).unwrap()
}

fn batch(columns: Vec<(&str, Column)>) -> MutableBatch {
    let columns = columns
        .into_iter()
        .map(|(name, column)| (name.to_owned(), column))
        .collect();
    MutableBatch::from_columns(columns).unwrap()
}

fn names(columns: &[&str]) -> Vec<String> {
    columns.iter().map(|name| name.to_string()).collect()
}

fn fields(schema: &Schema) -> Vec<(String, InfluxColumnType)> {
    (0..schema.len())
        .map(|i| {
            let (name, influx_type) = schema.field(i);
            (name.to_owned(), influx_type)
        })
        .collect()
}

fn values(batch: &MutableBatch, column: &str) -> Vec<Option<i64>> {
    let column = batch.column(column).unwrap();
    match column.data() {
        ColumnData::I64(data) => data
            .iter()
            .zip(column.valid())
            .map(|(v, valid)| valid.then_some(*v))
            .collect(),
        other => panic!("not numbers: {:?}", other),
    }
}

fn text_values(batch: &MutableBatch, column: &str) -> Vec<Option<String>> {
    let column = batch.column(column).unwrap();
    match column.data() {
        ColumnData::Text(data) => data
            .iter()
            .zip(column.valid())
            .map(|(v, valid)| valid.then_some(v.clone()))
            .collect(),
        other => panic!("not text: {:?}", other),
    }
}

fn sample() -> MutableBatch {
    batch(vec![
        ("time", numbers(TIME, &[Some(10), Some(20), Some(30)])),
        ("host", texts(TAG, &[Some("a"), None, Some("b")])),
        ("count", numbers(INTEGER, &[None, Some(2), Some(3)])),
    ])
}

#[test]
fn a_new_batch_is_empty() {
    let batch = MutableBatch::new();
    assert_eq!(batch.rows(), 0);
    assert_eq!(batch.columns().len(), 0);
    assert!(batch.timestamp_summary().is_none());
    assert_eq!(fields(&batch.schema(Selection::All).unwrap()), vec![]);
    assert!(matches!(batch.to_arrow(Selection::All), Err(Error::ArrowError { .. })));
}

#[test]
fn columns_make_a_batch() {
    let same_name = vec![
        ("a".to_owned(), numbers(INTEGER, &[Some(1)])),
        ("a".to_owned(), numbers(INTEGER, &[Some(2)])),
    ];
    assert!(MutableBatch::from_columns(same_name).is_none());
    let other_length = vec![
        ("a".to_owned(), numbers(INTEGER, &[Some(1)])),
        ("b".to_owned(), numbers(INTEGER, &[])),
    ];
    assert!(MutableBatch::from_columns(other_length).is_none());
    let time_by_another_name = vec![("a".to_owned(), numbers(TIME, &[Some(1)]))];
    assert!(MutableBatch::from_columns(time_by_another_name).is_none());
    let time_of_another_type = vec![("time".to_owned(), numbers(INTEGER, &[Some(1)]))];
    assert!(MutableBatch::from_columns(time_of_another_type).is_none());
    assert_eq!(MutableBatch::from_columns(vec![]).unwrap().rows(), 0);
    assert_eq!(sample().rows(), 3);
}

#[test]
fn columns_need_values_of_their_type() {
    assert!(Column::new(TAG, vec![true], ColumnData::I64(vec![1])).is_none());
    assert!(Column::new(INTEGER, vec![true, true], ColumnData::I64(vec![1])).is_none());
    assert!(Column::new(BOOLEAN, vec![true], ColumnData::Bool(vec![false])).is_some());
}

#[test]
fn schema_of_all_columns_is_sorted() {
    let schema = sample().schema(Selection::All).unwrap();
    assert_eq!(
        fields(&schema),
        vec![("count".to_owned(), INTEGER), ("host".to_owned(), TAG), ("time".to_owned(), TIME)],
    );
}

#[test]
fn schema_of_some_columns_keeps_their_order() {
    let batch = sample();
    let selected = names(&["time", "count"]);
    let schema = batch.schema(Selection::Columns(&selected)).unwrap();
    assert_eq!(fields(&schema), vec![("time".to_owned(), TIME), ("count".to_owned(), INTEGER)]);

    let selected = names(&["time", "no", "nor", "time"]);
    match batch.schema(Selection::Columns(&selected)) {
        Err(Error::ColumnNotFound { column }) => assert_eq!(column, "no"),
        other => panic!("{:?}", other),
    }
    let selected = names(&["time", "host", "time", "host"]);
    match batch.schema(Selection::Columns(&selected)) {
        Err(Error::InternalSchema { source }) => assert_eq!(source.column, "time"),
        other => panic!("{:?}", other),
    }
}

#[test]
fn columns_are_found_by_name() {
    let batch = sample();
    assert_eq!(batch.column("host").unwrap().influx_type(), TAG);
    match batch.column("Host") {
        Err(Error::ColumnNotFound { column }) => assert_eq!(column, "Host"),
        other => panic!("{:?}", other),
    }
    let mut listed: Vec<String> = batch.columns().iter().map(|(n, _)| n.to_string()).collect();
    listed.sort();
    assert_eq!(listed, names(&["count", "host", "time"]));
    for (name, column) in batch.columns() {
        assert_eq!(column.influx_type(), batch.column(name).unwrap().influx_type());
        assert_eq!(column.len(), 3);
    }
}

#[test]
fn timestamps_are_recorded_in_order() {
    let summary = sample().timestamp_summary().unwrap();
    assert_eq!(summary.recorded, vec![10, 20, 30]);
    let no_time = batch(vec![("a", numbers(INTEGER, &[Some(1)]))]);
    assert!(no_time.timestamp_summary().is_none());
}

#[test]
fn extending_fills_missing_columns_with_nulls() {
    let mut first = sample();
    let second = batch(vec![
        ("time", numbers(TIME, &[Some(40)])),
        ("region", texts(TAG, &[Some("west")])),
    ]);
    first.extend_from(&second).unwrap();
    assert_eq!(first.rows(), 4);
    assert_eq!(values(&first, "time"), vec![Some(10), Some(20), Some(30), Some(40)]);
    assert_eq!(values(&first, "count"), vec![None, Some(2), Some(3), None]);
    assert_eq!(
        text_values(&first, "region"),
        vec![None, None, None, Some("west".to_owned())],
    );
    assert_eq!(
        text_values(&first, "host"),
        vec![Some("a".to_owned()), None, Some("b".to_owned()), None],
    );
    assert_eq!(first.timestamp_summary().unwrap().recorded, vec![10, 20, 30, 40]);
}

#[test]
fn extending_by_ranges() {
    let mut target = MutableBatch::new();
    target.extend_from_range(&sample(), 1..3).unwrap();
    assert_eq!(values(&target, "time"), vec![Some(20), Some(30)]);
    assert_eq!(text_values(&target, "host"), vec![None, Some("b".to_owned())]);

    let ranges = [2..3, 1..1, 0..2];
    target.extend_from_ranges(&sample(), &ranges).unwrap();
    assert_eq!(
        values(&target, "time"),
        vec![Some(20), Some(30), Some(30), Some(10), Some(20)],
    );
    assert_eq!(
        values(&target, "count"),
        vec![Some(2), Some(3), Some(3), None, Some(2)],
    );
}

#[test]
fn extending_by_parts_is_extending_by_all_of_them() {
    let mut once = sample();
    once.extend_from_ranges(&sample(), &[0..1, 2..3]).unwrap();
    let mut twice = sample();
    twice.extend_from_range(&sample(), 0..1).unwrap();
    twice.extend_from_range(&sample(), 2..3).unwrap();
    assert_eq!(once.rows(), twice.rows());
    assert_eq!(values(&once, "time"), values(&twice, "time"));
    assert_eq!(values(&once, "count"), values(&twice, "count"));
    assert_eq!(text_values(&once, "host"), text_values(&twice, "host"));
}

#[test]
fn batches_are_gathered_in_any_grouping() {
    let a = || batch(vec![("x", numbers(INTEGER, &[Some(1)]))]);
    let b = || batch(vec![("y", numbers(INTEGER, &[Some(2), Some(3)]))]);
    let c = || batch(vec![("x", numbers(INTEGER, &[Some(4)]))]);

    let mut left = a();
    left.extend_from(&b()).unwrap();
    left.extend_from(&c()).unwrap();

    let mut bc = b();
    bc.extend_from(&c()).unwrap();
    let mut right = a();
    right.extend_from(&bc).unwrap();

    assert_eq!(values(&left, "x"), vec![Some(1), None, None, Some(4)]);
    assert_eq!(values(&left, "x"), values(&right, "x"));
    assert_eq!(values(&left, "y"), vec![None, Some(2), Some(3), None]);
    assert_eq!(values(&left, "y"), values(&right, "y"));
}

#[test]
fn extending_from_and_by_nothing() {
    let mut target = MutableBatch::new();
    target.extend_from(&sample()).unwrap();
    target.extend_from(&MutableBatch::new()).unwrap();
    assert_eq!(target.rows(), 3);
    assert_eq!(target.columns().len(), 3);
    assert_eq!(values(&target, "count"), values(&sample(), "count"));
    assert_eq!(values(&target, "time"), values(&sample(), "time"));
    assert_eq!(text_values(&target, "host"), text_values(&sample(), "host"));
}

#[test]
fn a_batch_of_other_types_changes_nothing() {
    let mut target = sample();
    let other = batch(vec![
        ("count", texts(STRING, &[Some("x")])),
        ("region", texts(TAG, &[Some("west")])),
    ]);
    match target.extend_from(&other) {
        Err(Error::WriterError { source }) => assert_eq!(
            source,
            TypeMismatch { column: "count".to_owned(), existing: INTEGER, inserted: STRING },
        ),
        result => panic!("{:?}", result),
    }
    assert_eq!(target.rows(), 3);
    assert!(target.column("region").is_err());
    assert_eq!(values(&target, "count"), vec![None, Some(2), Some(3)]);
}

fn all_types() -> MutableBatch {
    let valid = vec![true, false];
    let column = |influx_type, data| Column::new(influx_type, valid.clone(), data).unwrap();
    batch(vec![
        ("time", numbers(TIME, &[Some(1), Some(2)])),
        ("tag", texts(TAG, &[Some("t"), None])),
        ("f", column(FLOAT, ColumnData::F64(vec![1.5f64.to_bits(), 0]))),
        ("i", column(INTEGER, ColumnData::I64(vec![-7, 0]))),
        ("u", column(UINTEGER, ColumnData::U64(vec![u64::MAX, 0]))),
        ("s", texts(STRING, &[Some("\u{e4}"), None])),
        ("b", column(BOOLEAN, ColumnData::Bool(vec![true, false]))),
    ])
}

#[test]
fn to_arrow_keeps_values_and_nulls() {
    let arrow = all_types().to_arrow(Selection::All).unwrap().batch;
    assert_eq!(arrow.num_rows(), 2);
    let schema = arrow.schema();
    let listed: Vec<&str> = schema.fields().iter().map(|f| f.name().as_str()).collect();
    assert_eq!(listed, vec!["b", "f", "i", "s", "tag", "time", "u"]);
    for field in schema.fields() {
        assert_eq!(field.is_nullable(), field.name() != "time");
    }
    let column = |name: &str| -> ArrayRef { arrow.column_by_name(name).unwrap().clone() };
    for name in ["b", "f", "i", "s", "tag", "u"] {
        assert!(column(name).is_valid(0), "{}", name);
        assert!(column(name).is_null(1), "{}", name);
    }
    assert_eq!(column("f").data_type(), &DataType::Float64);
    assert_eq!(column("f").as_primitive::<Float64Type>().value(0), 1.5);
    assert_eq!(column("i").as_primitive::<Int64Type>().value(0), -7);
    assert_eq!(column("u").as_primitive::<UInt64Type>().value(0), u64::MAX);
    assert_eq!(column("s").as_string::<i32>().value(0), "\u{e4}");
    assert!(column("b").as_boolean().value(0));
    assert_eq!(column("time").data_type(), &DataType::Timestamp(TimeUnit::Nanosecond, None));
    let time = column("time");
    let time = time.as_primitive::<TimestampNanosecondType>();
    assert_eq!((time.value(0), time.value(1)), (1, 2));
    assert_eq!(
        column("tag").data_type(),
        &DataType::Dictionary(Box::new(DataType::Int32), Box::new(DataType::Utf8)),
    );
    let tag = column("tag");
    let tag = tag.as_dictionary::<Int32Type>();
    let key = tag.keys().value(0) as usize;
    assert_eq!(tag.values().as_string::<i32>().value(key), "t");
}

#[test]
fn to_arrow_of_no_rows() {
    let mut empty = MutableBatch::default();
    empty.extend_from_range(&all_types(), 1..1).unwrap();
    assert_eq!(empty.rows(), 0);
    let arrow = empty.to_arrow(Selection::All).unwrap().batch;
    assert_eq!(arrow.num_rows(), 0);
    assert_eq!(arrow.num_columns(), 7);
}

#[test]
fn to_arrow_of_selected_columns() {
    let batch = sample();
    let selected = names(&["host", "count"]);
    let arrow = batch.to_arrow(Selection::Columns(&selected)).unwrap().batch;
    let schema = arrow.schema();
    let listed: Vec<&str> = schema.fields().iter().map(|f| f.name().as_str()).collect();
    assert_eq!(listed, vec!["host", "count"]);
    assert_eq!(arrow.num_rows(), 3);

    let none = names(&[]);
    assert!(matches!(batch.to_arrow(Selection::Columns(&none)), Err(Error::ArrowError { .. })));
    let missing = names(&["host", "no"]);
    assert!(matches!(
        batch.to_arrow(Selection::Columns(&missing)),
        Err(Error::ColumnNotFound { .. })
    ));
    let twice = names(&["host", "host"]);
    assert!(matches!(
        batch.to_arrow(Selection::Columns(&twice)),
        Err(Error::InternalSchema { .. })
    ));
}

#[test]
fn timestamps_may_not_be_null_in_arrow() {
    let mut target = batch(vec![("a", numbers(INTEGER, &[Some(1)]))]);
    target.extend_from(&batch(vec![("time", numbers(TIME, &[Some(5)]))])).unwrap();
    assert_eq!(values(&target, "time"), vec![None, Some(5)]);
    assert!(matches!(target.to_arrow(Selection::All), Err(Error::ArrowError { .. })));
    let selected = names(&["a"]);
    assert!(target.to_arrow(Selection::Columns(&selected)).is_ok());
}

#[test]
fn sizes_given_the_room_of_names() {
    let own = std::mem::size_of::<MutableBatch>();
    let entry = std::mem::size_of::<String>() + std::mem::size_of::<usize>();
    assert_eq!(MutableBatch::new().size(), own);
    assert_eq!(MutableBatch::new().size_given(&[]), own);

    let batch = sample();
    let column = |name: &str| batch.column(name).unwrap().size();
    let columns = column("time") + column("host") + column("count");
    let (time, host, count) = ("time".to_owned(), "host".to_owned(), "count".to_owned());
    assert_eq!(
        batch.size_given(&[(&time, 4), (&host, 7), (&count, 100)]),
        own + 3 * entry + 4 + 7 + 100 + columns,
    );
    assert_eq!(
        batch.size_given(&[(&time, usize::MAX), (&host, 1)]),
        usize::MAX,
    );
}

#[test]
fn size_is_that_of_the_room_of_the_names() {
    let batch = sample();
    let listed: Vec<(&String, usize)> =
        batch.columns().into_iter().map(|(name, _)| (name, name.capacity())).collect();
    assert_eq!(batch.size(), batch.size_given(&listed));
    let extended = {
        let mut extended = sample();
        extended.extend_from(&sample()).unwrap();
        extended
    };
    let text = std::mem::size_of::<String>();
    // numbers, strings with their bytes, and whether each is there
    let rows = 2 * 3 * 8 + 3 * text + 2 + 3 * 3;
    assert_eq!(extended.size_given(&listed), batch.size_given(&listed) + rows);
}

#[test]
fn clones_hold_the_same() {
    let batch = sample();
    let mut copy = batch.clone();
    assert_eq!(copy.rows(), 3);
    assert_eq!(values(&copy, "time"), values(&batch, "time"));
    assert_eq!(values(&copy, "count"), values(&batch, "count"));
    assert_eq!(text_values(&copy, "host"), text_values(&batch, "host"));
    // and are not tied to each other
    copy.extend_from(&batch).unwrap();
    assert_eq!((copy.rows(), batch.rows()), (6, 3));
}

#[test]
fn range_by_range() {
    let ranges = [1..3, 0..2, 1..3];
    let mut at_once = sample();
    at_once.extend_from_ranges(&sample(), &ranges).unwrap();
    let mut in_turn = sample();
    for range in ranges {
        in_turn.extend_from_range(&sample(), range).unwrap();
    }
    assert_eq!(at_once.rows(), 9);
    assert_eq!(values(&at_once, "time"), values(&in_turn, "time"));
    assert_eq!(text_values(&at_once, "host"), text_values(&in_turn, "host"));

    // the range of all rows is the whole batch
    let mut by_range = sample();
    by_range.extend_from_ranges(&sample(), &[0..sample().rows()]).unwrap();
    let mut whole = sample();
    whole.extend_from(&sample()).unwrap();
    assert_eq!(by_range.rows(), whole.rows());
    assert_eq!(values(&by_range, "time"), values(&whole, "time"));
    assert_eq!(text_values(&by_range, "host"), text_values(&whole, "host"));
}

#[test]
fn repeated_tags_are_held_once() {
    let batch = batch(vec![("t", texts(TAG, &[Some("a"), Some("b"), Some("a"), None]))]);
    let arrow = batch.to_arrow(Selection::All).unwrap().batch;
    let column = arrow.column_by_name("t").unwrap().clone();
    let tags = column.as_dictionary::<Int32Type>();
    assert_eq!(tags.values().len(), 2);
    assert_eq!(tags.keys().value(0), tags.keys().value(2));
}

#[test]
fn batch_error_messages() {
    let column = || "c".to_owned();
    assert_eq!(
        Error::ColumnError { column: column(), source: TextOverflow }.message("too long"),
        "Column error on column c: too long",
    );
    assert_eq!(Error::ColumnNotFound { column: column() }.message(""), "Column not found: c");
    let selected = names(&["host", "host"]);
    let error = sample().schema(Selection::Columns(&selected)).unwrap_err();
    assert_eq!(error.message("twice"), "Internal error converting schema: twice");
    match MutableBatch::new().to_arrow(Selection::All) {
        Err(error) => assert_eq!(error.message("no column"), "arrow conversion error: no column"),
        Ok(batch) => panic!("{:?}", batch),
    }
    let source = TypeMismatch { column: column(), existing: TAG, inserted: FLOAT };
    assert_eq!(Error::WriterError { source }.message("mismatch"), "mismatch");
}

#[test]
fn column_sizes() {
    let own = std::mem::size_of::<Column>();
    assert_eq!(numbers(INTEGER, &[Some(1), None]).size(), own + 2 + 16);
    let text = std::mem::size_of::<String>();
    assert_eq!(texts(TAG, &[Some("\u{e4}"), None]).size(), own + 2 + 2 * text + 2);
    let flags = Column::new(BOOLEAN, vec![true], ColumnData::Bool(vec![true])).unwrap();
    assert_eq!(flags.size(), own + 1 + 1);
    assert_eq!(Column::nulls(FLOAT, 3).size(), own + 3 + 24);
}
