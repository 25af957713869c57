//! Columns as Arrow arrays, and arrays gathered into a record batch.

use crate::column::{Column, ColumnData};
use crate::column_names::ColumnNames;
use crate::schema::{InfluxColumnType, InfluxFieldType};
use arrow::array::{Array, ArrayData};
use arrow::error::ArrowError;
use std::sync::Arc;
use vstd::prelude::*;

verus! {

use crate::column::{ColumnView, DataView};
use crate::column_names::name_positions;
use crate::memory::capped;

/// Trusted: an opaque `arrow::array::ArrayData`.
#[verifier::external_type_specification]
#[verifier::external_body]
pub struct ExArrayData(arrow::array::ArrayData);

/// A batch of Arrow arrays.
///
/// Trusted: it is an opaque `arrow::record_batch::RecordBatch`.
#[verifier::external_body]
#[derive(Debug)]
pub struct ArrowBatch {
    pub batch: arrow::record_batch::RecordBatch,
}

/// Trusted: an opaque `arrow::error::ArrowError`.
#[verifier::external_type_specification]
#[verifier::external_body]
pub struct ExArrowError(arrow::error::ArrowError);

/// The data types of the arrays that columns become.
pub enum ArrowType {
    Float64,
    Int64,
    UInt64,
    /// Text, each held once, by way of 32 bit keys.
    Dictionary,
    Utf8,
    Boolean,
    /// Nanoseconds since the epoch, with no time zone.
    Timestamp,
}

/// A value of an array.
#[verifier::ext_equal]
pub enum ArrowValue {
    /// The bit pattern of an IEEE 754 double precision number.
    Float(u64),
    Integer(i64),
    Unsigned(u64),
    Text(Seq<char>),
    Boolean(bool),
}

/// A field of a record batch: its name, whether it may hold nulls, its type and its values.
#[verifier::ext_equal]
pub struct ArrowField {
    pub name: Seq<char>,
    pub nullable: bool,
    pub data_type: ArrowType,
    pub values: Seq<Option<ArrowValue>>,
}

/// The values of an array, `None` where it holds a null.
pub uninterp spec fn array_values(array: ArrayData) -> Seq<Option<ArrowValue>>;

/// The data type of an array.
pub uninterp spec fn array_type(array: ArrayData) -> ArrowType;

/// The fields of a record batch.
pub uninterp spec fn batch_fields(batch: ArrowBatch) -> Seq<ArrowField>;

/// The number of bytes that the texts among values take.
pub open spec fn text_bytes(values: Seq<Option<ArrowValue>>) -> nat
    decreases values.len(),
{
    if values.len() == 0 {
        0
    } else {
        text_bytes(values.drop_last()) + text_len(values.last())
    }
}

/// The number of bytes that a value takes as a text; none if it is not one.
pub open spec fn text_len(value: Option<ArrowValue>) -> nat {
    match value {
        Some(ArrowValue::Text(text)) => vstd::utf8::encode_utf8(text).len(),
        _ => 0,
    }
}

/// The number of bytes that the texts among values take if each is held once.
pub open spec fn distinct_text_bytes(values: Seq<Option<ArrowValue>>) -> nat
    decreases values.len(),
{
    if values.len() == 0 {
        0
    } else if values.drop_last().contains(values.last()) {
        distinct_text_bytes(values.drop_last())
    } else {
        distinct_text_bytes(values.drop_last()) + text_len(values.last())
    }
}

/// Double precision numbers, by their bit patterns, as values of an array.
pub open spec fn float_values(bits: Seq<Option<u64>>) -> Seq<Option<ArrowValue>> {
    bits.map_values(
        |v: Option<u64>|
            match v {
                Some(bits) => Some(ArrowValue::Float(bits)),
                None => None,
            },
    )
}

/// Signed numbers as values of an array.
pub open spec fn integer_values(numbers: Seq<Option<i64>>) -> Seq<Option<ArrowValue>> {
    numbers.map_values(
        |v: Option<i64>|
            match v {
                Some(number) => Some(ArrowValue::Integer(number)),
                None => None,
            },
    )
}

/// Unsigned numbers as values of an array.
pub open spec fn unsigned_values(numbers: Seq<Option<u64>>) -> Seq<Option<ArrowValue>> {
    numbers.map_values(
        |v: Option<u64>|
            match v {
                Some(number) => Some(ArrowValue::Unsigned(number)),
                None => None,
            },
    )
}

/// Texts as values of an array.
pub open spec fn text_values(texts: Seq<Option<String>>) -> Seq<Option<ArrowValue>> {
    texts.map_values(
        |v: Option<String>|
            match v {
                Some(text) => Some(ArrowValue::Text(text@)),
                None => None,
            },
    )
}

/// Truth values as values of an array.
pub open spec fn boolean_values(values: Seq<Option<bool>>) -> Seq<Option<ArrowValue>> {
    values.map_values(
        |v: Option<bool>|
            match v {
                Some(value) => Some(ArrowValue::Boolean(value)),
                None => None,
            },
    )
}

/// An array of double precision numbers with the given bit patterns.
///
/// Trusted: `arrow::array::UInt64Array::from` keeps each value and each null, and
/// `arrow::array::ArrayDataBuilder` reads the same eight bytes of each as a `Float64`.
#[verifier::external_body]
fn float_array(bits: Vec<Option<u64>>) -> (array: ArrayData)
    ensures
        array_type(array) == ArrowType::Float64,
        array_values(array) == float_values(bits@),
{
    let words = arrow::array::UInt64Array::from(bits).into_data();
    words.into_builder().data_type(arrow::datatypes::DataType::Float64).build().unwrap()
}

/// An array of signed numbers.
///
/// Trusted: `arrow::array::Int64Array::from` keeps each value and each null.
#[verifier::external_body]
fn integer_array(numbers: Vec<Option<i64>>) -> (array: ArrayData)
    ensures
        array_type(array) == ArrowType::Int64,
        array_values(array) == integer_values(numbers@),
{
    arrow::array::Int64Array::from(numbers).into_data()
}

/// An array of unsigned numbers.
///
/// Trusted: `arrow::array::UInt64Array::from` keeps each value and each null.
#[verifier::external_body]
fn unsigned_array(numbers: Vec<Option<u64>>) -> (array: ArrayData)
    ensures
        array_type(array) == ArrowType::UInt64,
        array_values(array) == unsigned_values(numbers@),
{
    arrow::array::UInt64Array::from(numbers).into_data()
}

/// An array of timestamps.
///
/// Trusted: `arrow::array::TimestampNanosecondArray::from` keeps each value and each null.
#[verifier::external_body]
fn timestamp_array(nanos: Vec<Option<i64>>) -> (array: ArrayData)
    ensures
        array_type(array) == ArrowType::Timestamp,
        array_values(array) == integer_values(nanos@),
{
    arrow::array::TimestampNanosecondArray::from(nanos).into_data()
}

/// An array of truth values.
///
/// Trusted: `arrow::array::BooleanArray::from` keeps each value and each null.
#[verifier::external_body]
fn boolean_array(values: Vec<Option<bool>>) -> (array: ArrayData)
    ensures
        array_type(array) == ArrowType::Boolean,
        array_values(array) == boolean_values(values@),
{
    arrow::array::BooleanArray::from(values).into_data()
}

/// An array of texts.
///
/// Trusted: `arrow::array::StringArray::from` keeps each value and each null. It counts bytes
/// with 32 bits and panics where they do not suffice.
#[verifier::external_body]
fn text_array(texts: Vec<Option<String>>) -> (array: ArrayData)
    requires
        text_bytes(text_values(texts@)) <= i32::MAX,
    ensures
        array_type(array) == ArrowType::Utf8,
        array_values(array) == text_values(texts@),
{
    arrow::array::StringArray::from(texts).into_data()
}

/// An array of texts, each held once, by way of keys.
///
/// Trusted: `arrow::array::Int32DictionaryArray::from_iter` keeps each value and each null, and
/// holds each text once. It counts the bytes of these texts, and the keys to them, with 32 bits
/// and panics where they do not suffice.
#[verifier::external_body]
fn dictionary_array(texts: Vec<Option<String>>) -> (array: ArrayData)
    requires
        distinct_text_bytes(text_values(texts@)) <= i32::MAX,
    ensures
        array_type(array) == ArrowType::Dictionary,
        array_values(array) == text_values(texts@),
{
    let texts = texts.iter().map(|text| text.as_deref());
    texts.collect::<arrow::array::Int32DictionaryArray>().into_data()
}

/// The fields of a record batch made of named arrays.
pub open spec fn named_arrays(arrays: Seq<(String, bool, ArrayData)>) -> Seq<ArrowField> {
    arrays.map_values(
        |a: (String, bool, ArrayData)|
            ArrowField {
                name: a.0@,
                nullable: a.1,
                data_type: array_type(a.2),
                values: array_values(a.2),
            },
    )
}

/// Fields that a record batch can have: at least one, all equally long, and no null in one that
/// may not hold any.
pub open spec fn make_a_record_batch(fields: Seq<ArrowField>) -> bool {
    &&& fields.len() > 0
    &&& forall|i: int|
        0 <= i < fields.len() ==> (#[trigger] fields[i]).values.len() == fields[0].values.len()
    &&& forall|i: int, j: int|
        0 <= i < fields.len() && !fields[i].nullable && 0 <= j < fields[i].values.len()
            ==> #[trigger] fields[i].values[j] is Some
}

/// A record batch of the given arrays, each with its name and whether it may hold nulls.
///
/// Trusted: `arrow::record_batch::RecordBatch::try_new`, with the arrays' own types as those of
/// the schema, refuses to make a batch of no columns, of columns that are not equally long, and
/// of a column that holds nulls and may not. What the error says is left open.
#[verifier::external_body]
pub(crate) fn record_batch(arrays: Vec<(String, bool, ArrayData)>) -> (result: Result<
    ArrowBatch,
    ArrowError,
>)
    ensures
        result is Ok <==> make_a_record_batch(named_arrays(arrays@)),
        result matches Ok(batch) ==> batch_fields(batch) == named_arrays(arrays@),
{
    let (fields, columns): (Vec<arrow::datatypes::Field>, Vec<arrow::array::ArrayRef>) = arrays
        .into_iter()
        .map(|(name, nullable, data)| {
            let field = arrow::datatypes::Field::new(name, data.data_type().clone(), nullable);
            (field, arrow::array::make_array(data))
        })
        .unzip();
    let schema = Arc::new(arrow::datatypes::Schema::new(fields));
    let batch = arrow::record_batch::RecordBatch::try_new(schema, columns)?;
    Ok(ArrowBatch { batch })
}

/// The data type of the array that a column of the given type becomes.
pub open spec fn arrow_type(influx_type: InfluxColumnType) -> ArrowType {
    match influx_type {
        InfluxColumnType::Tag => ArrowType::Dictionary,
        InfluxColumnType::Field(InfluxFieldType::Float) => ArrowType::Float64,
        InfluxColumnType::Field(InfluxFieldType::Integer) => ArrowType::Int64,
        InfluxColumnType::Field(InfluxFieldType::UInteger) => ArrowType::UInt64,
        InfluxColumnType::Field(InfluxFieldType::String) => ArrowType::Utf8,
        InfluxColumnType::Field(InfluxFieldType::Boolean) => ArrowType::Boolean,
        InfluxColumnType::Timestamp => ArrowType::Timestamp,
    }
}

/// The value of a row as a value of an array.
pub open spec fn arrow_value(data: DataView, row: int) -> ArrowValue {
    match data {
        DataView::F64(v) => ArrowValue::Float(v[row]),
        DataView::I64(v) => ArrowValue::Integer(v[row]),
        DataView::U64(v) => ArrowValue::Unsigned(v[row]),
        DataView::Text(v) => ArrowValue::Text(v[row]),
        DataView::Bool(v) => ArrowValue::Boolean(v[row]),
    }
}

/// The rows of a column as values of an array.
pub open spec fn arrow_values(column: ColumnView) -> Seq<Option<ArrowValue>> {
    Seq::new(
        column.len(),
        |row: int|
            if column.valid[row] {
                Some(arrow_value(column.data, row))
            } else {
                None
            },
    )
}

/// An array holds, row by row, the very values of the column that are there, and a null for each
/// that is not.
pub proof fn law_array_holds_the_values(column: ColumnView, row: int)
    requires
        column.wf(),
        0 <= row < column.valid.len(),
    ensures
        arrow_values(column).len() == column.valid.len(),
        arrow_values(column)[row] is Some <==> column.valid[row],
        column.valid[row] ==> match (column.data, arrow_values(column)[row]) {
            (DataView::F64(v), Some(ArrowValue::Float(bits))) => bits == v[row],
            (DataView::I64(v), Some(ArrowValue::Integer(number))) => number == v[row],
            (DataView::U64(v), Some(ArrowValue::Unsigned(number))) => number == v[row],
            (DataView::Text(v), Some(ArrowValue::Text(text))) => text == v[row],
            (DataView::Bool(v), Some(ArrowValue::Boolean(value))) => value == v[row],
            _ => false,
        },
{
}

/// What is there of a column can be read back from its array: columns of the same kind of data
/// with the same array have values in the same rows, and have the same values there.
pub proof fn law_array_is_read_back(a: ColumnView, b: ColumnView, row: int)
    requires
        a.wf(),
        b.wf(),
        arrow_values(a) == arrow_values(b),
        0 <= row < a.valid.len(),
    ensures
        a.valid.len() == b.valid.len(),
        a.valid[row] == b.valid[row],
        a.valid[row] ==> match (a.data, b.data) {
            (DataView::F64(x), DataView::F64(y)) => x[row] == y[row],
            (DataView::I64(x), DataView::I64(y)) => x[row] == y[row],
            (DataView::U64(x), DataView::U64(y)) => x[row] == y[row],
            (DataView::Text(x), DataView::Text(y)) => x[row] == y[row],
            (DataView::Bool(x), DataView::Bool(y)) => x[row] == y[row],
            _ => false,
        },
{
    assert(arrow_values(a).len() == a.valid.len());
    assert(arrow_values(b).len() == b.valid.len());
    law_array_holds_the_values(a, row);
    law_array_holds_the_values(b, row);
}

/// Two rows of a column that are there have the same value in its array only if they hold the
/// same value.
pub proof fn law_values_stay_apart(column: ColumnView, i: int, j: int)
    requires
        column.wf(),
        0 <= i < column.valid.len(),
        0 <= j < column.valid.len(),
        column.valid[i],
        column.valid[j],
    ensures
        arrow_values(column)[i] == arrow_values(column)[j] <==> match column.data {
            DataView::F64(v) => v[i] == v[j],
            DataView::I64(v) => v[i] == v[j],
            DataView::U64(v) => v[i] == v[j],
            DataView::Text(v) => v[i] == v[j],
            DataView::Bool(v) => v[i] == v[j],
        },
{
}

/// The type of a column can be told from the type of its array.
pub proof fn law_types_stay_apart(a: InfluxColumnType, b: InfluxColumnType)
    ensures
        arrow_type(a) == arrow_type(b) <==> a == b,
        arrow_type(a) is Dictionary <==> a == InfluxColumnType::Tag,
        arrow_type(a) is Timestamp <==> a == InfluxColumnType::Timestamp,
        arrow_type(a) is Float64 <==> a == InfluxColumnType::Field(InfluxFieldType::Float),
        arrow_type(a) is Int64 <==> a == InfluxColumnType::Field(InfluxFieldType::Integer),
        arrow_type(a) is UInt64 <==> a == InfluxColumnType::Field(InfluxFieldType::UInteger),
        arrow_type(a) is Utf8 <==> a == InfluxColumnType::Field(InfluxFieldType::String),
        arrow_type(a) is Boolean <==> a == InfluxColumnType::Field(InfluxFieldType::Boolean),
{
}

/// Only texts can be too much for an array, and only if they take more bytes than 31 bits count:
/// all those of a field together, and those of tags with each text counted once.
pub proof fn law_what_fits_arrow(column: ColumnView)
    requires
        column.wf(),
    ensures
        !(column.data is Text) ==> fits_arrow(column),
        column.influx_type == InfluxColumnType::Tag ==> (fits_arrow(column)
            <==> distinct_text_bytes(arrow_values(column)) <= 2_147_483_647),
        column.influx_type != InfluxColumnType::Tag ==> (fits_arrow(column) <==> text_bytes(
            arrow_values(column),
        ) <= 2_147_483_647),
        text_bytes(arrow_values(column)) <= 2_147_483_647 ==> fits_arrow(column),
{
    lemma_distinct_is_less(arrow_values(column));
    if !(column.data is Text) {
        lemma_no_text(arrow_values(column));
    }
}

/// The bytes of texts add up; where each text is held once, one that was there before adds none.
pub proof fn law_text_bytes_add_up(values: Seq<Option<ArrowValue>>, text: Seq<char>)
    ensures
        text_bytes(Seq::empty()) == 0,
        distinct_text_bytes(Seq::empty()) == 0,
        text_bytes(values.push(Some(ArrowValue::Text(text)))) == text_bytes(values)
            + vstd::utf8::encode_utf8(text).len(),
        text_bytes(values.push(None)) == text_bytes(values),
        distinct_text_bytes(values.push(None)) == distinct_text_bytes(values),
        distinct_text_bytes(values.push(Some(ArrowValue::Text(text)))) == distinct_text_bytes(
            values,
        ) + if values.contains(Some(ArrowValue::Text(text))) {
            0
        } else {
            vstd::utf8::encode_utf8(text).len()
        },
{
    let one_more = values.push(Some(ArrowValue::Text(text)));
    let null = values.push(None);
    assert(one_more.drop_last() =~= values);
    assert(null.drop_last() =~= values);
}

/// The values that are there, `None` where one is not.
fn present<T: Copy>(valid: &Vec<bool>, data: &Vec<T>) -> (values: Vec<Option<T>>)
    requires
        valid@.len() == data@.len(),
    ensures
        values@ == Seq::new(
            data@.len(),
            |i: int|
                if valid@[i] {
                    Some(data@[i])
                } else {
                    None
                },
        ),
{
    let mut values: Vec<Option<T>> = Vec::new();
    for i in 0..data.len()
        invariant
            valid@.len() == data@.len(),
            values@.len() == i,
            forall|k: int|
                0 <= k < i ==> #[trigger] values@[k] == if valid@[k] {
                    Some(data@[k])
                } else {
                    None
                },
    {
        values.push(
            if valid[i] {
                Some(data[i])
            } else {
                None
            },
        );
    }
    values
}

/// The texts that are there, `None` where one is not.
fn present_texts(valid: &Vec<bool>, data: &Vec<String>) -> (values: Vec<Option<String>>)
    requires
        valid@.len() == data@.len(),
    ensures
        text_values(values@) == Seq::new(
            data@.len(),
            |i: int|
                if valid@[i] {
                    Some(ArrowValue::Text(data@[i]@))
                } else {
                    None
                },
        ),
{
    let mut values: Vec<Option<String>> = Vec::new();
    for i in 0..data.len()
        invariant
            valid@.len() == data@.len(),
            values@.len() == i,
            forall|k: int|
                0 <= k < i ==> {
                    &&& (#[trigger] values@[k]) is Some <==> valid@[k]
                    &&& values@[k] matches Some(text) ==> text@ == data@[k]@
                },
    {
        values.push(
            if valid[i] {
                Some(data[i].clone())
            } else {
                None
            },
        );
    }
    values
}

/// The texts of a column take more bytes than an Arrow array of them can hold.
#[derive(Debug, Clone, Copy, PartialEq, Eq, Structural)]
pub struct TextOverflow;

/// The number of bytes that the texts of a column take in an Arrow array: those of tags are held
/// once each.
pub open spec fn held_text_bytes(column: ColumnView) -> nat {
    if column.influx_type == InfluxColumnType::Tag {
        distinct_text_bytes(arrow_values(column))
    } else {
        text_bytes(arrow_values(column))
    }
}

/// The column can be made an Arrow array, which counts the bytes of its texts with 32 bits.
pub open spec fn fits_arrow(column: ColumnView) -> bool {
    held_text_bytes(column) <= i32::MAX
}

proof fn lemma_distinct_is_less(values: Seq<Option<ArrowValue>>)
    ensures
        distinct_text_bytes(values) <= text_bytes(values),
    decreases values.len(),
{
    if values.len() > 0 {
        lemma_distinct_is_less(values.drop_last());
    }
}

proof fn lemma_no_text(values: Seq<Option<ArrowValue>>)
    requires
        forall|i: int| 0 <= i < values.len() ==> text_len(#[trigger] values[i]) == 0,
    ensures
        text_bytes(values) == 0,
    decreases values.len(),
{
    if values.len() > 0 {
        assert(values.last() == values[values.len() - 1]);
        lemma_no_text(values.drop_last());
    }
}

/// The number of bytes that texts take.
fn texts_len(texts: &Vec<Option<String>>) -> (size: usize)
    ensures
        size == capped(text_bytes(text_values(texts@))),
{
    let ghost values = text_values(texts@);
    let mut size: usize = 0;
    for i in 0..texts.len()
        invariant
            values == text_values(texts@),
            size == capped(text_bytes(values.take(i as int))),
    {
        assert(values.take(i + 1).drop_last() =~= values.take(i as int));
        if let Some(text) = &texts[i] {
            size = size.saturating_add(text.as_str().as_bytes().len());
        }
    }
    assert(values.take(values.len() as int) =~= values);
    size
}

/// The number of bytes that texts take if each is held once.
fn distinct_texts_len(texts: &Vec<Option<String>>) -> (size: usize)
    ensures
        size == capped(distinct_text_bytes(text_values(texts@))),
{
    let ghost values = text_values(texts@);
    let mut seen = ColumnNames::new();
    let mut size: usize = 0;
    for i in 0..texts.len()
        invariant
            values == text_values(texts@),
            forall|text: Seq<char>| #[trigger]
                name_positions(seen).contains_key(text) <==> values.take(i as int).contains(
                    Some(ArrowValue::Text(text)),
                ),
            size == capped(distinct_text_bytes(values.take(i as int))),
    {
        let ghost before = values.take(i as int);
        let ghost next = values.take(i + 1);
        proof {
            assert(next.drop_last() =~= before);
            assert(next =~= before.push(values[i as int]));
            assert forall|v: Option<ArrowValue>| #[trigger] next.contains(v) <==> before.contains(v)
                || v == values[i as int] by {
                if before.contains(v) {
                    assert(next[before.index_of(v)] == v);
                }
                if v == values[i as int] {
                    assert(next[i as int] == v);
                }
                if next.contains(v) && v != values[i as int] {
                    assert(before[next.index_of(v)] == v);
                }
            }
        }
        if let Some(text) = &texts[i] {
            if seen.get(text.as_str()).is_none() {
                size = size.saturating_add(text.as_str().as_bytes().len());
                seen.insert(text.clone(), i);
            }
        }
    }
    assert(values.take(values.len() as int) =~= values);
    size
}

impl Column {
    /// The column as an Arrow array, unless its texts are too much for one.
    pub fn to_arrow(&self) -> (result: Result<ArrayData, TextOverflow>)
        requires
            self@.wf(),
        ensures
            match result {
                Ok(array) => {
                    &&& fits_arrow(self@)
                    &&& array_type(array) == arrow_type(self@.influx_type)
                    &&& array_values(array) == arrow_values(self@)
                },
                Err(_) => !fits_arrow(self@),
            },
            !(self@.data is Text) ==> result is Ok,
            result matches Ok(array) ==> array_values(array).len() == self@.valid.len(),
            result matches Ok(array) ==> forall|row: int|
                0 <= row < self@.valid.len() ==> match (
                    self@.data,
                    #[trigger] array_values(array)[row],
                ) {
                    (_, None) => !self@.valid[row],
                    (DataView::F64(v), Some(ArrowValue::Float(bits))) => {
                        self@.valid[row] && bits == v[row]
                    },
                    (DataView::I64(v), Some(ArrowValue::Integer(number))) => {
                        self@.valid[row] && number == v[row]
                    },
                    (DataView::U64(v), Some(ArrowValue::Unsigned(number))) => {
                        self@.valid[row] && number == v[row]
                    },
                    (DataView::Text(v), Some(ArrowValue::Text(text))) => {
                        self@.valid[row] && text == v[row]
                    },
                    (DataView::Bool(v), Some(ArrowValue::Boolean(value))) => {
                        self@.valid[row] && value == v[row]
                    },
                    _ => false,
                },
    {
        let valid = self.valid();
        proof {
            if !(self@.data is Text) {
                lemma_no_text(arrow_values(self@));
            }
        }
        match self.data() {
            ColumnData::F64(data) => {
                let values = present(valid, data);
                assert(float_values(values@) =~= arrow_values(self@));
                Ok(float_array(values))
            },
            ColumnData::I64(data) => {
                let values = present(valid, data);
                assert(integer_values(values@) =~= arrow_values(self@));
                match self.influx_type() {
                    InfluxColumnType::Timestamp => Ok(timestamp_array(values)),
                    _ => Ok(integer_array(values)),
                }
            },
            ColumnData::U64(data) => {
                let values = present(valid, data);
                assert(unsigned_values(values@) =~= arrow_values(self@));
                Ok(unsigned_array(values))
            },
            ColumnData::Text(data) => {
                let values = present_texts(valid, data);
                assert(text_values(values@) =~= arrow_values(self@));
                proof {
                    lemma_distinct_is_less(arrow_values(self@));
                }
                let limit = i32::MAX as usize;
                let all_fit = texts_len(&values) <= limit;
                match self.influx_type() {
                    InfluxColumnType::Tag => {
                        // only where repeated texts matter, they are looked for
                        if all_fit || distinct_texts_len(&values) <= limit {
                            Ok(dictionary_array(values))
                        } else {
                            Err(TextOverflow)
                        }
                    },
                    _ => {
                        if all_fit {
                            Ok(text_array(values))
                        } else {
                            Err(TextOverflow)
                        }
                    },
                }
            },
            ColumnData::Bool(data) => {
                let values = present(valid, data);
                assert(boolean_values(values@) =~= arrow_values(self@));
                Ok(boolean_array(values))
            },
        }
    }
}

} // verus!
