//! A mutable data structure for a collection of writes.
//!
//! A batch holds rows (a horizontal subset of a table) column by column. It can be appended to
//! and converted into an Arrow record batch.

use crate::arrow_batch::{ArrowBatch, TextOverflow, record_batch};
use crate::column::{Column, ColumnData};
use crate::column_names::ColumnNames;
use crate::memory::capacity;
use crate::schema::{DuplicateColumn, InfluxColumnType, Schema, Selection, TIME_COLUMN_NAME};
use crate::text::{joined, same_text};
use arrow::array::ArrayData;
use std::ops::Range;
use vstd::prelude::*;

verus! {

use crate::arrow_batch::{
    array_type,
    array_values,
    arrow_type,
    arrow_values,
    batch_fields,
    fits_arrow,
    make_a_record_batch,
    named_arrays,
};
use crate::batch_view::{
    BatchView,
    all_fit_arrow,
    all_rows,
    arrow_fields,
    extended,
    extended_column,
    extended_range_by_range,
    first_missing,
    first_unfit,
    has_all,
    is_selection,
    law_extension_by_parts,
    law_extension_range_by_range,
    law_selected_columns,
    lemma_extended_wf,
    selected_columns,
    selected_names,
    types_agree,
};
use crate::column::{
    DataView,
    law_rows_add_up,
    lemma_followed_by_none,
    lemma_picked,
    lemma_picked_row,
    null_column,
    ranges_within,
    rows_in,
};
use crate::column_names::{is_listed, lists_positions, name_positions};
use crate::memory::{capped, column_size};
use crate::schema::{SchemaColumn, distinct_names, first_duplicate, schema_columns};

/// A column of a batch is of another type than the column of that name to be written to it.
#[derive(Debug, PartialEq, Eq)]
pub struct TypeMismatch {
    pub column: String,
    pub existing: InfluxColumnType,
    pub inserted: InfluxColumnType,
}

/// Why an operation on a batch failed.
#[allow(inconsistent_fields)]
#[derive(Debug)]
pub enum Error {
    /// The column cannot be made an Arrow array.
    ColumnError { column: String, source: TextOverflow },
    /// The columns do not make a schema.
    InternalSchema { source: DuplicateColumn },
    /// The batch has no such column.
    ColumnNotFound { column: String },
    /// The columns do not make an Arrow batch.
    ArrowError { source: arrow::error::ArrowError },
    /// Rows could not be written to the batch.
    WriterError { source: TypeMismatch },
}

/// What an error says, in words, given what its source says.
pub open spec fn error_text(error: Error, source: Seq<char>) -> Seq<char> {
    match error {
        Error::ColumnError { column, .. } => {
            "Column error on column "@ + column@ + ": "@ + source
        },
        Error::ArrowError { .. } => "arrow conversion error: "@ + source,
        Error::InternalSchema { .. } => "Internal error converting schema: "@ + source,
        Error::ColumnNotFound { column } => "Column not found: "@ + column@,
        Error::WriterError { .. } => source,
    }
}

impl Error {
    /// What the error says, in words, given what its source says, if it has one.
    pub fn message(&self, source: &str) -> (message: String)
        ensures
            message@ == error_text(*self, source@),
            match *self {
                Error::ColumnError { column, .. } => message@ == "Column error on column "@
                    + column@ + ": "@ + source@,
                Error::ArrowError { .. } => message@ == "arrow conversion error: "@ + source@,
                Error::InternalSchema { .. } => message@ == "Internal error converting schema: "@
                    + source@,
                Error::ColumnNotFound { column } => message@ == "Column not found: "@ + column@,
                Error::WriterError { .. } => message@ == source@,
            },
    {
        match self {
            Error::ColumnError { column, .. } => {
                let message = joined("Column error on column ", column.as_str());
                let message = joined(message.as_str(), ": ");
                joined(message.as_str(), source)
            },
            Error::ArrowError { .. } => joined("arrow conversion error: ", source),
            Error::InternalSchema { .. } => joined("Internal error converting schema: ", source),
            Error::ColumnNotFound { column } => joined("Column not found: ", column.as_str()),
            Error::WriterError { .. } => source.to_owned(),
        }
    }
}

/// The timestamps to be recorded of what was written, one for each row.
#[derive(Debug)]
pub struct TimestampSummary {
    /// In nanoseconds since the epoch. A summary does not depend on their order.
    pub recorded: Vec<i64>,
}

impl TimestampSummary {
    /// A summary of nothing.
    pub fn new() -> (summary: Self)
        ensures
            summary.recorded@ == Seq::<i64>::empty(),
    {
        TimestampSummary { recorded: Vec::new() }
    }

    /// Records a timestamp, in nanoseconds.
    pub fn record_nanos(&mut self, timestamp: i64)
        ensures
            final(self).recorded@ == old(self).recorded@.push(timestamp),
    {
        self.recorded.push(timestamp);
    }
}

/// Represents a mutable batch of rows which can be appended to.
#[derive(Debug)]
pub struct MutableBatch {
    /// Map of column name to index in `columns`.
    column_names: ColumnNames,
    /// Columns contained within this batch.
    columns: Vec<Column>,
    /// The number of rows in this batch.
    row_count: usize,
}

impl View for MutableBatch {
    type V = BatchView;

    closed spec fn view(&self) -> BatchView {
        BatchView {
            columns: Map::new(
                |name: Seq<char>| name_positions(self.column_names).contains_key(name),
                |name: Seq<char>| self.columns@[name_positions(self.column_names)[name] as int]@,
            ),
            rows: self.row_count as nat,
        }
    }
}

/// Each name has a position of its own among `len` columns, and each position has a name.
spec fn positions_ok(positions: Map<Seq<char>, usize>, len: nat) -> bool {
    &&& forall|name: Seq<char>| #[trigger] positions.contains_key(name) ==> positions[name] < len
    &&& forall|a: Seq<char>, b: Seq<char>|
        #![trigger positions.contains_key(a), positions.contains_key(b)]
        positions.contains_key(a) && positions.contains_key(b) && a != b ==> positions[a]
            != positions[b]
    &&& forall|i: int| 0 <= i < len ==> #[trigger] is_named(positions, i)
}

/// The position is that of a name.
spec fn is_named(positions: Map<Seq<char>, usize>, i: int) -> bool {
    exists|name: Seq<char>| #[trigger] positions.contains_key(name) && positions[name] == i
}

/// With one more column under a new name, each position still has a name.
proof fn lemma_one_more_named(positions: Map<Seq<char>, usize>, len: usize, name: Seq<char>)
    requires
        positions_ok(positions, len as nat),
        !positions.contains_key(name),
    ensures
        positions_ok(positions.insert(name, len), len as nat + 1),
{
    let more = positions.insert(name, len);
    assert forall|i: int| 0 <= i < len + 1 implies #[trigger] is_named(more, i) by {
        if i < len {
            assert(is_named(positions, i));
            let n = choose|n: Seq<char>| #[trigger] positions.contains_key(n) && positions[n] == i;
            assert(more.contains_key(n) && more[n] == i);
        } else {
            assert(more.contains_key(name) && more[name] == i);
        }
    }
}

/// `batch` holds the columns of `before`, those of the entries with the picked rows of `other`
/// behind them, and the others as they were.
spec fn is_partly_extended(
    before: BatchView,
    other: BatchView,
    ranges: Seq<Range<usize>>,
    entries: Seq<(&String, usize)>,
    positions: Map<Seq<char>, usize>,
    columns: Seq<Column>,
) -> bool {
    &&& positions_ok(positions, columns.len())
    &&& forall|name: Seq<char>| #[trigger]
        positions.contains_key(name) <==> before.columns.contains_key(name) || is_listed(
            entries,
            name,
        )
    &&& forall|name: Seq<char>| #[trigger]
        positions.contains_key(name) ==> columns[positions[name] as int]@ == if is_listed(
            entries,
            name,
        ) {
            extended_column(before, other, ranges, name)
        } else {
            before.columns[name]
        }
    &&& forall|i: int|
        0 <= i < columns.len() ==> {
            &&& (#[trigger] columns[i])@.wf()
            &&& columns[i]@.len() == before.rows || columns[i]@.len() == before.rows + rows_in(
                ranges,
            )
        }
}

/// The mismatch is that of a column of `batch` with the column of that name of `other`.
pub open spec fn is_mismatch(batch: BatchView, other: BatchView, mismatch: TypeMismatch) -> bool {
    &&& batch.columns.contains_key(mismatch.column@)
    &&& other.columns.contains_key(mismatch.column@)
    &&& batch.columns[mismatch.column@].influx_type == mismatch.existing
    &&& other.columns[mismatch.column@].influx_type == mismatch.inserted
    &&& mismatch.existing != mismatch.inserted
}

/// Why columns cannot be selected: the first that is not there or, if all are, the first that
/// was selected before.
pub open spec fn is_selection_error(
    batch: BatchView,
    selection: Selection<'_>,
    error: Error,
) -> bool {
    match (selection, error) {
        (Selection::Columns(columns), Error::ColumnNotFound { column }) => first_missing(
            batch,
            selected_names(columns@),
            column@,
        ),
        (Selection::Columns(columns), Error::InternalSchema { source }) => {
            let names = selected_names(columns@);
            &&& has_all(batch, names)
            &&& first_duplicate(selected_columns(batch, names), source.column@)
        },
        _ => false,
    }
}

/// What is wrong with a selection: the first of the names that the batch has no column for or, if
/// it has one for each, the first of them that has occurred before. There is nothing wrong with
/// a selection of all.
pub proof fn law_selection_errors(batch: BatchView, selection: Selection<'_>, error: Error)
    requires
        is_selection_error(batch, selection, error),
    ensures
        match (selection, error) {
            (Selection::Columns(names), Error::ColumnNotFound { column }) => exists|i: int|
                {
                    &&& 0 <= i < names@.len()
                    &&& (#[trigger] names@[i])@ == column@
                    &&& !batch.columns.contains_key(column@)
                    &&& forall|j: int|
                        0 <= j < i ==> batch.columns.contains_key((#[trigger] names@[j])@)
                },
            (Selection::Columns(names), Error::InternalSchema { source }) => {
                &&& forall|j: int|
                    0 <= j < names@.len() ==> batch.columns.contains_key((#[trigger] names@[j])@)
                &&& exists|i: int, j: int|
                    {
                        &&& 0 <= i < j < names@.len()
                        &&& (#[trigger] names@[i])@ == (#[trigger] names@[j])@
                        &&& names@[j]@ == source.column@
                        &&& forall|k: int, l: int|
                            0 <= k < l < j ==> (#[trigger] names@[k])@ != (#[trigger] names@[l])@
                    }
            },
            _ => false,
        },
{
    match (selection, error) {
        (Selection::Columns(columns), Error::ColumnNotFound { column }) => {
            let names = selected_names(columns@);
            let i = choose|i: int|
                {
                    &&& 0 <= i < names.len()
                    &&& #[trigger] names[i] == column@
                    &&& !batch.columns.contains_key(column@)
                    &&& forall|j: int| 0 <= j < i ==> batch.columns.contains_key(#[trigger] names[j])
                };
            assert(columns@[i]@ == column@);
            assert forall|j: int| 0 <= j < i implies batch.columns.contains_key(
                (#[trigger] columns@[j])@,
            ) by {
                assert(names[j] == columns@[j]@);
            }
        },
        (Selection::Columns(columns), Error::InternalSchema { source }) => {
            let names = selected_names(columns@);
            let found = selected_columns(batch, names);
            assert forall|j: int| 0 <= j < columns@.len() implies batch.columns.contains_key(
                (#[trigger] columns@[j])@,
            ) by {
                assert(names[j] == columns@[j]@);
            }
            let (i, j) = choose|i: int, j: int|
                {
                    &&& 0 <= i < j < found.len()
                    &&& (#[trigger] found[i]).0 == (#[trigger] found[j]).0
                    &&& found[j].0 == source.column@
                    &&& distinct_names(found.take(j))
                };
            assert(columns@[i]@ == columns@[j]@);
            assert forall|k: int, l: int| 0 <= k < l < j implies (#[trigger] columns@[k])@ != (
            #[trigger] columns@[l])@ by {
                assert(found.take(j)[k].0 != found.take(j)[l].0);
            }
        },
        _ => {},
    }
}

/// What comes of adding the rows that ranges pick from `other`: the extended batch if the types
/// agree; otherwise an error, and the batch stays as it was.
pub open spec fn is_extension(
    batch: BatchView,
    other: BatchView,
    ranges: Seq<Range<usize>>,
    result: Result<(), Error>,
    after: BatchView,
) -> bool {
    match result {
        Ok(_) => types_agree(batch, other) && after == extended(batch, other, ranges),
        Err(Error::WriterError { source }) => is_mismatch(batch, other, source) && after == batch,
        Err(_) => false,
    }
}

/// What comes of extending a batch is determined by the batch, by the other one and by the ranges:
/// so extending it by the other batch is extending it by the range of all its rows.
pub proof fn law_extension_determined(
    batch: BatchView,
    other: BatchView,
    ranges: Seq<Range<usize>>,
    first: Result<(), Error>,
    after_first: BatchView,
    second: Result<(), Error>,
    after_second: BatchView,
)
    requires
        is_extension(batch, other, ranges, first, after_first),
        is_extension(batch, other, ranges, second, after_second),
    ensures
        first is Ok <==> second is Ok,
        after_first == after_second,
{
}

/// Row by row, what extending a batch by ranges puts behind its rows are the rows of the other
/// batch that the ranges state: the row `k` of the range `r` stands behind those of the batch and
/// those of the ranges before, with its value, of whatever kind, and with whether it is there.
pub proof fn law_extension_row_by_row(
    batch: BatchView,
    other: BatchView,
    ranges: Seq<Range<usize>>,
    after: BatchView,
    name: Seq<char>,
    r: int,
    k: int,
)
    requires
        batch.wf(),
        other.wf(),
        ranges_within(ranges, other.rows),
        is_extension(batch, other, ranges, Ok(()), after),
        other.columns.contains_key(name),
        0 <= r < ranges.len(),
        0 <= k < ranges[r].end - ranges[r].start,
    ensures
        after.columns.contains_key(name),
        after.columns[name].influx_type == other.columns[name].influx_type,
        ({
            let at = batch.rows + rows_in(ranges.take(r)) + k;
            let from = ranges[r].start + k;
            let valid = after.columns[name].valid;
            &&& 0 <= at < valid.len()
            &&& valid[at] == other.columns[name].valid[from]
            &&& match (after.columns[name].data, other.columns[name].data) {
                (DataView::F64(a), DataView::F64(b)) => at < a.len() && a[at] == b[from],
                (DataView::I64(a), DataView::I64(b)) => at < a.len() && a[at] == b[from],
                (DataView::U64(a), DataView::U64(b)) => at < a.len() && a[at] == b[from],
                (DataView::Text(a), DataView::Text(b)) => at < a.len() && a[at] == b[from],
                (DataView::Bool(a), DataView::Bool(b)) => at < a.len() && a[at] == b[from],
                _ => false,
            }
        }),
{
    let column = other.columns[name];
    lemma_picked(column, ranges);
    lemma_picked_row(column, ranges, r, k);
}

/// Row by row, what extending a batch by a range puts behind its rows are the rows of the other
/// batch from where the range starts.
pub proof fn law_extension_by_range_row_by_row(
    batch: BatchView,
    other: BatchView,
    range: Range<usize>,
    after: BatchView,
    name: Seq<char>,
    k: int,
)
    requires
        batch.wf(),
        other.wf(),
        range.start <= range.end <= other.rows,
        is_extension(batch, other, seq![range], Ok(()), after),
        other.columns.contains_key(name),
        0 <= k < range.end - range.start,
    ensures
        after.columns.contains_key(name),
        after.columns[name].influx_type == other.columns[name].influx_type,
        after.columns[name].valid.len() == batch.rows + (range.end - range.start),
        after.columns[name].valid[batch.rows + k] == other.columns[name].valid[range.start + k],
        match (after.columns[name].data, other.columns[name].data) {
            (DataView::F64(a), DataView::F64(b)) => {
                a.len() == batch.rows + (range.end - range.start) && a[batch.rows + k]
                    == b[range.start + k]
            },
            (DataView::I64(a), DataView::I64(b)) => {
                a.len() == batch.rows + (range.end - range.start) && a[batch.rows + k]
                    == b[range.start + k]
            },
            (DataView::U64(a), DataView::U64(b)) => {
                a.len() == batch.rows + (range.end - range.start) && a[batch.rows + k]
                    == b[range.start + k]
            },
            (DataView::Text(a), DataView::Text(b)) => {
                a.len() == batch.rows + (range.end - range.start) && a[batch.rows + k]
                    == b[range.start + k]
            },
            (DataView::Bool(a), DataView::Bool(b)) => {
                a.len() == batch.rows + (range.end - range.start) && a[batch.rows + k]
                    == b[range.start + k]
            },
            _ => false,
        },
{
    let ranges = seq![range];
    assert(ranges[0] == range);
    assert(ranges.take(0) =~= Seq::empty());
    law_rows_add_up(Seq::empty(), range);
    lemma_extended_wf(batch, other, ranges);
    assert(after.columns.contains_key(name));
    law_extension_row_by_row(batch, other, ranges, after, name, 0, k);
}

/// Extending a batch by all of another puts each row of the other one behind its own, the first
/// one first.
pub proof fn law_extension_by_batch_row_by_row(
    batch: BatchView,
    other: BatchView,
    after: BatchView,
    name: Seq<char>,
    k: int,
)
    requires
        batch.wf(),
        other.wf(),
        other.rows <= usize::MAX,
        is_extension(batch, other, all_rows(other), Ok(()), after),
        other.columns.contains_key(name),
        0 <= k < other.rows,
    ensures
        after.rows == batch.rows + other.rows,
        after.columns.contains_key(name),
        after.columns[name].valid[batch.rows + k] == other.columns[name].valid[k],
        match (after.columns[name].data, other.columns[name].data) {
            (DataView::F64(a), DataView::F64(b)) => a[batch.rows + k] == b[k],
            (DataView::I64(a), DataView::I64(b)) => a[batch.rows + k] == b[k],
            (DataView::U64(a), DataView::U64(b)) => a[batch.rows + k] == b[k],
            (DataView::Text(a), DataView::Text(b)) => a[batch.rows + k] == b[k],
            (DataView::Bool(a), DataView::Bool(b)) => a[batch.rows + k] == b[k],
            _ => false,
        },
{
    let range = Range { start: 0usize, end: other.rows as usize };
    assert(all_rows(other) =~= seq![range]);
    law_rows_add_up(Seq::empty(), range);
    law_extension_by_range_row_by_row(batch, other, range, after, name, k);
}

/// A batch that was extended has the columns of both batches and no others, each of the type it
/// had and as long as the batch, which has as many more rows as the ranges have.
pub proof fn law_extension_has_the_columns_of_both(
    batch: BatchView,
    other: BatchView,
    ranges: Seq<Range<usize>>,
    after: BatchView,
    name: Seq<char>,
)
    requires
        batch.wf(),
        other.wf(),
        ranges_within(ranges, other.rows),
        is_extension(batch, other, ranges, Ok(()), after),
    ensures
        after.rows == batch.rows + rows_in(ranges),
        after.columns.contains_key(name) <==> batch.columns.contains_key(name)
            || other.columns.contains_key(name),
        batch.columns.contains_key(name) ==> after.columns[name].influx_type
            == batch.columns[name].influx_type,
        other.columns.contains_key(name) ==> after.columns[name].influx_type
            == other.columns[name].influx_type,
        after.columns.contains_key(name) ==> {
            &&& after.columns[name].valid.len() == after.rows
            &&& match after.columns[name].data {
                DataView::F64(v) => v.len() == after.rows,
                DataView::I64(v) => v.len() == after.rows,
                DataView::U64(v) => v.len() == after.rows,
                DataView::Text(v) => v.len() == after.rows,
                DataView::Bool(v) => v.len() == after.rows,
            }
        },
{
    lemma_extended_wf(batch, other, ranges);
    assert(after.columns.contains_key(name) <==> batch.columns.contains_key(name)
        || other.columns.contains_key(name));
}

/// Row by row, the rows that a batch had are as they were after it was extended: the value, of
/// whatever kind, and whether it is there.
pub proof fn law_extension_keeps_each_row(
    batch: BatchView,
    other: BatchView,
    ranges: Seq<Range<usize>>,
    after: BatchView,
    name: Seq<char>,
    i: int,
)
    requires
        batch.wf(),
        other.wf(),
        ranges_within(ranges, other.rows),
        is_extension(batch, other, ranges, Ok(()), after),
        batch.columns.contains_key(name),
        0 <= i < batch.rows,
    ensures
        after.columns.contains_key(name),
        after.columns[name].valid[i] == batch.columns[name].valid[i],
        match (after.columns[name].data, batch.columns[name].data) {
            (DataView::F64(a), DataView::F64(b)) => a[i] == b[i],
            (DataView::I64(a), DataView::I64(b)) => a[i] == b[i],
            (DataView::U64(a), DataView::U64(b)) => a[i] == b[i],
            (DataView::Text(a), DataView::Text(b)) => a[i] == b[i],
            (DataView::Bool(a), DataView::Bool(b)) => a[i] == b[i],
            _ => false,
        },
{
    if other.columns.contains_key(name) {
        lemma_picked(other.columns[name], ranges);
    }
}

/// Where one of two batches has no such column, the rows that come from it are nulls, with the
/// default of their kind in place of a value.
pub proof fn law_extension_fills_with_nulls(
    batch: BatchView,
    other: BatchView,
    ranges: Seq<Range<usize>>,
    after: BatchView,
    name: Seq<char>,
    i: int,
)
    requires
        batch.wf(),
        other.wf(),
        ranges_within(ranges, other.rows),
        is_extension(batch, other, ranges, Ok(()), after),
        after.columns.contains_key(name),
        (!batch.columns.contains_key(name) && 0 <= i < batch.rows) || (
        !other.columns.contains_key(name) && batch.rows <= i < batch.rows + rows_in(ranges)),
    ensures
        !after.columns[name].valid[i],
        match after.columns[name].data {
            DataView::F64(v) => v[i] == 0,
            DataView::I64(v) => v[i] == 0,
            DataView::U64(v) => v[i] == 0,
            DataView::Text(v) => v[i].len() == 0,
            DataView::Bool(v) => !v[i],
        },
{
    lemma_extended_wf(batch, other, ranges);
    if other.columns.contains_key(name) {
        lemma_picked(other.columns[name], ranges);
    }
}

/// A batch is extended if and only if no column that both batches have is of different types in
/// them. Otherwise such a column is named, with both types, and the batch stays as it was.
pub proof fn law_extension_needs_the_same_types(
    batch: BatchView,
    other: BatchView,
    ranges: Seq<Range<usize>>,
    result: Result<(), Error>,
    after: BatchView,
)
    requires
        is_extension(batch, other, ranges, result, after),
    ensures
        result is Ok <==> forall|name: Seq<char>| #[trigger]
            batch.columns.contains_key(name) && #[trigger] other.columns.contains_key(name)
                ==> batch.columns[name].influx_type == other.columns[name].influx_type,
        result is Err ==> after == batch,
        result matches Err(error) ==> {
            &&& error matches Error::WriterError { source }
            &&& batch.columns.contains_key(source.column@)
            &&& other.columns.contains_key(source.column@)
            &&& source.existing == batch.columns[source.column@].influx_type
            &&& source.inserted == other.columns[source.column@].influx_type
            &&& source.existing != source.inserted
        },
{
}

/// If a batch can be extended by ranges, which may overlap or repeat, it can be extended by each
/// of them in turn, and then holds the same rows in the same order, as many more as the ranges
/// have. `turns` are what it holds on the way.
pub proof fn law_extension_in_turn(
    batch: BatchView,
    other: BatchView,
    ranges: Seq<Range<usize>>,
    after: BatchView,
    turns: Seq<BatchView>,
    results: Seq<Result<(), Error>>,
)
    requires
        batch.wf(),
        other.wf(),
        ranges.len() > 0,
        ranges_within(ranges, other.rows),
        is_extension(batch, other, ranges, Ok(()), after),
        turns.len() == ranges.len() + 1,
        turns[0] == batch,
        results.len() == ranges.len(),
        forall|i: int|
            0 <= i < ranges.len() ==> is_extension(
                turns[i],
                other,
                seq![ranges[i]],
                #[trigger] results[i],
                turns[i + 1],
            ),
    ensures
        forall|i: int| 0 <= i < results.len() ==> (#[trigger] results[i]) is Ok,
        turns.last() == after,
        after.rows == batch.rows + rows_in(ranges),
{
    assert forall|i: int| 0 <= i < results.len() implies (#[trigger] results[i]) is Ok by {
        lemma_turns(batch, other, ranges, turns, results, i + 1);
    }
    lemma_turns(batch, other, ranges, turns, results, ranges.len() as int);
    assert(ranges.take(ranges.len() as int) =~= ranges);
    law_extension_range_by_range(batch, other, ranges);
}

/// After so many turns the batch was extended by so many ranges.
proof fn lemma_turns(
    batch: BatchView,
    other: BatchView,
    ranges: Seq<Range<usize>>,
    turns: Seq<BatchView>,
    results: Seq<Result<(), Error>>,
    n: int,
)
    requires
        batch.wf(),
        other.wf(),
        types_agree(batch, other),
        ranges_within(ranges, other.rows),
        turns.len() == ranges.len() + 1,
        turns[0] == batch,
        results.len() == ranges.len(),
        forall|i: int|
            0 <= i < ranges.len() ==> is_extension(
                turns[i],
                other,
                seq![ranges[i]],
                #[trigger] results[i],
                turns[i + 1],
            ),
        0 <= n <= ranges.len(),
    ensures
        types_agree(turns[n], other),
        turns[n] == extended_range_by_range(batch, other, ranges.take(n)),
        n > 0 ==> results[n - 1] is Ok,
    decreases n,
{
    if n > 0 {
        lemma_turns(batch, other, ranges, turns, results, n - 1);
        let done = ranges.take(n);
        assert(done.drop_last() =~= ranges.take(n - 1));
        assert(is_extension(
            turns[n - 1],
            other,
            seq![ranges[n - 1]],
            results[n - 1],
            turns[n - 1 + 1],
        ));
        let last = results[n - 1];
        if last is Err {
            assert(last->Err_0 is WriterError);
        }
        law_extension_range_by_range(batch, other, done);
        law_extension_by_parts(batch, other, done, Seq::empty());
    }
}

proof fn lemma_selected(
    batch: BatchView,
    selection: Selection<'_>,
    columns: Seq<SchemaColumn>,
    i: int,
)
    requires
        is_selection(batch, selection, columns),
        0 <= i < columns.len(),
    ensures
        batch.columns.contains_key(columns[i].0),
        batch.columns[columns[i].0].influx_type == columns[i].1,
{
    match selection {
        Selection::All => {
            assert(columns.contains(columns[i]));
        },
        Selection::Columns(names) => {
            assert(selected_names(names@)[i] == columns[i].0);
        },
    }
}

proof fn lemma_rows_in_take(ranges: Seq<Range<usize>>, n: int)
    requires
        0 <= n <= ranges.len(),
    ensures
        rows_in(ranges.take(n)) <= rows_in(ranges),
    decreases ranges.len(),
{
    if n < ranges.len() {
        lemma_rows_in_take(ranges.drop_last(), n);
        assert(ranges.drop_last().take(n) =~= ranges.take(n));
    } else {
        assert(ranges.take(n) =~= ranges);
    }
}

/// The number of rows in ranges.
fn count_rows(ranges: &[Range<usize>]) -> (rows: usize)
    requires
        forall|i: int| 0 <= i < ranges@.len() ==> (#[trigger] ranges@[i]).start <= ranges@[i].end,
        rows_in(ranges@) <= usize::MAX,
    ensures
        rows == rows_in(ranges@),
{
    let mut rows: usize = 0;
    for i in 0..ranges.len()
        invariant
            forall|k: int|
                0 <= k < ranges@.len() ==> (#[trigger] ranges@[k]).start <= ranges@[k].end,
            rows_in(ranges@) <= usize::MAX,
            rows == rows_in(ranges@.take(i as int)),
    {
        proof {
            lemma_rows_in_take(ranges@, i + 1);
            assert(ranges@.take(i + 1).drop_last() =~= ranges@.take(i as int));
        }
        rows = rows + (ranges[i].end - ranges[i].start);
    }
    assert(ranges@.take(ranges@.len() as int) =~= ranges@);
    rows
}

/// Columns from which a batch can be made: no name twice, all equally long, and the one of the
/// timestamps, no other, of their type.
pub open spec fn make_a_batch(columns: Seq<(String, Column)>) -> bool {
    &&& forall|i: int, j: int|
        0 <= i < j < columns.len() ==> (#[trigger] columns[i]).0@ != (#[trigger] columns[j]).0@
    &&& forall|i: int|
        0 <= i < columns.len() ==> {
            &&& (#[trigger] columns[i]).1@.len() == columns[0].1@.len()
            &&& columns[i].1@.influx_type == InfluxColumnType::Timestamp <==> columns[i].0@
                == TIME_COLUMN_NAME@
        }
}

/// Columns make a batch if and only if no two have the same name, they are equally long, and the
/// one that holds timestamps, no other, is the one named for them.
pub proof fn law_what_makes_a_batch(columns: Seq<(String, Column)>)
    ensures
        make_a_batch(columns) <==> {
            &&& forall|i: int, j: int|
                0 <= i < columns.len() && 0 <= j < columns.len() && i != j ==> (
                #[trigger] columns[i]).0@ != (#[trigger] columns[j]).0@
            &&& forall|i: int, j: int|
                0 <= i < columns.len() && 0 <= j < columns.len() ==> (
                #[trigger] columns[i]).1@.valid.len() == (#[trigger] columns[j]).1@.valid.len()
            &&& forall|i: int|
                0 <= i < columns.len() ==> ((#[trigger] columns[i]).1@.influx_type is Timestamp
                    <==> columns[i].0@ == "time"@)
        },
{
    if make_a_batch(columns) {
        assert forall|i: int, j: int|
            0 <= i < columns.len() && 0 <= j < columns.len() && i != j implies (
        #[trigger] columns[i]).0@ != (#[trigger] columns[j]).0@ by {
            if i < j {
                assert(columns[i].0@ != columns[j].0@);
            } else {
                assert(columns[j].0@ != columns[i].0@);
            }
        }
    }
}

/// The bytes that named columns take, given how much room each name has.
pub open spec fn named_columns_size(
    batch: BatchView,
    names: Seq<Seq<char>>,
    room: Seq<usize>,
) -> nat
    decreases names.len(),
{
    if names.len() == 0 {
        0
    } else {
        let last = names.len() - 1;
        named_columns_size(batch, names.drop_last(), room) + vstd::layout::size_of::<String>()
            + room[last] as nat + vstd::layout::size_of::<usize>() + column_size(
            batch.columns[names[last]],
        )
    }
}

/// One more column adds the room for its name, the bytes of a string and of a position, and those
/// of the column.
pub proof fn law_one_more_column_size(
    batch: BatchView,
    names: Seq<Seq<char>>,
    room: Seq<usize>,
    name: Seq<char>,
    bytes: usize,
)
    requires
        room.len() == names.len(),
    ensures
        named_columns_size(batch, Seq::empty(), Seq::empty()) == 0,
        named_columns_size(batch, names.push(name), room.push(bytes)) == named_columns_size(
            batch,
            names,
            room,
        ) + vstd::layout::size_of::<String>() + bytes + vstd::layout::size_of::<usize>()
            + column_size(batch.columns[name]),
{
    assert(names.push(name).drop_last() =~= names);
    lemma_named_columns_size_prefix(batch, names, room.push(bytes), room);
}

proof fn lemma_named_columns_size_prefix(
    batch: BatchView,
    names: Seq<Seq<char>>,
    room: Seq<usize>,
    other: Seq<usize>,
)
    requires
        forall|i: int| 0 <= i < names.len() ==> #[trigger] room[i] == other[i],
    ensures
        named_columns_size(batch, names, room) == named_columns_size(batch, names, other),
    decreases names.len(),
{
    if names.len() > 0 {
        lemma_named_columns_size_prefix(batch, names.drop_last(), room, other);
        assert(room[names.len() - 1] == other[names.len() - 1]);
    }
}

/// The names are those of the columns of the batch, each exactly once, and each has room for its
/// bytes, and for no more than can be allocated.
pub open spec fn are_the_names(
    batch: BatchView,
    names: Seq<Seq<char>>,
    room: Seq<usize>,
) -> bool {
    &&& names.no_duplicates()
    &&& forall|name: Seq<char>| #[trigger]
        names.contains(name) <==> batch.columns.contains_key(name)
    &&& room.len() == names.len()
    &&& forall|i: int|
        0 <= i < names.len() ==> {
            &&& #[trigger] room[i] >= vstd::utf8::encode_utf8(names[i]).len()
            &&& room[i] <= isize::MAX
        }
}

/// What is counted of a batch are its columns, each once, and the room of each name, which is at
/// least what its bytes need.
pub proof fn law_each_name_is_counted(
    batch: BatchView,
    names: Seq<Seq<char>>,
    room: Seq<usize>,
    name: Seq<char>,
)
    requires
        are_the_names(batch, names, room),
    ensures
        room.len() == names.len(),
        batch.columns.contains_key(name) <==> exists|i: int|
            0 <= i < names.len() && #[trigger] names[i] == name,
        forall|i: int, j: int|
            0 <= i < j < names.len() ==> #[trigger] names[i] != #[trigger] names[j],
        forall|i: int|
            0 <= i < names.len() ==> vstd::utf8::encode_utf8(#[trigger] names[i]).len() <= room[i]
                <= isize::MAX,
{
    if batch.columns.contains_key(name) {
        assert(names.contains(name));
    }
    if exists|i: int| 0 <= i < names.len() && #[trigger] names[i] == name {
        assert(names.contains(name));
    }
    assert forall|i: int| 0 <= i < names.len() implies vstd::utf8::encode_utf8(
        #[trigger] names[i],
    ).len() <= room[i] <= isize::MAX by {
        assert(room[i] >= vstd::utf8::encode_utf8(names[i]).len());
    }
}

impl Clone for MutableBatch {
    /// A batch that holds the same.
    fn clone(&self) -> (copy: Self)
        ensures
            self.wf() ==> copy.wf() && copy@ == self@,
    {
        let mut columns: Vec<Column> = Vec::new();
        for i in 0..self.columns.len()
            invariant
                columns@.len() == i,
                forall|k: int| 0 <= k < i ==> (#[trigger] columns@[k])@ == self.columns@[k]@,
        {
            columns.push(self.columns[i].clone());
        }
        let copy = MutableBatch {
            column_names: self.column_names.copied(),
            columns,
            row_count: self.row_count,
        };
        assert(self.wf() ==> copy@ =~= self@);
        copy
    }
}

impl Default for MutableBatch {
    /// An empty batch.
    fn default() -> (batch: Self)
        ensures
            batch.wf(),
            batch@ == (BatchView { columns: Map::empty(), rows: 0 }),
    {
        MutableBatch::new()
    }
}

impl MutableBatch {
    /// Each name is that of one column, each column has one, and the columns are as long as the
    /// batch.
    pub closed spec fn wf(&self) -> bool {
        &&& positions_ok(name_positions(self.column_names), self.columns@.len())
        &&& forall|i: int|
            0 <= i < self.columns@.len() ==> {
                &&& (#[trigger] self.columns@[i])@.wf()
                &&& self.columns@[i]@.len() == self.row_count
            }
        &&& self@.wf()
    }

    /// What a well-formed batch holds is well-formed.
    pub proof fn lemma_view_wf(&self)
        requires
            self.wf(),
        ensures
            self@.wf(),
    {
    }

    /// Create a new empty batch.
    pub fn new() -> (batch: Self)
        ensures
            batch.wf(),
            batch@ == (BatchView { columns: Map::empty(), rows: 0 }),
    {
        let batch = MutableBatch {
            column_names: ColumnNames::new(),
            columns: Vec::new(),
            row_count: 0,
        };
        assert(batch@ =~= BatchView { columns: Map::empty(), rows: 0 });
        batch
    }

    /// A batch of the given columns; `None` if they do not make one.
    pub fn from_columns(columns: Vec<(String, Column)>) -> (batch: Option<Self>)
        requires
            forall|i: int| 0 <= i < columns@.len() ==> (#[trigger] columns@[i]).1@.wf(),
        ensures
            match batch {
                Some(batch) => {
                    &&& make_a_batch(columns@)
                    &&& batch.wf()
                    &&& columns@.len() == 0 ==> batch@.rows == 0
                    &&& columns@.len() > 0 ==> batch@.rows == columns@[0].1@.len()
                    &&& forall|name: Seq<char>| #[trigger]
                        batch@.columns.contains_key(name) ==> exists|i: int|
                            0 <= i < columns@.len() && (#[trigger] columns@[i]).0@ == name
                    &&& forall|i: int|
                        0 <= i < columns@.len() ==> {
                            &&& batch@.columns.contains_key((#[trigger] columns@[i]).0@)
                            &&& batch@.columns[columns@[i].0@] == columns@[i].1@
                        }
                },
                None => !make_a_batch(columns@),
            },
    {
        let ghost given = columns@;
        let rows = if columns.len() > 0 {
            columns[0].1.len()
        } else {
            0
        };
        let mut batch = MutableBatch {
            column_names: ColumnNames::new(),
            columns: Vec::new(),
            row_count: rows,
        };
        for item in it: columns
            invariant
                it.seq() == given,
                forall|i: int| 0 <= i < given.len() ==> (#[trigger] given[i]).1@.wf(),
                given.len() > 0 ==> rows == given[0].1@.len(),
                given.len() == 0 ==> rows == 0,
                batch.row_count == rows,
                batch.wf(),
                make_a_batch(given.take(it.index() as int)),
                forall|name: Seq<char>| #[trigger]
                    batch@.columns.contains_key(name) ==> exists|i: int|
                        0 <= i < it.index() && (#[trigger] given[i]).0@ == name,
                forall|i: int|
                    0 <= i < it.index() ==> {
                        &&& batch@.columns.contains_key((#[trigger] given[i]).0@)
                        &&& batch@.columns[given[i].0@] == given[i].1@
                    },
        {
            let ghost at = it.index() as int;
            assert(item == given[at]);
            let (name, column) = item;
            let is_time = same_text(name.as_str(), TIME_COLUMN_NAME);
            let of_time = column.influx_type() == InfluxColumnType::Timestamp;
            if batch.column_names.get(name.as_str()).is_some() || column.len() != rows || is_time
                != of_time {
                assert(!make_a_batch(given)) by {
                    if batch@.columns.contains_key(name@) {
                        let i = choose|i: int| 0 <= i < at && (#[trigger] given[i]).0@ == name@;
                        assert(given[i].0@ == given[at].0@);
                    }
                }
                return None;
            }
            let ghost before = batch;
            let position = batch.columns.len();
            batch.columns.push(column);
            batch.column_names.insert(name, position);
            proof {
                lemma_one_more_named(name_positions(before.column_names), position, name@);
                assert forall|n: Seq<char>| #[trigger] before@.columns.contains_key(n) implies
                    batch@.columns.contains_key(n) && batch@.columns[n] == before@.columns[n] by {
                    assert(name_positions(before.column_names).contains_key(n));
                }
                assert forall|n: Seq<char>| #[trigger] batch@.columns.contains_key(n) implies exists|
                    i: int,
                |
                    0 <= i < at + 1 && (#[trigger] given[i]).0@ == n by {
                    if n == given[at].0@ {
                    } else {
                        assert(before@.columns.contains_key(n));
                    }
                }
                assert forall|i: int, j: int| 0 <= i < j < at + 1 implies (#[trigger] given.take(
                    at + 1,
                )[i]).0@ != (#[trigger] given.take(at + 1)[j]).0@ by {
                    if j < at {
                        assert(given.take(at)[i].0@ != given.take(at)[j].0@);
                    } else {
                        assert(before@.columns.contains_key(given[i].0@));
                    }
                }
                assert forall|i: int| 0 <= i < at + 1 implies {
                    &&& (#[trigger] given.take(at + 1)[i]).1@.len() == given.take(at + 1)[0].1@.len()
                    &&& given.take(at + 1)[i].1@.influx_type == InfluxColumnType::Timestamp <==>
                        given.take(at + 1)[i].0@ == TIME_COLUMN_NAME@
                } by {
                    if i < at {
                        assert(given.take(at)[i] == given[i]);
                    }
                }
            }
        }
        assert(given.take(given.len() as int) =~= given);
        Some(batch)
    }

    /// Return the number of rows in this batch.
    pub fn rows(&self) -> (rows: usize)
        ensures
            rows == self@.rows,
    {
        self.row_count
    }

    /// Returns a reference to the specified column.
    pub fn column(&self, column: &str) -> (result: Result<&Column, Error>)
        requires
            self.wf(),
        ensures
            match result {
                Ok(found) => self@.columns.contains_key(column@) && found@
                    == self@.columns[column@],
                Err(Error::ColumnNotFound { column: missing }) => {
                    &&& !self@.columns.contains_key(column@)
                    &&& missing@ == column@
                },
                Err(_) => false,
            },
    {
        match self.column_names.get(column) {
            Some(position) => Ok(&self.columns[position]),
            None => Err(Error::ColumnNotFound { column: column.to_owned() }),
        }
    }

    /// Returns the columns in this batch with their names, in no particular order.
    pub fn columns(&self) -> (columns: Vec<(&String, &Column)>)
        requires
            self.wf(),
        ensures
            forall|i: int|
                0 <= i < columns@.len() ==> {
                    &&& self@.columns.contains_key((#[trigger] columns@[i]).0@)
                    &&& columns@[i].1@ == self@.columns[columns@[i].0@]
                },
            forall|i: int, j: int|
                0 <= i < j < columns@.len() ==> (#[trigger] columns@[i]).0@ != (
                #[trigger] columns@[j]).0@,
            forall|name: Seq<char>| #[trigger]
                self@.columns.contains_key(name) ==> exists|i: int|
                    0 <= i < columns@.len() && (#[trigger] columns@[i]).0@ == name,
    {
        let entries = self.column_names.entries();
        let mut columns: Vec<(&String, &Column)> = Vec::new();
        for i in 0..entries.len()
            invariant
                self.wf(),
                lists_positions(entries@, name_positions(self.column_names)),
                columns@.len() == i,
                forall|k: int|
                    0 <= k < i ==> {
                        &&& (#[trigger] columns@[k]).0@ == entries@[k].0@
                        &&& columns@[k].1@ == self@.columns[entries@[k].0@]
                    },
        {
            columns.push((entries[i].0, &self.columns[entries[i].1]));
        }
        proof {
            assert forall|i: int, j: int| 0 <= i < j < columns@.len() implies (
            #[trigger] columns@[i]).0@ != (#[trigger] columns@[j]).0@ by {
                assert(entries@[i].0@ != entries@[j].0@);
            }
            assert forall|name: Seq<char>| #[trigger] self@.columns.contains_key(name) implies exists|
                i: int,
            |
                0 <= i < columns@.len() && (#[trigger] columns@[i]).0@ == name by {
                assert(name_positions(self.column_names).contains_key(name));
                assert(is_listed(entries@, name));
                let i = choose|i: int|
                    0 <= i < entries@.len() && (#[trigger] entries@[i]).0@ == name;
                assert(columns@[i].0@ == name);
            }
        }
        columns
    }

    /// Returns a summary of the write timestamps in this batch if a time column exists.
    pub fn timestamp_summary(&self) -> (summary: Option<TimestampSummary>)
        requires
            self.wf(),
        ensures
            match summary {
                Some(summary) => {
                    &&& self@.columns.contains_key(TIME_COLUMN_NAME@)
                    &&& self@.columns[TIME_COLUMN_NAME@].data == DataView::I64(
                        summary.recorded@,
                    )
                },
                None => !self@.columns.contains_key(TIME_COLUMN_NAME@),
            },
    {
        let position = match self.column_names.get(TIME_COLUMN_NAME) {
            Some(position) => position,
            None => {
                return None;
            },
        };
        let mut summary = TimestampSummary::new();
        assert(self@.columns.contains_key(TIME_COLUMN_NAME@));
        match self.columns[position].data() {
            ColumnData::I64(col_data) => {
                for i in 0..col_data.len()
                    invariant
                        summary.recorded@ == col_data@.take(i as int),
                {
                    summary.record_nanos(col_data[i]);
                    assert(col_data@.take(i + 1) =~= col_data@.take(i as int).push(
                        col_data@[i as int],
                    ));
                }
                assert(col_data@.take(col_data@.len() as int) =~= col_data@);
            },
            _ => {
                assert(false);
            },
        }
        Some(summary)
    }

    /// Returns the schema for a given selection.
    ///
    /// If `Selection::All` the returned columns are sorted by name.
    pub fn schema(&self, selection: Selection<'_>) -> (result: Result<Schema, Error>)
        requires
            self.wf(),
        ensures
            match result {
                Ok(schema) => schema.wf() && is_selection(self@, selection, schema@),
                Err(error) => is_selection_error(self@, selection, error),
            },
            match selection {
                Selection::All => result is Ok,
                Selection::Columns(names) => result is Ok <==> {
                    &&& forall|i: int|
                        0 <= i < names@.len() ==> self@.columns.contains_key(
                            (#[trigger] names@[i])@,
                        )
                    &&& forall|i: int, j: int|
                        0 <= i < j < names@.len() ==> (#[trigger] names@[i])@ != (
                        #[trigger] names@[j])@
                },
            },
    {
        let result = self.selected_schema(selection);
        proof {
            if result is Ok {
                let columns = result->Ok_0@;
                law_selected_columns(self@, selection, columns);
                if let Selection::Columns(names) = selection {
                    assert forall|i: int| 0 <= i < names@.len() implies self@.columns.contains_key(
                        (#[trigger] names@[i])@,
                    ) by {
                        assert(columns[i].0 == names@[i]@);
                    }
                    assert forall|i: int, j: int| 0 <= i < j < names@.len() implies (
                    #[trigger] names@[i])@ != (#[trigger] names@[j])@ by {
                        assert(columns[i].0 != columns[j].0);
                    }
                }
            } else {
                law_selection_errors(self@, selection, result->Err_0);
            }
        }
        result
    }

    /// The schema of the selected columns.
    fn selected_schema(&self, selection: Selection<'_>) -> (result: Result<Schema, Error>)
        requires
            self.wf(),
        ensures
            match result {
                Ok(schema) => schema.wf() && is_selection(self@, selection, schema@),
                Err(error) => is_selection_error(self@, selection, error),
            },
    {
        match selection {
            Selection::All => {
                let columns = self.columns();
                let mut fields: Vec<(String, InfluxColumnType)> = Vec::new();
                for i in 0..columns.len()
                    invariant
                        fields@.len() == i,
                        forall|k: int|
                            0 <= k < i ==> {
                                &&& (#[trigger] fields@[k]).0@ == columns@[k].0@
                                &&& fields@[k].1 == columns@[k].1@.influx_type
                            },
                {
                    fields.push((columns[i].0.clone(), columns[i].1.influx_type()));
                }
                let ghost found = schema_columns(fields@);
                assert(distinct_names(found)) by {
                    assert forall|i: int, j: int| 0 <= i < j < found.len() implies (
                    #[trigger] found[i]).0 != (#[trigger] found[j]).0 by {
                        assert(columns@[i].0@ != columns@[j].0@);
                    }
                }
                match Schema::build(fields) {
                    Ok(schema) => {
                        let sorted = schema.sort_fields_by_name();
                        proof {
                            found.to_multiset_ensures();
                            sorted@.to_multiset_ensures();
                            assert forall|c: SchemaColumn| #[trigger]
                                sorted@.contains(c) <==> self@.columns.contains_key(c.0)
                                    && self@.columns[c.0].influx_type == c.1 by {
                                assert(sorted@.contains(c) <==> sorted@.to_multiset().count(c) > 0);
                                assert(found.contains(c) <==> found.to_multiset().count(c) > 0);
                                if found.contains(c) {
                                    let i = found.index_of(c);
                                    assert(columns@[i].0@ == c.0);
                                }
                                if self@.columns.contains_key(c.0)
                                    && self@.columns[c.0].influx_type == c.1 {
                                    let i = choose|i: int|
                                        0 <= i < columns@.len() && (#[trigger] columns@[i]).0@
                                            == c.0;
                                    assert(found[i] == c);
                                }
                            }
                        }
                        Ok(sorted)
                    },
                    Err(source) => Err(Error::InternalSchema { source }),
                }
            },
            Selection::Columns(columns) => {
                let ghost names = selected_names(columns@);
                let mut fields: Vec<(String, InfluxColumnType)> = Vec::new();
                for i in 0..columns.len()
                    invariant
                        self.wf(),
                        selection == Selection::Columns(columns),
                        names == selected_names(columns@),
                        fields@.len() == i,
                        forall|k: int|
                            0 <= k < i ==> self@.columns.contains_key(#[trigger] names[k]),
                        forall|k: int|
                            0 <= k < i ==> {
                                &&& (#[trigger] fields@[k]).0@ == names[k]
                                &&& fields@[k].1 == self@.columns[names[k]].influx_type
                            },
                {
                    assert(names[i as int] == columns@[i as int]@);
                    match self.column(columns[i].as_str()) {
                        Ok(column) => {
                            fields.push((columns[i].clone(), column.influx_type()));
                        },
                        Err(e) => {
                            return Err(e);
                        },
                    }
                }
                assert(schema_columns(fields@) =~= selected_columns(self@, names));
                match Schema::build(fields) {
                    Ok(schema) => Ok(schema),
                    Err(source) => Err(Error::InternalSchema { source }),
                }
            },
        }
    }

    /// Convert the selected columns of this batch into an Arrow batch.
    pub fn to_arrow(&self, selection: Selection<'_>) -> (result: Result<ArrowBatch, Error>)
        requires
            self.wf(),
        ensures
            match result {
                Ok(batch) => exists|columns: Seq<SchemaColumn>|
                    {
                        &&& #[trigger] is_selection(self@, selection, columns)
                        &&& distinct_names(columns)
                        &&& all_fit_arrow(self@, columns)
                        &&& make_a_record_batch(arrow_fields(self@, columns))
                        &&& batch_fields(batch) == arrow_fields(self@, columns)
                    },
                Err(Error::ColumnError { column, .. }) => exists|columns: Seq<SchemaColumn>|
                    {
                        &&& #[trigger] is_selection(self@, selection, columns)
                        &&& distinct_names(columns)
                        &&& first_unfit(self@, columns, column@)
                    },
                Err(Error::ArrowError { source }) => exists|columns: Seq<SchemaColumn>|
                    {
                        &&& #[trigger] is_selection(self@, selection, columns)
                        &&& distinct_names(columns)
                        &&& all_fit_arrow(self@, columns)
                        &&& !make_a_record_batch(arrow_fields(self@, columns))
                    },
                Err(error) => is_selection_error(self@, selection, error),
            },
    {
        let schema = match self.schema(selection) {
            Ok(schema) => schema,
            Err(error) => {
                return Err(error);
            },
        };
        let mut arrays: Vec<(String, bool, ArrayData)> = Vec::new();
        let len = schema.len();
        for i in 0..len
            invariant
                self.wf(),
                len == schema@.len(),
                schema.wf(),
                is_selection(self@, selection, schema@),
                arrays@.len() == i,
                forall|k: int|
                    0 <= k < i ==> {
                        &&& (#[trigger] arrays@[k]).0@ == schema@[k].0
                        &&& arrays@[k].1 == (schema@[k].1 != InfluxColumnType::Timestamp)
                        &&& array_type(arrays@[k].2) == arrow_type(schema@[k].1)
                        &&& array_values(arrays@[k].2) == arrow_values(self@.columns[schema@[k].0])
                    },
                forall|k: int|
                    0 <= k < i ==> fits_arrow(self@.columns[(#[trigger] schema@[k]).0]),
        {
            proof {
                lemma_selected(self@, selection, schema@, i as int);
            }
            let (name, influx_type) = schema.field(i);
            match self.column(name) {
                Ok(column) => {
                    let nullable = influx_type != InfluxColumnType::Timestamp;
                    match column.to_arrow() {
                        Ok(array) => {
                            arrays.push((name.to_owned(), nullable, array));
                        },
                        Err(source) => {
                            assert(schema@[i as int].0 == name@);
                            assert(first_unfit(self@, schema@, name@));
                            return Err(Error::ColumnError { column: name.to_owned(), source });
                        },
                    }
                },
                Err(error) => {
                    assert(false);
                    return Err(error);
                },
            }
        }
        assert(named_arrays(arrays@) =~= arrow_fields(self@, schema@));
        match record_batch(arrays) {
            Ok(batch) => Ok(batch),
            Err(source) => Err(Error::ArrowError { source }),
        }
    }

    /// Extend this batch with the contents of `other`.
    pub fn extend_from(&mut self, other: &Self) -> (result: Result<(), Error>)
        requires
            old(self).wf(),
            other.wf(),
            old(self)@.rows + other@.rows <= usize::MAX,
        ensures
            final(self).wf(),
            is_extension(
                old(self)@,
                other@,
                all_rows(other@),
                result,
                final(self)@,
            ),
    {
        self.extend_from_range(other, 0..other.row_count)
    }

    /// Extend this batch with `range` rows from `other`.
    pub fn extend_from_range(&mut self, other: &Self, range: Range<usize>) -> (result: Result<
        (),
        Error,
    >)
        requires
            old(self).wf(),
            other.wf(),
            range.start <= range.end <= other@.rows,
            old(self)@.rows + (range.end - range.start) <= usize::MAX,
        ensures
            final(self).wf(),
            is_extension(old(self)@, other@, seq![range], result, final(self)@),
    {
        let mut ranges: Vec<Range<usize>> = Vec::new();
        ranges.push(range);
        assert(ranges@ =~= seq![range]);
        assert(rows_in(ranges@) == range.end - range.start) by {
            assert(ranges@.drop_last() =~= Seq::<Range<usize>>::empty());
            assert(rows_in(Seq::<Range<usize>>::empty()) == 0);
        }
        self.extend_from_ranges(other, ranges.as_slice())
    }

    /// Extend this batch with `ranges` rows from `other`.
    pub fn extend_from_ranges(&mut self, other: &Self, ranges: &[Range<usize>]) -> (result: Result<
        (),
        Error,
    >)
        requires
            old(self).wf(),
            other.wf(),
            ranges_within(ranges@, other@.rows),
            old(self)@.rows + rows_in(ranges@) <= usize::MAX,
        ensures
            final(self).wf(),
            is_extension(old(self)@, other@, ranges@, result, final(self)@),
    {
        let entries = other.column_names.entries();
        match self.find_mismatch(other, &entries) {
            Some(source) => {
                return Err(Error::WriterError { source });
            },
            None => {},
        }
        let to_insert = count_rows(ranges);
        let ghost before = self@;
        self.write_ranges(other, ranges, &entries);
        proof {
            lemma_extended_wf(before, other@, ranges@);
        }
        self.commit(to_insert, Ghost(before), Ghost(other@), Ghost(ranges@), Ghost(entries@));
        Ok(())
    }

    /// Return the approximate memory size of the batch, in bytes, itself included.
    pub fn size(&self) -> (size: usize)
        requires
            self.wf(),
        ensures
            exists|names: Seq<Seq<char>>, room: Seq<usize>|
                #![trigger are_the_names(self@, names, room)]
                {
                    &&& are_the_names(self@, names, room)
                    &&& size == capped(
                        vstd::layout::size_of::<MutableBatch>() + named_columns_size(
                            self@,
                            names,
                            room,
                        ),
                    )
                },
    {
        let entries = self.column_names.entries();
        let ghost names = entries@.map_values(|e: (&String, usize)| e.0@);
        let mut listed: Vec<(&String, usize)> = Vec::new();
        for i in 0..entries.len()
            invariant
                listed@.len() == i,
                forall|k: int|
                    0 <= k < i ==> {
                        &&& (#[trigger] listed@[k]).0 == entries@[k].0
                        &&& listed@[k].1 >= vstd::utf8::encode_utf8(entries@[k].0@).len()
                        &&& listed@[k].1 <= isize::MAX
                    },
        {
            listed.push((entries[i].0, capacity(entries[i].0)));
        }
        let ghost room = listed@.map_values(|e: (&String, usize)| e.1);
        proof {
            assert(listed@.map_values(|e: (&String, usize)| e.0@) =~= names);
            assert forall|name: Seq<char>| #[trigger] names.contains(name) <==> self@.columns.contains_key(
                name,
            ) by {
                if names.contains(name) {
                    let i = names.index_of(name);
                    assert(entries@[i].0@ == name);
                }
                if self@.columns.contains_key(name) {
                    assert(name_positions(self.column_names).contains_key(name));
                    assert(is_listed(entries@, name));
                    let i = choose|i: int|
                        0 <= i < entries@.len() && (#[trigger] entries@[i]).0@ == name;
                    assert(names[i] == name);
                }
            }
            assert(names.no_duplicates()) by {
                assert forall|i: int, j: int|
                    0 <= i < names.len() && 0 <= j < names.len() && i != j implies names[i]
                    != names[j] by {
                    if i < j {
                        assert(entries@[i].0@ != entries@[j].0@);
                    } else {
                        assert(entries@[j].0@ != entries@[i].0@);
                    }
                }
            }
            assert(are_the_names(self@, names, room));
            assert forall|i: int| 0 <= i < listed@.len() implies self@.columns.contains_key(
                (#[trigger] listed@[i]).0@,
            ) by {
                assert(names[i] == listed@[i].0@);
                assert(names.contains(names[i]));
            }
        }
        self.size_given(listed.as_slice())
    }

    /// The memory size of the batch, in bytes, itself included, where it has the listed columns,
    /// each with the number of bytes that its name has room for.
    pub fn size_given(&self, listed: &[(&String, usize)]) -> (size: usize)
        requires
            self.wf(),
            forall|i: int|
                0 <= i < listed@.len() ==> self@.columns.contains_key((#[trigger] listed@[i]).0@),
        ensures
            size == capped(
                vstd::layout::size_of::<MutableBatch>() + named_columns_size(
                    self@,
                    listed@.map_values(|e: (&String, usize)| e.0@),
                    listed@.map_values(|e: (&String, usize)| e.1),
                ),
            ),
    {
        let ghost names = listed@.map_values(|e: (&String, usize)| e.0@);
        let ghost room = listed@.map_values(|e: (&String, usize)| e.1);
        let own = std::mem::size_of::<MutableBatch>();
        let mut size: usize = own;
        for i in 0..listed.len()
            invariant
                self.wf(),
                own == vstd::layout::size_of::<MutableBatch>(),
                names == listed@.map_values(|e: (&String, usize)| e.0@),
                room == listed@.map_values(|e: (&String, usize)| e.1),
                forall|k: int|
                    0 <= k < listed@.len() ==> self@.columns.contains_key(
                        (#[trigger] listed@[k]).0@,
                    ),
                size == capped(own as nat + named_columns_size(self@, names.take(i as int), room)),
        {
            let (name, held) = listed[i];
            assert(names.take(i + 1).drop_last() =~= names.take(i as int));
            assert(listed@[i as int].0@ == names[i as int]);
            size = size.saturating_add(std::mem::size_of::<String>()).saturating_add(held);
            size = size.saturating_add(std::mem::size_of::<usize>());
            match self.column(name.as_str()) {
                Ok(column) => {
                    size = size.saturating_add(column.size());
                },
                Err(_) => {
                    assert(false);
                },
            }
        }
        assert(names.take(names.len() as int) =~= names);
        size
    }

    /// A column of `other` that is of another type than the column of that name here.
    fn find_mismatch(&self, other: &Self, entries: &Vec<(&String, usize)>) -> (found: Option<
        TypeMismatch,
    >)
        requires
            self.wf(),
            other.wf(),
            lists_positions(entries@, name_positions(other.column_names)),
        ensures
            match found {
                Some(mismatch) => is_mismatch(self@, other@, mismatch),
                None => types_agree(self@, other@),
            },
    {
        for i in 0..entries.len()
            invariant
                self.wf(),
                other.wf(),
                lists_positions(entries@, name_positions(other.column_names)),
                forall|k: int|
                    0 <= k < i && self@.columns.contains_key((#[trigger] entries@[k]).0@)
                        ==> self@.columns[entries@[k].0@].influx_type
                        == other@.columns[entries@[k].0@].influx_type,
        {
            assert(other@.columns.contains_key(entries@[i as int].0@));
            let inserted = other.columns[entries[i].1].influx_type();
            match self.column_names.get(entries[i].0.as_str()) {
                Some(position) => {
                    assert(self@.columns.contains_key(entries@[i as int].0@));
                    let existing = self.columns[position].influx_type();
                    if existing != inserted {
                        return Some(
                            TypeMismatch { column: entries[i].0.clone(), existing, inserted },
                        );
                    }
                },
                None => {},
            }
        }
        assert forall|name: Seq<char>| #[trigger]
            self@.columns.contains_key(name) && #[trigger] other@.columns.contains_key(name) implies
            self@.columns[name].influx_type == other@.columns[name].influx_type by {
            assert(name_positions(other.column_names).contains_key(name));
            assert(is_listed(entries@, name));
        }
        None
    }

    /// Appends the picked rows of each column of `other` to the column of that name, which
    /// starts out with nulls if it is new. The other columns stay short.
    fn write_ranges(
        &mut self,
        other: &Self,
        ranges: &[Range<usize>],
        entries: &Vec<(&String, usize)>,
    )
        requires
            old(self).wf(),
            other.wf(),
            types_agree(old(self)@, other@),
            ranges_within(ranges@, other@.rows),
            lists_positions(entries@, name_positions(other.column_names)),
        ensures
            final(self).row_count == old(self).row_count,
            is_partly_extended(
                old(self)@,
                other@,
                ranges@,
                entries@,
                name_positions(final(self).column_names),
                final(self).columns@,
            ),
    {
        let ghost before = self@;
        for i in 0..entries.len()
            invariant
                before.wf(),
                other.wf(),
                types_agree(before, other@),
                ranges_within(ranges@, other@.rows),
                lists_positions(entries@, name_positions(other.column_names)),
                self.row_count == before.rows,
                is_partly_extended(
                    before,
                    other@,
                    ranges@,
                    entries@.take(i as int),
                    name_positions(self.column_names),
                    self.columns@,
                ),
        {
            let ghost done = entries@.take(i as int);
            let ghost name = entries@[i as int].0@;
            let ghost first = self.columns@;
            let ghost first_positions = name_positions(self.column_names);
            proof {
                assert(other@.columns.contains_key(name));
                lemma_picked(other@.columns[name], ranges@);
                assert(!is_listed(done, name)) by {
                    if is_listed(done, name) {
                        let k = choose|k: int| 0 <= k < done.len() && (#[trigger] done[k]).0@ == name;
                        assert(entries@[k].0@ != entries@[i as int].0@);
                    }
                }
            }
            let src = &other.columns[entries[i].1];
            let position = match self.column_names.get(entries[i].0.as_str()) {
                Some(position) => position,
                None => {
                    let position = self.columns.len();
                    self.columns.push(Column::nulls(src.influx_type(), self.row_count));
                    self.column_names.insert(entries[i].0.clone(), position);
                    proof {
                        lemma_one_more_named(first_positions, position, name);
                    }
                    position
                },
            };
            let ghost middle = self.columns@;
            self.columns[position].append_ranges(src, ranges);
            proof {
                let next = entries@.take(i + 1);
                let positions = name_positions(self.column_names);
                assert forall|n: Seq<char>| #[trigger] is_listed(next, n) <==> is_listed(done, n)
                    || n == name by {
                    if is_listed(done, n) {
                        let k = choose|k: int| 0 <= k < done.len() && (#[trigger] done[k]).0@ == n;
                        assert(next[k].0@ == n);
                    }
                    if n == name {
                        assert(next[i as int].0@ == n);
                    }
                    if is_listed(next, n) && n != name {
                        let k = choose|k: int| 0 <= k < next.len() && (#[trigger] next[k]).0@ == n;
                        assert(done[k].0@ == n);
                    }
                }
                assert(positions =~= first_positions.insert(name, position));
                assert(self.columns@ =~= middle.update(
                    position as int,
                    self.columns@[position as int],
                ));
                assert forall|n: Seq<char>| #[trigger] positions.contains_key(n) implies self.columns@[
                positions[n] as int]@ == (if is_listed(next, n) {
                    extended_column(before, other@, ranges@, n)
                } else {
                    before.columns[n]
                }) by {
                    if n != name {
                        assert(first_positions.contains_key(n));
                        assert(positions[n] != position);
                    }
                }
            }
        }
        assert(entries@.take(entries@.len() as int) =~= entries@);
    }

    /// Fills the columns that were not written to with nulls and counts the new rows.
    fn commit(
        &mut self,
        to_insert: usize,
        Ghost(before): Ghost<BatchView>,
        Ghost(other): Ghost<BatchView>,
        Ghost(ranges): Ghost<Seq<Range<usize>>>,
        Ghost(entries): Ghost<Seq<(&String, usize)>>,
    )
        requires
            before.wf(),
            extended(before, other, ranges).wf(),
            forall|name: Seq<char>| #[trigger]
                other.columns.contains_key(name) <==> is_listed(entries, name),
            to_insert == rows_in(ranges),
            old(self).row_count == before.rows,
            before.rows + to_insert <= usize::MAX,
            is_partly_extended(
                before,
                other,
                ranges,
                entries,
                name_positions(old(self).column_names),
                old(self).columns@,
            ),
        ensures
            final(self).wf(),
            final(self)@ == extended(before, other, ranges),
    {
        let rows = self.row_count + to_insert;
        let ghost written = self.columns@;
        let ghost positions = name_positions(self.column_names);
        let mut i: usize = 0;
        while i < self.columns.len()
            invariant
                i <= self.columns@.len(),
                self.columns@.len() == written.len(),
                name_positions(self.column_names) == positions,
                forall|k: int|
                    0 <= k < written.len() ==> (#[trigger] written[k])@.wf() && written[k]@.len()
                        <= rows,
                forall|k: int|
                    0 <= k < i ==> (#[trigger] self.columns@[k])@ == written[k]@.followed_by(
                        null_column(written[k]@.influx_type, (rows - written[k]@.len()) as nat),
                    ),
                forall|k: int| i <= k < written.len() ==> self.columns@[k] == written[k],
            decreases written.len() - i,
        {
            assert(self.columns@[i as int] == written[i as int]);
            self.columns[i].pad_to(rows);
            i = i + 1;
        }
        self.row_count = rows;
        proof {
            let after = extended(before, other, ranges);
            assert forall|name: Seq<char>| #[trigger] positions.contains_key(name) implies self@.columns[name]
                == after.columns[name] by {
                let column = written[positions[name] as int];
                if is_listed(entries, name) {
                    assert(after.columns.contains_key(name));
                    lemma_followed_by_none(column@);
                } else {
                    assert(before.columns.contains_key(name));
                }
            }
            assert(self@.columns =~= after.columns);
        }
    }
}

} // verus!
