//! What a batch of rows holds, and what becomes of it as rows are added.

use crate::schema::{InfluxColumnType, InfluxFieldType, Selection, TIME_COLUMN_NAME};
use std::ops::Range;
use vstd::prelude::*;

verus! {

use crate::arrow_batch::{
    ArrowField,
    ArrowType,
    ArrowValue,
    arrow_type,
    arrow_values,
    fits_arrow,
    law_array_holds_the_values,
    make_a_record_batch,
};
use crate::column::{
    ColumnView,
    DataView,
    lemma_followed_by_associative,
    lemma_followed_by_none,
    lemma_picked,
    null_column,
    ranges_within,
    rows_in,
};
use crate::schema::{SchemaColumn, lemma_name_order, name_before, sorted_by_name};

/// What a batch holds: its columns by name, each with as many rows as the batch.
#[verifier::ext_equal]
pub struct BatchView {
    pub columns: Map<Seq<char>, ColumnView>,
    pub rows: nat,
}

impl BatchView {
    /// Every column is as long as the batch, and that of the timestamps, no other, has the type
    /// of timestamps.
    pub open spec fn wf(self) -> bool {
        forall|name: Seq<char>| #[trigger]
            self.columns.contains_key(name) ==> {
                &&& self.columns[name].wf()
                &&& self.columns[name].len() == self.rows
                &&& self.columns[name].influx_type == InfluxColumnType::Timestamp <==> name
                    == TIME_COLUMN_NAME@
            }
    }
}

/// A batch is what it should be if and only if each column is, is as long as the batch, and holds
/// timestamps exactly if it is the one named for them.
pub proof fn law_what_a_batch_is(view: BatchView)
    ensures
        view.wf() <==> forall|name: Seq<char>| #[trigger]
            view.columns.contains_key(name) ==> {
                &&& view.columns[name].wf()
                &&& view.columns[name].valid.len() == view.rows
                &&& view.columns[name].influx_type is Timestamp <==> name == "time"@
            },
{
    if view.wf() {
        assert forall|name: Seq<char>| #[trigger] view.columns.contains_key(name) implies {
            &&& view.columns[name].wf()
            &&& view.columns[name].valid.len() == view.rows
            &&& view.columns[name].influx_type is Timestamp <==> name == "time"@
        } by {}
    }
}

/// The names of a selection.
pub open spec fn selected_names(columns: Seq<String>) -> Seq<Seq<char>> {
    columns.map_values(|c: String| c@)
}

/// `name` is the first of the names that the batch has no column for.
pub open spec fn first_missing(
    view: BatchView,
    names: Seq<Seq<char>>,
    name: Seq<char>,
) -> bool {
    exists|i: int|
        {
            &&& 0 <= i < names.len()
            &&& #[trigger] names[i] == name
            &&& !view.columns.contains_key(name)
            &&& forall|j: int| 0 <= j < i ==> view.columns.contains_key(#[trigger] names[j])
        }
}

/// The batch has a column for each of the names.
pub open spec fn has_all(view: BatchView, names: Seq<Seq<char>>) -> bool {
    forall|i: int| 0 <= i < names.len() ==> view.columns.contains_key(#[trigger] names[i])
}

/// The named columns with their types, in the order of the names.
pub open spec fn selected_columns(view: BatchView, names: Seq<Seq<char>>) -> Seq<SchemaColumn> {
    names.map_values(|n: Seq<char>| (n, view.columns[n].influx_type))
}

/// `columns` are those of the batch, in the order of their names.
pub open spec fn is_full_schema(view: BatchView, columns: Seq<SchemaColumn>) -> bool {
    &&& sorted_by_name(columns)
    &&& forall|c: SchemaColumn| #[trigger]
        columns.contains(c) <==> view.columns.contains_key(c.0)
            && view.columns[c.0].influx_type == c.1
}

/// `columns` are the selected columns of the batch, with their types, in the order in which the
/// selection has them.
pub open spec fn is_selection(
    view: BatchView,
    selection: Selection<'_>,
    columns: Seq<SchemaColumn>,
) -> bool {
    match selection {
        Selection::All => is_full_schema(view, columns),
        Selection::Columns(names) => {
            &&& has_all(view, selected_names(names@))
            &&& columns == selected_columns(view, selected_names(names@))
        },
    }
}

/// The column of the batch with the given name and type as a field of an Arrow batch. Only
/// timestamps may not be null.
pub open spec fn arrow_field(view: BatchView, column: SchemaColumn) -> ArrowField {
    ArrowField {
        name: column.0,
        nullable: column.1 != InfluxColumnType::Timestamp,
        data_type: arrow_type(column.1),
        values: arrow_values(view.columns[column.0]),
    }
}

/// Columns of the batch as fields of an Arrow batch.
pub open spec fn arrow_fields(view: BatchView, columns: Seq<SchemaColumn>) -> Seq<ArrowField> {
    columns.map_values(|c: SchemaColumn| arrow_field(view, c))
}

/// Each of the columns of the batch can be made an Arrow array.
pub open spec fn all_fit_arrow(view: BatchView, columns: Seq<SchemaColumn>) -> bool {
    forall|i: int|
        0 <= i < columns.len() ==> fits_arrow(view.columns[(#[trigger] columns[i]).0])
}

/// `name` is that of the first of the columns that cannot be made an Arrow array.
pub open spec fn first_unfit(
    view: BatchView,
    columns: Seq<SchemaColumn>,
    name: Seq<char>,
) -> bool {
    exists|i: int|
        {
            &&& 0 <= i < columns.len()
            &&& (#[trigger] columns[i]).0 == name
            &&& !fits_arrow(view.columns[name])
            &&& all_fit_arrow(view, columns.take(i))
        }
}

/// The batch has a column of timestamps with a null in it.
pub open spec fn lacks_timestamps(view: BatchView) -> bool {
    &&& view.columns.contains_key(TIME_COLUMN_NAME@)
    &&& view.columns[TIME_COLUMN_NAME@].valid.contains(false)
}

/// Columns of the same name are of the same type.
pub open spec fn types_agree(batch: BatchView, other: BatchView) -> bool {
    forall|name: Seq<char>| #[trigger]
        batch.columns.contains_key(name) && #[trigger] other.columns.contains_key(name)
            ==> batch.columns[name].influx_type == other.columns[name].influx_type
}

/// The column of a name after the rows that ranges pick from `other` were added to the batch.
/// A side that has no such column counts as one with nulls in it.
pub open spec fn extended_column(
    batch: BatchView,
    other: BatchView,
    ranges: Seq<Range<usize>>,
    name: Seq<char>,
) -> ColumnView {
    if !other.columns.contains_key(name) {
        batch.columns[name].followed_by(
            null_column(batch.columns[name].influx_type, rows_in(ranges)),
        )
    } else if !batch.columns.contains_key(name) {
        null_column(other.columns[name].influx_type, batch.rows).followed_by(
            other.columns[name].picked(ranges),
        )
    } else {
        batch.columns[name].followed_by(other.columns[name].picked(ranges))
    }
}

/// The batch after the rows that ranges pick from `other` were added to it.
pub open spec fn extended(
    batch: BatchView,
    other: BatchView,
    ranges: Seq<Range<usize>>,
) -> BatchView {
    BatchView {
        columns: Map::new(
            |name: Seq<char>|
                batch.columns.contains_key(name) || other.columns.contains_key(name),
            |name: Seq<char>| extended_column(batch, other, ranges, name),
        ),
        rows: batch.rows + rows_in(ranges),
    }
}

/// A batch that was extended is well-formed.
pub proof fn lemma_extended_wf(batch: BatchView, other: BatchView, ranges: Seq<Range<usize>>)
    requires
        batch.wf(),
        other.wf(),
        types_agree(batch, other),
        ranges_within(ranges, other.rows),
    ensures
        extended(batch, other, ranges).wf(),
{
    let after = extended(batch, other, ranges);
    assert forall|name: Seq<char>| #[trigger] after.columns.contains_key(name) implies {
        &&& after.columns[name].wf()
        &&& after.columns[name].len() == after.rows
        &&& after.columns[name].influx_type == InfluxColumnType::Timestamp <==> name
            == TIME_COLUMN_NAME@
    } by {
        if other.columns.contains_key(name) {
            lemma_picked(other.columns[name], ranges);
        }
    }
}

/// The range of all rows of a batch.
pub open spec fn all_rows(batch: BatchView) -> Seq<Range<usize>> {
    seq![Range { start: 0usize, end: batch.rows as usize }]
}

/// The column of a name, or nulls of the given type where the batch has none.
pub open spec fn column_or_nulls(
    batch: BatchView,
    name: Seq<char>,
    influx_type: InfluxColumnType,
) -> ColumnView {
    if batch.columns.contains_key(name) {
        batch.columns[name]
    } else {
        null_column(influx_type, batch.rows)
    }
}

proof fn lemma_null_columns(influx_type: InfluxColumnType, m: nat, n: nat)
    ensures
        null_column(influx_type, m).wf(),
        null_column(influx_type, m).followed_by(null_column(influx_type, n)) == null_column(
            influx_type,
            m + n,
        ),
{
    assert(null_column(influx_type, m).followed_by(null_column(influx_type, n)) =~= null_column(
        influx_type,
        m + n,
    ));
}

proof fn lemma_picked_append(a: ColumnView, first: Seq<Range<usize>>, second: Seq<Range<usize>>)
    requires
        a.wf(),
        ranges_within(first, a.len()),
        ranges_within(second, a.len()),
    ensures
        a.picked(first + second) == a.picked(first).followed_by(a.picked(second)),
        rows_in(first + second) == rows_in(first) + rows_in(second),
    decreases second.len(),
{
    lemma_picked(a, first);
    if second.len() == 0 {
        assert(first + second =~= first);
        lemma_followed_by_none(a.picked(first));
    } else {
        let last = second.last();
        assert(last == second[second.len() - 1]);
        assert((first + second).drop_last() =~= first + second.drop_last());
        lemma_picked_append(a, first, second.drop_last());
        lemma_picked(a, second.drop_last());
        lemma_followed_by_associative(
            a.picked(first),
            a.picked(second.drop_last()),
            a.rows(last.start as int, last.end as int),
        );
    }
}

proof fn lemma_picked_all(a: ColumnView, rows: nat)
    requires
        a.wf(),
        a.len() == rows,
        rows <= usize::MAX,
    ensures
        a.picked(seq![Range { start: 0usize, end: rows as usize }]) == a,
{
    let ranges = seq![Range { start: 0usize, end: rows as usize }];
    assert(ranges.drop_last() =~= Seq::<Range<usize>>::empty());
    assert(a.picked(Seq::<Range<usize>>::empty()) == null_column(a.influx_type, 0));
    assert(a.rows(0, rows as int) =~= a);
    lemma_followed_by_none(a);
}

proof fn lemma_rows_in_all(rows: nat)
    requires
        rows <= usize::MAX,
    ensures
        rows_in(seq![Range { start: 0usize, end: rows as usize }]) == rows,
{
    let ranges = seq![Range { start: 0usize, end: rows as usize }];
    assert(ranges.drop_last() =~= Seq::<Range<usize>>::empty());
    assert(rows_in(Seq::<Range<usize>>::empty()) == 0);
}

proof fn lemma_rows_in_append(first: Seq<Range<usize>>, second: Seq<Range<usize>>)
    ensures
        rows_in(first + second) == rows_in(first) + rows_in(second),
    decreases second.len(),
{
    if second.len() == 0 {
        assert(first + second =~= first);
    } else {
        assert((first + second).drop_last() =~= first + second.drop_last());
        lemma_rows_in_append(first, second.drop_last());
    }
}

/// Extending a batch leaves its rows, in its columns, as they were.
pub proof fn law_extension_keeps_rows(
    batch: BatchView,
    other: BatchView,
    ranges: Seq<Range<usize>>,
    name: Seq<char>,
)
    requires
        batch.wf(),
        other.wf(),
        types_agree(batch, other),
        ranges_within(ranges, other.rows),
        batch.columns.contains_key(name),
    ensures
        extended(batch, other, ranges).columns.contains_key(name),
        extended(batch, other, ranges).columns[name].rows(0, batch.rows as int)
            == batch.columns[name],
{
    let after = extended(batch, other, ranges).columns[name];
    if other.columns.contains_key(name) {
        lemma_picked(other.columns[name], ranges);
    }
    assert(after.rows(0, batch.rows as int) =~= batch.columns[name]);
}

/// Extending a batch by some ranges and then by others is extending it by all of them.
pub proof fn law_extension_by_parts(
    batch: BatchView,
    other: BatchView,
    first: Seq<Range<usize>>,
    second: Seq<Range<usize>>,
)
    requires
        batch.wf(),
        other.wf(),
        types_agree(batch, other),
        ranges_within(first, other.rows),
        ranges_within(second, other.rows),
    ensures
        types_agree(extended(batch, other, first), other),
        extended(extended(batch, other, first), other, second) == extended(
            batch,
            other,
            first + second,
        ),
{
    let middle = extended(batch, other, first);
    let twice = extended(middle, other, second);
    let once = extended(batch, other, first + second);
    lemma_rows_in_append(first, second);
    assert forall|name: Seq<char>| #[trigger] once.columns.contains_key(name) implies twice.columns[name]
        == once.columns[name] by {
        assert(middle.columns.contains_key(name));
        if other.columns.contains_key(name) {
            let column = other.columns[name];
            lemma_picked(column, first);
            lemma_picked(column, second);
            lemma_picked_append(column, first, second);
            lemma_null_columns(column.influx_type, batch.rows, 0);
            lemma_followed_by_associative(
                column_or_nulls(batch, name, column.influx_type),
                column.picked(first),
                column.picked(second),
            );
        } else {
            let column = batch.columns[name];
            lemma_null_columns(column.influx_type, rows_in(first), rows_in(second));
            lemma_null_columns(column.influx_type, rows_in(second), 0);
            lemma_followed_by_associative(
                column,
                null_column(column.influx_type, rows_in(first)),
                null_column(column.influx_type, rows_in(second)),
            );
        }
    }
    assert(twice =~= once);
}

/// The batch after one range after another was added to it.
pub open spec fn extended_range_by_range(
    batch: BatchView,
    other: BatchView,
    ranges: Seq<Range<usize>>,
) -> BatchView
    decreases ranges.len(),
{
    if ranges.len() == 0 {
        batch
    } else {
        extended(
            extended_range_by_range(batch, other, ranges.drop_last()),
            other,
            seq![ranges.last()],
        )
    }
}

/// Extending a batch by ranges, which may overlap or repeat, is extending it by each of them in
/// turn, and adds as many rows as they have. Where there is no range, nothing is done in turn,
/// but the columns of the other batch are still made.
pub proof fn law_extension_range_by_range(
    batch: BatchView,
    other: BatchView,
    ranges: Seq<Range<usize>>,
)
    requires
        batch.wf(),
        other.wf(),
        types_agree(batch, other),
        ranges_within(ranges, other.rows),
        ranges.len() > 0,
    ensures
        extended(batch, other, ranges) == extended_range_by_range(batch, other, ranges),
        extended(batch, other, ranges).rows == batch.rows + rows_in(ranges),
    decreases ranges.len(),
{
    let first = ranges.drop_last();
    let last = seq![ranges.last()];
    assert(ranges.last() == ranges[ranges.len() - 1]);
    assert(first + last =~= ranges);
    if ranges.len() == 1 {
        assert(last =~= ranges);
        assert(extended_range_by_range(batch, other, first) == batch);
    } else {
        law_extension_range_by_range(batch, other, first);
        law_extension_by_parts(batch, other, first, last);
    }
}

proof fn lemma_extended_by_all(
    batch: BatchView,
    other: BatchView,
    name: Seq<char>,
    influx_type: InfluxColumnType,
)
    requires
        batch.wf(),
        other.wf(),
        types_agree(batch, other),
        other.rows <= usize::MAX,
        batch.columns.contains_key(name) ==> batch.columns[name].influx_type == influx_type,
        other.columns.contains_key(name) ==> other.columns[name].influx_type == influx_type,
    ensures
        column_or_nulls(extended(batch, other, all_rows(other)), name, influx_type)
            == column_or_nulls(batch, name, influx_type).followed_by(
            column_or_nulls(other, name, influx_type),
        ),
        extended(batch, other, all_rows(other)).rows == batch.rows + other.rows,
        column_or_nulls(other, name, influx_type).wf(),
        column_or_nulls(other, name, influx_type).influx_type == influx_type,
{
    lemma_rows_in_all(other.rows);
    lemma_null_columns(influx_type, batch.rows, other.rows);
    lemma_null_columns(influx_type, other.rows, 0);
    if other.columns.contains_key(name) {
        lemma_picked_all(other.columns[name], other.rows);
    }
}

/// Extending a batch by all of another puts the other's rows, nulls where it has no such column,
/// behind those of the batch.
pub proof fn law_extension_by_all(batch: BatchView, other: BatchView, name: Seq<char>)
    requires
        batch.wf(),
        other.wf(),
        types_agree(batch, other),
        other.rows <= usize::MAX,
        batch.columns.contains_key(name) || other.columns.contains_key(name),
    ensures
        ({
            let after = extended(batch, other, all_rows(other));
            let influx_type = after.columns[name].influx_type;
            &&& after.columns.contains_key(name)
            &&& after.columns[name] == column_or_nulls(batch, name, influx_type).followed_by(
                column_or_nulls(other, name, influx_type),
            )
            &&& after.rows == batch.rows + other.rows
        }),
{
    let after = extended(batch, other, all_rows(other));
    let influx_type = if batch.columns.contains_key(name) {
        batch.columns[name].influx_type
    } else {
        other.columns[name].influx_type
    };
    lemma_extended_by_all(batch, other, name, influx_type);
}

/// Extending an empty batch by all of another gives the other, and extending a batch by all of
/// an empty one leaves it as it is.
pub proof fn law_extension_and_nothing(batch: BatchView)
    requires
        batch.wf(),
        batch.rows <= usize::MAX,
    ensures
        ({
            let nothing = BatchView { columns: Map::empty(), rows: 0 };
            &&& extended(nothing, batch, all_rows(batch)) == batch
            &&& extended(batch, nothing, all_rows(nothing)) == batch
        }),
{
    let nothing = BatchView { columns: Map::empty(), rows: 0 };
    lemma_rows_in_all(batch.rows);
    lemma_rows_in_all(0);
    assert forall|name: Seq<char>| #[trigger] batch.columns.contains_key(name) implies {
        &&& extended(nothing, batch, all_rows(batch)).columns[name] == batch.columns[name]
        &&& extended(batch, nothing, all_rows(nothing)).columns[name] == batch.columns[name]
    } by {
        lemma_picked_all(batch.columns[name], batch.rows);
        lemma_followed_by_none(batch.columns[name]);
    }
    assert(extended(nothing, batch, all_rows(batch)) =~= batch);
    assert(extended(batch, nothing, all_rows(nothing)) =~= batch);
}

/// It does not matter in which order batches are gathered into one.
pub proof fn law_extension_associative(a: BatchView, b: BatchView, c: BatchView)
    requires
        a.wf(),
        b.wf(),
        c.wf(),
        types_agree(a, b),
        types_agree(a, c),
        types_agree(b, c),
        b.rows + c.rows <= usize::MAX,
    ensures
        ({
            let ab = extended(a, b, all_rows(b));
            let bc = extended(b, c, all_rows(c));
            &&& types_agree(ab, c)
            &&& types_agree(a, bc)
            &&& extended(ab, c, all_rows(c)) == extended(a, bc, all_rows(bc))
        }),
{
    let ab = extended(a, b, all_rows(b));
    let bc = extended(b, c, all_rows(c));
    lemma_rows_in_all(b.rows);
    lemma_rows_in_all(c.rows);
    assert(ranges_within(all_rows(b), b.rows));
    assert(ranges_within(all_rows(c), c.rows));
    lemma_extended_wf(a, b, all_rows(b));
    lemma_extended_wf(b, c, all_rows(c));
    assert forall|name: Seq<char>| #[trigger]
        ab.columns.contains_key(name) && #[trigger] c.columns.contains_key(name) implies
        ab.columns[name].influx_type == c.columns[name].influx_type by {
        if b.columns.contains_key(name) {
            lemma_picked(b.columns[name], all_rows(b));
        }
    }
    assert forall|name: Seq<char>| #[trigger]
        a.columns.contains_key(name) && #[trigger] bc.columns.contains_key(name) implies
        a.columns[name].influx_type == bc.columns[name].influx_type by {}
    let left = extended(ab, c, all_rows(c));
    let right = extended(a, bc, all_rows(bc));
    lemma_rows_in_all(bc.rows);
    assert forall|name: Seq<char>| #[trigger] left.columns.contains_key(name) implies left.columns[name]
        == right.columns[name] by {
        let influx_type = if a.columns.contains_key(name) {
            a.columns[name].influx_type
        } else if b.columns.contains_key(name) {
            b.columns[name].influx_type
        } else {
            c.columns[name].influx_type
        };
        lemma_extended_by_all(a, b, name, influx_type);
        lemma_extended_by_all(b, c, name, influx_type);
        lemma_extended_by_all(ab, c, name, influx_type);
        lemma_extended_by_all(a, bc, name, influx_type);
        lemma_null_columns(influx_type, a.rows, 0);
        lemma_followed_by_associative(
            column_or_nulls(a, name, influx_type),
            column_or_nulls(b, name, influx_type),
            column_or_nulls(c, name, influx_type),
        );
    }
    assert(left =~= right);
}

proof fn lemma_sorted_same(a: Seq<SchemaColumn>, b: Seq<SchemaColumn>)
    requires
        sorted_by_name(a),
        sorted_by_name(b),
        forall|c: SchemaColumn| #[trigger] a.contains(c) <==> b.contains(c),
    ensures
        a == b,
    decreases a.len(),
{
    if a.len() == 0 {
        if b.len() > 0 {
            assert(b.contains(b[0]));
            assert(a.contains(b[0]));
        }
        assert(a =~= b);
    } else {
        let m = a.len() - 1;
        assert(a.contains(a[m]));
        let n = b.len() - 1;
        assert(b.contains(b[n]));
        assert(a.contains(b[n]));
        assert(a[m] == b[n]) by {
            let j = b.index_of(a[m]);
            let k = a.index_of(b[n]);
            if a[m] != b[n] {
                assert(name_before(b[j].0, b[n].0));
                assert(name_before(a[k].0, a[m].0));
                lemma_name_order(a[m].0, b[n].0, a[m].0);
            }
        }
        assert forall|c: SchemaColumn| #[trigger]
            a.drop_last().contains(c) <==> b.drop_last().contains(c) by {
            if a.drop_last().contains(c) {
                let k = a.drop_last().index_of(c);
                assert(a[k] == c);
                assert(name_before(a[k].0, a[m].0));
                lemma_name_order(a[m].0, a[k].0, a[m].0);
                assert(a.contains(c));
                let j = b.index_of(c);
                assert(b.drop_last()[j] == c);
            }
            if b.drop_last().contains(c) {
                let k = b.drop_last().index_of(c);
                assert(b[k] == c);
                assert(name_before(b[k].0, b[n].0));
                lemma_name_order(b[n].0, b[k].0, b[n].0);
                assert(b.contains(c));
                assert(a.contains(c));
                let j = a.index_of(c);
                assert(a.drop_last()[j] == c);
            }
        }
        lemma_sorted_same(a.drop_last(), b.drop_last());
        assert(a =~= a.drop_last().push(a[m]));
        assert(b =~= b.drop_last().push(b[n]));
    }
}

/// A selection determines its columns and their order.
pub proof fn law_selection_unique(
    view: BatchView,
    selection: Selection<'_>,
    a: Seq<SchemaColumn>,
    b: Seq<SchemaColumn>,
)
    requires
        is_selection(view, selection, a),
        is_selection(view, selection, b),
    ensures
        a == b,
{
    if selection is All {
        lemma_sorted_same(a, b);
    }
}

/// A selection by names has these columns in their order, each with its type in the batch. A
/// selection of all has every column of the batch, none twice, in the order of their names.
pub proof fn law_selected_columns(
    view: BatchView,
    selection: Selection<'_>,
    columns: Seq<SchemaColumn>,
)
    requires
        is_selection(view, selection, columns),
    ensures
        match selection {
            Selection::Columns(names) => {
                &&& columns.len() == names@.len()
                &&& forall|i: int|
                    0 <= i < columns.len() ==> {
                        &&& (#[trigger] columns[i]).0 == names@[i]@
                        &&& view.columns.contains_key(names@[i]@)
                        &&& columns[i].1 == view.columns[names@[i]@].influx_type
                    }
            },
            Selection::All => {
                &&& forall|i: int|
                    0 <= i < columns.len() ==> {
                        &&& view.columns.contains_key((#[trigger] columns[i]).0)
                        &&& columns[i].1 == view.columns[columns[i].0].influx_type
                    }
                &&& forall|name: Seq<char>| #[trigger]
                    view.columns.contains_key(name) ==> columns.contains(
                        (name, view.columns[name].influx_type),
                    )
                &&& forall|i: int, j: int|
                    0 <= i < j < columns.len() ==> {
                        &&& (#[trigger] columns[i]).0 != (#[trigger] columns[j]).0
                        &&& name_before(columns[i].0, columns[j].0)
                    }
            },
        },
{
    match selection {
        Selection::Columns(names) => {
            assert forall|i: int| 0 <= i < columns.len() implies {
                &&& (#[trigger] columns[i]).0 == names@[i]@
                &&& view.columns.contains_key(names@[i]@)
                &&& columns[i].1 == view.columns[names@[i]@].influx_type
            } by {
                assert(selected_names(names@)[i] == names@[i]@);
            }
        },
        Selection::All => {
            assert forall|i: int| 0 <= i < columns.len() implies {
                &&& view.columns.contains_key((#[trigger] columns[i]).0)
                &&& columns[i].1 == view.columns[columns[i].0].influx_type
            } by {
                assert(columns.contains(columns[i]));
            }
            assert forall|i: int, j: int| 0 <= i < j < columns.len() implies {
                &&& (#[trigger] columns[i]).0 != (#[trigger] columns[j]).0
                &&& name_before(columns[i].0, columns[j].0)
            } by {
                assert(name_before(columns[i].0, columns[j].0));
                lemma_name_order(columns[i].0, columns[j].0, columns[i].0);
            }
        },
    }
}

/// The fields of an Arrow batch are the selected columns, in their order and under their names;
/// each has a type of its own for each type of column, may hold nulls unless it holds the
/// timestamps, and has, row by row, the very value of the column if it is there, and else a null.
pub proof fn law_arrow_batch_row_by_row(
    view: BatchView,
    selection: Selection<'_>,
    columns: Seq<SchemaColumn>,
    i: int,
    row: int,
)
    requires
        view.wf(),
        is_selection(view, selection, columns),
        0 <= i < columns.len(),
        0 <= row < view.rows,
    ensures
        arrow_fields(view, columns).len() == columns.len(),
        ({
            let field = arrow_fields(view, columns)[i];
            let column = view.columns[field.name];
            &&& field.name == columns[i].0
            &&& view.columns.contains_key(field.name)
            &&& field.nullable <==> column.influx_type != InfluxColumnType::Timestamp
            &&& match (column.influx_type, field.data_type) {
                (InfluxColumnType::Tag, ArrowType::Dictionary) => true,
                (InfluxColumnType::Timestamp, ArrowType::Timestamp) => true,
                (InfluxColumnType::Field(InfluxFieldType::Float), ArrowType::Float64) => true,
                (InfluxColumnType::Field(InfluxFieldType::Integer), ArrowType::Int64) => true,
                (InfluxColumnType::Field(InfluxFieldType::UInteger), ArrowType::UInt64) => true,
                (InfluxColumnType::Field(InfluxFieldType::String), ArrowType::Utf8) => true,
                (InfluxColumnType::Field(InfluxFieldType::Boolean), ArrowType::Boolean) => true,
                _ => false,
            }
            &&& field.values.len() == view.rows
            &&& match (column.data, field.values[row]) {
                (_, None) => !column.valid[row],
                (DataView::F64(v), Some(ArrowValue::Float(bits))) => {
                    column.valid[row] && bits == v[row]
                },
                (DataView::I64(v), Some(ArrowValue::Integer(number))) => {
                    column.valid[row] && number == v[row]
                },
                (DataView::U64(v), Some(ArrowValue::Unsigned(number))) => {
                    column.valid[row] && number == v[row]
                },
                (DataView::Text(v), Some(ArrowValue::Text(text))) => {
                    column.valid[row] && text == v[row]
                },
                (DataView::Bool(v), Some(ArrowValue::Boolean(value))) => {
                    column.valid[row] && value == v[row]
                },
                _ => false,
            }
        }),
{
    law_selected_columns(view, selection, columns);
    law_array_holds_the_values(view.columns[columns[i].0], row);
}

/// The column that is refused is the first one whose texts are too much for an array, and where
/// none is refused, there is no such column.
pub proof fn law_refused_column(view: BatchView, columns: Seq<SchemaColumn>, name: Seq<char>)
    ensures
        first_unfit(view, columns, name) ==> exists|i: int|
            {
                &&& 0 <= i < columns.len()
                &&& (#[trigger] columns[i]).0 == name
                &&& !fits_arrow(view.columns[columns[i].0])
                &&& forall|j: int| 0 <= j < i ==> fits_arrow(view.columns[(#[trigger] columns[j]).0])
            },
        all_fit_arrow(view, columns) <==> forall|j: int|
            0 <= j < columns.len() ==> fits_arrow(view.columns[(#[trigger] columns[j]).0]),
{
    if first_unfit(view, columns, name) {
        let i = choose|i: int|
            {
                &&& 0 <= i < columns.len()
                &&& (#[trigger] columns[i]).0 == name
                &&& !fits_arrow(view.columns[name])
                &&& all_fit_arrow(view, columns.take(i))
            };
        assert forall|j: int| 0 <= j < i implies fits_arrow(
            view.columns[(#[trigger] columns[j]).0],
        ) by {
            assert(columns.take(i)[j] == columns[j]);
        }
        assert(columns[i].0 == name);
    }
}

/// Selected columns have as many values as the batch has rows, and make an Arrow batch unless
/// there are none, or a timestamp among them is null.
pub proof fn law_selection_makes_arrow_batch(
    view: BatchView,
    selection: Selection<'_>,
    columns: Seq<SchemaColumn>,
)
    requires
        view.wf(),
        is_selection(view, selection, columns),
    ensures
        forall|i: int|
            0 <= i < columns.len() ==> (#[trigger] arrow_fields(view, columns)[i]).values.len()
                == view.rows,
        make_a_record_batch(arrow_fields(view, columns)) <==> {
            &&& columns.len() > 0
            &&& !(lacks_timestamps(view) && columns.contains(
                (TIME_COLUMN_NAME@, InfluxColumnType::Timestamp),
            ))
        },
{
    let fields = arrow_fields(view, columns);
    let time = (TIME_COLUMN_NAME@, InfluxColumnType::Timestamp);
    assert forall|i: int| 0 <= i < columns.len() implies {
        &&& view.columns.contains_key((#[trigger] columns[i]).0)
        &&& view.columns[columns[i].0].influx_type == columns[i].1
        &&& fields[i].values.len() == view.rows
    } by {
        match selection {
            Selection::All => {
                assert(columns.contains(columns[i]));
            },
            Selection::Columns(names) => {
                assert(selected_names(names@)[i] == columns[i].0);
            },
        }
    }
    if lacks_timestamps(view) && columns.contains(time) {
        let i = columns.index_of(time);
        let valid = view.columns[TIME_COLUMN_NAME@].valid;
        let j = valid.index_of(false);
        assert(columns[i] == time);
        assert(fields[i].values[j] is None);
    } else if columns.len() > 0 {
        assert forall|i: int, j: int|
            0 <= i < fields.len() && !fields[i].nullable && 0 <= j < fields[i].values.len() implies
            #[trigger] fields[i].values[j] is Some by {
            assert(columns[i].1 == InfluxColumnType::Timestamp);
            assert(columns[i] == time);
            assert(columns.contains(time));
            assert(!view.columns[TIME_COLUMN_NAME@].valid.contains(false));
            assert(view.columns[TIME_COLUMN_NAME@].valid[j]);
        }
        assert(make_a_record_batch(fields));
    }
}

} // verus!
