//! A column of a batch: one value per row, some of which are null.

use crate::schema::{InfluxColumnType, InfluxFieldType};
use std::ops::Range;
use vstd::prelude::*;

verus! {

/// The values of a column. A null holds the default of its kind.
#[derive(Debug)]
pub enum ColumnData {
    /// The bit patterns of IEEE 754 double precision numbers.
    F64(Vec<u64>),
    I64(Vec<i64>),
    U64(Vec<u64>),
    Text(Vec<String>),
    Bool(Vec<bool>),
}

/// The values of a column, as sequences.
#[verifier::ext_equal]
pub enum DataView {
    F64(Seq<u64>),
    I64(Seq<i64>),
    U64(Seq<u64>),
    Text(Seq<Seq<char>>),
    Bool(Seq<bool>),
}

/// The texts of strings.
pub open spec fn texts(strings: Seq<String>) -> Seq<Seq<char>> {
    strings.map_values(|s: String| s@)
}

impl View for ColumnData {
    type V = DataView;

    open spec fn view(&self) -> DataView {
        match self {
            ColumnData::F64(v) => DataView::F64(v@),
            ColumnData::I64(v) => DataView::I64(v@),
            ColumnData::U64(v) => DataView::U64(v@),
            ColumnData::Text(v) => DataView::Text(texts(v@)),
            ColumnData::Bool(v) => DataView::Bool(v@),
        }
    }
}

impl DataView {
    /// The number of values.
    pub open spec fn len(self) -> nat {
        match self {
            DataView::F64(v) => v.len(),
            DataView::I64(v) => v.len(),
            DataView::U64(v) => v.len(),
            DataView::Text(v) => v.len(),
            DataView::Bool(v) => v.len(),
        }
    }

    /// A column of this type holds values of this kind.
    pub open spec fn is_of(self, influx_type: InfluxColumnType) -> bool {
        match influx_type {
            InfluxColumnType::Tag => self is Text,
            InfluxColumnType::Field(InfluxFieldType::Float) => self is F64,
            InfluxColumnType::Field(InfluxFieldType::Integer) => self is I64,
            InfluxColumnType::Field(InfluxFieldType::UInteger) => self is U64,
            InfluxColumnType::Field(InfluxFieldType::String) => self is Text,
            InfluxColumnType::Field(InfluxFieldType::Boolean) => self is Bool,
            InfluxColumnType::Timestamp => self is I64,
        }
    }

    /// The values of the rows from `from` to `to`.
    pub open spec fn rows(self, from: int, to: int) -> DataView {
        match self {
            DataView::F64(v) => DataView::F64(v.subrange(from, to)),
            DataView::I64(v) => DataView::I64(v.subrange(from, to)),
            DataView::U64(v) => DataView::U64(v.subrange(from, to)),
            DataView::Text(v) => DataView::Text(v.subrange(from, to)),
            DataView::Bool(v) => DataView::Bool(v.subrange(from, to)),
        }
    }

    /// These values, and those of `other`, which are of the same kind, behind them.
    pub open spec fn followed_by(self, other: DataView) -> DataView {
        match (self, other) {
            (DataView::F64(a), DataView::F64(b)) => DataView::F64(a + b),
            (DataView::I64(a), DataView::I64(b)) => DataView::I64(a + b),
            (DataView::U64(a), DataView::U64(b)) => DataView::U64(a + b),
            (DataView::Text(a), DataView::Text(b)) => DataView::Text(a + b),
            (DataView::Bool(a), DataView::Bool(b)) => DataView::Bool(a + b),
            _ => self,
        }
    }
}

/// The defaults that stand for nulls in a column of the given type.
pub open spec fn null_data(influx_type: InfluxColumnType, n: nat) -> DataView {
    match influx_type {
        InfluxColumnType::Tag => DataView::Text(Seq::new(n, |i: int| Seq::<char>::empty())),
        InfluxColumnType::Field(InfluxFieldType::Float) => DataView::F64(
            Seq::new(n, |i: int| 0u64),
        ),
        InfluxColumnType::Field(InfluxFieldType::Integer) => DataView::I64(
            Seq::new(n, |i: int| 0i64),
        ),
        InfluxColumnType::Field(InfluxFieldType::UInteger) => DataView::U64(
            Seq::new(n, |i: int| 0u64),
        ),
        InfluxColumnType::Field(InfluxFieldType::String) => DataView::Text(
            Seq::new(n, |i: int| Seq::<char>::empty()),
        ),
        InfluxColumnType::Field(InfluxFieldType::Boolean) => DataView::Bool(
            Seq::new(n, |i: int| false),
        ),
        InfluxColumnType::Timestamp => DataView::I64(Seq::new(n, |i: int| 0i64)),
    }
}

/// A column: its type, its values, and for each of them whether it is there.
#[derive(Debug)]
pub struct Column {
    influx_type: InfluxColumnType,
    valid: Vec<bool>,
    data: ColumnData,
}

/// What a column holds.
#[verifier::ext_equal]
pub struct ColumnView {
    pub influx_type: InfluxColumnType,
    pub valid: Seq<bool>,
    pub data: DataView,
}

impl ColumnView {
    /// One value of the right kind for each row.
    pub open spec fn wf(self) -> bool {
        &&& self.data.is_of(self.influx_type)
        &&& self.data.len() == self.valid.len()
    }

    /// The number of rows.
    pub open spec fn len(self) -> nat {
        self.valid.len()
    }

    /// The rows from `from` to `to`.
    pub open spec fn rows(self, from: int, to: int) -> ColumnView {
        ColumnView {
            valid: self.valid.subrange(from, to),
            data: self.data.rows(from, to),
            ..self
        }
    }

    /// These rows, and those of `other`, which is of the same type, behind them.
    pub open spec fn followed_by(self, other: ColumnView) -> ColumnView {
        ColumnView {
            valid: self.valid + other.valid,
            data: self.data.followed_by(other.data),
            ..self
        }
    }

    /// The rows of one range after another.
    pub open spec fn picked(self, ranges: Seq<Range<usize>>) -> ColumnView
        decreases ranges.len(),
    {
        if ranges.len() == 0 {
            null_column(self.influx_type, 0)
        } else {
            self.picked(ranges.drop_last()).followed_by(
                self.rows(ranges.last().start as int, ranges.last().end as int),
            )
        }
    }
}

/// The number of rows in ranges.
pub open spec fn rows_in(ranges: Seq<Range<usize>>) -> nat
    decreases ranges.len(),
{
    if ranges.len() == 0 {
        0
    } else {
        rows_in(ranges.drop_last()) + (ranges.last().end - ranges.last().start) as nat
    }
}

/// Every range lies in what has the given number of rows.
pub open spec fn ranges_within(ranges: Seq<Range<usize>>, rows: nat) -> bool {
    forall|i: int|
        0 <= i < ranges.len() ==> (#[trigger] ranges[i]).start <= ranges[i].end <= rows
}

/// A column of nulls.
pub open spec fn null_column(influx_type: InfluxColumnType, n: nat) -> ColumnView {
    ColumnView {
        influx_type,
        valid: Seq::new(n, |i: int| false),
        data: null_data(influx_type, n),
    }
}

/// It does not matter in which order rows are put behind one another.
pub proof fn lemma_followed_by_associative(a: ColumnView, b: ColumnView, c: ColumnView)
    requires
        a.wf(),
        b.wf(),
        c.wf(),
        a.influx_type == b.influx_type,
        b.influx_type == c.influx_type,
    ensures
        a.followed_by(b).followed_by(c) == a.followed_by(b.followed_by(c)),
{
    assert(a.followed_by(b).followed_by(c) =~= a.followed_by(b.followed_by(c)));
}

/// A column of no rows adds nothing.
pub proof fn lemma_followed_by_none(a: ColumnView)
    requires
        a.wf(),
    ensures
        a.followed_by(null_column(a.influx_type, 0)) == a,
        null_column(a.influx_type, 0).followed_by(a) == a,
{
    assert(a.followed_by(null_column(a.influx_type, 0)) =~= a);
    assert(null_column(a.influx_type, 0).followed_by(a) =~= a);
}

/// What is picked from a column is of its type and has the rows of the ranges.
pub proof fn lemma_picked(a: ColumnView, ranges: Seq<Range<usize>>)
    requires
        a.wf(),
        ranges_within(ranges, a.len()),
    ensures
        a.picked(ranges).wf(),
        a.picked(ranges).influx_type == a.influx_type,
        a.picked(ranges).len() == rows_in(ranges),
    decreases ranges.len(),
{
    if ranges.len() > 0 {
        assert(ranges.last() == ranges[ranges.len() - 1]);
        lemma_picked(a, ranges.drop_last());
    }
}

/// The rows are the same: the same value, of the same kind, which is there in both or in neither.
pub open spec fn same_row(a: ColumnView, i: int, b: ColumnView, j: int) -> bool {
    &&& 0 <= i < a.valid.len()
    &&& 0 <= j < b.valid.len()
    &&& a.valid[i] == b.valid[j]
    &&& match (a.data, b.data) {
        (DataView::F64(x), DataView::F64(y)) => i < x.len() && j < y.len() && x[i] == y[j],
        (DataView::I64(x), DataView::I64(y)) => i < x.len() && j < y.len() && x[i] == y[j],
        (DataView::U64(x), DataView::U64(y)) => i < x.len() && j < y.len() && x[i] == y[j],
        (DataView::Text(x), DataView::Text(y)) => i < x.len() && j < y.len() && x[i] == y[j],
        (DataView::Bool(x), DataView::Bool(y)) => i < x.len() && j < y.len() && x[i] == y[j],
        _ => false,
    }
}

/// Where the rows of one of the ranges stand among what is picked.
pub proof fn lemma_picked_row(a: ColumnView, ranges: Seq<Range<usize>>, r: int, k: int)
    requires
        a.wf(),
        ranges_within(ranges, a.len()),
        0 <= r < ranges.len(),
        0 <= k < ranges[r].end - ranges[r].start,
    ensures
        rows_in(ranges.take(r)) + k < rows_in(ranges),
        same_row(a.picked(ranges), rows_in(ranges.take(r)) + k, a, ranges[r].start + k),
    decreases ranges.len(),
{
    let rest = ranges.drop_last();
    lemma_picked(a, rest);
    lemma_picked(a, ranges);
    assert(ranges.last() == ranges[ranges.len() - 1]);
    if r < rest.len() {
        assert(rest[r] == ranges[r]);
        lemma_picked_row(a, rest, r, k);
        assert(rest.take(r) =~= ranges.take(r));
    } else {
        assert(ranges.take(r) =~= rest);
    }
}

/// The values of a column stand for themselves, one by one and whatever they are.
pub proof fn law_values_stand_for_themselves(data: ColumnData)
    ensures
        match (data, data@) {
            (ColumnData::F64(v), DataView::F64(s)) => s == v@,
            (ColumnData::I64(v), DataView::I64(s)) => s == v@,
            (ColumnData::U64(v), DataView::U64(s)) => s == v@,
            (ColumnData::Text(v), DataView::Text(s)) => s.len() == v@.len() && forall|i: int|
                0 <= i < v@.len() ==> #[trigger] s[i] == v@[i]@,
            (ColumnData::Bool(v), DataView::Bool(s)) => s == v@,
            _ => false,
        },
{
}

/// Ranges lie within so many rows if and only if each starts where it ends, or before, and ends
/// where the rows end, or before.
pub proof fn law_ranges_within(ranges: Seq<Range<usize>>, rows: nat)
    ensures
        ranges_within(ranges, rows) <==> forall|i: int|
            0 <= i < ranges.len() ==> {
                &&& (#[trigger] ranges[i]).start <= ranges[i].end
                &&& ranges[i].end <= rows
            },
{
}

/// The rows of ranges add up, and those of a range are as many as lie between its ends.
pub proof fn law_rows_add_up(ranges: Seq<Range<usize>>, range: Range<usize>)
    requires
        range.start <= range.end,
    ensures
        rows_in(Seq::empty()) == 0,
        rows_in(seq![range]) == range.end - range.start,
        rows_in(ranges.push(range)) == rows_in(ranges) + (range.end - range.start),
{
    assert(ranges.push(range).drop_last() =~= ranges);
    assert(seq![range].drop_last() =~= Seq::empty());
}

/// A column is what it should be if and only if the kind of its values goes with its type and it
/// has a value for each row.
pub proof fn law_kind_of_values(column: ColumnView)
    ensures
        column.wf() <==> match (column.influx_type, column.data) {
            (InfluxColumnType::Tag, DataView::Text(v)) => v.len() == column.valid.len(),
            (InfluxColumnType::Timestamp, DataView::I64(v)) => v.len() == column.valid.len(),
            (InfluxColumnType::Field(InfluxFieldType::Float), DataView::F64(v)) => v.len()
                == column.valid.len(),
            (InfluxColumnType::Field(InfluxFieldType::Integer), DataView::I64(v)) => v.len()
                == column.valid.len(),
            (InfluxColumnType::Field(InfluxFieldType::UInteger), DataView::U64(v)) => v.len()
                == column.valid.len(),
            (InfluxColumnType::Field(InfluxFieldType::String), DataView::Text(v)) => v.len()
                == column.valid.len(),
            (InfluxColumnType::Field(InfluxFieldType::Boolean), DataView::Bool(v)) => v.len()
                == column.valid.len(),
            _ => false,
        },
{
}

impl View for Column {
    type V = ColumnView;

    closed spec fn view(&self) -> ColumnView {
        ColumnView { influx_type: self.influx_type, valid: self.valid@, data: self.data@ }
    }
}

/// Appends part of a vector.
fn append_part<T: Copy>(dst: &mut Vec<T>, src: &Vec<T>, from: usize, to: usize)
    requires
        from <= to <= src@.len(),
    ensures
        final(dst)@ == old(dst)@ + src@.subrange(from as int, to as int),
{
    let ghost before = dst@;
    let mut i: usize = from;
    assert(dst@ =~= before + src@.subrange(from as int, from as int));
    while i < to
        invariant
            from <= i <= to <= src@.len(),
            dst@ == before + src@.subrange(from as int, i as int),
        decreases to - i,
    {
        dst.push(src[i]);
        i = i + 1;
        assert(dst@ =~= before + src@.subrange(from as int, i as int));
    }
}

/// Appends part of a vector of strings.
fn append_texts(dst: &mut Vec<String>, src: &Vec<String>, from: usize, to: usize)
    requires
        from <= to <= src@.len(),
    ensures
        texts(final(dst)@) == texts(old(dst)@) + texts(src@).subrange(from as int, to as int),
{
    let ghost before = texts(dst@);
    let mut i: usize = from;
    assert(texts(dst@) =~= before + texts(src@).subrange(from as int, from as int));
    while i < to
        invariant
            from <= i <= to <= src@.len(),
            texts(dst@) == before + texts(src@).subrange(from as int, i as int),
        decreases to - i,
    {
        let ghost so_far = texts(dst@);
        dst.push(src[i].clone());
        assert(texts(dst@) =~= so_far.push(src@[i as int]@));
        i = i + 1;
        assert(texts(dst@) =~= before + texts(src@).subrange(from as int, i as int));
    }
}

/// Appends copies of a value until the vector has `len` of them.
fn fill<T: Copy>(dst: &mut Vec<T>, value: T, len: usize)
    requires
        old(dst)@.len() <= len,
    ensures
        final(dst)@ == old(dst)@ + Seq::new((len - old(dst)@.len()) as nat, |i: int| value),
{
    let ghost before = dst@;
    assert(dst@ =~= before + Seq::new(0, |i: int| value));
    while dst.len() < len
        invariant
            before.len() <= dst@.len() <= len,
            dst@ == before + Seq::new((dst@.len() - before.len()) as nat, |i: int| value),
        decreases len - dst@.len(),
    {
        dst.push(value);
        assert(dst@ =~= before + Seq::new((dst@.len() - before.len()) as nat, |i: int| value));
    }
}

/// Appends empty strings until the vector has `len` of them.
fn fill_texts(dst: &mut Vec<String>, len: usize)
    requires
        old(dst)@.len() <= len,
    ensures
        texts(final(dst)@) == texts(old(dst)@) + Seq::new(
            (len - old(dst)@.len()) as nat,
            |i: int| Seq::<char>::empty(),
        ),
{
    let ghost before = texts(dst@);
    assert(texts(dst@) =~= before + Seq::new(0, |i: int| Seq::<char>::empty()));
    while dst.len() < len
        invariant
            before.len() <= dst@.len() <= len,
            texts(dst@) == before + Seq::new(
                (dst@.len() - before.len()) as nat,
                |i: int| Seq::<char>::empty(),
            ),
        decreases len - dst@.len(),
    {
        let ghost so_far = texts(dst@);
        let empty = String::new();
        let ghost text = empty@;
        dst.push(empty);
        assert(texts(dst@) =~= so_far.push(text));
        assert(texts(dst@) =~= before + Seq::new(
            (dst@.len() - before.len()) as nat,
            |i: int| Seq::<char>::empty(),
        ));
    }
}

/// Whether a column of the given type holds values of this kind.
fn data_fits(data: &ColumnData, influx_type: InfluxColumnType) -> (fits: bool)
    ensures
        fits == data@.is_of(influx_type),
{
    match (influx_type, data) {
        (InfluxColumnType::Tag, ColumnData::Text(_)) => true,
        (InfluxColumnType::Field(InfluxFieldType::Float), ColumnData::F64(_)) => true,
        (InfluxColumnType::Field(InfluxFieldType::Integer), ColumnData::I64(_)) => true,
        (InfluxColumnType::Field(InfluxFieldType::UInteger), ColumnData::U64(_)) => true,
        (InfluxColumnType::Field(InfluxFieldType::String), ColumnData::Text(_)) => true,
        (InfluxColumnType::Field(InfluxFieldType::Boolean), ColumnData::Bool(_)) => true,
        (InfluxColumnType::Timestamp, ColumnData::I64(_)) => true,
        _ => false,
    }
}

impl ColumnData {
    /// The number of values.
    pub fn len(&self) -> (len: usize)
        ensures
            len == self@.len(),
    {
        match self {
            ColumnData::F64(v) => v.len(),
            ColumnData::I64(v) => v.len(),
            ColumnData::U64(v) => v.len(),
            ColumnData::Text(v) => v.len(),
            ColumnData::Bool(v) => v.len(),
        }
    }
}

/// A copy of a vector.
fn copied<T: Copy>(values: &Vec<T>) -> (copy: Vec<T>)
    ensures
        copy@ == values@,
{
    let mut copy: Vec<T> = Vec::new();
    append_part(&mut copy, values, 0, values.len());
    assert(copy@ =~= values@);
    copy
}

impl Clone for Column {
    /// A column that holds the same.
    fn clone(&self) -> (copy: Self)
        ensures
            copy@ == self@,
    {
        let data = match &self.data {
            ColumnData::F64(values) => ColumnData::F64(copied(values)),
            ColumnData::I64(values) => ColumnData::I64(copied(values)),
            ColumnData::U64(values) => ColumnData::U64(copied(values)),
            ColumnData::Text(values) => {
                let mut copy: Vec<String> = Vec::new();
                append_texts(&mut copy, values, 0, values.len());
                assert(texts(copy@) =~= texts(values@));
                ColumnData::Text(copy)
            },
            ColumnData::Bool(values) => ColumnData::Bool(copied(values)),
        };
        Column { influx_type: self.influx_type, valid: copied(&self.valid), data }
    }
}

impl Column {
    /// A column of the given type; `None` unless there is a value of the right kind for each row.
    pub fn new(influx_type: InfluxColumnType, valid: Vec<bool>, data: ColumnData) -> (column:
        Option<Column>)
        ensures
            ({
                let view = ColumnView { influx_type, valid: valid@, data: data@ };
                match column {
                    Some(column) => view.wf() && column@ == view,
                    None => !view.wf(),
                }
            }),
    {
        if data_fits(&data, influx_type) && data.len() == valid.len() {
            Some(Column { influx_type, valid, data })
        } else {
            None
        }
    }

    /// A column of nulls.
    pub fn nulls(influx_type: InfluxColumnType, len: usize) -> (column: Column)
        ensures
            column@ == null_column(influx_type, len as nat),
            column@.wf(),
    {
        let data = match influx_type {
            InfluxColumnType::Tag => ColumnData::Text(Vec::new()),
            InfluxColumnType::Field(InfluxFieldType::Float) => ColumnData::F64(Vec::new()),
            InfluxColumnType::Field(InfluxFieldType::Integer) => ColumnData::I64(Vec::new()),
            InfluxColumnType::Field(InfluxFieldType::UInteger) => ColumnData::U64(Vec::new()),
            InfluxColumnType::Field(InfluxFieldType::String) => ColumnData::Text(Vec::new()),
            InfluxColumnType::Field(InfluxFieldType::Boolean) => ColumnData::Bool(Vec::new()),
            InfluxColumnType::Timestamp => ColumnData::I64(Vec::new()),
        };
        let mut column = Column { influx_type, valid: Vec::new(), data };
        column.pad_to(len);
        assert(column@ =~= null_column(influx_type, len as nat));
        column
    }

    /// The type of the column.
    pub fn influx_type(&self) -> (influx_type: InfluxColumnType)
        ensures
            influx_type == self@.influx_type,
    {
        self.influx_type
    }

    /// The number of rows.
    pub fn len(&self) -> (len: usize)
        ensures
            len == self@.len(),
    {
        self.valid.len()
    }

    /// The values, with a default in place of each null.
    pub fn data(&self) -> (data: &ColumnData)
        ensures
            data@ == self@.data,
    {
        &self.data
    }

    /// For each row whether its value is there.
    pub fn valid(&self) -> (valid: &Vec<bool>)
        ensures
            valid@ == self@.valid,
    {
        &self.valid
    }

    /// Appends rows of another column of the same type.
    pub fn append_rows(&mut self, src: &Column, from: usize, to: usize)
        requires
            old(self)@.wf(),
            src@.wf(),
            src@.influx_type == old(self)@.influx_type,
            from <= to <= src@.len(),
        ensures
            final(self)@ == old(self)@.followed_by(src@.rows(from as int, to as int)),
            final(self)@.wf(),
    {
        match (&mut self.data, &src.data) {
            (ColumnData::F64(dst), ColumnData::F64(src)) => append_part(dst, src, from, to),
            (ColumnData::I64(dst), ColumnData::I64(src)) => append_part(dst, src, from, to),
            (ColumnData::U64(dst), ColumnData::U64(src)) => append_part(dst, src, from, to),
            (ColumnData::Text(dst), ColumnData::Text(src)) => append_texts(dst, src, from, to),
            (ColumnData::Bool(dst), ColumnData::Bool(src)) => append_part(dst, src, from, to),
            _ => {},
        }
        append_part(&mut self.valid, &src.valid, from, to);
    }

    /// Appends the rows that ranges pick from another column of the same type.
    pub fn append_ranges(&mut self, src: &Column, ranges: &[Range<usize>])
        requires
            old(self)@.wf(),
            src@.wf(),
            src@.influx_type == old(self)@.influx_type,
            ranges_within(ranges@, src@.len()),
        ensures
            final(self)@ == old(self)@.followed_by(src@.picked(ranges@)),
            final(self)@.wf(),
    {
        let ghost before = self@;
        proof {
            lemma_followed_by_none(before);
        }
        for i in 0..ranges.len()
            invariant
                before.wf(),
                src@.wf(),
                src@.influx_type == before.influx_type,
                ranges_within(ranges@, src@.len()),
                self@ == before.followed_by(src@.picked(ranges@.take(i as int))),
                self@.wf(),
        {
            let ghost taken = ranges@.take(i as int);
            let ghost range = ranges@[i as int];
            proof {
                assert(ranges@.take(i + 1).drop_last() =~= taken);
                lemma_picked(src@, taken);
                lemma_followed_by_associative(
                    before,
                    src@.picked(taken),
                    src@.rows(range.start as int, range.end as int),
                );
            }
            self.append_rows(src, ranges[i].start, ranges[i].end);
        }
        assert(ranges@.take(ranges@.len() as int) =~= ranges@);
    }

    /// Appends nulls until the column has `len` rows.
    pub fn pad_to(&mut self, len: usize)
        requires
            old(self)@.wf(),
            old(self)@.len() <= len,
        ensures
            final(self)@ == old(self)@.followed_by(
                null_column(old(self)@.influx_type, (len - old(self)@.len()) as nat),
            ),
            final(self)@.wf(),
    {
        match &mut self.data {
            ColumnData::F64(dst) => fill(dst, 0, len),
            ColumnData::I64(dst) => fill(dst, 0, len),
            ColumnData::U64(dst) => fill(dst, 0, len),
            ColumnData::Text(dst) => fill_texts(dst, len),
            ColumnData::Bool(dst) => fill(dst, false, len),
        }
        fill(&mut self.valid, false, len);
    }
}

} // verus!
