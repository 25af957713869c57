//! The columns of a table: their names, in order, and the kind of data that each holds.

use vstd::prelude::*;

verus! {

/// The name of the column that holds the timestamps.
pub const TIME_COLUMN_NAME: &'static str = "time";

/// The data of a field column.
#[derive(Debug, Clone, Copy, PartialEq, Eq, Structural)]
pub enum InfluxFieldType {
    Float,
    Integer,
    UInteger,
    String,
    Boolean,
}

/// What a column is for, and with it the data it holds.
#[derive(Debug, Clone, Copy, PartialEq, Eq, Structural)]
pub enum InfluxColumnType {
    Tag,
    Field(InfluxFieldType),
    Timestamp,
}

/// Which columns to look at.
#[derive(Debug, Clone, Copy)]
pub enum Selection<'a> {
    /// Every column, in the order of their names.
    All,
    /// The columns named, in the order given.
    Columns(&'a [String]),
}

/// A column of a schema.
pub type SchemaColumn = (Seq<char>, InfluxColumnType);

/// Names and types of columns, each name at most once.
#[derive(Debug)]
pub struct Schema {
    fields: Vec<(String, InfluxColumnType)>,
}

/// A column occurs twice in what was to be a schema.
#[derive(Debug, PartialEq, Eq)]
pub struct DuplicateColumn {
    pub column: String,
}

/// The columns of a schema, with the text of their names.
pub open spec fn schema_columns(fields: Seq<(String, InfluxColumnType)>) -> Seq<SchemaColumn> {
    fields.map_values(|f: (String, InfluxColumnType)| (f.0@, f.1))
}

/// No two columns have the same name.
pub open spec fn distinct_names(columns: Seq<SchemaColumn>) -> bool {
    forall|i: int, j: int|
        0 <= i < j < columns.len() ==> (#[trigger] columns[i]).0 != (#[trigger] columns[j]).0
}

/// The first text comes before the second in the order of their bytes.
pub open spec fn bytes_before(a: Seq<u8>, b: Seq<u8>) -> bool
    decreases a.len(),
{
    if b.len() == 0 {
        false
    } else if a.len() == 0 {
        true
    } else if a[0] == b[0] {
        bytes_before(a.drop_first(), b.drop_first())
    } else {
        a[0] < b[0]
    }
}

/// The first name comes before the second one in the order of their UTF-8 bytes.
pub open spec fn name_before(a: Seq<char>, b: Seq<char>) -> bool {
    bytes_before(vstd::utf8::encode_utf8(a), vstd::utf8::encode_utf8(b))
}

/// Names ascend strictly.
pub open spec fn sorted_by_name(columns: Seq<SchemaColumn>) -> bool {
    forall|i: int, j: int|
        0 <= i < j < columns.len() ==> #[trigger] name_before(columns[i].0, columns[j].0)
}

proof fn lemma_bytes_before_irreflexive(a: Seq<u8>)
    ensures
        !bytes_before(a, a),
    decreases a.len(),
{
    if a.len() > 0 {
        lemma_bytes_before_irreflexive(a.drop_first());
    }
}

proof fn lemma_bytes_before_transitive(a: Seq<u8>, b: Seq<u8>, c: Seq<u8>)
    requires
        bytes_before(a, b),
        bytes_before(b, c),
    ensures
        bytes_before(a, c),
    decreases a.len(),
{
    if a.len() > 0 && b.len() > 0 && c.len() > 0 && a[0] == b[0] && b[0] == c[0] {
        lemma_bytes_before_transitive(a.drop_first(), b.drop_first(), c.drop_first());
    }
}

proof fn lemma_bytes_before_connected(a: Seq<u8>, b: Seq<u8>)
    ensures
        bytes_before(a, b) || bytes_before(b, a) || a == b,
    decreases a.len(),
{
    if a.len() > 0 && b.len() > 0 && a[0] == b[0] {
        lemma_bytes_before_connected(a.drop_first(), b.drop_first());
        if a.drop_first() == b.drop_first() {
            assert(a =~= seq![a[0]] + a.drop_first());
            assert(b =~= seq![b[0]] + b.drop_first());
        }
    } else if a.len() == 0 && b.len() == 0 {
        assert(a =~= b);
    }
}

/// The order of names is strict and total.
pub proof fn lemma_name_order(a: Seq<char>, b: Seq<char>, c: Seq<char>)
    ensures
        !name_before(a, a),
        name_before(a, b) && name_before(b, c) ==> name_before(a, c),
        name_before(a, b) || name_before(b, a) || a == b,
        name_before(a, b) ==> !name_before(b, a),
{
    let x = vstd::utf8::encode_utf8(a);
    let y = vstd::utf8::encode_utf8(b);
    let z = vstd::utf8::encode_utf8(c);
    lemma_bytes_before_irreflexive(x);
    if bytes_before(x, y) && bytes_before(y, z) {
        lemma_bytes_before_transitive(x, y, z);
    }
    lemma_bytes_before_connected(x, y);
    if x == y {
        vstd::utf8::encode_utf8_decode_utf8(a);
        vstd::utf8::encode_utf8_decode_utf8(b);
    }
    if bytes_before(x, y) && bytes_before(y, x) {
        lemma_bytes_before_transitive(x, y, x);
    }
}

proof fn lemma_bytes_before_skip(a: Seq<u8>, b: Seq<u8>, n: int)
    requires
        0 <= n <= a.len(),
        n <= b.len(),
        a.take(n) == b.take(n),
    ensures
        bytes_before(a, b) == bytes_before(a.skip(n), b.skip(n)),
    decreases n,
{
    if n > 0 {
        assert(a[0] == a.take(n)[0]);
        assert(b[0] == b.take(n)[0]);
        assert(a.drop_first().take(n - 1) =~= a.take(n).drop_first());
        assert(b.drop_first().take(n - 1) =~= b.take(n).drop_first());
        lemma_bytes_before_skip(a.drop_first(), b.drop_first(), n - 1);
        assert(a.drop_first().skip(n - 1) =~= a.skip(n));
        assert(b.drop_first().skip(n - 1) =~= b.skip(n));
    } else {
        assert(a.skip(0) =~= a);
        assert(b.skip(0) =~= b);
    }
}

/// Of two names the one with the smaller byte, where they differ first, comes before the other,
/// and so does one that the other only goes on from.
pub proof fn law_name_order_is_that_of_bytes(a: Seq<char>, b: Seq<char>)
    ensures
        ({
            let x = vstd::utf8::encode_utf8(a);
            let y = vstd::utf8::encode_utf8(b);
            name_before(a, b) <==> exists|n: int|
                {
                    &&& 0 <= n <= x.len()
                    &&& n < y.len()
                    &&& #[trigger] x.take(n) == y.take(n)
                    &&& n == x.len() || x[n] < y[n]
                }
        }),
{
    lemma_bytes_before_in_bytes(vstd::utf8::encode_utf8(a), vstd::utf8::encode_utf8(b));
}

proof fn lemma_bytes_before_in_bytes(x: Seq<u8>, y: Seq<u8>)
    ensures
        bytes_before(x, y) <==> exists|n: int|
            {
                &&& 0 <= n <= x.len()
                &&& n < y.len()
                &&& #[trigger] x.take(n) == y.take(n)
                &&& n == x.len() || x[n] < y[n]
            },
    decreases x.len(),
{
    if y.len() == 0 {
    } else if x.len() == 0 {
        assert(x.take(0) =~= y.take(0));
    } else if x[0] != y[0] {
        assert(x.take(0) =~= y.take(0));
        assert forall|n: int|
            0 < n <= x.len() && n < y.len() implies #[trigger] x.take(n) != y.take(n) by {
            assert(x.take(n)[0] != y.take(n)[0]);
        }
    } else {
        let u = x.drop_first();
        let v = y.drop_first();
        lemma_bytes_before_in_bytes(u, v);
        if bytes_before(u, v) {
            let n = choose|n: int|
                {
                    &&& 0 <= n <= u.len()
                    &&& n < v.len()
                    &&& #[trigger] u.take(n) == v.take(n)
                    &&& n == u.len() || u[n] < v[n]
                };
            assert(x.take(n + 1) =~= seq![x[0]] + u.take(n));
            assert(y.take(n + 1) =~= seq![y[0]] + v.take(n));
            assert(x.take(n + 1) == y.take(n + 1));
        }
        if exists|n: int|
            {
                &&& 0 <= n <= x.len()
                &&& n < y.len()
                &&& #[trigger] x.take(n) == y.take(n)
                &&& n == x.len() || x[n] < y[n]
            } {
            let n = choose|n: int|
                {
                    &&& 0 <= n <= x.len()
                    &&& n < y.len()
                    &&& #[trigger] x.take(n) == y.take(n)
                    &&& n == x.len() || x[n] < y[n]
                };
            assert(n > 0);
            assert(u.take(n - 1) =~= x.take(n).drop_first());
            assert(v.take(n - 1) =~= y.take(n).drop_first());
            assert(u.take(n - 1) == v.take(n - 1));
        }
    }
}

/// Whether the first name comes before the second one.
pub fn comes_before(a: &str, b: &str) -> (before: bool)
    ensures
        before == name_before(a@, b@),
{
    let x = a.as_bytes();
    let y = b.as_bytes();
    let mut i: usize = 0;
    while i < x.len() && i < y.len() && x[i] == y[i]
        invariant
            i <= x@.len(),
            i <= y@.len(),
            x@.take(i as int) == y@.take(i as int),
        decreases x@.len() - i,
    {
        assert(x@.take(i + 1) =~= x@.take(i as int).push(x@[i as int]));
        assert(y@.take(i + 1) =~= y@.take(i as int).push(y@[i as int]));
        i = i + 1;
    }
    proof {
        lemma_bytes_before_skip(x@, y@, i as int);
        let s = x@.skip(i as int);
        let t = y@.skip(i as int);
        if i < x@.len() {
            assert(s[0] == x@[i as int]);
        }
        if i < y@.len() {
            assert(t[0] == y@[i as int]);
        }
    }
    if i < y.len() {
        i >= x.len() || x[i] < y[i]
    } else {
        false
    }
}

impl View for Schema {
    type V = Seq<SchemaColumn>;

    closed spec fn view(&self) -> Seq<SchemaColumn> {
        schema_columns(self.fields@)
    }
}

impl Schema {
    /// Each name occurs at most once.
    pub open spec fn wf(&self) -> bool {
        distinct_names(self@)
    }

    /// The number of columns.
    pub fn len(&self) -> (len: usize)
        ensures
            len == self@.len(),
    {
        self.fields.len()
    }

    /// The name and the type of a column.
    pub fn field(&self, i: usize) -> (field: (&str, InfluxColumnType))
        requires
            i < self@.len(),
        ensures
            (field.0@, field.1) == self@[i as int],
    {
        (self.fields[i].0.as_str(), self.fields[i].1)
    }

    /// The schema of the given columns, in their order. Refused, with the name, if a column
    /// occurs a second time; the first such one is named.
    pub fn build(fields: Vec<(String, InfluxColumnType)>) -> (result: Result<Self, DuplicateColumn>)
        ensures
            match result {
                Ok(schema) => schema.wf() && schema@ == schema_columns(fields@),
                Err(e) => first_duplicate(schema_columns(fields@), e.column@),
            },
            result is Ok <==> distinct_names(schema_columns(fields@)),
            result is Ok <==> forall|i: int, j: int|
                0 <= i < j < fields@.len() ==> (#[trigger] fields@[i]).0@ != (
                #[trigger] fields@[j]).0@,
            result matches Ok(schema) ==> schema@.len() == fields@.len() && forall|i: int|
                0 <= i < fields@.len() ==> #[trigger] schema@[i] == (fields@[i].0@, fields@[i].1),
    {
        let ghost columns = schema_columns(fields@);
        for j in 0..fields.len()
            invariant
                columns == schema_columns(fields@),
                distinct_names(columns.take(j as int)),
        {
            for i in 0..j
                invariant
                    columns == schema_columns(fields@),
                    j < fields@.len(),
                    distinct_names(columns.take(j as int)),
                    forall|k: int| 0 <= k < i ==> (#[trigger] columns[k]).0 != columns[j as int].0,
            {
                assert(columns[i as int].0 == fields@[i as int].0@);
                assert(columns[j as int].0 == fields@[j as int].0@);
                if fields[i].0 == fields[j].0 {
                    proof {
                        assert(columns[i as int].0 == columns[j as int].0);
                        assert(first_duplicate(columns, columns[j as int].0)) by {
                            assert(columns[j as int].0 == columns[j as int].0);
                        }
                    }
                    return Err(DuplicateColumn { column: fields[j].0.clone() });
                }
            }
            assert(distinct_names(columns.take(j + 1))) by {
                let more = columns.take(j + 1);
                assert forall|a: int, b: int| 0 <= a < b < more.len() implies (
                #[trigger] more[a]).0 != (#[trigger] more[b]).0 by {
                    if b < j {
                        assert(columns.take(j as int)[a].0 != columns.take(j as int)[b].0);
                    } else {
                        assert(columns[a].0 != columns[j as int].0);
                    }
                }
            }
        }
        assert(columns.take(columns.len() as int) =~= columns);
        assert forall|i: int, j: int| 0 <= i < j < fields@.len() implies (
        #[trigger] fields@[i]).0@ != (#[trigger] fields@[j]).0@ by {
            assert(columns[i].0 != columns[j].0);
        }
        Ok(Schema { fields })
    }

    /// The same columns in the order of their names.
    pub fn sort_fields_by_name(self) -> (sorted: Schema)
        requires
            self.wf(),
        ensures
            sorted.wf(),
            sorted_by_name(sorted@),
            sorted@.to_multiset() == self@.to_multiset(),
    {
        let mut rest = self.fields;
        let mut fields: Vec<(String, InfluxColumnType)> = Vec::new();
        let ghost all = schema_columns(rest@);
        proof {
            assert(schema_columns(fields@) =~= Seq::empty());
            Seq::<SchemaColumn>::empty().to_multiset_ensures();
            assert(schema_columns(fields@).to_multiset().add(all.to_multiset())
                =~= all.to_multiset());
        }
        while rest.len() > 0
            invariant
                sorted_by_name(schema_columns(fields@)),
                schema_columns(fields@).to_multiset().add(schema_columns(rest@).to_multiset())
                    == all.to_multiset(),
                distinct_names(all),
            decreases rest@.len(),
        {
            let ghost before = schema_columns(fields@);
            let ghost rest_before = schema_columns(rest@);
            let field = rest.pop().unwrap();
            let ghost column: SchemaColumn = (field.0@, field.1);
            let mut at: usize = 0;
            while at < fields.len() && comes_before(fields[at].0.as_str(), field.0.as_str())
                invariant
                    at <= fields@.len(),
                    before == schema_columns(fields@),
                    column.0 == field.0@,
                    forall|k: int| 0 <= k < at ==> name_before(
                        (#[trigger] before[k]).0,
                        column.0,
                    ),
                decreases fields@.len() - at,
            {
                assert(before[at as int].0 == fields@[at as int].0@);
                at = at + 1;
            }
            fields.insert(at, field);
            proof {
                assert(schema_columns(fields@) =~= before.insert(at as int, column));
                assert(schema_columns(rest@) =~= rest_before.drop_last());
                assert(rest_before.last() == column);
                lemma_sorted_insert(all, before, rest_before, at as int);
            }
        }
        proof {
            let sorted = schema_columns(fields@);
            assert(schema_columns(rest@) =~= Seq::empty());
            Seq::<SchemaColumn>::empty().to_multiset_ensures();
            assert(sorted.to_multiset() =~= all.to_multiset());
            assert forall|i: int, j: int| 0 <= i < j < sorted.len() implies (
            #[trigger] sorted[i]).0 != (#[trigger] sorted[j]).0 by {
                assert(name_before(sorted[i].0, sorted[j].0));
                lemma_name_order(sorted[i].0, sorted[j].0, sorted[i].0);
            }
        }
        Schema { fields }
    }
}

/// `name` is that of the first column whose name has occurred before.
pub open spec fn first_duplicate(columns: Seq<SchemaColumn>, name: Seq<char>) -> bool {
    exists|i: int, j: int|
        {
            &&& 0 <= i < j < columns.len()
            &&& (#[trigger] columns[i]).0 == (#[trigger] columns[j]).0
            &&& columns[j].0 == name
            &&& distinct_names(columns.take(j))
        }
}

/// The column that is refused is the first one that has the name of one before it, and there is
/// one exactly if two columns have the same name.
pub proof fn law_first_duplicate(columns: Seq<SchemaColumn>, name: Seq<char>)
    ensures
        distinct_names(columns) <==> forall|i: int, j: int|
            0 <= i < columns.len() && 0 <= j < columns.len() && i != j ==> (
            #[trigger] columns[i]).0 != (#[trigger] columns[j]).0,
        first_duplicate(columns, name) ==> exists|i: int, j: int|
            {
                &&& 0 <= i < j < columns.len()
                &&& (#[trigger] columns[i]).0 == name
                &&& (#[trigger] columns[j]).0 == name
                &&& forall|k: int, l: int|
                    0 <= k < l < j ==> (#[trigger] columns[k]).0 != (#[trigger] columns[l]).0
            },
{
    if distinct_names(columns) {
        assert forall|i: int, j: int|
            0 <= i < columns.len() && 0 <= j < columns.len() && i != j implies (
        #[trigger] columns[i]).0 != (#[trigger] columns[j]).0 by {
            if i < j {
                assert(columns[i].0 != columns[j].0);
            } else {
                assert(columns[j].0 != columns[i].0);
            }
        }
    }
    if first_duplicate(columns, name) {
        let (i, j) = choose|i: int, j: int|
            {
                &&& 0 <= i < j < columns.len()
                &&& (#[trigger] columns[i]).0 == (#[trigger] columns[j]).0
                &&& columns[j].0 == name
                &&& distinct_names(columns.take(j))
            };
        assert forall|k: int, l: int| 0 <= k < l < j implies (#[trigger] columns[k]).0 != (
        #[trigger] columns[l]).0 by {
            assert(columns.take(j)[k].0 != columns.take(j)[l].0);
        }
        assert(columns[i].0 == name && columns[j].0 == name);
    }
}

/// Putting the last of the remaining columns behind those that come before it keeps the order.
proof fn lemma_sorted_insert(
    all: Seq<SchemaColumn>,
    sorted: Seq<SchemaColumn>,
    rest: Seq<SchemaColumn>,
    at: int,
)
    requires
        distinct_names(all),
        sorted_by_name(sorted),
        rest.len() > 0,
        sorted.to_multiset().add(rest.to_multiset()) == all.to_multiset(),
        0 <= at <= sorted.len(),
        forall|k: int| 0 <= k < at ==> name_before((#[trigger] sorted[k]).0, rest.last().0),
        at < sorted.len() ==> !name_before(sorted[at].0, rest.last().0),
    ensures
        sorted_by_name(sorted.insert(at, rest.last())),
        sorted.insert(at, rest.last()).to_multiset().add(rest.drop_last().to_multiset())
            == all.to_multiset(),
{
    let column = rest.last();
    let after = sorted.insert(at, column);
    vstd::seq_lib::to_multiset_insert(sorted, at, column);
    rest.to_multiset_ensures();
    sorted.to_multiset_ensures();
    all.to_multiset_ensures();
    assert(rest.drop_last() =~= rest.remove(rest.len() - 1));
    assert(rest.to_multiset().count(column) > 0) by {
        assert(rest.contains(column));
    }
    assert(after.to_multiset().add(rest.drop_last().to_multiset()) =~= all.to_multiset());
    assert forall|k: int| at <= k < sorted.len() implies name_before(
        column.0,
        (#[trigger] sorted[k]).0,
    ) by {
        // the column is another one than that at `k`, so their names differ
        assert(sorted.contains(sorted[k]));
        assert(sorted.to_multiset().count(sorted[k]) > 0);
        assert(sorted[k].0 != column.0) by {
            if sorted[k].0 == column.0 {
                lemma_one_of_a_name(all, sorted[k], column);
                assert(all.to_multiset().count(column) >= 2);
            }
        }
        lemma_name_order(sorted[at].0, column.0, sorted[k].0);
        lemma_name_order(column.0, sorted[at].0, sorted[k].0);
        if k > at {
            assert(name_before(sorted[at].0, sorted[k].0));
        }
        if sorted[at].0 == column.0 {
            assert(sorted.contains(sorted[at]));
            assert(sorted.to_multiset().count(sorted[at]) > 0);
            lemma_one_of_a_name(all, sorted[at], column);
            assert(all.to_multiset().count(column) >= 2);
        }
    }
    assert forall|i: int, j: int| 0 <= i < j < after.len() implies #[trigger] name_before(
        after[i].0,
        after[j].0,
    ) by {
        if i < at && j > at {
            assert(name_before(sorted[i].0, sorted[j - 1].0));
        } else if i > at {
            assert(name_before(sorted[i - 1].0, sorted[j - 1].0));
        } else if j < at {
            assert(name_before(sorted[i].0, sorted[j].0));
        }
    }
}

/// Of columns with distinct names, those of one name are one.
proof fn lemma_one_of_a_name(all: Seq<SchemaColumn>, a: SchemaColumn, b: SchemaColumn)
    requires
        distinct_names(all),
        all.to_multiset().count(a) > 0,
        all.to_multiset().count(b) > 0,
        a.0 == b.0,
    ensures
        a == b,
        all.to_multiset().count(a) == 1,
{
    all.to_multiset_ensures();
    let i = all.index_of(a);
    let j = all.index_of(b);
    assert(all[i] == a && all[j] == b);
    assert(i == j);
    assert(all.no_duplicates()) by {
        assert forall|x: int, y: int| 0 <= x < y < all.len() implies all[x] != all[y] by {
            assert(all[x].0 != all[y].0);
        }
    }
    all.lemma_multiset_has_no_duplicates();
    assert(all.to_multiset().contains(a));
}

} // verus!
