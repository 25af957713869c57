//! Whether what queries give is what is expected of them.

use crate::text::same_text;
use vstd::prelude::*;

verus! {

use crate::column::texts;

/// Two tables, as lines of text, are the same but for the order of their rows. The first two
/// lines are the top border and the header and the last is the bottom border; so only a table of
/// more than three lines has lines between them that may change places.
pub open spec fn same_table(expected: Seq<Seq<char>>, actual: Seq<Seq<char>>) -> bool {
    let n = expected.len() as int;
    if n <= 3 || actual.len() != n {
        expected == actual
    } else {
        &&& expected[0] == actual[0]
        &&& expected[1] == actual[1]
        &&& expected[n - 1] == actual[n - 1]
        &&& expected.subrange(2, n - 1).to_multiset() == actual.subrange(2, n - 1).to_multiset()
    }
}

/// The text has the part somewhere in it.
pub open spec fn has_part(text: Seq<char>, part: Seq<char>) -> bool {
    exists|i: int|
        0 <= i <= text.len() - part.len() && #[trigger] text.subrange(i, i + part.len()) == part
}

/// Whether the text has the part somewhere in it.
///
/// Trusted: `str::contains` is true exactly if the part is a slice of the text.
#[verifier::external_body]
fn contains(text: &str, part: &str) -> (found: bool)
    ensures
        found == has_part(text@, part@),
{
    text.contains(part)
}

/// Whether the lines from `from` to `to` are the same in both tables, one by one.
fn same_lines(a: &[String], b: &[String], from: usize, to: usize) -> (same: bool)
    requires
        from <= to <= a@.len(),
        to <= b@.len(),
    ensures
        same == (texts(a@).subrange(from as int, to as int) == texts(b@).subrange(
            from as int,
            to as int,
        )),
{
    let mut i: usize = from;
    while i < to
        invariant
            from <= i <= to <= a@.len(),
            to <= b@.len(),
            forall|k: int| from <= k < i ==> (#[trigger] a@[k])@ == b@[k]@,
        decreases to - i,
    {
        if !same_text(a[i].as_str(), b[i].as_str()) {
            assert(texts(a@).subrange(from as int, to as int)[i - from] != texts(b@).subrange(
                from as int,
                to as int,
            )[i - from]);
            return false;
        }
        i = i + 1;
    }
    assert(texts(a@).subrange(from as int, to as int) =~= texts(b@).subrange(
        from as int,
        to as int,
    ));
    true
}

/// Where a line stands among lines.
fn position(lines: &Vec<&String>, line: &String) -> (found: Option<usize>)
    ensures
        match found {
            Some(i) => i < lines@.len() && lines@[i as int]@ == line@,
            None => forall|i: int| 0 <= i < lines@.len() ==> (#[trigger] lines@[i])@ != line@,
        },
{
    for i in 0..lines.len()
        invariant
            forall|k: int| 0 <= k < i ==> (#[trigger] lines@[k])@ != line@,
    {
        if same_text(lines[i].as_str(), line.as_str()) {
            return Some(i);
        }
    }
    None
}

/// The texts of borrowed strings.
spec fn borrowed_texts(lines: Seq<&String>) -> Seq<Seq<char>> {
    lines.map_values(|line: &String| line@)
}

/// Whether the lines from `from` to `to` are the same in both tables, in any order.
fn same_lines_in_any_order(a: &[String], b: &[String], from: usize, to: usize) -> (same: bool)
    requires
        from <= to <= a@.len(),
        to <= b@.len(),
    ensures
        same == (texts(a@).subrange(from as int, to as int).to_multiset() == texts(b@).subrange(
            from as int,
            to as int,
        ).to_multiset()),
{
    let ghost expected = texts(a@).subrange(from as int, to as int);
    let ghost actual = texts(b@).subrange(from as int, to as int);
    let mut rest: Vec<&String> = Vec::new();
    let mut i: usize = from;
    while i < to
        invariant
            from <= i <= to <= b@.len(),
            borrowed_texts(rest@) == texts(b@).subrange(from as int, i as int),
        decreases to - i,
    {
        let ghost so_far = borrowed_texts(rest@);
        rest.push(&b[i]);
        assert(borrowed_texts(rest@) =~= so_far.push(b@[i as int]@));
        i = i + 1;
        assert(texts(b@).subrange(from as int, i as int) =~= so_far.push(b@[i - 1]@));
    }
    i = from;
    proof {
        Seq::<Seq<char>>::empty().to_multiset_ensures();
        assert(expected.take(0) =~= Seq::empty());
        assert(borrowed_texts(rest@).to_multiset().add(expected.take(0).to_multiset())
            =~= actual.to_multiset());
    }
    while i < to
        invariant
            from <= i <= to <= a@.len(),
            expected == texts(a@).subrange(from as int, to as int),
            to <= b@.len(),
            actual == texts(b@).subrange(from as int, to as int),
            rest@.len() == to - i,
            borrowed_texts(rest@).to_multiset().add(expected.take(i - from).to_multiset())
                == actual.to_multiset(),
        decreases to - i,
    {
        let ghost before = borrowed_texts(rest@);
        let ghost line = a@[i as int]@;
        proof {
            before.to_multiset_ensures();
            expected.to_multiset_ensures();
            actual.to_multiset_ensures();
            expected.take(i - from).to_multiset_ensures();
            expected.take(i + 1 - from).to_multiset_ensures();
            assert(expected.take(i + 1 - from) =~= expected.take(i - from).push(line));
        }
        match position(&rest, &a[i]) {
            Some(at) => {
                rest.remove(at);
                proof {
                    let after = borrowed_texts(rest@);
                    assert(after =~= before.remove(at as int));
                    assert(before.contains(line)) by {
                        assert(before[at as int] == line);
                    }
                    assert(after.to_multiset().add(expected.take(i + 1 - from).to_multiset())
                        =~= actual.to_multiset());
                }
            },
            None => {
                proof {
                    assert(!before.contains(line)) by {
                        if before.contains(line) {
                            let k = before.index_of(line);
                            assert(rest@[k]@ == line);
                        }
                    }
                    lemma_count_take(expected, i + 1 - from, line);
                    assert(expected.to_multiset().count(line) > actual.to_multiset().count(line));
                }
                return false;
            },
        }
        i = i + 1;
    }
    proof {
        assert(expected.take(to - from) =~= expected);
        assert(borrowed_texts(rest@) =~= Seq::empty());
        Seq::<Seq<char>>::empty().to_multiset_ensures();
        assert(expected.to_multiset() =~= actual.to_multiset());
    }
    true
}

proof fn lemma_count_take(lines: Seq<Seq<char>>, n: int, line: Seq<char>)
    requires
        0 <= n <= lines.len(),
    ensures
        lines.take(n).to_multiset().count(line) <= lines.to_multiset().count(line),
{
    vstd::seq_lib::lemma_multiset_commutative(lines.take(n), lines.skip(n));
    assert(lines.take(n) + lines.skip(n) =~= lines);
}

/// Tables are the same only if they have equally many lines, and each line as often as the other;
/// the borders and the header have to stand where they are, and only the rows between them may
/// change places.
pub proof fn law_same_table_line_by_line(
    expected: Seq<Seq<char>>,
    actual: Seq<Seq<char>>,
    line: Seq<char>,
)
    requires
        same_table(expected, actual),
    ensures
        expected.len() == actual.len(),
        expected.to_multiset().count(line) == actual.to_multiset().count(line),
        expected.len() > 0 ==> expected[0] == actual[0] && expected.last() == actual.last(),
        expected.len() > 1 ==> expected[1] == actual[1],
        expected.len() <= 3 ==> expected == actual,
{
    let n = expected.len() as int;
    if n > 3 && actual.len() == n {
        let a = expected.subrange(2, n - 1);
        let b = actual.subrange(2, n - 1);
        assert(expected =~= seq![expected[0], expected[1]] + a + seq![expected[n - 1]]);
        assert(actual =~= seq![actual[0], actual[1]] + b + seq![actual[n - 1]]);
        let top = seq![expected[0], expected[1]];
        let end = seq![expected[n - 1]];
        vstd::seq_lib::lemma_multiset_commutative(top, a);
        vstd::seq_lib::lemma_multiset_commutative(top, b);
        vstd::seq_lib::lemma_multiset_commutative(top + a, end);
        vstd::seq_lib::lemma_multiset_commutative(top + b, end);
    }
}

/// A table is the same as itself with its rows in any other order: whatever is between the header
/// and the bottom border may be permuted, and nothing else.
pub proof fn law_rows_may_change_places(
    expected: Seq<Seq<char>>,
    actual: Seq<Seq<char>>,
    i: int,
    j: int,
)
    requires
        expected.len() == actual.len(),
        2 <= i < expected.len() - 1,
        2 <= j < expected.len() - 1,
        actual == expected.update(i, expected[j]).update(j, expected[i]),
    ensures
        same_table(expected, actual),
        same_table(expected, expected),
        same_table(actual, expected),
{
    let n = expected.len() as int;
    let a = expected.subrange(2, n - 1);
    let b = actual.subrange(2, n - 1);
    if n > 3 {
        assert(b =~= a.update(i - 2, a[j - 2]).update(j - 2, a[i - 2]));
        a.to_multiset_ensures();
        let c = a.update(i - 2, a[j - 2]);
        c.to_multiset_ensures();
        broadcast use vstd::seq_lib::group_to_multiset_ensures;

        vstd::seq_lib::to_multiset_update(a, i - 2, a[j - 2]);
        vstd::seq_lib::to_multiset_update(c, j - 2, a[i - 2]);
        assert(b.to_multiset() =~= a.to_multiset());
    }
}

/// Tables are the same if they have the same lines above and below, and the rows between them
/// each as often.
pub proof fn law_same_table_if(expected: Seq<Seq<char>>, actual: Seq<Seq<char>>)
    requires
        expected.len() == actual.len(),
        expected.len() > 3,
        expected[0] == actual[0],
        expected[1] == actual[1],
        expected.last() == actual.last(),
        expected.subrange(2, expected.len() - 1).to_multiset() == actual.subrange(
            2,
            actual.len() - 1,
        ).to_multiset(),
    ensures
        same_table(expected, actual),
{
}

/// Any table is the same as itself, and if one is the same as another, the other is the same as
/// it.
pub proof fn law_same_table_both_ways(expected: Seq<Seq<char>>, actual: Seq<Seq<char>>)
    ensures
        same_table(expected, expected),
        same_table(expected, actual) <==> same_table(actual, expected),
        expected == actual ==> same_table(expected, actual),
{
}

/// A query fails as expected only if it fails, and with the very message somewhere in its words.
pub proof fn law_failed_as_expected(outcome: Result<(), String>, expected_error: Seq<char>)
    ensures
        failed_as_expected(outcome, expected_error) <==> {
            &&& outcome is Err
            &&& exists|i: int|
                {
                    &&& 0 <= i <= outcome->Err_0@.len() - expected_error.len()
                    &&& #[trigger] outcome->Err_0@.subrange(i, i + expected_error.len())
                        == expected_error
                }
        },
{
}

/// Whether a query gave the expected table.
pub fn batches_sorted_eq(expected: &[String], actual: &[String]) -> (same: bool)
    ensures
        same == same_table(texts(expected@), texts(actual@)),
{
    let n = expected.len();
    if actual.len() != n {
        return false;
    }
    proof {
        assert(texts(expected@).subrange(0, n as int) =~= texts(expected@));
        assert(texts(actual@).subrange(0, n as int) =~= texts(actual@));
    }
    if n <= 3 {
        return same_lines(expected, actual, 0, n);
    }
    let same = same_text(expected[0].as_str(), actual[0].as_str()) && same_text(
        expected[1].as_str(),
        actual[1].as_str(),
    ) && same_text(expected[n - 1].as_str(), actual[n - 1].as_str());
    same && same_lines_in_any_order(expected, actual, 2, n - 1)
}

/// Runs a case over the tables that a query gave in one scenario after another: the first
/// scenario in which it is not the expected one, if any.
pub fn run_sql_test_case(expected_lines: &[String], results: &[Vec<String>]) -> (failed: Option<
    usize,
>)
    ensures
        match failed {
            Some(i) => {
                &&& i < results@.len()
                &&& !same_table(texts(expected_lines@), texts(results@[i as int]@))
                &&& forall|k: int|
                    0 <= k < i ==> same_table(
                        texts(expected_lines@),
                        texts((#[trigger] results@[k])@),
                    )
            },
            None => forall|k: int|
                0 <= k < results@.len() ==> same_table(
                    texts(expected_lines@),
                    texts((#[trigger] results@[k])@),
                ),
        },
{
    for i in 0..results.len()
        invariant
            forall|k: int|
                0 <= k < i ==> same_table(
                    texts(expected_lines@),
                    texts((#[trigger] results@[k])@),
                ),
    {
        if !batches_sorted_eq(expected_lines, results[i].as_slice()) {
            return Some(i);
        }
    }
    None
}

/// The query failed, and with the expected message in its error.
pub open spec fn failed_as_expected(
    outcome: Result<(), String>,
    expected_error: Seq<char>,
) -> bool {
    outcome matches Err(error) && has_part(error@, expected_error)
}

/// Runs a case over what came of a query in one scenario after another: the first scenario in
/// which it did not fail as expected, if any.
pub fn run_sql_error_test_case(expected_error: &str, outcomes: &[Result<(), String>]) -> (failed:
    Option<usize>)
    ensures
        match failed {
            Some(i) => {
                &&& i < outcomes@.len()
                &&& !failed_as_expected(outcomes@[i as int], expected_error@)
                &&& forall|k: int|
                    0 <= k < i ==> failed_as_expected(#[trigger] outcomes@[k], expected_error@)
            },
            None => forall|k: int|
                0 <= k < outcomes@.len() ==> failed_as_expected(
                    #[trigger] outcomes@[k],
                    expected_error@,
                ),
        },
{
    for i in 0..outcomes.len()
        invariant
            forall|k: int|
                0 <= k < i ==> failed_as_expected(#[trigger] outcomes@[k], expected_error@),
    {
        let as_expected = match &outcomes[i] {
            Ok(_) => false,
            Err(error) => contains(error.as_str(), expected_error),
        };
        if !as_expected {
            return Some(i);
        }
    }
    None
}

} // verus!
