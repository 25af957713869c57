//! How much memory columns take, in bytes, as far as a `usize` counts.

use crate::column::{Column, ColumnData};
use vstd::prelude::*;

verus! {

use crate::column::{ColumnView, DataView, texts};

/// The number, or the largest `usize` where it is greater.
pub open spec fn capped(n: nat) -> usize {
    if n > usize::MAX {
        usize::MAX
    } else {
        n as usize
    }
}

/// The bytes that strings take.
pub open spec fn texts_size(texts: Seq<Seq<char>>) -> nat
    decreases texts.len(),
{
    if texts.len() == 0 {
        0
    } else {
        texts_size(texts.drop_last()) + vstd::layout::size_of::<String>()
            + vstd::utf8::encode_utf8(texts.last()).len()
    }
}

/// The bytes that the values of a column take.
pub open spec fn data_size(data: DataView) -> nat {
    match data {
        DataView::F64(v) => 8 * v.len(),
        DataView::I64(v) => 8 * v.len(),
        DataView::U64(v) => 8 * v.len(),
        DataView::Text(v) => texts_size(v),
        DataView::Bool(v) => v.len(),
    }
}

/// The bytes that a column takes.
pub open spec fn column_size(column: ColumnView) -> nat {
    vstd::layout::size_of::<Column>() + column.valid.len() + data_size(column.data)
}

/// A column takes its own bytes, one more for each row, and those of its values: eight for each
/// number, one for each truth value, and for each text those of a string and of what is in it.
pub proof fn law_column_size(column: ColumnView)
    ensures
        column_size(column) == vstd::layout::size_of::<Column>() + column.valid.len()
            + match column.data {
            DataView::F64(v) => 8 * v.len(),
            DataView::I64(v) => 8 * v.len(),
            DataView::U64(v) => 8 * v.len(),
            DataView::Text(v) => texts_size(v),
            DataView::Bool(v) => v.len(),
        },
{
}

/// The bytes of texts add up, and what is too much to count is as much as can be counted.
pub proof fn law_texts_size_adds_up(texts: Seq<Seq<char>>, text: Seq<char>, n: nat)
    ensures
        texts_size(Seq::empty()) == 0,
        texts_size(texts.push(text)) == texts_size(texts) + vstd::layout::size_of::<String>()
            + vstd::utf8::encode_utf8(text).len(),
        n <= usize::MAX ==> capped(n) == n,
        n > usize::MAX ==> capped(n) == usize::MAX,
{
    assert(texts.push(text).drop_last() =~= texts);
}

/// The number of bytes that the string has room for.
///
/// Trusted: `String::capacity` is never less than the length of the text in bytes, and never more
/// than `isize::MAX`, beyond which nothing is allocated. What it is between the two depends on the
/// allocations made, and is left open.
#[verifier::external_body]
pub(crate) fn capacity(text: &String) -> (bytes: usize)
    ensures
        bytes >= vstd::utf8::encode_utf8(text@).len(),
        bytes <= isize::MAX,
{
    text.capacity()
}

/// The bytes that `n` numbers take.
fn numbers_size(n: usize) -> (size: usize)
    ensures
        size == capped((8 * n) as nat),
{
    match n.checked_mul(8) {
        Some(size) => size,
        None => usize::MAX,
    }
}

/// The bytes that strings take.
fn strings_size(strings: &Vec<String>) -> (size: usize)
    ensures
        size == capped(texts_size(texts(strings@))),
{
    let mut size: usize = 0;
    for i in 0..strings.len()
        invariant
            size == capped(texts_size(texts(strings@).take(i as int))),
    {
        let ghost all = texts(strings@);
        assert(all.take(i + 1).drop_last() =~= all.take(i as int));
        let bytes = strings[i].as_str().as_bytes().len();
        size = size.saturating_add(std::mem::size_of::<String>()).saturating_add(bytes);
    }
    assert(texts(strings@).take(strings@.len() as int) =~= texts(strings@));
    size
}

impl Column {
    /// The bytes that the column takes, itself included.
    pub fn size(&self) -> (size: usize)
        ensures
            size == capped(column_size(self@)),
    {
        let data = match self.data() {
            ColumnData::F64(v) => numbers_size(v.len()),
            ColumnData::I64(v) => numbers_size(v.len()),
            ColumnData::U64(v) => numbers_size(v.len()),
            ColumnData::Text(v) => strings_size(v),
            ColumnData::Bool(v) => v.len(),
        };
        std::mem::size_of::<Column>().saturating_add(self.len()).saturating_add(data)
    }
}

} // verus!
