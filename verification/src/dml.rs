//! Writes and deletes, as they go through the write buffer.

use crate::mutable_batch::MutableBatch;
use vstd::prelude::*;

verus! {

/// A text that is not empty.
#[derive(Debug)]
pub struct NonEmptyString {
    text: String,
}

impl View for NonEmptyString {
    type V = Seq<char>;

    closed spec fn view(&self) -> Seq<char> {
        self.text@
    }
}

impl NonEmptyString {
    /// The text is not empty.
    pub open spec fn wf(&self) -> bool {
        self@.len() > 0
    }

    /// The text, unless it is empty.
    pub fn new(text: String) -> (result: Option<Self>)
        ensures
            result is Some <==> text@.len() > 0,
            result matches Some(s) ==> s.wf() && s@ == text@,
    {
        if text.as_str().unicode_len() == 0 {
            None
        } else {
            Some(NonEmptyString { text })
        }
    }

    /// The text.
    pub fn as_str(&self) -> (text: &str)
        ensures
            text@ == self@,
    {
        self.text.as_str()
    }
}

/// A place in the order of the messages of a sequencer.
#[derive(Debug, Clone, Copy, PartialEq, Eq, Structural)]
pub struct Sequence {
    pub sequencer_id: u32,
    pub sequence_number: u64,
}

/// What is known of the message that an operation came in. `C` is the position of the work in a
/// trace.
#[derive(Debug)]
pub struct DmlMeta<C> {
    pub sequence: Option<Sequence>,
    /// When the message was produced, in nanoseconds since the epoch.
    pub producer_ts: Option<i64>,
    pub span_context: Option<C>,
    pub bytes_read: Option<usize>,
}

impl<C> DmlMeta<C> {
    /// What is known of a message that has a place in an order.
    pub fn sequenced(
        sequence: Sequence,
        producer_ts: i64,
        span_context: Option<C>,
        bytes_read: usize,
    ) -> (meta: Self)
        ensures
            meta == (DmlMeta {
                sequence: Some(sequence),
                producer_ts: Some(producer_ts),
                span_context,
                bytes_read: Some(bytes_read),
            }),
    {
        DmlMeta {
            sequence: Some(sequence),
            producer_ts: Some(producer_ts),
            span_context,
            bytes_read: Some(bytes_read),
        }
    }
}

/// Rows to be written to the tables of a namespace.
#[derive(Debug)]
pub struct DmlWrite<C> {
    pub namespace: String,
    /// The rows of each table, by its name.
    pub tables: Vec<(String, MutableBatch)>,
    pub meta: DmlMeta<C>,
}

/// Rows to be deleted from a table of a namespace, or from all of them: those that the predicate
/// holds of.
#[derive(Debug)]
pub struct DmlDelete<P, C> {
    pub namespace: String,
    pub predicate: P,
    pub table_name: Option<NonEmptyString>,
    pub meta: DmlMeta<C>,
}

/// A write or a delete.
#[derive(Debug)]
pub enum DmlOperation<P, C> {
    Write(DmlWrite<C>),
    Delete(DmlDelete<P, C>),
}

} // verus!
