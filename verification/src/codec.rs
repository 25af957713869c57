//! The headers and payloads of write buffer messages.

use crate::dml::{DmlDelete, DmlMeta, DmlOperation, DmlWrite, NonEmptyString, Sequence};
use crate::field_violation::FieldViolation;
use crate::mutable_batch::MutableBatch;
use crate::text::{eq_ignore_ascii_case, joined, same_text, utf8_text};
use vstd::prelude::*;

verus! {

use crate::batch_view::BatchView;
use crate::text::{ascii_lower, ascii_lowered, utf8_error_text};

/// Pbdata based content type.
pub const CONTENT_TYPE_PROTOBUF: &'static str =
    "application/x-protobuf; schema=\"influxdata.iox.write_buffer.v1.WriteBufferPayload\"";

/// Message header that determines message content type.
pub const HEADER_CONTENT_TYPE: &'static str = "content-type";

/// Message header for tracing context.
pub const HEADER_TRACE_CONTEXT: &'static str = "uber-trace-id";

/// Message header for namespace.
pub const HEADER_NAMESPACE: &'static str = "iox-namespace";

/// The format of a message payload.
#[derive(Debug, Copy, Clone, Eq, PartialEq, Structural)]
pub enum ContentType {
    Protobuf,
}

/// Why a message could not be decoded.
#[derive(Debug, PartialEq, Eq)]
pub enum WriteBufferError {
    /// The reason in words.
    Message(String),
    /// A field of the payload is not as it should be.
    Field(FieldViolation),
}

/// The error says so in words.
pub open spec fn says(error: WriteBufferError, message: Seq<char>) -> bool {
    error matches WriteBufferError::Message(m) && m@ == message
}

/// An error that says so has these words and no others.
pub proof fn law_says(error: WriteBufferError, message: Seq<char>)
    ensures
        says(error, message) <==> (error is Message && error->Message_0@ == message),
{
}

/// IOx-specific headers attached to every write buffer message. `C` is the position of the work
/// in a trace.
#[derive(Debug)]
pub struct IoxHeaders<C> {
    content_type: ContentType,
    span_context: Option<C>,
    namespace: String,
}

/// What the headers of a message say.
pub struct HeadersView<C> {
    pub content_type: ContentType,
    pub span_context: Option<C>,
    pub namespace: Seq<char>,
}

impl<C> View for IoxHeaders<C> {
    type V = HeadersView<C>;

    closed spec fn view(&self) -> HeadersView<C> {
        HeadersView {
            content_type: self.content_type,
            span_context: self.span_context,
            namespace: self.namespace@,
        }
    }
}

/// What has been read of the headers of a message so far.
pub struct HeadersRead<C> {
    pub content_type: Option<ContentType>,
    pub span_context: Option<C>,
    pub namespace: Option<Seq<char>>,
}

/// A header, as its name and its value.
pub type RawHeader = (Seq<char>, Seq<u8>);

/// What a parser makes of the value of a trace header: a context or none, or an error in words.
pub type ParsedContext<C> = Result<Option<C>, String>;

/// The name of a header is `wanted`, but for the case of ASCII letters.
pub open spec fn is_header(name: Seq<char>, wanted: &str) -> bool {
    ascii_lowered(name) == ascii_lowered(wanted@)
}

/// The byte may stand in the value of an HTTP header: a tab, or anything from the space on but
/// for the delete character.
pub open spec fn is_header_value_byte(b: u8) -> bool {
    b >= 32 && b != 127 || b == 9
}

/// The bytes may be the value of an HTTP header.
pub open spec fn is_header_value(value: Seq<u8>) -> bool {
    forall|i: int| 0 <= i < value.len() ==> is_header_value_byte(#[trigger] value[i])
}

/// What one more header makes of what has been read; an error is a message. `parsed` is what the
/// parser makes of its value, if it is asked to: it is if the work is traced and the header is
/// that of a trace, with a value that a header can have.
pub open spec fn with_header<C>(
    read: HeadersRead<C>,
    header: RawHeader,
    traced: bool,
    parsed: ParsedContext<C>,
) -> Result<HeadersRead<C>, Seq<char>> {
    let (name, value) = header;
    if is_header(name, HEADER_CONTENT_TYPE) {
        if !vstd::utf8::valid_utf8(value) {
            Err("Error decoding content type header: "@ + utf8_error_text(value))
        } else if vstd::utf8::decode_utf8(value) != CONTENT_TYPE_PROTOBUF@ {
            Err("Unknown message format: "@ + vstd::utf8::decode_utf8(value))
        } else {
            Ok(HeadersRead { content_type: Some(ContentType::Protobuf), ..read })
        }
    } else if is_header(name, HEADER_TRACE_CONTEXT) {
        if !traced || !is_header_value(value) {
            Ok(read)
        } else {
            match parsed {
                Ok(span_context) => Ok(HeadersRead { span_context, ..read }),
                Err(e) => Err("Error decoding trace context: "@ + e@),
            }
        }
    } else if is_header(name, HEADER_NAMESPACE) {
        if !vstd::utf8::valid_utf8(value) {
            Err("Error decoding namespace header: "@ + utf8_error_text(value))
        } else {
            Ok(HeadersRead { namespace: Some(vstd::utf8::decode_utf8(value)), ..read })
        }
    } else {
        Ok(read)
    }
}

/// What the headers say, read one after another; the first header that is in error ends it.
/// `parsed` has a place for each header.
pub open spec fn headers_read<C>(
    headers: Seq<RawHeader>,
    traced: bool,
    parsed: Seq<ParsedContext<C>>,
) -> Result<HeadersRead<C>, Seq<char>>
    decreases headers.len(),
{
    if headers.len() == 0 {
        Ok(HeadersRead { content_type: None, span_context: None, namespace: None })
    } else {
        match headers_read(headers.drop_last(), traced, parsed) {
            Ok(read) => with_header(read, headers.last(), traced, parsed[headers.len() - 1]),
            Err(message) => Err(message),
        }
    }
}

/// The headers of a message from its raw headers. The content type has to be given; the
/// namespace is empty if it is not.
pub open spec fn decoded_headers<C>(
    headers: Seq<RawHeader>,
    traced: bool,
    parsed: Seq<ParsedContext<C>>,
) -> Result<HeadersView<C>, Seq<char>> {
    match headers_read(headers, traced, parsed) {
        Err(message) => Err(message),
        Ok(read) => match read.content_type {
            None => Err("No content type header"@),
            Some(content_type) => Ok(
                HeadersView {
                    content_type,
                    span_context: read.span_context,
                    namespace: match read.namespace {
                        Some(namespace) => namespace,
                        None => Seq::empty(),
                    },
                },
            ),
        },
    }
}

/// The parser made this of a value.
pub open spec fn is_outcome<C, F>(parse: F, value: Seq<u8>, outcome: ParsedContext<C>) -> bool where
    F: Fn(&[u8]) -> ParsedContext<C>,
 {
    exists|bytes: &[u8]| bytes@ == value && #[trigger] parse.ensures((bytes,), outcome)
}

/// The parser made this of the trace headers, each that came before any error.
pub open spec fn are_outcomes<C, F>(
    parse: F,
    headers: Seq<RawHeader>,
    parsed: Seq<ParsedContext<C>>,
) -> bool where F: Fn(&[u8]) -> ParsedContext<C> {
    forall|i: int|
        0 <= i < headers.len() && headers_read(headers.take(i), true, parsed) is Ok && is_header(
            (#[trigger] headers[i]).0,
            HEADER_TRACE_CONTEXT,
        ) && is_header_value(headers[i].1) ==> is_outcome(parse, headers[i].1, parsed[i])
}

/// Raw headers, as the names and values they hold.
pub open spec fn raw_headers(headers: Seq<(String, Vec<u8>)>) -> Seq<RawHeader> {
    headers.map_values(|h: (String, Vec<u8>)| (h.0@, h.1@))
}

/// Raw headers stand for their names and values, byte by byte and in their order.
pub proof fn law_raw_headers(headers: Seq<(String, Vec<u8>)>, i: int)
    requires
        0 <= i < headers.len(),
    ensures
        raw_headers(headers).len() == headers.len(),
        raw_headers(headers)[i].0 == headers[i].0@,
        raw_headers(headers)[i].1 == headers[i].1@,
{
}

/// The parser is asked about the very bytes of a trace header, and what it made of them is what
/// counts.
pub proof fn law_parser_is_asked<C, F>(
    parse: F,
    headers: Seq<RawHeader>,
    parsed: Seq<ParsedContext<C>>,
    i: int,
) where F: Fn(&[u8]) -> ParsedContext<C>
    requires
        are_outcomes(parse, headers, parsed),
        0 <= i < headers.len(),
        headers_read(headers.take(i), true, parsed) is Ok,
        is_header(headers[i].0, HEADER_TRACE_CONTEXT),
        is_header_value(headers[i].1),
    ensures
        exists|bytes: &[u8]| bytes@ == headers[i].1 && #[trigger] parse.ensures((bytes,), parsed[i]),
{
    assert(is_outcome(parse, headers[i].1, parsed[i]));
}

/// The bytes as the value of an HTTP header, if they can be one.
///
/// Trusted: this is `http::HeaderValue::from_bytes`, which takes the bytes as they are if each of
/// them may stand in a header value, and otherwise gives an error.
#[verifier::external_body]
fn header_value(value: &[u8]) -> (bytes: Option<Vec<u8>>)
    ensures
        bytes is Some <==> is_header_value(value@),
        bytes matches Some(b) ==> b@ == value@,
{
    match http::HeaderValue::from_bytes(value) {
        Ok(value) => Some(value.as_bytes().to_vec()),
        Err(_) => None,
    }
}

/// What the parser makes of a header, if it is asked to.
fn parsed_context<C, F>(parse: &Option<F>, name: &str, value: &[u8]) -> (outcome: Option<
    ParsedContext<C>,
>) where F: Fn(&[u8]) -> ParsedContext<C>
    requires
        *parse matches Some(p) ==> forall|bytes: &[u8]| p.requires((bytes,)),
    ensures
        outcome is Some <==> {
            &&& *parse is Some
            &&& is_header(name@, HEADER_TRACE_CONTEXT)
            &&& is_header_value(value@)
        },
        outcome matches Some(o) ==> is_outcome(parse->0, value@, o),
{
    match parse {
        Some(parse) => {
            if eq_ignore_ascii_case(name, HEADER_TRACE_CONTEXT) {
                match header_value(value) {
                    Some(value) => Some(parse(value.as_slice())),
                    None => None,
                }
            } else {
                None
            }
        },
        None => None,
    }
}

impl<C> IoxHeaders<C> {
    /// Create new headers with given content type, span context and namespace.
    pub fn new(
        content_type: ContentType,
        span_context: Option<C>,
        namespace: String,
    ) -> (headers: Self)
        ensures
            headers@ == (HeadersView { content_type, span_context, namespace: namespace@ }),
    {
        IoxHeaders { content_type, span_context, namespace }
    }

    /// Creates a new IoxHeaders from raw headers. `parse` reads the value of a trace header; it
    /// is there if there is a collector for the spans of the trace, and otherwise such headers
    /// are passed over.
    pub fn from_headers<F>(headers: &[(String, Vec<u8>)], parse: Option<F>) -> (result: Result<
        Self,
        WriteBufferError,
    >) where F: Fn(&[u8]) -> ParsedContext<C>
        requires
            parse matches Some(p) ==> forall|bytes: &[u8]| p.requires((bytes,)),
        ensures
            exists|parsed: Seq<ParsedContext<C>>|
                {
                    &&& parse matches Some(p) ==> are_outcomes(p, raw_headers(headers@), parsed)
                    &&& match (
                        result,
                        #[trigger] decoded_headers(raw_headers(headers@), parse is Some, parsed),
                    ) {
                        (Ok(headers), Ok(view)) => headers@ == view,
                        (Err(error), Err(message)) => says(error, message),
                        _ => false,
                    }
                },
    {
        let mut span_context: Option<C> = None;
        let mut content_type: Option<ContentType> = None;
        let mut namespace: Option<String> = None;
        let ghost raw = raw_headers(headers@);
        let ghost traced = parse is Some;
        let ghost mut parsed: Seq<ParsedContext<C>> = Seq::empty();

        for i in 0..headers.len()
            invariant
                parse matches Some(p) ==> forall|bytes: &[u8]| p.requires((bytes,)),
                raw == raw_headers(headers@),
                traced == parse is Some,
                parsed.len() == i,
                parse matches Some(p) ==> are_outcomes(p, raw.take(i as int), parsed),
                headers_read(raw.take(i as int), traced, parsed) == Ok::<
                    HeadersRead<C>,
                    Seq<char>,
                >(
                    HeadersRead {
                        content_type,
                        span_context,
                        namespace: match namespace {
                            Some(namespace) => Some(namespace@),
                            None => None,
                        },
                    },
                ),
        {
            let name = headers[i].0.as_str();
            let value = headers[i].1.as_slice();
            let outcome = parsed_context(&parse, name, value);
            proof {
                let last = outcome->0;
                lemma_headers_distinct();
                lemma_headers_read_prefix(raw.take(i as int), traced, parsed, parsed.push(last));
                if parse is Some {
                    lemma_outcomes_next(parse->0, raw, i as int, parsed, last);
                }
                parsed = parsed.push(last);
                lemma_headers_read_next(raw, i as int, traced, parsed);
                if headers_read(raw.take(i + 1), traced, parsed) is Err {
                    assert(decoded_headers(raw, traced, parsed) is Err);
                }
            }

            if eq_ignore_ascii_case(name, HEADER_CONTENT_TYPE) {
                match utf8_text(value) {
                    Ok(text) => {
                        if same_text(text, CONTENT_TYPE_PROTOBUF) {
                            content_type = Some(ContentType::Protobuf);
                        } else {
                            let message = joined("Unknown message format: ", text);
                            return Err(WriteBufferError::Message(message));
                        }
                    },
                    Err(e) => {
                        let message = joined("Error decoding content type header: ", e.as_str());
                        return Err(WriteBufferError::Message(message));
                    },
                }
            }
            if let Some(outcome) = outcome {
                match outcome {
                    Ok(ctx) => {
                        span_context = ctx;
                    },
                    Err(e) => {
                        let message = joined("Error decoding trace context: ", e.as_str());
                        return Err(WriteBufferError::Message(message));
                    },
                }
            }
            if eq_ignore_ascii_case(name, HEADER_NAMESPACE) {
                match utf8_text(value) {
                    Ok(text) => {
                        namespace = Some(text.to_owned());
                    },
                    Err(e) => {
                        let message = joined("Error decoding namespace header: ", e.as_str());
                        return Err(WriteBufferError::Message(message));
                    },
                }
            }
        }
        assert(raw.take(raw.len() as int) =~= raw);
        assert(decoded_headers(raw, traced, parsed) is Ok <==> content_type is Some);

        match content_type {
            None => Err(WriteBufferError::Message("No content type header".to_owned())),
            Some(content_type) => Ok(
                IoxHeaders {
                    content_type,
                    span_context,
                    namespace: match namespace {
                        Some(namespace) => namespace,
                        None => String::new(),
                    },
                },
            ),
        }
    }

    /// Gets the content type.
    pub fn content_type(&self) -> (content_type: ContentType)
        ensures
            content_type == self@.content_type,
    {
        self.content_type
    }

    /// Gets the span context if any.
    pub fn span_context(&self) -> (span_context: Option<&C>)
        ensures
            match (span_context, self@.span_context) {
                (Some(ctx), Some(expected)) => *ctx == expected,
                (None, None) => true,
                _ => false,
            },
    {
        self.span_context.as_ref()
    }

    /// Gets the namespace.
    pub fn namespace(&self) -> (namespace: &str)
        ensures
            namespace@ == self@.namespace,
    {
        self.namespace.as_str()
    }

    /// Returns the headers to encode. `format` writes the span context.
    pub fn headers<F>(&self, format: F) -> (headers: Vec<(&str, String)>) where
        F: Fn(&C) -> String,

        requires
            self@.span_context matches Some(ctx) ==> format.requires((&ctx,)),
        ensures
            exists|text: String|
                {
                    &&& self@.span_context matches Some(ctx) ==> format.ensures((&ctx,), text)
                    &&& text_headers(headers@) == #[trigger] encoded_headers(self@, text@)
                    &&& self@.span_context is Some ==> headers@.len() == 3 && headers@[1].1@ == text@
                },
            headers@.len() == if self@.span_context is Some {
                3int
            } else {
                2int
            },
            headers@[0].0@ == "content-type"@,
            headers@[0].1@ == CONTENT_TYPE_PROTOBUF@,
            self@.span_context is Some ==> headers@[1].0@ == "uber-trace-id"@,
            headers@[headers@.len() - 1].0@ == "iox-namespace"@,
            headers@[headers@.len() - 1].1@ == self@.namespace,
    {
        let content_type = match self.content_type {
            ContentType::Protobuf => CONTENT_TYPE_PROTOBUF,
        };
        let mut headers: Vec<(&str, String)> = Vec::new();
        headers.push((HEADER_CONTENT_TYPE, content_type.to_owned()));
        let ghost mut written: String = arbitrary();
        if let Some(ctx) = &self.span_context {
            let text = format(ctx);
            proof {
                written = text;
            }
            headers.push((HEADER_TRACE_CONTEXT, text));
        }
        headers.push((HEADER_NAMESPACE, self.namespace.clone()));
        assert(text_headers(headers@) =~= encoded_headers(self@, written@));
        headers
    }
}

/// The payload of a message, its parts read one by one: the rows of a write by table, or the
/// predicate of a delete. What could not be read is an error instead.
#[derive(Debug)]
pub enum ReadPayload<P> {
    Write { tables: Result<Vec<(String, MutableBatch)>, String> },
    Delete { table_name: String, predicate: Option<Result<P, FieldViolation>> },
}

/// What an operation becomes when it is sent.
#[derive(Debug)]
pub enum SentPayload<'a, P, C> {
    Write { db_name: String, write: &'a DmlWrite<C> },
    Delete { db_name: String, table_name: String, predicate: &'a P },
}

/// The text of a table's name in a payload, which is empty if there is none.
pub open spec fn table_name_text(table_name: Option<NonEmptyString>) -> Seq<char> {
    match table_name {
        Some(table_name) => table_name@,
        None => Seq::empty(),
    }
}

/// The operation has the namespace of the headers and is known to have come as stated.
pub open spec fn is_from<C>(
    namespace: String,
    meta: DmlMeta<C>,
    headers: HeadersView<C>,
    sequence: Sequence,
    producer_ts: i64,
    bytes_read: usize,
) -> bool {
    &&& namespace@ == headers.namespace
    &&& meta == DmlMeta {
        sequence: Some(sequence),
        producer_ts: Some(producer_ts),
        span_context: headers.span_context,
        bytes_read: Some(bytes_read),
    }
}

/// The operation that a payload stands for, or why it stands for none. The payload itself may
/// not have been read, with the reason, or may have been empty.
pub open spec fn is_decoded<P, C>(
    payload: Result<Option<ReadPayload<P>>, String>,
    headers: HeadersView<C>,
    sequence: Sequence,
    producer_ts: i64,
    bytes_read: usize,
    result: Result<DmlOperation<P, C>, WriteBufferError>,
) -> bool {
    match payload {
        Err(e) => result matches Err(error) && says(
            error,
            "failed to decode WriteBufferPayload: "@ + e@,
        ),
        Ok(None) => result matches Err(error) && says(error, "no payload"@),
        Ok(Some(ReadPayload::Write { tables: Err(e) })) => result matches Err(error) && says(
            error,
            "failed to decode database batch: "@ + e@,
        ),
        Ok(Some(ReadPayload::Write { tables: Ok(tables) })) => {
            &&& result matches Ok(DmlOperation::Write(write))
            &&& is_from(write.namespace, write.meta, headers, sequence, producer_ts, bytes_read)
            &&& write.tables == tables
        },
        Ok(Some(ReadPayload::Delete { table_name, predicate: None })) => {
            &&& result matches Err(WriteBufferError::Field(FieldViolation::Required { field }))
            &&& field@ == "predicate"@
        },
        Ok(Some(ReadPayload::Delete { table_name, predicate: Some(Err(violation)) })) => result
            == Err::<DmlOperation<P, C>, WriteBufferError>(WriteBufferError::Field(violation)),
        Ok(Some(ReadPayload::Delete { table_name, predicate: Some(Ok(predicate)) })) => {
            &&& result matches Ok(DmlOperation::Delete(delete))
            &&& is_from(delete.namespace, delete.meta, headers, sequence, producer_ts, bytes_read)
            &&& delete.predicate == predicate
            &&& table_name_text(delete.table_name) == table_name@
            &&& delete.table_name matches Some(name) ==> name.wf()
        },
    }
}

/// The operation is what came of reading the payload from the data.
pub open spec fn is_decoded_from<P, C, R>(
    read: R,
    data: &[u8],
    headers: HeadersView<C>,
    sequence: Sequence,
    producer_ts: i64,
    bytes_read: usize,
    result: Result<DmlOperation<P, C>, WriteBufferError>,
) -> bool where R: Fn(&[u8]) -> Result<Option<ReadPayload<P>>, String> {
    exists|payload: Result<Option<ReadPayload<P>>, String>|
        {
            &&& read.ensures((data,), payload)
            &&& #[trigger] is_decoded(
                payload,
                headers,
                sequence,
                producer_ts,
                bytes_read,
                result,
            )
        }
}

/// Decode a message from its payload and its headers. `read` reads the payload.
pub fn decode<P, C, R>(
    data: &[u8],
    headers: IoxHeaders<C>,
    sequence: Sequence,
    producer_ts: i64,
    bytes_read: usize,
    read: R,
) -> (result: Result<DmlOperation<P, C>, WriteBufferError>) where
    R: Fn(&[u8]) -> Result<Option<ReadPayload<P>>, String>,

    requires
        read.requires((data,)),
    ensures
        is_decoded_from(read, data, headers@, sequence, producer_ts, bytes_read, result),
        match result {
            Ok(DmlOperation::Write(write)) => {
                &&& write.namespace@ == headers@.namespace
                &&& write.meta.sequence == Some(sequence)
                &&& write.meta.producer_ts == Some(producer_ts)
                &&& write.meta.span_context == headers@.span_context
                &&& write.meta.bytes_read == Some(bytes_read)
            },
            Ok(DmlOperation::Delete(delete)) => {
                &&& delete.namespace@ == headers@.namespace
                &&& delete.meta.sequence == Some(sequence)
                &&& delete.meta.producer_ts == Some(producer_ts)
                &&& delete.meta.span_context == headers@.span_context
                &&& delete.meta.bytes_read == Some(bytes_read)
            },
            Err(_) => true,
        },
        exists|payload: Result<Option<ReadPayload<P>>, String>| #[trigger]
            read.ensures((data,), payload) && match (payload, result) {
                (Err(e), Err(WriteBufferError::Message(m))) => m@
                    == "failed to decode WriteBufferPayload: "@ + e@,
                (Ok(None), Err(WriteBufferError::Message(m))) => m@ == "no payload"@,
                (
                    Ok(Some(ReadPayload::Write { tables: Err(e) })),
                    Err(WriteBufferError::Message(m)),
                ) => m@ == "failed to decode database batch: "@ + e@,
                (
                    Ok(Some(ReadPayload::Write { tables: Ok(tables) })),
                    Ok(DmlOperation::Write(write)),
                ) => write.tables == tables,
                (
                    Ok(Some(ReadPayload::Delete { predicate: None, .. })),
                    Err(WriteBufferError::Field(FieldViolation::Required { field })),
                ) => field@ == "predicate"@,
                (
                    Ok(Some(ReadPayload::Delete { predicate: Some(Err(violation)), .. })),
                    Err(WriteBufferError::Field(found)),
                ) => found == violation,
                (
                    Ok(Some(ReadPayload::Delete { table_name, predicate: Some(Ok(predicate)) })),
                    Ok(DmlOperation::Delete(delete)),
                ) => {
                    &&& delete.predicate == predicate
                    &&& delete.table_name is Some <==> table_name@.len() > 0
                    &&& delete.table_name matches Some(name) ==> name@ == table_name@
                },
                _ => false,
            },
{
    let payload = read(data);
    let ghost outcome = payload;
    let result = decode_payload(payload, headers, sequence, producer_ts, bytes_read);
    assert(read.ensures((data,), outcome));
    result
}

/// Decode a message from its payload, as far as that could be read, and its headers.
pub fn decode_payload<P, C>(
    payload: Result<Option<ReadPayload<P>>, String>,
    headers: IoxHeaders<C>,
    sequence: Sequence,
    producer_ts: i64,
    bytes_read: usize,
) -> (result: Result<DmlOperation<P, C>, WriteBufferError>)
    ensures
        is_decoded(payload, headers@, sequence, producer_ts, bytes_read, result),
        match (payload, result) {
            (Err(e), Err(WriteBufferError::Message(m))) => m@
                == "failed to decode WriteBufferPayload: "@ + e@,
            (Ok(None), Err(WriteBufferError::Message(m))) => m@ == "no payload"@,
            (
                Ok(Some(ReadPayload::Write { tables: Err(e) })),
                Err(WriteBufferError::Message(m)),
            ) => m@ == "failed to decode database batch: "@ + e@,
            (
                Ok(Some(ReadPayload::Write { tables: Ok(tables) })),
                Ok(DmlOperation::Write(write)),
            ) => {
                &&& write.tables == tables
                &&& write.namespace@ == headers@.namespace
                &&& write.meta.sequence == Some(sequence)
                &&& write.meta.producer_ts == Some(producer_ts)
                &&& write.meta.span_context == headers@.span_context
                &&& write.meta.bytes_read == Some(bytes_read)
            },
            (
                Ok(Some(ReadPayload::Delete { predicate: None, .. })),
                Err(WriteBufferError::Field(FieldViolation::Required { field })),
            ) => field@ == "predicate"@,
            (
                Ok(Some(ReadPayload::Delete { predicate: Some(Err(violation)), .. })),
                Err(WriteBufferError::Field(found)),
            ) => found == violation,
            (
                Ok(Some(ReadPayload::Delete { table_name, predicate: Some(Ok(predicate)) })),
                Ok(DmlOperation::Delete(delete)),
            ) => {
                &&& delete.predicate == predicate
                &&& delete.table_name is Some <==> table_name@.len() > 0
                &&& delete.table_name matches Some(name) ==> name@ == table_name@
                &&& delete.namespace@ == headers@.namespace
                &&& delete.meta.sequence == Some(sequence)
                &&& delete.meta.producer_ts == Some(producer_ts)
                &&& delete.meta.span_context == headers@.span_context
                &&& delete.meta.bytes_read == Some(bytes_read)
            },
            _ => false,
        },
{
    match headers.content_type {
        ContentType::Protobuf => {
            let meta = DmlMeta::sequenced(sequence, producer_ts, headers.span_context, bytes_read);
            let payload = match payload {
                Ok(payload) => payload,
                Err(e) => {
                    let message = joined("failed to decode WriteBufferPayload: ", e.as_str());
                    return Err(WriteBufferError::Message(message));
                },
            };
            match payload {
                None => Err(WriteBufferError::Message("no payload".to_owned())),
                Some(ReadPayload::Write { tables }) => match tables {
                    Ok(tables) => Ok(
                        DmlOperation::Write(
                            DmlWrite { namespace: headers.namespace, tables, meta },
                        ),
                    ),
                    Err(e) => {
                        let message = joined("failed to decode database batch: ", e.as_str());
                        Err(WriteBufferError::Message(message))
                    },
                },
                Some(ReadPayload::Delete { table_name, predicate }) => match predicate {
                    None => Err(WriteBufferError::Field(FieldViolation::required("predicate"))),
                    Some(Err(violation)) => Err(WriteBufferError::Field(violation)),
                    Some(Ok(predicate)) => {
                        let ghost text = table_name@;
                        let table_name = NonEmptyString::new(table_name);
                        assert(table_name is None ==> text =~= Seq::empty());
                        Ok(
                            DmlOperation::Delete(
                                DmlDelete {
                                    namespace: headers.namespace,
                                    predicate,
                                    table_name,
                                    meta,
                                },
                            ),
                        )
                    },
                },
            }
        },
    }
}

/// The payload is what the operation becomes when it is sent to the database.
pub open spec fn is_encoded<P, C>(
    db_name: Seq<char>,
    operation: DmlOperation<P, C>,
    payload: SentPayload<'_, P, C>,
) -> bool {
    match operation {
        DmlOperation::Write(write) => {
            &&& payload matches SentPayload::Write { db_name: name, write: sent }
            &&& name@ == db_name
            &&& *sent == write
        },
        DmlOperation::Delete(delete) => {
            &&& payload matches SentPayload::Delete { db_name: name, table_name, predicate }
            &&& name@ == db_name
            &&& table_name@ == table_name_text(delete.table_name)
            &&& *predicate == delete.predicate
        },
    }
}

/// What an operation becomes when it is sent has the name of the database, word for word, and of
/// a write its very rows, of a delete its very predicate and the name of its table, or no text if
/// it is on all tables.
pub proof fn law_sent_payload<P, C>(
    db_name: Seq<char>,
    operation: DmlOperation<P, C>,
    payload: SentPayload<'_, P, C>,
)
    requires
        is_encoded(db_name, operation, payload),
    ensures
        match (operation, payload) {
            (DmlOperation::Write(write), SentPayload::Write { db_name: name, write: sent }) => {
                &&& name@ == db_name
                &&& *sent == write
            },
            (
                DmlOperation::Delete(delete),
                SentPayload::Delete { db_name: name, table_name, predicate },
            ) => {
                &&& name@ == db_name
                &&& *predicate == delete.predicate
                &&& delete.table_name is None ==> table_name@.len() == 0
                &&& delete.table_name matches Some(text) ==> table_name@ == text@
            },
            _ => false,
        },
{
}

/// Two messages with the same payload and headers are told apart, once they are decoded, by when
/// they were produced, by their place in the order and by how much was read of them; and what the
/// operation does is the same whatever these are.
pub proof fn law_decoded_meta_is_what_was_given<P, C>(
    payload: Result<Option<ReadPayload<P>>, String>,
    headers: HeadersView<C>,
    sequence: Sequence,
    producer_ts: i64,
    bytes_read: usize,
    result: Result<DmlOperation<P, C>, WriteBufferError>,
    other_sequence: Sequence,
    other_ts: i64,
    other_read: usize,
    other: Result<DmlOperation<P, C>, WriteBufferError>,
)
    requires
        is_decoded(payload, headers, sequence, producer_ts, bytes_read, result),
        is_decoded(payload, headers, other_sequence, other_ts, other_read, other),
    ensures
        result is Ok <==> other is Ok,
        match (result, other) {
            (Ok(DmlOperation::Write(a)), Ok(DmlOperation::Write(b))) => {
                &&& a.meta.producer_ts == Some(producer_ts)
                &&& b.meta.producer_ts == Some(other_ts)
                &&& a.meta.sequence == Some(sequence)
                &&& b.meta.sequence == Some(other_sequence)
                &&& a.meta.bytes_read == Some(bytes_read)
                &&& b.meta.bytes_read == Some(other_read)
                &&& a.meta.span_context == headers.span_context
                &&& b.meta.span_context == headers.span_context
                &&& a.namespace@ == headers.namespace
                &&& b.namespace@ == headers.namespace
                &&& a.tables == b.tables
            },
            (Ok(DmlOperation::Delete(a)), Ok(DmlOperation::Delete(b))) => {
                &&& a.meta.producer_ts == Some(producer_ts)
                &&& b.meta.producer_ts == Some(other_ts)
                &&& a.meta.sequence == Some(sequence)
                &&& b.meta.sequence == Some(other_sequence)
                &&& a.meta.bytes_read == Some(bytes_read)
                &&& b.meta.bytes_read == Some(other_read)
                &&& a.meta.span_context == headers.span_context
                &&& b.meta.span_context == headers.span_context
                &&& a.namespace@ == headers.namespace
                &&& b.namespace@ == headers.namespace
                &&& a.predicate == b.predicate
                &&& a.table_name is Some <==> b.table_name is Some
                &&& a.table_name matches Some(name) ==> name@ == b.table_name->0@
            },
            (Err(_), Err(_)) => true,
            _ => false,
        },
{
}

/// What was written of the operation stands behind what the buffer held before; if it could not be
/// written, with the reason, the buffer is as it was.
pub open spec fn is_appended<P, C, W>(
    write: W,
    db_name: Seq<char>,
    operation: DmlOperation<P, C>,
    before: Seq<u8>,
    result: Result<(), WriteBufferError>,
    after: Seq<u8>,
) -> bool where W: Fn(SentPayload<'_, P, C>) -> Result<Vec<u8>, String> {
    exists|payload: SentPayload<'_, P, C>, written: Result<Vec<u8>, String>|
        {
            &&& #[trigger] is_encoded(db_name, operation, payload)
            &&& #[trigger] write.ensures((payload,), written)
            &&& match written {
                Ok(bytes) => {
                    &&& result is Ok
                    &&& after == before + bytes@
                },
                Err(e) => {
                    &&& result matches Err(error) && says(error, e@)
                    &&& after == before
                },
            }
        }
}

/// Encodes an operation as the payload of a message, behind what the buffer holds already.
/// `write` writes the payload.
pub fn encode_operation<P, C, W>(
    db_name: &str,
    operation: &DmlOperation<P, C>,
    buf: &mut Vec<u8>,
    write: W,
) -> (result: Result<(), WriteBufferError>) where
    W: Fn(SentPayload<'_, P, C>) -> Result<Vec<u8>, String>,

    requires
        forall|payload: SentPayload<'_, P, C>|
            is_encoded(db_name@, *operation, payload) ==> write.requires((payload,)),
    ensures
        is_appended(write, db_name@, *operation, old(buf)@, result, final(buf)@),
{
    match write(payload_of(db_name, operation)) {
        Ok(bytes) => {
            let mut bytes = bytes;
            buf.append(&mut bytes);
            Ok(())
        },
        Err(e) => Err(WriteBufferError::Message(e)),
    }
}

/// What an operation becomes when it is sent.
pub fn payload_of<'a, P, C>(db_name: &str, operation: &'a DmlOperation<P, C>) -> (payload:
    SentPayload<'a, P, C>)
    ensures
        is_encoded(db_name@, *operation, payload),
        match (*operation, payload) {
            (DmlOperation::Write(write), SentPayload::Write { db_name: name, write: sent }) => {
                &&& name@ == db_name@
                &&& *sent == write
            },
            (
                DmlOperation::Delete(delete),
                SentPayload::Delete { db_name: name, table_name, predicate },
            ) => {
                &&& name@ == db_name@
                &&& *predicate == delete.predicate
                &&& delete.table_name is None ==> table_name@.len() == 0
                &&& delete.table_name matches Some(text) ==> table_name@ == text@
            },
            _ => false,
        },
{
    match operation {
        DmlOperation::Write(write) => SentPayload::Write { db_name: db_name.to_owned(), write },
        DmlOperation::Delete(delete) => {
            let table_name = match &delete.table_name {
                Some(table_name) => table_name.as_str().to_owned(),
                None => String::new(),
            };
            SentPayload::Delete {
                db_name: db_name.to_owned(),
                table_name,
                predicate: &delete.predicate,
            }
        },
    }
}

/// Tables, as their names and the rows they hold.
pub open spec fn table_views(tables: Seq<(String, MutableBatch)>) -> Seq<(Seq<char>, BatchView)> {
    tables.map_values(|t: (String, MutableBatch)| (t.0@, t.1@))
}

/// The tables are the same, in whatever order.
pub open spec fn same_tables(
    tables: Seq<(String, MutableBatch)>,
    other: Seq<(String, MutableBatch)>,
) -> bool {
    table_views(tables).to_multiset() == table_views(other).to_multiset()
}

/// What is read of a payload is what was sent in it: the same tables, or the same table's name
/// and the same predicate.
pub open spec fn arrived<P, C>(sent: SentPayload<'_, P, C>, read: ReadPayload<P>) -> bool {
    match (sent, read) {
        (SentPayload::Write { write, .. }, ReadPayload::Write { tables }) => {
            tables matches Ok(tables) && same_tables(tables@, write.tables@)
        },
        (
            SentPayload::Delete { table_name: sent_name, predicate: sent_predicate, .. },
            ReadPayload::Delete { table_name, predicate },
        ) => {
            &&& table_name@ == sent_name@
            &&& predicate == Some(Ok::<P, FieldViolation>(*sent_predicate))
        },
        _ => false,
    }
}

/// What is written of a payload is read as it was sent.
pub open spec fn payloads_arrive<P, C, W, R>(write: W, read: R) -> bool where
    W: Fn(SentPayload<'_, P, C>) -> Result<Vec<u8>, String>,
    R: Fn(&[u8]) -> Result<Option<ReadPayload<P>>, String>,
 {
    forall|
        sent: SentPayload<'_, P, C>,
        written: Result<Vec<u8>, String>,
        data: &[u8],
        payload: Result<Option<ReadPayload<P>>, String>,
    |
        #[trigger] write.ensures((sent,), written) && #[trigger] read.ensures((data,), payload) && (
        written matches Ok(bytes) && data@ == bytes@) ==> (payload matches Ok(Some(payload))
            && arrived(sent, payload))
}

/// The operation that was encoded is what decoding gives back, where payloads are read as they
/// were sent: a write of the same tables, or a delete with the same predicate on the same table.
/// Its namespace is the one that the headers state, and what is known of its message is what the
/// headers and the caller state, whatever that was for the operation that was sent.
pub proof fn law_operation_roundtrip<P, C, W, R>(
    write: W,
    read: R,
    db_name: Seq<char>,
    operation: DmlOperation<P, C>,
    data: &[u8],
    headers: HeadersView<C>,
    sequence: Sequence,
    producer_ts: i64,
    bytes_read: usize,
    result: Result<DmlOperation<P, C>, WriteBufferError>,
) where
    W: Fn(SentPayload<'_, P, C>) -> Result<Vec<u8>, String>,
    R: Fn(&[u8]) -> Result<Option<ReadPayload<P>>, String>,

    requires
        operation matches DmlOperation::Delete(delete) ==> (delete.table_name matches Some(name)
            ==> name.wf()),
        payloads_arrive(write, read),
        is_appended(write, db_name, operation, Seq::empty(), Ok(()), data@),
        is_decoded_from(read, data, headers, sequence, producer_ts, bytes_read, result),
    ensures
        match (operation, result) {
            (DmlOperation::Write(write), Ok(DmlOperation::Write(decoded))) => {
                &&& is_from(
                    decoded.namespace,
                    decoded.meta,
                    headers,
                    sequence,
                    producer_ts,
                    bytes_read,
                )
                &&& decoded.namespace@ == headers.namespace
                &&& decoded.meta.sequence == Some(sequence)
                &&& decoded.meta.producer_ts == Some(producer_ts)
                &&& decoded.meta.span_context == headers.span_context
                &&& decoded.meta.bytes_read == Some(bytes_read)
                &&& same_tables(decoded.tables@, write.tables@)
            },
            (DmlOperation::Delete(delete), Ok(DmlOperation::Delete(decoded))) => {
                &&& is_from(
                    decoded.namespace,
                    decoded.meta,
                    headers,
                    sequence,
                    producer_ts,
                    bytes_read,
                )
                &&& decoded.namespace@ == headers.namespace
                &&& decoded.meta.sequence == Some(sequence)
                &&& decoded.meta.producer_ts == Some(producer_ts)
                &&& decoded.meta.span_context == headers.span_context
                &&& decoded.meta.bytes_read == Some(bytes_read)
                &&& decoded.predicate == delete.predicate
                &&& decoded.table_name is Some <==> delete.table_name is Some
                &&& table_name_text(decoded.table_name) == table_name_text(delete.table_name)
                &&& decoded.table_name matches Some(name) ==> name@ == delete.table_name->0@
            },
            _ => false,
        },
{
    let (sent, written) = choose|
        payload: SentPayload<'_, P, C>,
        written: Result<Vec<u8>, String>,
    |
        {
            &&& #[trigger] is_encoded(db_name, operation, payload)
            &&& #[trigger] write.ensures((payload,), written)
            &&& written matches Ok(bytes) && data@ == Seq::<u8>::empty() + bytes@
        };
    assert(data@ =~= written->Ok_0@);
    let payload = choose|payload: Result<Option<ReadPayload<P>>, String>|
        {
            &&& read.ensures((data,), payload)
            &&& #[trigger] is_decoded(
                payload,
                headers,
                sequence,
                producer_ts,
                bytes_read,
                result,
            )
        };
    assert(arrived(sent, payload->Ok_0->Some_0));
}

/// The bytes are all that is ever written of the operation.
pub open spec fn always_writes<P, C, W>(
    write: W,
    db_name: Seq<char>,
    operation: DmlOperation<P, C>,
    bytes: Seq<u8>,
) -> bool where W: Fn(SentPayload<'_, P, C>) -> Result<Vec<u8>, String> {
    forall|payload: SentPayload<'_, P, C>, written: Result<Vec<u8>, String>|
        #[trigger] is_encoded(db_name, operation, payload) && #[trigger] write.ensures(
            (payload,),
            written,
        ) ==> (written matches Ok(w) && w@ == bytes)
}

/// What comes of encoding is decided by the writer alone: what it has written stands behind what
/// the buffer held, and if it fails, its words are the error and the buffer is as it was.
pub proof fn law_encoding_is_what_was_written<P, C, W>(
    write: W,
    db_name: Seq<char>,
    operation: DmlOperation<P, C>,
    before: Seq<u8>,
    result: Result<(), WriteBufferError>,
    after: Seq<u8>,
) where W: Fn(SentPayload<'_, P, C>) -> Result<Vec<u8>, String>
    requires
        is_appended(write, db_name, operation, before, result, after),
    ensures
        exists|payload: SentPayload<'_, P, C>, written: Result<Vec<u8>, String>|
            {
                &&& #[trigger] is_encoded(db_name, operation, payload)
                &&& #[trigger] write.ensures((payload,), written)
                &&& match (written, result) {
                    (Ok(bytes), Ok(_)) => {
                        &&& after.len() == before.len() + bytes@.len()
                        &&& forall|i: int| 0 <= i < before.len() ==> #[trigger] after[i] == before[i]
                        &&& forall|i: int|
                            0 <= i < bytes@.len() ==> #[trigger] bytes@[i] == after[before.len()
                                + i]
                    },
                    (Err(e), Err(WriteBufferError::Message(m))) => m@ == e@ && after == before,
                    _ => false,
                }
            },
{
}

/// Encoding only appends: what the buffer held is kept, and what stands behind it is what is
/// written of the operation, whatever the buffer held.
pub proof fn law_encoding_only_appends<P, C, W>(
    write: W,
    db_name: Seq<char>,
    operation: DmlOperation<P, C>,
    bytes: Seq<u8>,
    before: Seq<u8>,
    result: Result<(), WriteBufferError>,
    after: Seq<u8>,
) where W: Fn(SentPayload<'_, P, C>) -> Result<Vec<u8>, String>
    requires
        always_writes(write, db_name, operation, bytes),
        is_appended(write, db_name, operation, before, result, after),
    ensures
        result is Ok,
        after == before + bytes,
{
}

/// The headers that carry what the headers of a message say, in the order in which they are sent.
/// `text` is that of the span context, if there is one.
pub open spec fn encoded_headers<C>(view: HeadersView<C>, text: Seq<char>) -> Seq<RawHeader> {
    let content_type = match view.content_type {
        ContentType::Protobuf => CONTENT_TYPE_PROTOBUF@,
    };
    let traced = match view.span_context {
        Some(_) => seq![(HEADER_TRACE_CONTEXT@, vstd::utf8::encode_utf8(text))],
        None => Seq::empty(),
    };
    seq![(HEADER_CONTENT_TYPE@, vstd::utf8::encode_utf8(content_type))] + traced + seq![
        (HEADER_NAMESPACE@, vstd::utf8::encode_utf8(view.namespace)),
    ]
}

/// Headers with values in words, as the names and the encoded values.
pub open spec fn text_headers(headers: Seq<(&str, String)>) -> Seq<RawHeader> {
    headers.map_values(|h: (&str, String)| (h.0@, vstd::utf8::encode_utf8(h.1@)))
}

/// The headers of a message are what the headers sent for it give back. The span context is what
/// the parser makes of the text that was written of it, so the same if the parser reads what was
/// written; it is none if there is no collector for its spans, or if the text is not the value of
/// a header. What the parser does not take is an error.
pub proof fn law_headers_roundtrip<C>(
    view: HeadersView<C>,
    text: Seq<char>,
    traced: bool,
    parsed: Seq<ParsedContext<C>>,
)
    ensures
        decoded_headers(encoded_headers(view, text), traced, parsed) == if traced
            && view.span_context is Some && is_header_value(vstd::utf8::encode_utf8(text)) {
            match parsed[1] {
                Ok(span_context) => Ok(HeadersView { span_context, ..view }),
                Err(e) => Err("Error decoding trace context: "@ + e@),
            }
        } else {
            Ok(HeadersView { span_context: None, ..view })
        },
{
    lemma_headers_distinct();
    vstd::utf8::encode_utf8_valid_utf8(CONTENT_TYPE_PROTOBUF@);
    vstd::utf8::encode_utf8_decode_utf8(CONTENT_TYPE_PROTOBUF@);
    vstd::utf8::encode_utf8_valid_utf8(view.namespace);
    vstd::utf8::encode_utf8_decode_utf8(view.namespace);
    let raw = encoded_headers(view, text);
    let n = raw.len() as int;
    assert(raw.take(0) =~= Seq::empty());
    lemma_headers_read_next(raw, 0, traced, parsed);
    if view.span_context is Some {
        lemma_headers_read_next(raw, 1, traced, parsed);
    }
    if headers_read(raw.take(n - 1), traced, parsed) is Ok {
        lemma_headers_read_next(raw, n - 1, traced, parsed);
    }
    assert(raw.take(n) =~= raw);
}

/// The parser makes of what was written of a context one that is linked to it.
pub open spec fn contexts_arrive<C, G, F>(
    format: G,
    parse: F,
    linked: spec_fn(C, C) -> bool,
) -> bool where G: Fn(&C) -> String, F: Fn(&[u8]) -> ParsedContext<C> {
    &&& forall|ctx: C, text: String| #[trigger]
        format.ensures((&ctx,), text) ==> is_header_value(vstd::utf8::encode_utf8(text@))
    &&& forall|ctx: C, text: String, bytes: &[u8], outcome: ParsedContext<C>|
        #[trigger] format.ensures((&ctx,), text) && #[trigger] parse.ensures((bytes,), outcome)
            && bytes@ == vstd::utf8::encode_utf8(text@) ==> (outcome matches Ok(Some(read))
            && linked(ctx, read))
}

/// The headers of a message are read as they were written, where contexts are: the content type
/// and the namespace are the same, and the span context is there if it was and if there is a
/// collector for its spans, and is then linked to the one that was written.
pub proof fn law_headers_are_read_as_written<C, G, F>(
    view: HeadersView<C>,
    format: G,
    text: String,
    parse: Option<F>,
    linked: spec_fn(C, C) -> bool,
    parsed: Seq<ParsedContext<C>>,
) where G: Fn(&C) -> String, F: Fn(&[u8]) -> ParsedContext<C>
    requires
        view.span_context matches Some(ctx) ==> format.ensures((&ctx,), text),
        parse matches Some(p) ==> {
            &&& contexts_arrive(format, p, linked)
            &&& are_outcomes(p, encoded_headers(view, text@), parsed)
        },
    ensures
        ({
            let result = decoded_headers(encoded_headers(view, text@), parse is Some, parsed);
            &&& result matches Ok(read)
            &&& read.content_type == view.content_type
            &&& read.namespace == view.namespace
            &&& read.span_context is Some <==> parse is Some && view.span_context is Some
            &&& read.span_context matches Some(ctx) ==> linked(view.span_context->0, ctx)
        }),
{
    let raw = encoded_headers(view, text@);
    law_headers_roundtrip(view, text@, parse is Some, parsed);
    if parse is Some && view.span_context is Some {
        lemma_headers_distinct();
        vstd::utf8::encode_utf8_valid_utf8(CONTENT_TYPE_PROTOBUF@);
        vstd::utf8::encode_utf8_decode_utf8(CONTENT_TYPE_PROTOBUF@);
        assert(raw.take(0) =~= Seq::empty());
        lemma_headers_read_next(raw, 0, true, parsed);
        assert(raw[1] == (HEADER_TRACE_CONTEXT@, vstd::utf8::encode_utf8(text@)));
        assert(is_outcome(parse->0, raw[1].1, parsed[1]));
    }
}

/// What headers say does not depend on the case of the letters in their names.
pub proof fn law_header_case<C>(
    headers: Seq<RawHeader>,
    other: Seq<RawHeader>,
    traced: bool,
    parsed: Seq<ParsedContext<C>>,
)
    requires
        same_but_for_case(headers, other),
    ensures
        decoded_headers(headers, traced, parsed) == decoded_headers(other, traced, parsed),
{
    lemma_header_case(headers, other, traced, parsed);
}

/// The headers are the same but for the case of the letters in their names.
pub open spec fn same_but_for_case(headers: Seq<RawHeader>, other: Seq<RawHeader>) -> bool {
    &&& headers.len() == other.len()
    &&& forall|i: int|
        0 <= i < headers.len() ==> {
            &&& ascii_lowered((#[trigger] headers[i]).0) == ascii_lowered(other[i].0)
            &&& headers[i].1 == other[i].1
        }
}

proof fn lemma_header_case<C>(
    headers: Seq<RawHeader>,
    other: Seq<RawHeader>,
    traced: bool,
    parsed: Seq<ParsedContext<C>>,
)
    requires
        same_but_for_case(headers, other),
    ensures
        headers_read(headers, traced, parsed) == headers_read(other, traced, parsed),
    decreases headers.len(),
{
    if headers.len() > 0 {
        lemma_header_case(headers.drop_last(), other.drop_last(), traced, parsed);
        assert(headers[headers.len() - 1] == headers.last());
    }
}

/// The name of a header is compared letter by letter: it is as long as the wanted one and differs
/// from it in the case of ASCII letters at most.
pub proof fn law_header_names(name: Seq<char>, wanted: &str)
    ensures
        is_header(name, wanted) <==> {
            &&& name.len() == wanted@.len()
            &&& forall|i: int|
                0 <= i < name.len() ==> {
                    ||| #[trigger] name[i] == wanted@[i]
                    ||| 'A' <= name[i] <= 'Z' && wanted@[i] as u32 == name[i] as u32 + 32
                    ||| 'A' <= wanted@[i] <= 'Z' && name[i] as u32 == wanted@[i] as u32 + 32
                }
        },
{
    let x = ascii_lowered(name);
    let y = ascii_lowered(wanted@);
    if is_header(name, wanted) {
        assert(x.len() == name.len() && y.len() == wanted@.len());
        assert forall|i: int| 0 <= i < name.len() implies {
            ||| #[trigger] name[i] == wanted@[i]
            ||| 'A' <= name[i] <= 'Z' && wanted@[i] as u32 == name[i] as u32 + 32
            ||| 'A' <= wanted@[i] <= 'Z' && name[i] as u32 == wanted@[i] as u32 + 32
        } by {
            assert(x[i] == y[i]);
            assert(ascii_lower(name[i]) == ascii_lower(wanted@[i]));
        }
    }
    if name.len() == wanted@.len() && forall|i: int|
        0 <= i < name.len() ==> {
            ||| #[trigger] name[i] == wanted@[i]
            ||| 'A' <= name[i] <= 'Z' && wanted@[i] as u32 == name[i] as u32 + 32
            ||| 'A' <= wanted@[i] <= 'Z' && name[i] as u32 == wanted@[i] as u32 + 32
        } {
        assert forall|i: int| 0 <= i < name.len() implies x[i] == y[i] by {
            assert(ascii_lower(name[i]) == ascii_lower(wanted@[i]));
        }
        assert(x =~= y);
    }
}

/// The header at this place says what it may: the content type is the one that is known, a
/// namespace is a text, and what the parser makes of a trace context, if it is asked to, is no
/// error.
spec fn is_sound<C>(
    headers: Seq<RawHeader>,
    traced: bool,
    parsed: Seq<ParsedContext<C>>,
    i: int,
) -> bool {
    &&& is_header(headers[i].0, HEADER_CONTENT_TYPE) ==> {
        &&& vstd::utf8::valid_utf8(headers[i].1)
        &&& vstd::utf8::decode_utf8(headers[i].1) == CONTENT_TYPE_PROTOBUF@
    }
    &&& is_header(headers[i].0, HEADER_NAMESPACE) ==> vstd::utf8::valid_utf8(headers[i].1)
    &&& is_header(headers[i].0, HEADER_TRACE_CONTEXT) && traced && is_header_value(headers[i].1)
        ==> parsed[i] is Ok
}

proof fn lemma_headers_sound<C>(
    headers: Seq<RawHeader>,
    traced: bool,
    parsed: Seq<ParsedContext<C>>,
)
    ensures
        headers_read(headers, traced, parsed) is Ok <==> forall|i: int|
            0 <= i < headers.len() ==> #[trigger] is_sound(headers, traced, parsed, i),
        headers_read(headers, traced, parsed) matches Ok(read) ==> {
            &&& read.content_type is Some <==> exists|i: int|
                0 <= i < headers.len() && is_header(
                    (#[trigger] headers[i]).0,
                    HEADER_CONTENT_TYPE,
                )
            &&& read.span_context is Some ==> traced
        },
    decreases headers.len(),
{
    lemma_headers_distinct();
    if headers.len() > 0 {
        let rest = headers.drop_last();
        let last = headers.len() - 1;
        lemma_headers_sound(rest, traced, parsed);
        assert(headers[last] == headers.last());
        assert forall|i: int| 0 <= i < rest.len() implies (#[trigger] is_sound(
            headers,
            traced,
            parsed,
            i,
        ) <==> is_sound(rest, traced, parsed, i)) by {
            assert(headers[i] == rest[i]);
        }
        if headers_read(headers, traced, parsed) is Ok {
            assert forall|i: int| 0 <= i < headers.len() implies #[trigger] is_sound(
                headers,
                traced,
                parsed,
                i,
            ) by {
                if i < last {
                    assert(is_sound(rest, traced, parsed, i));
                }
            }
            if is_header(headers[last].0, HEADER_CONTENT_TYPE) {
            } else {
                if exists|i: int|
                    0 <= i < rest.len() && is_header((#[trigger] rest[i]).0, HEADER_CONTENT_TYPE) {
                    let i = choose|i: int|
                        0 <= i < rest.len() && is_header(
                            (#[trigger] rest[i]).0,
                            HEADER_CONTENT_TYPE,
                        );
                    assert(headers[i] == rest[i]);
                }
                if exists|i: int|
                    0 <= i < headers.len() && is_header(
                        (#[trigger] headers[i]).0,
                        HEADER_CONTENT_TYPE,
                    ) {
                    let i = choose|i: int|
                        0 <= i < headers.len() && is_header(
                            (#[trigger] headers[i]).0,
                            HEADER_CONTENT_TYPE,
                        );
                    assert(headers[i] == rest[i]);
                }
            }
        }
        if forall|i: int|
            0 <= i < headers.len() ==> #[trigger] is_sound(headers, traced, parsed, i) {
            assert forall|i: int| 0 <= i < rest.len() implies #[trigger] is_sound(
                rest,
                traced,
                parsed,
                i,
            ) by {
                assert(is_sound(headers, traced, parsed, i));
            }
            assert(is_sound(headers, traced, parsed, last));
        }
    }
}

/// Headers are decoded if and only if a content type is among them, each content type is the one
/// that is known, each namespace is a text, and the parser has taken each trace context that it
/// was asked about.
pub proof fn law_when_headers_are_decoded<C>(
    headers: Seq<RawHeader>,
    traced: bool,
    parsed: Seq<ParsedContext<C>>,
)
    ensures
        decoded_headers(headers, traced, parsed) is Ok <==> {
            &&& exists|i: int|
                0 <= i < headers.len() && is_header((#[trigger] headers[i]).0, HEADER_CONTENT_TYPE)
            &&& forall|i: int|
                0 <= i < headers.len() && is_header((#[trigger] headers[i]).0, HEADER_CONTENT_TYPE)
                    ==> vstd::utf8::valid_utf8(headers[i].1) && vstd::utf8::decode_utf8(
                    headers[i].1,
                ) == CONTENT_TYPE_PROTOBUF@
            &&& forall|i: int|
                0 <= i < headers.len() && is_header((#[trigger] headers[i]).0, HEADER_NAMESPACE)
                    ==> vstd::utf8::valid_utf8(headers[i].1)
            &&& traced ==> forall|i: int|
                0 <= i < headers.len() && is_header((#[trigger] headers[i]).0, HEADER_TRACE_CONTEXT)
                    && is_header_value(headers[i].1) ==> parsed[i] is Ok
        },
        decoded_headers(headers, traced, parsed) matches Ok(view) ==> view.content_type
            == ContentType::Protobuf,
{
    lemma_headers_sound(headers, traced, parsed);
    if forall|i: int| 0 <= i < headers.len() ==> #[trigger] is_sound(headers, traced, parsed, i) {
        assert forall|i: int|
            0 <= i < headers.len() && is_header(
                (#[trigger] headers[i]).0,
                HEADER_CONTENT_TYPE,
            ) implies vstd::utf8::valid_utf8(headers[i].1) && vstd::utf8::decode_utf8(headers[i].1)
            == CONTENT_TYPE_PROTOBUF@ by {
            assert(is_sound(headers, traced, parsed, i));
        }
        assert forall|i: int|
            0 <= i < headers.len() && is_header(
                (#[trigger] headers[i]).0,
                HEADER_NAMESPACE,
            ) implies vstd::utf8::valid_utf8(headers[i].1) by {
            assert(is_sound(headers, traced, parsed, i));
        }
        assert forall|i: int|
            traced && 0 <= i < headers.len() && is_header(
                (#[trigger] headers[i]).0,
                HEADER_TRACE_CONTEXT,
            ) && is_header_value(headers[i].1) implies parsed[i] is Ok by {
            assert(is_sound(headers, traced, parsed, i));
        }
    }
}

/// Of the headers, this is the last one that the parser was asked about.
pub open spec fn is_last_trace(headers: Seq<RawHeader>, i: int) -> bool {
    &&& 0 <= i < headers.len()
    &&& is_header(headers[i].0, HEADER_TRACE_CONTEXT)
    &&& is_header_value(headers[i].1)
    &&& forall|k: int|
        i < k < headers.len() ==> !(is_header((#[trigger] headers[k]).0, HEADER_TRACE_CONTEXT)
            && is_header_value(headers[k].1))
}

proof fn lemma_span_context_read<C>(
    headers: Seq<RawHeader>,
    traced: bool,
    parsed: Seq<ParsedContext<C>>,
)
    requires
        headers_read(headers, traced, parsed) is Ok,
    ensures
        ({
            let span_context = headers_read(headers, traced, parsed)->Ok_0.span_context;
            &&& (!traced || forall|i: int| !#[trigger] is_last_trace(headers, i)) ==> span_context
                is None
            &&& forall|i: int| #[trigger]
                is_last_trace(headers, i) && traced ==> parsed[i] == Ok::<Option<C>, String>(
                    span_context,
                )
        }),
    decreases headers.len(),
{
    lemma_headers_distinct();
    if headers.len() > 0 {
        let rest = headers.drop_last();
        let last = headers.len() - 1;
        lemma_span_context_read(rest, traced, parsed);
        assert(headers[last] == headers.last());
        if is_header(headers[last].0, HEADER_TRACE_CONTEXT) && is_header_value(headers[last].1) {
            assert(is_last_trace(headers, last));
            assert forall|i: int| #[trigger] is_last_trace(headers, i) implies i == last by {
                if i < last {
                    assert(!(is_header(headers[last].0, HEADER_TRACE_CONTEXT) && is_header_value(
                        headers[last].1,
                    )));
                }
            }
        } else {
            assert forall|i: int| #[trigger] is_last_trace(headers, i) <==> is_last_trace(
                rest,
                i,
            ) by {
                if is_last_trace(headers, i) {
                    assert(rest[i] == headers[i]);
                    assert forall|k: int| i < k < rest.len() implies !(is_header(
                        (#[trigger] rest[k]).0,
                        HEADER_TRACE_CONTEXT,
                    ) && is_header_value(rest[k].1)) by {
                        assert(rest[k] == headers[k]);
                    }
                }
                if is_last_trace(rest, i) {
                    assert(rest[i] == headers[i]);
                    assert forall|k: int| i < k < headers.len() implies !(is_header(
                        (#[trigger] headers[k]).0,
                        HEADER_TRACE_CONTEXT,
                    ) && is_header_value(headers[k].1)) by {
                        if k < last {
                            assert(rest[k] == headers[k]);
                        }
                    }
                }
            }
            if !traced || forall|i: int| !#[trigger] is_last_trace(headers, i) {
                assert(!traced || forall|i: int| !#[trigger] is_last_trace(rest, i)) by {
                    assert forall|i: int| traced implies !#[trigger] is_last_trace(rest, i) by {
                        assert(is_last_trace(headers, i) <==> is_last_trace(rest, i));
                    }
                }
            }
        }
    }
}

/// The span context is what the parser made of the last header that it was asked about, and none
/// if it was asked about none: without a collector, or with no trace header that has a value that
/// a header can have.
pub proof fn law_span_context_is_that_of_the_last_header<C>(
    headers: Seq<RawHeader>,
    traced: bool,
    parsed: Seq<ParsedContext<C>>,
)
    requires
        decoded_headers(headers, traced, parsed) is Ok,
    ensures
        ({
            let span_context = decoded_headers(headers, traced, parsed)->Ok_0.span_context;
            &&& (!traced || forall|i: int| !#[trigger] is_last_trace(headers, i)) ==> span_context
                is None
            &&& forall|i: int| #[trigger]
                is_last_trace(headers, i) && traced ==> parsed[i] == Ok::<Option<C>, String>(
                    span_context,
                )
        }),
{
    lemma_span_context_read(headers, traced, parsed);
}

/// Why headers are not decoded: the first header that is not as it should be is the reason, in
/// the words for its kind, and only if each is as it should be, that there is no content type.
pub proof fn law_why_headers_are_not_decoded<C>(
    headers: Seq<RawHeader>,
    traced: bool,
    parsed: Seq<ParsedContext<C>>,
)
    requires
        decoded_headers(headers, traced, parsed) is Err,
    ensures
        ({
            let message = decoded_headers(headers, traced, parsed)->Err_0;
            ||| {
                &&& message == "No content type header"@
                &&& forall|i: int|
                    0 <= i < headers.len() ==> !is_header(
                        (#[trigger] headers[i]).0,
                        HEADER_CONTENT_TYPE,
                    )
                &&& headers_read(headers, traced, parsed) is Ok
            }
            ||| exists|i: int|
                {
                    &&& 0 <= i < headers.len()
                    &&& headers_read(headers.take(i), traced, parsed) is Ok
                    &&& is_reason(#[trigger] headers[i], traced, parsed[i], message)
                }
        }),
{
    lemma_headers_sound(headers, traced, parsed);
    if headers_read(headers, traced, parsed) is Err {
        lemma_first_reason(headers, traced, parsed);
    }
}

/// The header is not as it should be, and these are the words for it.
pub open spec fn is_reason<C>(
    header: RawHeader,
    traced: bool,
    parsed: ParsedContext<C>,
    message: Seq<char>,
) -> bool {
    let (name, value) = header;
    ||| {
        &&& is_header(name, HEADER_CONTENT_TYPE)
        &&& !vstd::utf8::valid_utf8(value)
        &&& message == "Error decoding content type header: "@ + utf8_error_text(value)
    }
    ||| {
        &&& is_header(name, HEADER_CONTENT_TYPE)
        &&& vstd::utf8::valid_utf8(value)
        &&& vstd::utf8::decode_utf8(value) != CONTENT_TYPE_PROTOBUF@
        &&& message == "Unknown message format: "@ + vstd::utf8::decode_utf8(value)
    }
    ||| {
        &&& is_header(name, HEADER_TRACE_CONTEXT)
        &&& traced
        &&& is_header_value(value)
        &&& parsed matches Err(e) && message == "Error decoding trace context: "@ + e@
    }
    ||| {
        &&& is_header(name, HEADER_NAMESPACE)
        &&& !vstd::utf8::valid_utf8(value)
        &&& message == "Error decoding namespace header: "@ + utf8_error_text(value)
    }
}

proof fn lemma_first_reason<C>(
    headers: Seq<RawHeader>,
    traced: bool,
    parsed: Seq<ParsedContext<C>>,
)
    requires
        headers_read(headers, traced, parsed) is Err,
    ensures
        exists|i: int|
            {
                &&& 0 <= i < headers.len()
                &&& headers_read(headers.take(i), traced, parsed) is Ok
                &&& is_reason(
                    #[trigger] headers[i],
                    traced,
                    parsed[i],
                    headers_read(headers, traced, parsed)->Err_0,
                )
            },
    decreases headers.len(),
{
    let rest = headers.drop_last();
    let last = headers.len() - 1;
    if headers_read(rest, traced, parsed) is Err {
        lemma_first_reason(rest, traced, parsed);
        let i = choose|i: int|
            {
                &&& 0 <= i < rest.len()
                &&& headers_read(rest.take(i), traced, parsed) is Ok
                &&& is_reason(
                    #[trigger] rest[i],
                    traced,
                    parsed[i],
                    headers_read(rest, traced, parsed)->Err_0,
                )
            };
        assert(headers.take(i) =~= rest.take(i));
        assert(headers[i] == rest[i]);
    } else {
        assert(headers.take(last) =~= rest);
        assert(headers[last] == headers.last());
        lemma_headers_distinct();
    }
}

/// Of the headers, this is the last one of the wanted name.
pub open spec fn is_last_header(headers: Seq<RawHeader>, wanted: &str, i: int) -> bool {
    &&& 0 <= i < headers.len()
    &&& is_header(headers[i].0, wanted)
    &&& forall|k: int| i < k < headers.len() ==> !is_header((#[trigger] headers[k]).0, wanted)
}

/// The namespace is that of the last header that states one, and empty if none does.
pub proof fn law_namespace_is_that_of_the_last_header<C>(
    headers: Seq<RawHeader>,
    traced: bool,
    parsed: Seq<ParsedContext<C>>,
)
    requires
        decoded_headers(headers, traced, parsed) is Ok,
    ensures
        ({
            let namespace = decoded_headers(headers, traced, parsed)->Ok_0.namespace;
            &&& (forall|i: int|
                0 <= i < headers.len() ==> !is_header((#[trigger] headers[i]).0, HEADER_NAMESPACE))
                ==> namespace == Seq::<char>::empty()
            &&& forall|i: int| #[trigger]
                is_last_header(headers, HEADER_NAMESPACE, i) ==> vstd::utf8::valid_utf8(
                    headers[i].1,
                ) && namespace == vstd::utf8::decode_utf8(headers[i].1)
        }),
{
    lemma_namespace_read(headers, traced, parsed);
}

proof fn lemma_namespace_read<C>(
    headers: Seq<RawHeader>,
    traced: bool,
    parsed: Seq<ParsedContext<C>>,
)
    requires
        headers_read(headers, traced, parsed) is Ok,
    ensures
        ({
            let namespace = headers_read(headers, traced, parsed)->Ok_0.namespace;
            &&& (forall|i: int|
                0 <= i < headers.len() ==> !is_header((#[trigger] headers[i]).0, HEADER_NAMESPACE))
                ==> namespace is None
            &&& forall|i: int| #[trigger]
                is_last_header(headers, HEADER_NAMESPACE, i) ==> vstd::utf8::valid_utf8(
                    headers[i].1,
                ) && namespace == Some(vstd::utf8::decode_utf8(headers[i].1))
        }),
    decreases headers.len(),
{
    lemma_headers_distinct();
    if headers.len() > 0 {
        let rest = headers.drop_last();
        lemma_namespace_read(rest, traced, parsed);
        let last = headers.len() - 1;
        assert(headers[last] == headers.last());
        if !is_header(headers[last].0, HEADER_NAMESPACE) {
            assert forall|i: int| #[trigger] is_last_header(headers, HEADER_NAMESPACE, i) implies
                is_last_header(rest, HEADER_NAMESPACE, i) by {
                assert forall|k: int| i < k < rest.len() implies !is_header(
                    (#[trigger] rest[k]).0,
                    HEADER_NAMESPACE,
                ) by {
                    assert(headers[k] == rest[k]);
                }
            }
            if forall|i: int|
                0 <= i < headers.len() ==> !is_header((#[trigger] headers[i]).0, HEADER_NAMESPACE) {
                assert forall|i: int| 0 <= i < rest.len() implies !is_header(
                    (#[trigger] rest[i]).0,
                    HEADER_NAMESPACE,
                ) by {
                    assert(headers[i] == rest[i]);
                }
            }
        } else {
            assert forall|i: int| #[trigger] is_last_header(headers, HEADER_NAMESPACE, i) implies i
                == last by {
                if i < last {
                    assert(!is_header(headers[last].0, HEADER_NAMESPACE));
                }
            }
        }
    }
}

/// One more header with a namespace sets it, and leaves the rest as it was.
pub proof fn law_last_namespace_wins<C>(
    headers: Seq<RawHeader>,
    name: Seq<char>,
    namespace: Seq<char>,
    traced: bool,
    parsed: Seq<ParsedContext<C>>,
)
    requires
        is_header(name, HEADER_NAMESPACE),
        decoded_headers(headers, traced, parsed) is Ok,
    ensures
        decoded_headers(
            headers.push((name, vstd::utf8::encode_utf8(namespace))),
            traced,
            parsed,
        ) == Ok::<HeadersView<C>, Seq<char>>(
            HeadersView { namespace, ..decoded_headers(headers, traced, parsed)->Ok_0 },
        ),
{
    lemma_headers_distinct();
    vstd::utf8::encode_utf8_valid_utf8(namespace);
    vstd::utf8::encode_utf8_decode_utf8(namespace);
    assert(headers.push((name, vstd::utf8::encode_utf8(namespace))).drop_last() =~= headers);
}

/// One more header with a trace context sets it to what the parser makes of its value, if that
/// is no error, and leaves the rest as it was.
pub proof fn law_last_trace_context_wins<C>(
    headers: Seq<RawHeader>,
    name: Seq<char>,
    value: Seq<u8>,
    parsed: Seq<ParsedContext<C>>,
)
    requires
        is_header(name, HEADER_TRACE_CONTEXT),
        is_header_value(value),
        decoded_headers(headers, true, parsed) is Ok,
        parsed[headers.len() as int] is Ok,
    ensures
        decoded_headers(headers.push((name, value)), true, parsed) == Ok::<
            HeadersView<C>,
            Seq<char>,
        >(
            HeadersView {
                span_context: parsed[headers.len() as int]->Ok_0,
                ..decoded_headers(headers, true, parsed)->Ok_0
            },
        ),
{
    lemma_headers_distinct();
    assert(headers.push((name, value)).drop_last() =~= headers);
}

/// The name is that of a header that says something.
pub open spec fn is_own_header(name: Seq<char>) -> bool {
    ||| is_header(name, HEADER_CONTENT_TYPE)
    ||| is_header(name, HEADER_TRACE_CONTEXT)
    ||| is_header(name, HEADER_NAMESPACE)
}

/// The headers that say something.
pub open spec fn own_headers(headers: Seq<RawHeader>) -> Seq<RawHeader> {
    headers.filter(|h: RawHeader| is_own_header(h.0))
}

/// The outcomes are the same: the same context or none, or an error in the same words.
pub open spec fn same_outcome<C>(outcome: ParsedContext<C>, other: ParsedContext<C>) -> bool {
    match (outcome, other) {
        (Ok(a), Ok(b)) => a == b,
        (Err(a), Err(b)) => a@ == b@,
        _ => false,
    }
}

/// The parser makes the same of the same value, here `given`.
pub open spec fn always_gives<C, F>(
    parse: F,
    given: spec_fn(Seq<u8>) -> ParsedContext<C>,
) -> bool where F: Fn(&[u8]) -> ParsedContext<C> {
    forall|bytes: &[u8], outcome: ParsedContext<C>| #[trigger]
        parse.ensures((bytes,), outcome) ==> same_outcome(outcome, given(bytes@))
}

/// Whatever headers of other names there are, and wherever they stand, the headers say the same,
/// as long as the parser makes the same of the same value.
pub proof fn law_only_own_headers_count<C, F>(
    headers: Seq<RawHeader>,
    other: Seq<RawHeader>,
    parse: Option<F>,
    given: spec_fn(Seq<u8>) -> ParsedContext<C>,
    parsed: Seq<ParsedContext<C>>,
    other_parsed: Seq<ParsedContext<C>>,
) where F: Fn(&[u8]) -> ParsedContext<C>
    requires
        own_headers(headers) == own_headers(other),
        parse matches Some(p) ==> {
            &&& always_gives(p, given)
            &&& are_outcomes(p, headers, parsed)
            &&& are_outcomes(p, other, other_parsed)
        },
    ensures
        decoded_headers(headers, parse is Some, parsed) == decoded_headers(
            other,
            parse is Some,
            other_parsed,
        ),
{
    lemma_read_as_given(headers, parse, given, parsed);
    lemma_read_as_given(other, parse, given, other_parsed);
    lemma_own_headers_read(headers, parse is Some, given);
    lemma_own_headers_read(other, parse is Some, given);
}

/// What is made of each value.
spec fn given_outcomes<C>(
    headers: Seq<RawHeader>,
    given: spec_fn(Seq<u8>) -> ParsedContext<C>,
) -> Seq<ParsedContext<C>> {
    headers.map_values(|h: RawHeader| given(h.1))
}

proof fn lemma_read_as_given<C, F>(
    headers: Seq<RawHeader>,
    parse: Option<F>,
    given: spec_fn(Seq<u8>) -> ParsedContext<C>,
    parsed: Seq<ParsedContext<C>>,
) where F: Fn(&[u8]) -> ParsedContext<C>
    requires
        parse matches Some(p) ==> always_gives(p, given) && are_outcomes(p, headers, parsed),
    ensures
        headers_read(headers, parse is Some, parsed) == headers_read(
            headers,
            parse is Some,
            given_outcomes(headers, given),
        ),
    decreases headers.len(),
{
    if headers.len() > 0 {
        let rest = headers.drop_last();
        let last = headers.len() - 1;
        if parse is Some {
            assert forall|i: int|
                0 <= i < rest.len() && headers_read(rest.take(i), true, parsed) is Ok && is_header(
                    (#[trigger] rest[i]).0,
                    HEADER_TRACE_CONTEXT,
                ) && is_header_value(rest[i].1) implies is_outcome(
                parse->0,
                rest[i].1,
                parsed[i],
            ) by {
                assert(rest.take(i) =~= headers.take(i));
                assert(rest[i] == headers[i]);
            }
        }
        lemma_read_as_given(rest, parse, given, parsed);
        lemma_headers_read_prefix(
            rest,
            parse is Some,
            given_outcomes(rest, given),
            given_outcomes(headers, given),
        );
        assert(headers.take(last) =~= rest);
        assert(headers[last] == headers.last());
    }
}

proof fn lemma_own_headers_read<C>(
    headers: Seq<RawHeader>,
    traced: bool,
    given: spec_fn(Seq<u8>) -> ParsedContext<C>,
)
    ensures
        headers_read(headers, traced, given_outcomes(headers, given)) == headers_read(
            own_headers(headers),
            traced,
            given_outcomes(own_headers(headers), given),
        ),
    decreases headers.len(),
{
    reveal(Seq::filter);
    if headers.len() > 0 {
        let rest = headers.drop_last();
        let own = own_headers(headers);
        let own_rest = own_headers(rest);
        lemma_own_headers_read(rest, traced, given);
        lemma_headers_read_prefix(
            rest,
            traced,
            given_outcomes(rest, given),
            given_outcomes(headers, given),
        );
        if is_own_header(headers.last().0) {
            assert(own == own_rest.push(headers.last()));
            assert(own.drop_last() =~= own_rest);
            lemma_headers_read_prefix(
                own_rest,
                traced,
                given_outcomes(own_rest, given),
                given_outcomes(own, given),
            );
        } else {
            assert(own == own_rest);
        }
    }
}

/// A header of another name is passed over, wherever it stands.
pub proof fn law_other_headers_are_ignored<C>(
    before: Seq<RawHeader>,
    other: RawHeader,
    after: Seq<RawHeader>,
    traced: bool,
    parsed: Seq<ParsedContext<C>>,
)
    requires
        !is_header(other.0, HEADER_CONTENT_TYPE),
        !is_header(other.0, HEADER_TRACE_CONTEXT),
        !is_header(other.0, HEADER_NAMESPACE),
        parsed.len() == before.len() + 1 + after.len(),
    ensures
        decoded_headers(before.push(other) + after, traced, parsed) == decoded_headers(
            before + after,
            traced,
            parsed.remove(before.len() as int),
        ),
{
    lemma_other_header(before, other, after, traced, parsed);
}

proof fn lemma_other_header<C>(
    before: Seq<RawHeader>,
    other: RawHeader,
    after: Seq<RawHeader>,
    traced: bool,
    parsed: Seq<ParsedContext<C>>,
)
    requires
        !is_header(other.0, HEADER_CONTENT_TYPE),
        !is_header(other.0, HEADER_TRACE_CONTEXT),
        !is_header(other.0, HEADER_NAMESPACE),
        parsed.len() >= before.len() + 1 + after.len(),
    ensures
        headers_read(before.push(other) + after, traced, parsed) == headers_read(
            before + after,
            traced,
            parsed.remove(before.len() as int),
        ),
    decreases after.len(),
{
    let fewer = parsed.remove(before.len() as int);
    if after.len() == 0 {
        assert((before.push(other) + after).drop_last() =~= before);
        assert(before + after =~= before);
        lemma_headers_read_prefix(before, traced, parsed, fewer);
    } else {
        lemma_other_header(before, other, after.drop_last(), traced, parsed);
        assert((before.push(other) + after).drop_last() =~= before.push(other)
            + after.drop_last());
        assert((before + after).drop_last() =~= before + after.drop_last());
        assert(fewer[before.len() + after.len() - 1] == parsed[before.len() + after.len() as int]);
    }
}

/// No name is that of two of the headers.
proof fn lemma_headers_distinct()
    ensures
        forall|name: Seq<char>|
            #![trigger is_header(name, HEADER_CONTENT_TYPE)]
            #![trigger is_header(name, HEADER_TRACE_CONTEXT)]
            #![trigger is_header(name, HEADER_NAMESPACE)]
            {
                &&& is_header(name, HEADER_CONTENT_TYPE) ==> !is_header(name, HEADER_TRACE_CONTEXT)
                    && !is_header(name, HEADER_NAMESPACE)
                &&& is_header(name, HEADER_TRACE_CONTEXT) ==> !is_header(name, HEADER_NAMESPACE)
            },
{
    reveal_strlit("content-type");
    reveal_strlit("uber-trace-id");
    reveal_strlit("iox-namespace");
    let c = ascii_lowered(HEADER_CONTENT_TYPE@);
    let t = ascii_lowered(HEADER_TRACE_CONTEXT@);
    let n = ascii_lowered(HEADER_NAMESPACE@);
    assert(c[0] == 'c');
    assert(t[0] == 'u');
    assert(n[0] == 'i');
}

/// What headers say depends only on what was made of these headers.
proof fn lemma_headers_read_prefix<C>(
    raw: Seq<RawHeader>,
    traced: bool,
    parsed: Seq<ParsedContext<C>>,
    other: Seq<ParsedContext<C>>,
)
    requires
        forall|i: int| 0 <= i < raw.len() ==> #[trigger] parsed[i] == other[i],
    ensures
        headers_read(raw, traced, parsed) == headers_read(raw, traced, other),
    decreases raw.len(),
{
    if raw.len() > 0 {
        lemma_headers_read_prefix(raw.drop_last(), traced, parsed, other);
        assert(parsed[raw.len() - 1] == other[raw.len() - 1]);
    }
}

/// An error in the first headers is that of all of them.
proof fn lemma_headers_read_error<C>(
    raw: Seq<RawHeader>,
    i: int,
    traced: bool,
    parsed: Seq<ParsedContext<C>>,
)
    requires
        0 <= i <= raw.len(),
        headers_read(raw.take(i), traced, parsed) is Err,
    ensures
        headers_read(raw, traced, parsed) == headers_read(raw.take(i), traced, parsed),
    decreases raw.len(),
{
    if i < raw.len() {
        assert(raw.drop_last().take(i) =~= raw.take(i));
        lemma_headers_read_error(raw.drop_last(), i, traced, parsed);
    } else {
        assert(raw.take(i) =~= raw);
    }
}

proof fn lemma_headers_read_next<C>(
    raw: Seq<RawHeader>,
    i: int,
    traced: bool,
    parsed: Seq<ParsedContext<C>>,
)
    requires
        0 <= i < raw.len(),
        headers_read(raw.take(i), traced, parsed) is Ok,
    ensures
        ({
            let next = with_header(
                headers_read(raw.take(i), traced, parsed)->Ok_0,
                raw[i],
                traced,
                parsed[i],
            );
            &&& headers_read(raw.take(i + 1), traced, parsed) == next
            &&& next is Err ==> headers_read(raw, traced, parsed) == next
        }),
{
    assert(raw.take(i + 1).drop_last() =~= raw.take(i));
    assert(raw.take(i + 1).last() == raw[i]);
    if headers_read(raw.take(i + 1), traced, parsed) is Err {
        lemma_headers_read_error(raw, i + 1, traced, parsed);
    }
}

/// With what the parser made of one more header, if it was asked to, the outcomes are those of
/// one more header; and of all headers if the last one is in error.
proof fn lemma_outcomes_next<C, F>(
    parse: F,
    raw: Seq<RawHeader>,
    i: int,
    parsed: Seq<ParsedContext<C>>,
    last: ParsedContext<C>,
) where F: Fn(&[u8]) -> ParsedContext<C>
    requires
        0 <= i < raw.len(),
        parsed.len() == i,
        are_outcomes(parse, raw.take(i), parsed),
        headers_read(raw.take(i), true, parsed) is Ok,
        is_header(raw[i].0, HEADER_TRACE_CONTEXT) && is_header_value(raw[i].1) ==> is_outcome(
            parse,
            raw[i].1,
            last,
        ),
    ensures
        are_outcomes(parse, raw.take(i + 1), parsed.push(last)),
        headers_read(raw.take(i + 1), true, parsed.push(last)) is Err ==> are_outcomes(
            parse,
            raw,
            parsed.push(last),
        ),
{
    let more = parsed.push(last);
    assert forall|k: int|
        0 <= k < raw.len() && headers_read(raw.take(k), true, more) is Ok && is_header(
            (#[trigger] raw[k]).0,
            HEADER_TRACE_CONTEXT,
        ) && is_header_value(raw[k].1) && (k <= i || headers_read(raw.take(i + 1), true, more)
            is Err) implies is_outcome(parse, raw[k].1, more[k]) by {
        if k < i {
            lemma_headers_read_prefix(raw.take(k), true, parsed, more);
            assert(raw.take(i).take(k) =~= raw.take(k));
            assert(raw.take(i)[k] == raw[k]);
        } else if k > i {
            assert(raw.take(k).take(i + 1) =~= raw.take(i + 1));
            lemma_headers_read_error(raw.take(k), i + 1, true, more);
        }
    }
    assert forall|k: int|
        0 <= k < i + 1 && headers_read(raw.take(i + 1).take(k), true, more) is Ok && is_header(
            (#[trigger] raw.take(i + 1)[k]).0,
            HEADER_TRACE_CONTEXT,
        ) && is_header_value(raw.take(i + 1)[k].1) implies is_outcome(
        parse,
        raw.take(i + 1)[k].1,
        more[k],
    ) by {
        assert(raw.take(i + 1).take(k) =~= raw.take(k));
        assert(raw.take(i + 1)[k] == raw[k]);
    }
}

} // verus!
