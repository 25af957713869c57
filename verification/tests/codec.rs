use iox_core::codec::{
    CONTENT_TYPE_PROTOBUF, ContentType, HEADER_CONTENT_TYPE, HEADER_NAMESPACE,
    HEADER_TRACE_CONTEXT, IoxHeaders, ReadPayload, SentPayload, WriteBufferError, decode,
    decode_payload, encode_operation, payload_of,
};
use iox_core::column::{Column, ColumnData};
use iox_core::dml::{DmlDelete, DmlMeta, DmlOperation, DmlWrite, NonEmptyString, Sequence};
use iox_core::field_violation::FieldViolation;
use iox_core::mutable_batch::MutableBatch;
use iox_core::schema::InfluxColumnType;

/// The position of a piece of work in a trace.
#[derive(Debug, Clone, Copy, PartialEq, Eq)]
struct SpanContext {
    trace_id: u128,
    span_id: u64,
    parent_span_id: Option<u64>,
    sampled: bool,
}

fn span_context(trace_id: u128, span_id: u64, parent: Option<u64>, sampled: bool) -> SpanContext {
    SpanContext { trace_id, span_id, parent_span_id: parent, sampled }
}

/// Writes the trace, the span, its parent and flags, with colons between them.
fn format_context(ctx: &SpanContext) -> String {
    let parent = ctx.parent_span_id.unwrap_or(0);
    format!("{:x}:{:x}:{:x}:{}", ctx.trace_id, ctx.span_id, parent, u8::from(ctx.sampled))
}

/// Reads what `format_context` writes. A span of zero is none.
fn parse_context(value: &[u8]) -> Result<Option<SpanContext>, String> {
    let text = std::str::from_utf8(value).map_err(|e| e.to_string())?;
    let parts: Vec<&str> = text.split(':').collect();
    if parts.len() != 4 {
        return Err(format!("expected 4 parts, got {}", parts.len()));
    }
    let trace_id = u128::from_str_radix(parts[0], 16).map_err(|e| e.to_string())?;
    let number = |text: &str| u64::from_str_radix(text, 16).map_err(|e| e.to_string());
    let span_id = number(parts[1])?;
    let parent_span_id = Some(number(parts[2])?).filter(|id| *id != 0);
    let sampled = number(parts[3])? & 1 == 1;
    if span_id == 0 {
        return Ok(None);
    }
    Ok(Some(SpanContext { trace_id, span_id, parent_span_id, sampled }))
}

type Parser = fn(&[u8]) -> Result<Option<SpanContext>, String>;

fn read(
    headers: &[(String, Vec<u8>)],
    traced: bool,
) -> Result<IoxHeaders<SpanContext>, WriteBufferError> {
    let parser: Option<Parser> = if traced { Some(parse_context) } else { None };
    IoxHeaders::from_headers(headers, parser)
}

fn encoded(headers: &IoxHeaders<SpanContext>) -> Vec<(String, Vec<u8>)> {
    headers
        .headers(format_context)
        .into_iter()
        .map(|(name, value)| (name.to_string(), value.into_bytes()))
        .collect()
}

fn raw(headers: &[(&str, &str)]) -> Vec<(String, Vec<u8>)> {
    headers
        .iter()
        .map(|(name, value)| (name.to_string(), value.as_bytes().to_vec()))
        .collect()
}

fn message(result: Result<IoxHeaders<SpanContext>, WriteBufferError>) -> String {
    match result {
        Err(WriteBufferError::Message(message)) => message,
        other => panic!("expected a message, got {:?}", other),
    }
}

#[test]
fn headers_roundtrip() {
    let span_context = span_context(0xfeed, 7, Some(3), true);
    let iox_headers1 = IoxHeaders::new(
        ContentType::Protobuf,
        Some(span_context),
        "namespace".to_owned(),
    );

    let encoded = encoded(&iox_headers1);

    let iox_headers2 = read(&encoded, true).unwrap();

    assert_eq!(iox_headers1.content_type(), iox_headers2.content_type());
    assert_eq!(
        iox_headers1.span_context().unwrap(),
        iox_headers2.span_context().unwrap(),
    );
    assert_eq!(iox_headers1.namespace(), iox_headers2.namespace());
}

#[test]
fn headers_case_handling() {
    let headers = raw(&[
        ("conTent-Type", CONTENT_TYPE_PROTOBUF),
        ("uber-trace-id", "1:2:3:1"),
        ("uber-trace-ID", "5:6:7:1"),
        ("iOx-Namespace", "namespace"),
    ]);

    let actual = read(&headers, true).unwrap();
    assert_eq!(actual.content_type(), ContentType::Protobuf);

    let span_context = actual.span_context().unwrap();
    assert_eq!(span_context.trace_id, 5);
    assert_eq!(span_context.span_id, 6);

    assert_eq!(actual.namespace(), "namespace");
}

#[test]
fn headers_no_trace_collector_on_consumer_side() {
    let span_context = span_context(1, 2, None, true);

    let iox_headers1 = IoxHeaders::new(
        ContentType::Protobuf,
        Some(span_context),
        "namespace".to_owned(),
    );

    let encoded = encoded(&iox_headers1);

    let iox_headers2 = read(&encoded, false).unwrap();

    assert!(iox_headers2.span_context().is_none());
}

#[test]
fn headers_are_sent_in_order() {
    let ctx = span_context(0x1f, 0x2e, None, true);
    let headers = IoxHeaders::new(ContentType::Protobuf, Some(ctx), "ns".to_owned());
    let sent = headers.headers(format_context);
    let names: Vec<&str> = sent.iter().map(|(name, _)| *name).collect();
    assert_eq!(names, vec![HEADER_CONTENT_TYPE, HEADER_TRACE_CONTEXT, HEADER_NAMESPACE]);
    assert_eq!(sent[0].1, CONTENT_TYPE_PROTOBUF);
    assert_eq!(sent[1].1, "1f:2e:0:1");
    assert_eq!(sent[2].1, "ns");

    let headers: IoxHeaders<SpanContext> =
        IoxHeaders::new(ContentType::Protobuf, None, String::new());
    let names: Vec<&str> = headers.headers(format_context).iter().map(|(name, _)| *name).collect();
    assert_eq!(names, vec![HEADER_CONTENT_TYPE, HEADER_NAMESPACE]);
}

#[test]
fn namespace_may_be_missing() {
    let headers = raw(&[("content-type", CONTENT_TYPE_PROTOBUF), ("other", "x")]);
    let headers = read(&headers, true).unwrap();
    assert_eq!(headers.namespace(), "");
    assert!(headers.span_context().is_none());
}

#[test]
fn last_header_wins() {
    let headers = raw(&[
        ("content-type", CONTENT_TYPE_PROTOBUF),
        ("iox-namespace", "first"),
        ("iox-namespace", "second"),
    ]);
    let headers = read(&headers, false).unwrap();
    assert_eq!(headers.namespace(), "second");
}

#[test]
fn the_last_namespace_counts_with_a_collector_too() {
    let headers = raw(&[
        ("IOX-namespace", "first"),
        ("content-type", CONTENT_TYPE_PROTOBUF),
        ("iox-NAMESPACE", "second"),
        ("uber-trace-id", "1:2:3:1"),
    ]);
    let headers = read(&headers, true).unwrap();
    assert_eq!(headers.namespace(), "second");
    assert_eq!(headers.span_context().unwrap().span_id, 2);
}

#[test]
fn headers_of_other_names_change_nothing() {
    let headers = raw(&[
        ("content-type", CONTENT_TYPE_PROTOBUF),
        ("uber-trace-id", "1:2:3:1"),
        ("iox-namespace", "ns"),
    ]);
    let more = raw(&[
        ("x-other", "\u{1}"),
        ("content-type", CONTENT_TYPE_PROTOBUF),
        ("content-types", "text/plain"),
        ("uber-trace-id", "1:2:3:1"),
        ("", "no name"),
        ("iox-namespace", "ns"),
        ("iox-namespace-2", "other"),
    ]);
    for traced in [false, true] {
        let plain = read(&headers, traced).unwrap();
        let with_more = read(&more, traced).unwrap();
        assert_eq!(plain.content_type(), with_more.content_type());
        assert_eq!(plain.span_context(), with_more.span_context());
        assert_eq!(plain.namespace(), with_more.namespace());
    }
}

#[test]
fn header_errors() {
    assert_eq!(message(read(&[], true)), "No content type header");
    assert_eq!(
        message(read(&raw(&[("content-type", "text/plain")]), true)),
        "Unknown message format: text/plain",
    );
    let not_utf8 = vec![("content-type".to_string(), vec![0xffu8])];
    assert_eq!(
        message(read(&not_utf8, true)),
        "Error decoding content type header: invalid utf-8 sequence of 1 bytes from index 0",
    );
    let not_utf8 = vec![("iox-namespace".to_string(), vec![b'a', 0xffu8])];
    assert_eq!(
        message(read(&not_utf8, true)),
        "Error decoding namespace header: invalid utf-8 sequence of 1 bytes from index 1",
    );
    let malformed = raw(&[("uber-trace-id", "1:2")]);
    assert_eq!(
        message(read(&malformed, true)),
        "Error decoding trace context: expected 4 parts, got 2",
    );
    // without a collector the trace context is not looked at
    assert_eq!(message(read(&malformed, false)), "No content type header");
    // nor is it if it cannot be the value of a header
    let no_value = vec![
        ("uber-trace-id".to_string(), b"1:2\n".to_vec()),
        ("content-type".to_string(), CONTENT_TYPE_PROTOBUF.as_bytes().to_vec()),
    ];
    assert!(read(&no_value, true).unwrap().span_context().is_none());
}

#[test]
fn a_header_without_a_context_takes_the_context_away() {
    let headers = raw(&[
        ("content-type", CONTENT_TYPE_PROTOBUF),
        ("uber-trace-id", "1:2:3:1"),
        ("uber-trace-id", "1:0:0:1"),
    ]);
    assert!(read(&headers, true).unwrap().span_context().is_none());
}

fn headers() -> IoxHeaders<SpanContext> {
    let ctx = span_context(1, 2, None, false);
    IoxHeaders::new(ContentType::Protobuf, Some(ctx), "ns".to_owned())
}

const SEQUENCE: Sequence = Sequence { sequencer_id: 3, sequence_number: 4 };

fn batch() -> MutableBatch {
    let time = Column::new(InfluxColumnType::Timestamp, vec![true], ColumnData::I64(vec![9]));
    MutableBatch::from_columns(vec![("time".to_owned(), time.unwrap())]).unwrap()
}

#[test]
fn decodes_a_write() {
    let tables = vec![("cpu".to_owned(), batch())];
    let payload: Result<Option<ReadPayload<String>>, String> =
        Ok(Some(ReadPayload::Write { tables: Ok(tables) }));
    match decode_payload(payload, headers(), SEQUENCE, 5, 6) {
        Ok(DmlOperation::Write(write)) => {
            assert_eq!(write.namespace, "ns");
            assert_eq!(write.tables.len(), 1);
            assert_eq!(write.tables[0].0, "cpu");
            assert_eq!(write.tables[0].1.rows(), 1);
            assert_eq!(write.meta.sequence, Some(SEQUENCE));
            assert_eq!(write.meta.producer_ts, Some(5));
            assert_eq!(write.meta.bytes_read, Some(6));
            assert_eq!(write.meta.span_context.unwrap().trace_id, 1);
        }
        other => panic!("expected a write, got {:?}", other),
    }
}

#[test]
fn decodes_a_delete() {
    for table in ["", "cpu"] {
        let payload: Result<Option<ReadPayload<String>>, String> =
            Ok(Some(ReadPayload::Delete {
                table_name: table.to_owned(),
                predicate: Some(Ok("host=a".to_owned())),
            }));
        match decode_payload(payload, headers(), SEQUENCE, 5, 6) {
            Ok(DmlOperation::Delete(delete)) => {
                assert_eq!(delete.namespace, "ns");
                assert_eq!(delete.predicate, "host=a");
                assert_eq!(delete.table_name.is_some(), table == "cpu");
                assert_eq!(delete.meta.sequence, Some(SEQUENCE));
            }
            other => panic!("expected a delete, got {:?}", other),
        }
    }
}

fn decode_error(payload: Result<Option<ReadPayload<String>>, String>) -> WriteBufferError {
    match decode_payload(payload, headers(), SEQUENCE, 5, 6) {
        Err(error) => error,
        Ok(operation) => panic!("expected an error, got {:?}", operation),
    }
}

#[test]
fn decode_errors() {
    let says = |text: &str| WriteBufferError::Message(text.to_owned());
    assert_eq!(
        decode_error(Err("buffer underflow".to_owned())),
        says("failed to decode WriteBufferPayload: buffer underflow"),
    );
    assert_eq!(decode_error(Ok(None)), says("no payload"));
    assert_eq!(
        decode_error(Ok(Some(ReadPayload::Write { tables: Err("bad".to_owned()) }))),
        says("failed to decode database batch: bad"),
    );
    assert_eq!(
        decode_error(Ok(Some(ReadPayload::Delete { table_name: String::new(), predicate: None }))),
        WriteBufferError::Field(FieldViolation::Required { field: "predicate".to_owned() }),
    );
    let violation = || FieldViolation::Invalid {
        field: "range".to_owned(),
        description: "no range".to_owned(),
    };
    assert_eq!(
        decode_error(Ok(Some(ReadPayload::Delete {
            table_name: "t".to_owned(),
            predicate: Some(Err(violation())),
        }))),
        WriteBufferError::Field(violation()),
    );
}

#[test]
fn decodes_what_is_read_of_the_data() {
    let read = |data: &[u8]| -> Result<Option<ReadPayload<String>>, String> {
        match data.len() {
            0 => Ok(None),
            1 => Err("short".to_owned()),
            _ => Ok(Some(ReadPayload::Delete {
                table_name: "t".to_owned(),
                predicate: Some(Ok(format!("{:?}", data))),
            })),
        }
    };
    match decode(&[7, 8], headers(), SEQUENCE, 5, 6, read) {
        Ok(DmlOperation::Delete(delete)) => assert_eq!(delete.predicate, "[7, 8]"),
        other => panic!("expected a delete, got {:?}", other),
    }
    let says = |text: &str| WriteBufferError::Message(text.to_owned());
    assert_eq!(
        decode(&[], headers(), SEQUENCE, 5, 6, read).unwrap_err(),
        says("no payload"),
    );
    assert_eq!(
        decode(&[7], headers(), SEQUENCE, 5, 6, read).unwrap_err(),
        says("failed to decode WriteBufferPayload: short"),
    );
}

fn meta() -> DmlMeta<SpanContext> {
    DmlMeta::sequenced(SEQUENCE, 5, None, 6)
}

#[test]
fn operation_roundtrip() {
    for table in ["", "cpu"] {
        let operation = DmlOperation::Delete(DmlDelete {
            namespace: "ns".to_owned(),
            predicate: "host=a".to_owned(),
            table_name: NonEmptyString::new(table.to_owned()),
            meta: meta(),
        });
        match payload_of("db", &operation) {
            SentPayload::Delete { db_name, table_name, predicate } => {
                assert_eq!(db_name, "db");
                assert_eq!(table_name, table);
                let read = ReadPayload::Delete {
                    table_name,
                    predicate: Some(Ok(predicate.clone())),
                };
                match decode_payload(Ok(Some(read)), headers(), SEQUENCE, 5, 6) {
                    Ok(DmlOperation::Delete(decoded)) => {
                        assert_eq!(decoded.predicate, "host=a");
                        let name = decoded.table_name.as_ref().map(|name| name.as_str());
                        assert_eq!(name.unwrap_or(""), table);
                        assert_eq!(name.is_some(), table != "");
                    }
                    other => panic!("expected a delete, got {:?}", other),
                }
            }
            other => panic!("expected a delete, got {:?}", other),
        }
    }

    let operation: DmlOperation<String, SpanContext> = DmlOperation::Write(DmlWrite {
        namespace: "ns".to_owned(),
        tables: vec![("cpu".to_owned(), batch())],
        meta: meta(),
    });
    match payload_of("db", &operation) {
        SentPayload::Write { db_name, write } => {
            assert_eq!(db_name, "db");
            assert_eq!(write.tables.len(), 1);
            assert_eq!(write.tables[0].0, "cpu");
        }
        other => panic!("expected a write, got {:?}", other),
    }
}

#[test]
fn operations_are_written_behind_what_is_there() {
    let operation: DmlOperation<String, SpanContext> = DmlOperation::Delete(DmlDelete {
        namespace: "ns".to_owned(),
        predicate: "host=a".to_owned(),
        table_name: None,
        meta: meta(),
    });
    let mut buf = vec![1, 2];
    let write = |payload: SentPayload<'_, String, SpanContext>| match payload {
        SentPayload::Delete { predicate, .. } => Ok(predicate.clone().into_bytes()),
        SentPayload::Write { .. } => Err("a write".to_owned()),
    };
    encode_operation("db", &operation, &mut buf, write).unwrap();
    assert_eq!(buf, b"\x01\x02host=a".to_vec());

    let refuse = |_: SentPayload<'_, String, SpanContext>| Err("full".to_owned());
    assert_eq!(
        encode_operation("db", &operation, &mut buf, refuse).unwrap_err(),
        WriteBufferError::Message("full".to_owned()),
    );
    assert_eq!(buf.len(), 8);
}

/// Writes a delete as its table's name and its predicate, with a zero between them.
fn write_delete(payload: SentPayload<'_, String, SpanContext>) -> Result<Vec<u8>, String> {
    match payload {
        SentPayload::Delete { table_name, predicate, .. } => {
            Ok([table_name.as_bytes(), b"\0", predicate.as_bytes()].concat())
        }
        SentPayload::Write { .. } => Err("a write".to_owned()),
    }
}

/// Reads what `write_delete` writes.
fn read_delete(data: &[u8]) -> Result<Option<ReadPayload<String>>, String> {
    let text = std::str::from_utf8(data).map_err(|e| e.to_string())?;
    let (table_name, predicate) = text.split_once('\0').ok_or("no zero")?;
    Ok(Some(ReadPayload::Delete {
        table_name: table_name.to_owned(),
        predicate: Some(Ok(predicate.to_owned())),
    }))
}

#[test]
fn operations_are_decoded_as_they_were_encoded() {
    for table in ["", "cpu"] {
        let operation = DmlOperation::Delete(DmlDelete {
            namespace: "sent".to_owned(),
            predicate: "host=a".to_owned(),
            table_name: NonEmptyString::new(table.to_owned()),
            meta: DmlMeta::sequenced(Sequence { sequencer_id: 0, sequence_number: 1 }, 2, None, 3),
        });
        let mut buf = vec![];
        encode_operation("db", &operation, &mut buf, write_delete).unwrap();
        match decode(&buf, headers(), SEQUENCE, 5, 6, read_delete) {
            Ok(DmlOperation::Delete(decoded)) => {
                assert_eq!(decoded.predicate, "host=a");
                assert_eq!(decoded.table_name.as_ref().map_or("", |name| name.as_str()), table);
                assert_eq!(decoded.table_name.is_some(), table == "cpu");
                // what is known of it is what came with it
                assert_eq!(decoded.namespace, "ns");
                assert_eq!(decoded.meta.sequence, Some(SEQUENCE));
                assert_eq!(decoded.meta.producer_ts, Some(5));
                assert_eq!(decoded.meta.bytes_read, Some(6));
                assert_eq!(decoded.meta.span_context.unwrap().span_id, 2);
            }
            other => panic!("expected a delete, got {:?}", other),
        }

        // behind other bytes stand the same ones
        let mut behind = vec![9, 9, 9];
        encode_operation("db", &operation, &mut behind, write_delete).unwrap();
        assert_eq!(behind[..3], [9, 9, 9]);
        assert_eq!(behind[3..], buf[..]);
    }
}
