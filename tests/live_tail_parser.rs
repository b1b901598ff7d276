use bytes::Bytes;
use cw_axe::live_tail_client::{LiveTail, TailAction};
use cw_axe::live_tail_parser::{
    Error, EventStreamParser, HeaderParserState, MessageParser, ParserState, SessionMetadata, SessionResult,
    SessionUpdate,
};

const ONE_EMPTY_UPDATE: &[u8] = b"\0\0\0\xa6\0\0\0]\x8f\x9f\x98\x16\x0b:event-type\x07\0\rsessionUpdate\r:content-type\x07\0\x1aapplication/x-amz-json-1.1\r:message-type\x07\0\x05event{\"sessionMetadata\":{\"sampled\":false},\"sessionResults\":[]}v\x0f\x8aw";

const TWO_UPDATES: &[u8] = b"\0\0\x01\x75\0\0\0]\x8f\x9f\x98\x16\x0b:event-type\x07\0\rsessionUpdate\r:content-type\x07\0\x1aapplication/x-amz-json-1.1\r:message-type\x07\0\x05event{\"sessionMetadata\":{\"sampled\":false},\"sessionResults\":[{\"ingestionTime\":1,\"logGroupIdentifier\":\"group\",\"logStreamName\":\"stream\",\"message\":\"msg\",\"timestamp\":2},{\"ingestionTime\":3,\"logGroupIdentifier\":\"group\",\"logStreamName\":\"stream\",\"message\":\"ms2\",\"timestamp\":4}]}v\x0f\x8aw\0\0\0\xa6\0\0\0]\x8f\x9f\x98\x16\x0b:event-type\x07\0\rsessionUpdate\r:content-type\x07\0\x1aapplication/x-amz-json-1.1\r:message-type\x07\0\x05event{\"sessionMetadata\":{\"sampled\":false},\"sessionResults\":[]}v\x0f\x8aw";

/// Encodes one frame with string headers; the checksums are left arbitrary.
fn frame(headers: &[(&str, &[u8])], payload: &[u8]) -> Vec<u8> {
    let mut block = Vec::new();
    for (name, value) in headers {
        block.push(name.len() as u8);
        block.extend_from_slice(name.as_bytes());
        block.push(7);
        block.extend_from_slice(&(value.len() as u16).to_be_bytes());
        block.extend_from_slice(value);
    }
    let total = 16 + block.len() + payload.len();
    let mut out = Vec::new();
    out.extend_from_slice(&(total as u32).to_be_bytes());
    out.extend_from_slice(&(block.len() as u32).to_be_bytes());
    out.extend_from_slice(&[1, 2, 3, 4]);
    out.extend_from_slice(&block);
    out.extend_from_slice(payload);
    out.extend_from_slice(&[5, 6, 7, 8]);
    out
}

fn session_frame(payload: &str) -> Vec<u8> {
    frame(
        &[
            (":event-type", b"sessionUpdate"),
            (":content-type", b"application/x-amz-json-1.1"),
            (":message-type", b"event"),
        ],
        payload.as_bytes(),
    )
}

/// Feeds `chunks` to a decoder as the protocol asks: drain, then add.
fn decode_chunks(chunks: &[&[u8]]) -> (Vec<String>, Option<Error>) {
    let mut parser = EventStreamParser::new();
    let mut out = Vec::new();
    for chunk in chunks {
        loop {
            match parser.get() {
                Ok(Some(p)) => out.push(p),
                Ok(None) => break,
                Err(e) => return (out, Some(e)),
            }
        }
        parser.add(Bytes::copy_from_slice(chunk));
    }
    loop {
        match parser.get() {
            Ok(Some(p)) => out.push(p),
            Ok(None) => return (out, None),
            Err(e) => return (out, Some(e)),
        }
    }
}

fn byte_chunks(input: &[u8]) -> Vec<&[u8]> {
    input.chunks(1).collect()
}

fn session_update(payload: &str) -> SessionUpdate {
    let v: serde_json::Value = serde_json::from_str(payload).expect("session update JSON");
    let results = v["sessionResults"]
        .as_array()
        .expect("sessionResults")
        .iter()
        .map(|r| SessionResult {
            ingestion_time: r["ingestionTime"].as_u64().expect("ingestionTime"),
            log_group_identifier: r["logGroupIdentifier"].as_str().expect("logGroupIdentifier").to_string(),
            log_stream_name: r["logStreamName"].as_str().expect("logStreamName").to_string(),
            message: r["message"].as_str().expect("message").to_string(),
            timestamp: r["timestamp"].as_u64().expect("timestamp"),
        })
        .collect();
    SessionUpdate {
        session_metadata: SessionMetadata {
            sampled: v["sessionMetadata"]["sampled"].as_bool().expect("sampled"),
        },
        session_results: results,
    }
}

/// Runs a live-tail session over `chunks`, answering each record with
/// `answer`; returns the records delivered and how the session ended.
fn drive(chunks: Vec<Vec<u8>>, mut answer: impl FnMut(&SessionResult) -> bool) -> (Vec<(u64, String)>, Result<(), Error>) {
    let mut tail = LiveTail::new();
    let mut chunks = chunks.into_iter();
    let mut seen = Vec::new();
    loop {
        match tail.next_action() {
            TailAction::Deliver(r) => {
                let keep_going = answer(&r);
                seen.push((r.ingestion_time, r.message));
                tail.consumed(keep_going);
            },
            TailAction::Decode(p) => tail.updated(session_update(&p)),
            TailAction::Read => match chunks.next() {
                Some(c) => tail.received(Bytes::from(c)),
                None => tail.ended(),
            },
            TailAction::Finish => return (seen, Ok(())),
            TailAction::Fail(e) => return (seen, Err(e)),
        }
    }
}

#[test]
fn event_stream_parser() {
    let (payloads, error) = decode_chunks(&byte_chunks(ONE_EMPTY_UPDATE));
    assert!(error.is_none());
    assert_eq!(payloads, vec!["{\"sessionMetadata\":{\"sampled\":false},\"sessionResults\":[]}".to_string()]);
}

#[test]
fn event_stream_and_message() {
    let chunks: Vec<Vec<u8>> = TWO_UPDATES.iter().map(|b| vec![*b]).collect();
    let mut tail = LiveTail::new();
    let mut chunks = chunks.into_iter();
    let mut records = Vec::new();
    loop {
        match tail.next_action() {
            TailAction::Deliver(r) => {
                records.push(r);
                tail.consumed(true);
            },
            TailAction::Decode(p) => tail.updated(session_update(&p)),
            TailAction::Read => match chunks.next() {
                Some(c) => tail.received(Bytes::from(c)),
                None => tail.ended(),
            },
            TailAction::Finish => break,
            TailAction::Fail(e) => panic!("{e:?}"),
        }
    }
    assert_eq!(records.len(), 2);
    let sr = &records[0];
    assert_eq!(sr.ingestion_time, 1);
    assert_eq!(sr.log_group_identifier, "group");
    assert_eq!(sr.log_stream_name, "stream");
    assert_eq!(sr.message, "msg");
    assert_eq!(sr.timestamp, 2);
    let sr = &records[1];
    assert_eq!(sr.ingestion_time, 3);
    assert_eq!(sr.log_group_identifier, "group");
    assert_eq!(sr.log_stream_name, "stream");
    assert_eq!(sr.message, "ms2");
    assert_eq!(sr.timestamp, 4);
}

#[test]
fn chunking_does_not_change_the_payloads() {
    let whole = decode_chunks(&[TWO_UPDATES]);
    let bytewise = decode_chunks(&byte_chunks(TWO_UPDATES));
    let (a, b) = TWO_UPDATES.split_at(7);
    let (b, c) = b.split_at(200);
    let uneven = decode_chunks(&[a, b, &[], c]);
    assert_eq!(whole.0.len(), 2);
    assert!(whole.1.is_none() && bytewise.1.is_none() && uneven.1.is_none());
    assert_eq!(whole.0, bytewise.0);
    assert_eq!(whole.0, uneven.0);
}

#[test]
fn payload_waits_for_its_last_byte() {
    let (head, last) = ONE_EMPTY_UPDATE.split_at(ONE_EMPTY_UPDATE.len() - 5);
    let mut parser = EventStreamParser::new();
    assert!(matches!(parser.get(), Ok(None)));
    parser.add(Bytes::copy_from_slice(head));
    assert!(matches!(parser.get(), Ok(None)));
    parser.add(Bytes::copy_from_slice(&last[..1]));
    assert_eq!(
        parser.get().unwrap().as_deref(),
        Some("{\"sessionMetadata\":{\"sampled\":false},\"sessionResults\":[]}")
    );
    assert!(matches!(parser.get(), Ok(None)));
    parser.add(Bytes::copy_from_slice(&last[1..]));
    assert!(matches!(parser.get(), Ok(None)));
}

#[test]
fn other_event_types_are_skipped() {
    let mut input = frame(
        &[(":event-type", b"sessionStart"), (":content-type", b"application/x-amz-json-1.1")],
        b"{\"requestId\":\"r\"}",
    );
    input.extend(session_frame("{\"n\":1}"));
    let (payloads, error) = decode_chunks(&byte_chunks(&input));
    assert!(error.is_none());
    assert_eq!(payloads, vec!["{\"n\":1}".to_string()]);
}

#[test]
fn frame_without_event_type_is_skipped() {
    let mut input = frame(&[], b"ignored");
    input.extend(session_frame("x"));
    let (payloads, error) = decode_chunks(&[&input]);
    assert!(error.is_none());
    assert_eq!(payloads, vec!["x".to_string()]);
}

#[test]
fn foreign_content_type_is_fatal() {
    let input = frame(
        &[(":event-type", b"sessionUpdate"), (":content-type", b"text/plain")],
        b"{\"sessionMetadata\":{\"sampled\":false},\"sessionResults\":[]}",
    );
    let (payloads, error) = decode_chunks(&byte_chunks(&input));
    assert!(payloads.is_empty());
    match error {
        Some(Error::UnexpectedStreamContentType(v)) => assert_eq!(v, "text/plain"),
        other => panic!("unexpected outcome {other:?}"),
    }
}

#[test]
fn foreign_content_type_is_fatal_even_with_a_bad_payload() {
    let input = frame(&[(":content-type", b"application/json")], b"\xff\xfe");
    let (payloads, error) = decode_chunks(&[&input]);
    assert!(payloads.is_empty());
    assert!(matches!(error, Some(Error::UnexpectedStreamContentType(v)) if v == "application/json"));
}

#[test]
fn non_string_header_type_is_fatal_before_its_value() {
    // The header block stops right after the type tag: no value bytes exist.
    let input: Vec<u8> = vec![0, 0, 0, 40, 0, 0, 0, 20, 1, 2, 3, 4, 2, b'a', b'b', 4];
    let (payloads, error) = decode_chunks(&byte_chunks(&input));
    assert!(payloads.is_empty());
    assert!(matches!(error, Some(Error::UnsupportedStreamHeaderType(4))));
}

#[test]
fn consecutive_frames_start_clean() {
    let mut input = session_frame("first");
    input.extend(frame(&[(":event-type", b"other")], b"skipped"));
    input.extend(session_frame("second"));
    input.extend(session_frame(""));
    let (payloads, error) = decode_chunks(&byte_chunks(&input));
    assert!(error.is_none());
    assert_eq!(payloads, vec!["first".to_string(), "second".to_string(), String::new()]);
}

#[test]
fn frame_shorter_than_its_prelude_is_malformed() {
    let input: Vec<u8> = vec![0, 0, 0, 15, 0, 0, 0, 0];
    let (_, error) = decode_chunks(&[&input]);
    assert!(matches!(error, Some(Error::StreamParse(_))));
}

#[test]
fn header_block_longer_than_frame_is_malformed() {
    let input: Vec<u8> = vec![0, 0, 0, 20, 0, 0, 0, 5, 1, 2, 3, 4];
    let (_, error) = decode_chunks(&[&input]);
    assert!(matches!(error, Some(Error::StreamParse(_))));
}

#[test]
fn header_value_longer_than_its_block_is_malformed() {
    let mut input = frame(&[("ab", b"cd")], b"");
    // Declare a value of 9 bytes where the block holds 2.
    input[16] = 0;
    input[17] = 9;
    let (_, error) = decode_chunks(&[&input]);
    assert!(matches!(error, Some(Error::StreamParse(_))));
}

#[test]
fn invalid_utf8_payload_is_fatal() {
    let input = frame(&[(":event-type", b"sessionUpdate")], b"\xc3\x28");
    let (payloads, error) = decode_chunks(&[&input]);
    assert!(payloads.is_empty());
    assert!(matches!(error, Some(Error::Utf8)));
}

#[test]
fn invalid_utf8_header_name_is_fatal() {
    let mut input = frame(&[("ab", b"cd")], b"");
    input[13] = 0xff;
    let (_, error) = decode_chunks(&[&input]);
    assert!(matches!(error, Some(Error::Utf8)));
}

#[test]
fn header_state_names_its_frame_state() {
    assert_eq!(
        HeaderParserState::BeforeValue(3).to_state(9),
        ParserState::Header { len: 9, state: HeaderParserState::BeforeValue(3) }
    );
}

fn record(time: u64, message: &str) -> SessionResult {
    SessionResult {
        ingestion_time: time,
        log_group_identifier: "g".to_string(),
        log_stream_name: "s".to_string(),
        message: message.to_string(),
        timestamp: time + 1,
    }
}

#[test]
fn message_parser_keeps_document_order() {
    let mut queue = MessageParser::new();
    assert!(queue.is_empty());
    queue.add(SessionUpdate {
        session_metadata: SessionMetadata { sampled: false },
        session_results: vec![record(1, "a"), record(2, "b"), record(3, "c")],
    });
    let mut seen = Vec::new();
    while let Some(r) = queue.next() {
        seen.push(r.message);
    }
    assert_eq!(seen, vec!["a", "b", "c"]);
    assert!(queue.is_empty());
    assert!(queue.next().is_none());
}

#[test]
fn records_of_an_update_come_before_the_next_payload() {
    let mut input = session_frame(
        "{\"sessionMetadata\":{\"sampled\":true},\"sessionResults\":[{\"ingestionTime\":5,\"logGroupIdentifier\":\"g\",\"logStreamName\":\"s\",\"message\":\"one\",\"timestamp\":6},{\"ingestionTime\":7,\"logGroupIdentifier\":\"g\",\"logStreamName\":\"s\",\"message\":\"two\",\"timestamp\":8},{\"ingestionTime\":9,\"logGroupIdentifier\":\"g\",\"logStreamName\":\"s\",\"message\":\"three\",\"timestamp\":10}]}",
    );
    input.extend(session_frame("not json at all"));
    let mut tail = LiveTail::new();
    let mut fed = false;
    let mut actions = Vec::new();
    loop {
        match tail.next_action() {
            TailAction::Deliver(r) => {
                actions.push(format!("deliver {}", r.message));
                tail.consumed(true);
            },
            TailAction::Decode(p) => {
                actions.push("decode".to_string());
                if p == "not json at all" {
                    break;
                }
                tail.updated(session_update(&p));
            },
            TailAction::Read => {
                assert!(!fed);
                fed = true;
                tail.received(Bytes::from(input.clone()));
            },
            other => panic!("unexpected {other:?}"),
        }
    }
    assert_eq!(actions, vec!["decode", "deliver one", "deliver two", "deliver three", "decode"]);
}

#[test]
fn consumer_stop_ends_delivery() {
    let mut input = session_frame(
        "{\"sessionMetadata\":{\"sampled\":false},\"sessionResults\":[{\"ingestionTime\":1,\"logGroupIdentifier\":\"g\",\"logStreamName\":\"s\",\"message\":\"a\",\"timestamp\":1},{\"ingestionTime\":2,\"logGroupIdentifier\":\"g\",\"logStreamName\":\"s\",\"message\":\"b\",\"timestamp\":2}]}",
    );
    input.extend(session_frame(
        "{\"sessionMetadata\":{\"sampled\":false},\"sessionResults\":[{\"ingestionTime\":3,\"logGroupIdentifier\":\"g\",\"logStreamName\":\"s\",\"message\":\"c\",\"timestamp\":3}]}",
    ));
    let mut count = 0;
    let (seen, end) = drive(vec![input], |_| {
        count += 1;
        count < 2
    });
    assert!(end.is_ok());
    assert_eq!(seen, vec![(1, "a".to_string()), (2, "b".to_string())]);
}

#[test]
fn consumer_stop_on_first_record() {
    let chunks: Vec<Vec<u8>> = TWO_UPDATES.chunks(3).map(|c| c.to_vec()).collect();
    let (seen, end) = drive(chunks, |_| false);
    assert!(end.is_ok());
    assert_eq!(seen, vec![(1, "msg".to_string())]);
}

#[test]
fn end_to_end_two_records_then_end() {
    let chunks: Vec<Vec<u8>> = TWO_UPDATES.iter().map(|b| vec![*b]).collect();
    let mut calls = 0;
    let (seen, end) = drive(chunks, |_| {
        calls += 1;
        true
    });
    assert!(end.is_ok());
    assert_eq!(calls, 2);
    assert_eq!(seen, vec![(1, "msg".to_string()), (3, "ms2".to_string())]);
}

#[test]
fn session_reports_decoding_failure() {
    let input = frame(&[(":content-type", b"text/html")], b"<html>");
    let (seen, end) = drive(vec![input], |_| true);
    assert!(seen.is_empty());
    assert!(matches!(end, Err(Error::UnexpectedStreamContentType(v)) if v == "text/html"));
}

#[test]
fn empty_body_finishes_without_records() {
    let (seen, end) = drive(vec![], |_| true);
    assert!(end.is_ok());
    assert!(seen.is_empty());
}

#[test]
fn other_event_types_give_no_records() {
    let mut input = frame(&[(":event-type", b"sessionStart")], b"{\"x\":1}");
    input.extend(frame(&[(":message-type", b"event")], b"{}"));
    let chunks: Vec<Vec<u8>> = input.chunks(5).map(|c| c.to_vec()).collect();
    let (seen, end) = drive(chunks, |_| true);
    assert!(end.is_ok());
    assert!(seen.is_empty());
}
