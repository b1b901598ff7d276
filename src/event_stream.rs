//! A whole-input model of the event-stream frame decoder.
//!
//! `run` decodes a byte sequence as if it had arrived at once; the
//! incremental decoder in `live_tail_parser` is proved to agree with it on
//! every prefix of its input, however that input was cut into chunks.

use vstd::prelude::*;
use vstd::utf8::*;
use vstd::string::StringSliceAdditionalSpecFns;
use crate::live_tail_parser::{HeaderParserState, ParserState};

verus! {

/// The header name whose value must be the JSON content type.
pub open spec fn content_type_name() -> Seq<u8> {
    ":content-type".spec_bytes()
}

/// The only content type a frame may declare.
pub open spec fn json_content_type() -> Seq<u8> {
    "application/x-amz-json-1.1".spec_bytes()
}

/// The header name that tells what a frame carries.
pub open spec fn event_type_name() -> Seq<u8> {
    ":event-type".spec_bytes()
}

/// The event type whose payload is surfaced.
pub open spec fn session_update_type() -> Seq<u8> {
    "sessionUpdate".spec_bytes()
}

/// The wire tag of a string header value.
pub const STRING_VALUE_TYPE: u8 = 7;

/// Big-endian value of two bytes.
pub open spec fn be_u16(b: Seq<u8>) -> nat {
    b[0] as nat * 256 + b[1] as nat
}

/// Big-endian value of four bytes.
pub open spec fn be_u32(b: Seq<u8>) -> nat {
    b[0] as nat * 16777216 + b[1] as nat * 65536 + b[2] as nat * 256 + b[3] as nat
}

/// Why decoding stopped for good.
pub enum Fault {
    /// A string field is not valid UTF-8.
    Utf8,
    /// A header value has a type other than string.
    UnsupportedHeaderType(u8),
    /// The content-type header names something other than JSON.
    UnexpectedContentType(Seq<char>),
    /// A declared length does not fit in the length that encloses it.
    Malformed,
    /// The decoder's own bookkeeping is inconsistent: bytes are still expected
    /// of a frame at its end, or a header value comes without its name.
    Internal,
}

/// The decoder between two fields: where it is in the frame, how many bytes
/// of the frame are still to come, the last header name read, and whether
/// the frame was declared a session update.
pub struct Decoder {
    pub state: ParserState,
    pub remain: nat,
    pub name: Option<Seq<u8>>,
    pub session: bool,
}

/// The decoder before the first byte of a stream.
pub open spec fn initial_decoder() -> Decoder {
    Decoder { state: ParserState::BeforeLength, remain: 0, name: None, session: false }
}

/// How many bytes the next field of `d` takes.
pub open spec fn need(d: Decoder) -> nat {
    match d.state {
        ParserState::Header { len, state } => match state {
            HeaderParserState::BeforeNameLength => if len == 0 { 0 } else { 1 },
            HeaderParserState::BeforeName(n) => n as nat,
            HeaderParserState::BeforeValueType => 1,
            HeaderParserState::BeforeValueLength => 2,
            HeaderParserState::BeforeValue(n) => n as nat,
        },
        ParserState::Message => if d.remain >= 4 { (d.remain - 4) as nat } else { 0 },
        _ => 4,
    }
}

/// Orders the states that take no bytes, so that decoding always moves on.
pub open spec fn rank(d: Decoder) -> nat {
    match d.state {
        ParserState::Header { len, state } => match state {
            HeaderParserState::BeforeNameLength => if len == 0 { 2 } else { 0 },
            HeaderParserState::BeforeName(_) => 1,
            HeaderParserState::BeforeValue(_) => 3,
            _ => 0,
        },
        ParserState::Message => 1,
        _ => 0,
    }
}

/// The outcome of decoding one field.
pub enum Step {
    /// The decoder after the field, and the payload it surfaced, if any.
    Next(Decoder, Option<Seq<char>>),
    Fail(Fault),
}

/// The decoder in header state `st` with `len` header bytes left.
pub open spec fn in_header(d: Decoder, len: int, st: HeaderParserState, used: nat) -> Decoder {
    Decoder { state: ParserState::Header { len: len as u32, state: st }, remain: (d.remain - used) as nat, ..d }
}

/// Decodes the field `b` (of `need(d)` bytes) in state `d`.
pub open spec fn step(d: Decoder, b: Seq<u8>) -> Step {
    match d.state {
        ParserState::BeforeLength => {
            let total = be_u32(b);
            if total < 16 {
                Step::Fail(Fault::Malformed)
            } else {
                Step::Next(
                    Decoder { state: ParserState::BeforeHeaderLength, remain: (total - 4) as nat, ..d },
                    None,
                )
            }
        },
        ParserState::BeforeHeaderLength => {
            let header_len = be_u32(b);
            if header_len + 12 > d.remain {
                Step::Fail(Fault::Malformed)
            } else {
                Step::Next(
                    Decoder {
                        state: ParserState::BeforePreludeCRC { header_len: header_len as u32 },
                        remain: (d.remain - 4) as nat,
                        ..d
                    },
                    None,
                )
            }
        },
        ParserState::BeforePreludeCRC { header_len } => Step::Next(
            in_header(d, header_len as int, HeaderParserState::BeforeNameLength, 4),
            None,
        ),
        ParserState::Header { len, state } => {
            if len == 0 && state == HeaderParserState::BeforeNameLength {
                Step::Next(Decoder { state: ParserState::Message, ..d }, None)
            } else {
                match state {
                    HeaderParserState::BeforeNameLength => {
                        let n = b[0];
                        if n as int + 4 > len {
                            Step::Fail(Fault::Malformed)
                        } else {
                            Step::Next(in_header(d, len - 1, HeaderParserState::BeforeName(n), 1), None)
                        }
                    },
                    HeaderParserState::BeforeName(n) => {
                        if !valid_utf8(b) {
                            Step::Fail(Fault::Utf8)
                        } else {
                            Step::Next(
                                Decoder {
                                    name: Some(b),
                                    ..in_header(d, len - n, HeaderParserState::BeforeValueType, n as nat)
                                },
                                None,
                            )
                        }
                    },
                    HeaderParserState::BeforeValueType => {
                        let t = b[0];
                        if t != STRING_VALUE_TYPE {
                            Step::Fail(Fault::UnsupportedHeaderType(t))
                        } else {
                            Step::Next(in_header(d, len - 1, HeaderParserState::BeforeValueLength, 1), None)
                        }
                    },
                    HeaderParserState::BeforeValueLength => {
                        let v = be_u16(b);
                        if v + 2 > len {
                            Step::Fail(Fault::Malformed)
                        } else {
                            Step::Next(in_header(d, len - 2, HeaderParserState::BeforeValue(v as u16), 2), None)
                        }
                    },
                    HeaderParserState::BeforeValue(n) => {
                        if !valid_utf8(b) {
                            Step::Fail(Fault::Utf8)
                        } else if d.name is None {
                            Step::Fail(Fault::Internal)
                        } else {
                            let name = d.name->0;
                            if name == content_type_name() && b != json_content_type() {
                                Step::Fail(Fault::UnexpectedContentType(decode_utf8(b)))
                            } else {
                                Step::Next(
                                    Decoder {
                                        name: None,
                                        session: d.session || (name == event_type_name() && b == session_update_type()),
                                        ..in_header(d, len - n, HeaderParserState::BeforeNameLength, n as nat)
                                    },
                                    None,
                                )
                            }
                        }
                    },
                }
            }
        },
        ParserState::Message => {
            if d.remain < 4 {
                Step::Fail(Fault::Internal)
            } else if !valid_utf8(b) {
                Step::Fail(Fault::Utf8)
            } else {
                Step::Next(
                    Decoder { state: ParserState::BeforeCRC, remain: 4, ..d },
                    if d.session { Some(decode_utf8(b)) } else { None },
                )
            }
        },
        ParserState::BeforeCRC => {
            if d.remain != 4 {
                Step::Fail(Fault::Internal)
            } else {
                Step::Next(
                    Decoder { state: ParserState::BeforeLength, remain: 0, session: false, ..d },
                    None,
                )
            }
        },
    }
}

/// Where decoding of a byte sequence stopped.
pub enum RunEnd {
    /// The decoder, and the bytes that do not yet make up its next field.
    Waiting(Decoder, Seq<u8>),
    Failed(Fault),
}

/// The payloads surfaced while decoding a byte sequence, and where it stopped.
pub struct Run {
    pub outs: Seq<Seq<char>>,
    pub end: RunEnd,
}

/// `r` with the payload `out` (if any) surfaced before it.
pub open spec fn prepend(out: Option<Seq<char>>, r: Run) -> Run {
    match out {
        Some(o) => Run { outs: seq![o] + r.outs, end: r.end },
        None => r,
    }
}

/// `r` with the payloads `outs` surfaced before it.
pub open spec fn glue(outs: Seq<Seq<char>>, r: Run) -> Run {
    Run { outs: outs + r.outs, end: r.end }
}

/// Decodes `input` from `d`, field by field, until a fault or until the
/// bytes left do not make up the next field.
pub open spec fn run(d: Decoder, input: Seq<u8>) -> Run
    decreases input.len(), rank(d),
{
    let k = need(d);
    if input.len() < k {
        Run { outs: Seq::empty(), end: RunEnd::Waiting(d, input) }
    } else {
        match step(d, input.take(k as int)) {
            Step::Fail(f) => Run { outs: Seq::empty(), end: RunEnd::Failed(f) },
            Step::Next(next, out) => prepend(out, run(next, input.skip(k as int))),
        }
    }
}

/// `r` continued on `more` bytes: a stream that failed stays failed, one
/// that waits decodes its leftover bytes followed by `more`.
pub open spec fn resume(r: Run, more: Seq<u8>) -> Run {
    match r.end {
        RunEnd::Waiting(d, rest) => glue(r.outs, run(d, rest + more)),
        RunEnd::Failed(_) => r,
    }
}

/// The decoder driven chunk by chunk, as the incremental decoder is: each
/// chunk is appended to the bytes left over and decoded as far as it goes.
pub open spec fn feed(chunks: Seq<Seq<u8>>) -> Run
    decreases chunks.len(),
{
    if chunks.len() == 0 {
        run(initial_decoder(), Seq::empty())
    } else {
        resume(feed(chunks.drop_last()), chunks.last())
    }
}

/// Decoding `a` and then `b` is decoding `a + b`.
pub proof fn lemma_run_append(d: Decoder, a: Seq<u8>, b: Seq<u8>)
    ensures
        run(d, a + b) == resume(run(d, a), b),
    decreases a.len(), rank(d),
{
    let k = need(d);
    if a.len() < k {
        assert(glue(Seq::empty(), run(d, a + b)).outs =~= run(d, a + b).outs);
    } else {
        assert((a + b).take(k as int) =~= a.take(k as int));
        assert((a + b).skip(k as int) =~= a.skip(k as int) + b);
        match step(d, a.take(k as int)) {
            Step::Fail(f) => {},
            Step::Next(next, out) => {
                lemma_run_append(next, a.skip(k as int), b);
                let inner = run(next, a.skip(k as int));
                match inner.end {
                    RunEnd::Waiting(d2, rest) => {
                        let tail = run(d2, rest + b);
                        match out {
                            Some(o) => {
                                assert(seq![o] + (inner.outs + tail.outs) =~= (seq![o] + inner.outs) + tail.outs);
                            },
                            None => {},
                        }
                    },
                    RunEnd::Failed(_) => {},
                }
            },
        }
    }
}

/// How the input is cut into chunks does not change what is decoded: feeding
/// the chunks one by one gives the payloads and the final state of decoding
/// their concatenation at once.
pub proof fn lemma_chunking_invariant(chunks: Seq<Seq<u8>>)
    ensures
        feed(chunks) == run(initial_decoder(), chunks.flatten()),
    decreases chunks.len(),
{
    chunks.lemma_flatten_and_flatten_alt_are_equivalent();
    if chunks.len() > 0 {
        let init = chunks.drop_last();
        lemma_chunking_invariant(init);
        init.lemma_flatten_and_flatten_alt_are_equivalent();
        lemma_run_append(initial_decoder(), init.flatten(), chunks.last());
    } else {
        assert(chunks.flatten() =~= Seq::<u8>::empty());
    }
}

/// Two ways of cutting the same bytes into chunks decode alike.
pub proof fn lemma_chunkings_agree(c1: Seq<Seq<u8>>, c2: Seq<Seq<u8>>)
    requires
        c1.flatten() == c2.flatten(),
    ensures
        feed(c1) == feed(c2),
{
    lemma_chunking_invariant(c1);
    lemma_chunking_invariant(c2);
}

/// The length bookkeeping that decoding keeps between fields: the bytes still
/// expected of the frame cover every field still to come, and a header value
/// is only ever read after its name.
pub open spec fn dec_wf(d: Decoder) -> bool {
    match d.state {
        ParserState::BeforeLength => d.remain == 0,
        ParserState::BeforeHeaderLength => d.remain >= 12,
        ParserState::BeforePreludeCRC { header_len } => d.remain >= header_len + 8,
        ParserState::Header { len, state } => {
            &&& d.remain >= len + 4
            &&& match state {
                HeaderParserState::BeforeNameLength => true,
                HeaderParserState::BeforeName(n) => n + 3 <= len,
                HeaderParserState::BeforeValueType => len >= 3 && d.name is Some,
                HeaderParserState::BeforeValueLength => len >= 2 && d.name is Some,
                HeaderParserState::BeforeValue(n) => n <= len && d.name is Some,
            }
        },
        ParserState::Message => d.remain >= 4,
        ParserState::BeforeCRC => d.remain == 4,
    }
}

/// One field keeps the bookkeeping, and never trips the end-of-frame checks.
pub proof fn lemma_step_wf(d: Decoder, b: Seq<u8>)
    requires
        dec_wf(d),
        b.len() == need(d),
    ensures
        step(d, b) matches Step::Next(next, _) ==> dec_wf(next),
        step(d, b) matches Step::Fail(f) ==> f !is Internal,
{
}

/// Decoding from a well-kept state keeps it, and never trips the
/// end-of-frame checks.
pub proof fn lemma_run_wf(d: Decoder, input: Seq<u8>)
    requires
        dec_wf(d),
    ensures
        run(d, input).end matches RunEnd::Waiting(next, _) ==> dec_wf(next),
        run(d, input).end matches RunEnd::Failed(f) ==> f !is Internal,
    decreases input.len(), rank(d),
{
    let k = need(d);
    if input.len() >= k {
        lemma_step_wf(d, input.take(k as int));
        if let Step::Next(next, _) = step(d, input.take(k as int)) {
            lemma_run_wf(next, input.skip(k as int));
        }
    }
}

/// Whatever the input, the count of bytes still expected of a frame is
/// exactly zero when its trailing checksum has been read: decoding a stream
/// never ends in the internal-invariant fault.
pub proof fn lemma_no_internal_fault(input: Seq<u8>)
    ensures
        !(run(initial_decoder(), input).end matches RunEnd::Failed(f) && f is Internal),
{
    lemma_run_wf(initial_decoder(), input);
}

/// Reading the trailing checksum of a frame leaves nothing expected of it
/// and starts the next frame afresh.
pub proof fn lemma_frame_end(d: Decoder, checksum: Seq<u8>)
    requires
        dec_wf(d),
        d.state is BeforeCRC,
        checksum.len() == 4,
    ensures
        step(d, checksum) == Step::Next(
            Decoder { state: ParserState::BeforeLength, remain: 0, session: false, ..d },
            None,
        ),
{
}

/// A header value whose type tag is not the string tag stops decoding with
/// that tag as soon as the tag is read, whatever bytes follow it.
pub proof fn lemma_unsupported_value_type(d: Decoder, tag: u8, rest: Seq<u8>)
    requires
        d.state matches ParserState::Header { len, state } && state == HeaderParserState::BeforeValueType,
        tag != STRING_VALUE_TYPE,
    ensures
        run(d, seq![tag] + rest) == (Run {
            outs: Seq::empty(),
            end: RunEnd::Failed(Fault::UnsupportedHeaderType(tag)),
        }),
{
    assert((seq![tag] + rest).take(1) =~= seq![tag]);
}

/// The big-endian encoding of a length below 2^32.
pub open spec fn u32_be_bytes(n: nat) -> Seq<u8> {
    seq![(n / 16777216) as u8, (n / 65536 % 256) as u8, (n / 256 % 256) as u8, (n % 256) as u8]
}

/// The big-endian encoding of a length below 2^16.
pub open spec fn u16_be_bytes(n: nat) -> Seq<u8> {
    seq![(n / 256) as u8, (n % 256) as u8]
}

proof fn lemma_u32_be_bytes(n: nat)
    requires
        n < 4294967296,
    ensures
        be_u32(u32_be_bytes(n)) == n,
{
    let b = u32_be_bytes(n);
    assert(b[0] as nat == n / 16777216);
    assert(b[1] as nat == n / 65536 % 256);
    assert(b[2] as nat == n / 256 % 256);
    assert(b[3] as nat == n % 256);
}

proof fn lemma_u16_be_bytes(n: nat)
    requires
        n < 65536,
    ensures
        be_u16(u16_be_bytes(n)) == n,
{
    let b = u16_be_bytes(n);
    assert(b[0] as nat == n / 256);
    assert(b[1] as nat == n % 256);
}

/// One header of a frame: its name and its string value, as bytes.
pub struct HeaderField {
    pub name: Seq<u8>,
    pub value: Seq<u8>,
}

/// A header that the wire format can carry: a name of fewer than 256 bytes,
/// a value of fewer than 65536, both UTF-8.
pub open spec fn header_ok(h: HeaderField) -> bool {
    &&& h.name.len() < 256
    &&& h.value.len() < 65536
    &&& valid_utf8(h.name)
    &&& valid_utf8(h.value)
}

/// The wire form of one header: name length, name, the string tag, value
/// length, value.
pub open spec fn header_bytes(h: HeaderField) -> Seq<u8> {
    seq![h.name.len() as u8] + h.name + seq![STRING_VALUE_TYPE] + u16_be_bytes(h.value.len()) + h.value
}

/// The wire form of a header block.
pub open spec fn headers_bytes(hs: Seq<HeaderField>) -> Seq<u8>
    decreases hs.len(),
{
    if hs.len() == 0 {
        Seq::empty()
    } else {
        header_bytes(hs[0]) + headers_bytes(hs.drop_first())
    }
}

/// The wire form of a frame: total length, header block length, prelude
/// checksum, headers, payload, trailing checksum. The checksums are not
/// checked, so any four bytes do.
pub open spec fn frame_bytes(hs: Seq<HeaderField>, payload: Seq<u8>, prelude_crc: Seq<u8>, crc: Seq<u8>) -> Seq<u8> {
    let hb = headers_bytes(hs);
    u32_be_bytes(16 + hb.len() + payload.len()) + u32_be_bytes(hb.len()) + prelude_crc + hb + payload + crc
}

/// A frame that the wire format can carry.
pub open spec fn frame_ok(hs: Seq<HeaderField>, payload: Seq<u8>, prelude_crc: Seq<u8>, crc: Seq<u8>) -> bool {
    &&& forall|i: int| 0 <= i < hs.len() ==> header_ok(#[trigger] hs[i])
    &&& prelude_crc.len() == 4
    &&& crc.len() == 4
    &&& 16 + headers_bytes(hs).len() + payload.len() < 4294967296
}

/// The value of the first content-type header that does not name JSON.
pub open spec fn content_type_fault(hs: Seq<HeaderField>) -> Option<Seq<char>>
    decreases hs.len(),
{
    if hs.len() == 0 {
        None
    } else if hs[0].name == content_type_name() && hs[0].value != json_content_type() {
        Some(decode_utf8(hs[0].value))
    } else {
        content_type_fault(hs.drop_first())
    }
}

/// Whether a header declares the frame a session update.
pub open spec fn declares_session(hs: Seq<HeaderField>) -> bool
    decreases hs.len(),
{
    if hs.len() == 0 {
        false
    } else {
        (hs[0].name == event_type_name() && hs[0].value == session_update_type())
            || declares_session(hs.drop_first())
    }
}

/// What decoding a frame with headers `hs` and payload `payload`, then the
/// bytes `rest`, gives: a content type other than JSON fails whatever the
/// payload; otherwise a payload that is not UTF-8 fails; otherwise the
/// payload is surfaced when the frame is a session update, and decoding
/// goes on with `rest` from a fresh start.
pub open spec fn frame_then(hs: Seq<HeaderField>, payload: Seq<u8>, rest: Seq<u8>) -> Run {
    match content_type_fault(hs) {
        Some(v) => Run { outs: Seq::empty(), end: RunEnd::Failed(Fault::UnexpectedContentType(v)) },
        None => if !valid_utf8(payload) {
            Run { outs: Seq::empty(), end: RunEnd::Failed(Fault::Utf8) }
        } else {
            prepend(
                if declares_session(hs) { Some(decode_utf8(payload)) } else { None },
                run(initial_decoder(), rest),
            )
        },
    }
}

/// Decoding one whole field `b` and then `rest`.
proof fn lemma_run_field(d: Decoder, b: Seq<u8>, rest: Seq<u8>)
    requires
        b.len() == need(d),
    ensures
        run(d, b + rest) == match step(d, b) {
            Step::Fail(f) => Run { outs: Seq::empty(), end: RunEnd::Failed(f) },
            Step::Next(next, out) => prepend(out, run(next, rest)),
        },
{
    assert((b + rest).take(b.len() as int) =~= b);
    assert((b + rest).skip(b.len() as int) =~= rest);
}

/// Decoding a header block of valid headers, then `rest`.
#[verifier::rlimit(100)]
#[verifier::spinoff_prover]
proof fn lemma_run_headers(d: Decoder, hs: Seq<HeaderField>, rest: Seq<u8>)
    requires
        d.state == (ParserState::Header { len: headers_bytes(hs).len() as u32, state: HeaderParserState::BeforeNameLength }),
        headers_bytes(hs).len() < 4294967296,
        d.remain >= headers_bytes(hs).len() + 4,
        d.name is None,
        forall|i: int| 0 <= i < hs.len() ==> header_ok(#[trigger] hs[i]),
    ensures
        run(d, headers_bytes(hs) + rest) == match content_type_fault(hs) {
            Some(v) => Run { outs: Seq::empty(), end: RunEnd::Failed(Fault::UnexpectedContentType(v)) },
            None => run(
                Decoder {
                    state: ParserState::Header { len: 0, state: HeaderParserState::BeforeNameLength },
                    remain: (d.remain - headers_bytes(hs).len()) as nat,
                    name: None,
                    session: d.session || declares_session(hs),
                },
                rest,
            ),
        },
    decreases hs.len(),
{
    if hs.len() == 0 {
        assert(headers_bytes(hs) + rest =~= rest);
        assert(d == Decoder {
            state: ParserState::Header { len: 0, state: HeaderParserState::BeforeNameLength },
            remain: (d.remain - headers_bytes(hs).len()) as nat,
            name: None,
            session: d.session || declares_session(hs),
        });
    } else {
        let h = hs[0];
        let tail = hs.drop_first();
        assert(header_ok(h));
        assert forall|i: int| 0 <= i < tail.len() implies header_ok(#[trigger] tail[i]) by {
            assert(tail[i] == hs[i + 1]);
        }
        let len = headers_bytes(hs).len();
        let tail_len = headers_bytes(tail).len();
        let n = h.name.len();
        let v = h.value.len();
        assert(len == 4 + n + v + tail_len);
        lemma_u16_be_bytes(v);
        let b1 = seq![n as u8];
        let b3 = seq![STRING_VALUE_TYPE];
        let b4 = u16_be_bytes(v);
        let after = headers_bytes(tail) + rest;
        assert(headers_bytes(hs) + rest =~= b1 + (h.name + (b3 + (b4 + (h.value + after)))));
        lemma_run_field(d, b1, h.name + (b3 + (b4 + (h.value + after))));
        let d1 = in_header(d, len - 1, HeaderParserState::BeforeName(n as u8), 1);
        lemma_run_field(d1, h.name, b3 + (b4 + (h.value + after)));
        let d2 = Decoder { name: Some(h.name), ..in_header(d1, len - 1 - n, HeaderParserState::BeforeValueType, n) };
        lemma_run_field(d2, b3, b4 + (h.value + after));
        let d3 = in_header(d2, len - 2 - n, HeaderParserState::BeforeValueLength, 1);
        lemma_run_field(d3, b4, h.value + after);
        let d4 = in_header(d3, len - 4 - n, HeaderParserState::BeforeValue(v as u16), 2);
        lemma_run_field(d4, h.value, after);
        if !(h.name == content_type_name() && h.value != json_content_type()) {
            let d5 = Decoder {
                name: None,
                session: d4.session || (h.name == event_type_name() && h.value == session_update_type()),
                ..in_header(d4, len - 4 - n - v, HeaderParserState::BeforeNameLength, v)
            };
            lemma_run_headers(d5, tail, rest);
        }
    }
}

/// Decoding one whole frame, then any bytes: the frame's outcome depends on
/// its headers and payload alone, and when it succeeds, decoding goes on
/// with the next bytes exactly as from the start of a stream.
#[verifier::rlimit(100)]
#[verifier::spinoff_prover]
pub proof fn lemma_decode_frame(hs: Seq<HeaderField>, payload: Seq<u8>, prelude_crc: Seq<u8>, crc: Seq<u8>, rest: Seq<u8>)
    requires
        frame_ok(hs, payload, prelude_crc, crc),
    ensures
        run(initial_decoder(), frame_bytes(hs, payload, prelude_crc, crc) + rest) == frame_then(hs, payload, rest),
{
    let hb = headers_bytes(hs);
    let total = 16 + hb.len() + payload.len();
    lemma_u32_be_bytes(total);
    lemma_u32_be_bytes(hb.len());
    let t = u32_be_bytes(total);
    let hl = u32_be_bytes(hb.len());
    let after_headers = payload + (crc + rest);
    assert(frame_bytes(hs, payload, prelude_crc, crc) + rest =~= t + (hl + (prelude_crc + (hb + after_headers))));
    let d0 = initial_decoder();
    lemma_run_field(d0, t, hl + (prelude_crc + (hb + after_headers)));
    let d1 = Decoder { state: ParserState::BeforeHeaderLength, remain: (total - 4) as nat, ..d0 };
    lemma_run_field(d1, hl, prelude_crc + (hb + after_headers));
    let d2 = Decoder {
        state: ParserState::BeforePreludeCRC { header_len: hb.len() as u32 },
        remain: (total - 8) as nat,
        ..d0
    };
    lemma_run_field(d2, prelude_crc, hb + after_headers);
    let d3 = in_header(d2, hb.len() as int, HeaderParserState::BeforeNameLength, 4);
    lemma_run_headers(d3, hs, after_headers);
    if content_type_fault(hs) is None {
        let d4 = Decoder {
            state: ParserState::Header { len: 0, state: HeaderParserState::BeforeNameLength },
            remain: (payload.len() + 4) as nat,
            name: None,
            session: declares_session(hs),
        };
        lemma_run_field(d4, Seq::empty(), after_headers);
        assert(Seq::<u8>::empty() + after_headers =~= after_headers);
        let d5 = Decoder { state: ParserState::Message, ..d4 };
        lemma_run_field(d5, payload, crc + rest);
        if valid_utf8(payload) {
            let d6 = Decoder { state: ParserState::BeforeCRC, remain: 4, ..d5 };
            lemma_run_field(d6, crc, rest);
        }
    }
}

/// A frame that is not declared a session update surfaces nothing, and the
/// frames after it decode as if it had not been there.
pub proof fn lemma_other_event_skipped(hs: Seq<HeaderField>, payload: Seq<u8>, prelude_crc: Seq<u8>, crc: Seq<u8>, rest: Seq<u8>)
    requires
        frame_ok(hs, payload, prelude_crc, crc),
        !declares_session(hs),
        content_type_fault(hs) is None,
        valid_utf8(payload),
    ensures
        run(initial_decoder(), frame_bytes(hs, payload, prelude_crc, crc) + rest) == run(initial_decoder(), rest),
{
    lemma_decode_frame(hs, payload, prelude_crc, crc, rest);
}

/// A frame whose content-type header names anything but JSON ends decoding
/// with that content type, whatever its payload holds and whatever follows.
pub proof fn lemma_content_type_fatal(hs: Seq<HeaderField>, payload: Seq<u8>, prelude_crc: Seq<u8>, crc: Seq<u8>, rest: Seq<u8>)
    requires
        frame_ok(hs, payload, prelude_crc, crc),
        content_type_fault(hs) is Some,
    ensures
        run(initial_decoder(), frame_bytes(hs, payload, prelude_crc, crc) + rest) == (Run {
            outs: Seq::empty(),
            end: RunEnd::Failed(Fault::UnexpectedContentType(content_type_fault(hs)->0)),
        }),
{
    lemma_decode_frame(hs, payload, prelude_crc, crc, rest);
}

/// A session-update frame surfaces its payload, once, before anything that
/// follows it.
pub proof fn lemma_session_frame_surfaced(hs: Seq<HeaderField>, payload: Seq<u8>, prelude_crc: Seq<u8>, crc: Seq<u8>, rest: Seq<u8>)
    requires
        frame_ok(hs, payload, prelude_crc, crc),
        declares_session(hs),
        content_type_fault(hs) is None,
        valid_utf8(payload),
    ensures
        run(initial_decoder(), frame_bytes(hs, payload, prelude_crc, crc) + rest)
            == prepend(Some(decode_utf8(payload)), run(initial_decoder(), rest)),
{
    lemma_decode_frame(hs, payload, prelude_crc, crc, rest);
}

} // verus!
