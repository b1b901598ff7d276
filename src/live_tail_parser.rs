//! Incremental decoding of the live-tail event stream, and the queue of
//! records that the decoded payloads carry.

use std::collections::VecDeque;
use vstd::prelude::*;
use vstd::utf8::*;
use vstd::string::StringSliceAdditionalSpecFns;
use crate::event_stream::{
    be_u16, be_u32, dec_wf, glue, initial_decoder, lemma_run_append, lemma_step_wf, need, rank, run, step, Decoder,
    Fault, Run, RunEnd, Step, STRING_VALUE_TYPE,
};

verus! {

broadcast use vstd::utf8::group_utf8_lib;

#[verifier::external_type_specification]
#[verifier::external_body]
pub struct ExBytes(bytes::Bytes);

/// The bytes that a `Bytes` buffer holds.
pub uninterp spec fn bytes_content(b: bytes::Bytes) -> Seq<u8>;

/// Relies on `bytes::Bytes::new`: an empty buffer.
pub assume_specification[ bytes::Bytes::new ]() -> (r: bytes::Bytes)
    ensures
        bytes_content(r) == Seq::<u8>::empty(),
;

/// Relies on `Bytes`' `Deref` to `[u8]`: the slice of the bytes it holds.
#[verifier::external_body]
fn bytes_slice(b: &bytes::Bytes) -> (r: &[u8])
    ensures
        r@ == bytes_content(*b),
{
    b.as_ref()
}

/// Relies on `<Bytes as bytes::Buf>::advance`: drops the first `cnt` bytes
/// (it panics past the end).
#[verifier::external_body]
fn bytes_advance(b: &mut bytes::Bytes, cnt: usize)
    requires
        cnt <= bytes_content(*old(b)).len(),
    ensures
        bytes_content(*final(b)) == bytes_content(*old(b)).skip(cnt as int),
{
    bytes::Buf::advance(b, cnt)
}

/// Relies on `String::from_utf8`: it fails exactly on bytes that are not
/// UTF-8, and otherwise holds the characters they encode.
#[verifier::external_body]
fn string_from_utf8(v: Vec<u8>) -> (r: Option<String>)
    ensures
        r is Some <==> valid_utf8(v@),
        r matches Some(s) ==> s@ == decode_utf8(v@),
{
    String::from_utf8(v).ok()
}

/// Whether two byte slices hold the same bytes.
pub(crate) fn bytes_eq(a: &[u8], b: &[u8]) -> (r: bool)
    ensures
        r == (a@ == b@),
{
    if a.len() != b.len() {
        return false;
    }
    let mut i: usize = 0;
    while i < a.len()
        invariant
            a.len() == b.len(),
            i <= a.len(),
            a@.take(i as int) == b@.take(i as int),
        decreases a.len() - i,
    {
        if a[i] != b[i] {
            assert(a@[i as int] != b@[i as int]);
            return false;
        }
        assert(a@.take(i as int + 1) =~= a@.take(i as int).push(a@[i as int]));
        assert(b@.take(i as int + 1) =~= b@.take(i as int).push(b@[i as int]));
        i = i + 1;
    }
    assert(a@ =~= a@.take(i as int));
    assert(b@ =~= b@.take(i as int));
    true
}

/// Why decoding the event stream, or a payload of it, failed.
#[derive(Debug)]
pub enum Error {
    /// A string field is not valid UTF-8.
    Utf8,
    /// A payload is not a well-formed session update document.
    Json(String),
    /// A header value has a type other than string.
    UnsupportedStreamHeaderType(u8),
    /// The content-type header names something other than JSON.
    UnexpectedStreamContentType(String),
    /// The frame's lengths do not fit together.
    StreamParse(String),
}

/// `e` is the error that reports fault `f`.
pub open spec fn error_matches(e: Error, f: Fault) -> bool {
    match f {
        Fault::Utf8 => e is Utf8,
        Fault::UnsupportedHeaderType(t) => e matches Error::UnsupportedStreamHeaderType(u) && u == t,
        Fault::UnexpectedContentType(v) => e matches Error::UnexpectedStreamContentType(s) && s@ == v,
        Fault::Malformed => e is StreamParse,
        Fault::Internal => e is StreamParse,
    }
}

/// Where the decoder is inside one header.
#[derive(Debug, Clone, Copy, PartialEq, Eq)]
pub enum HeaderParserState {
    BeforeNameLength,
    BeforeName(u8),
    BeforeValueType,
    BeforeValueLength,
    BeforeValue(u16),
}

/// Where the decoder is inside one frame.
#[derive(Debug, Clone, Copy, PartialEq, Eq)]
pub enum ParserState {
    BeforeLength,
    BeforeHeaderLength,
    BeforePreludeCRC { header_len: u32 },
    Header { len: u32, state: HeaderParserState },
    Message,
    BeforeCRC,
}

impl HeaderParserState {
    /// The frame state of being at this point of a header, with
    /// `remain_header_len` bytes of the header block left.
    pub fn to_state(self, remain_header_len: u32) -> (r: ParserState)
        ensures
            r == (ParserState::Header { len: remain_header_len, state: self }),
    {
        ParserState::Header { len: remain_header_len, state: self }
    }
}

/// What decoding one field achieved.
enum Progress {
    /// Too few bytes are buffered for the next field.
    Waiting,
    /// The field was decoded.
    Advanced,
    /// The field was the payload of a session update.
    Emitted(String),
}

/// Decodes the binary event stream incrementally: chunks of bytes go in with
/// `add`, and `get` hands out the payload of each session-update frame as
/// soon as all of it has arrived.
pub struct EventStreamParser {
    buffer: bytes::Bytes,
    state: ParserState,
    remain_len: u32,
    previous: VecDeque<u8>,
    header_name: Option<String>,
    is_session_update: bool,
    received: Ghost<Seq<u8>>,
    emitted: Ghost<Seq<Seq<char>>>,
}

impl EventStreamParser {
    /// The bytes received and not yet decoded: what is left of earlier
    /// chunks, then what is left of the current one.
    pub closed spec fn pending(&self) -> Seq<u8> {
        self.previous@ + bytes_content(self.buffer)
    }

    /// The decoder state, as the whole-input model sees it.
    pub closed spec fn decoder(&self) -> Decoder {
        Decoder {
            state: self.state,
            remain: self.remain_len as nat,
            name: match self.header_name {
                Some(s) => Some(encode_utf8(s@)),
                None => None,
            },
            session: self.is_session_update,
        }
    }

    /// Every byte added so far, in order.
    pub closed spec fn received(&self) -> Seq<u8> {
        self.received@
    }

    /// Every payload handed out so far, in order.
    pub closed spec fn emitted(&self) -> Seq<Seq<char>> {
        self.emitted@
    }

    /// The decoder is consistent: what it handed out, followed by what the
    /// bytes it holds decode to, is what all bytes received decode to.
    pub closed spec fn wf(&self) -> bool {
        &&& dec_wf(self.decoder())
        &&& (self.previous@.len() == 0 || self.previous@.len() < need(self.decoder()))
        &&& run(initial_decoder(), self.received@) == glue(self.emitted@, run(self.decoder(), self.pending()))
    }

    /// The bytes held do not make up the next field: more input is needed.
    pub closed spec fn waiting(&self) -> bool {
        self.pending().len() < need(self.decoder())
    }

    /// `new` is `old` after an attempt to decode the next field, with result `r`.
    closed spec fn field_result(old: Self, new: Self, r: Result<Progress, Error>) -> bool {
        let d = old.decoder();
        let p = old.pending();
        let k = need(d);
        if p.len() < k {
            r matches Ok(Progress::Waiting) && new == old
        } else {
            match step(d, p.take(k as int)) {
                Step::Fail(f) => {
                    &&& r matches Err(e) && error_matches(e, f)
                    &&& f is UnsupportedHeaderType ==> new.pending() == p.skip(1)
                },
                Step::Next(next, out) => {
                    &&& r matches Ok(pr)
                    &&& new.decoder() == next
                    &&& new.pending() == p.skip(k as int)
                    &&& new.previous@.len() == 0
                    &&& new.received == old.received
                    &&& new.emitted == old.emitted
                    &&& match out {
                        Some(o) => pr matches Progress::Emitted(s) && s@ == o,
                        None => pr is Advanced,
                    }
                },
            }
        }
    }

    /// A decoder that has received nothing.
    pub fn new() -> (r: Self)
        ensures
            r.wf(),
            r.decoder() == initial_decoder(),
            r.pending() == Seq::<u8>::empty(),
            r.received() == Seq::<u8>::empty(),
            r.emitted() == Seq::<Seq<char>>::empty(),
    {
        let r = Self {
            state: ParserState::BeforeLength,
            buffer: bytes::Bytes::new(),
            remain_len: 0,
            previous: VecDeque::new(),
            header_name: None,
            is_session_update: false,
            received: Ghost(Seq::empty()),
            emitted: Ghost(Seq::empty()),
        };
        proof {
            assert(r.pending() =~= Seq::<u8>::empty());
            assert(glue(Seq::empty(), run(r.decoder(), r.pending())).outs =~= run(r.decoder(), r.pending()).outs);
        }
        r
    }

    /// Takes in the next chunk of the stream, once the decoder has reported
    /// that it needs more input.
    pub fn add(&mut self, buffer: bytes::Bytes)
        requires
            old(self).wf(),
            old(self).waiting(),
        ensures
            final(self).wf(),
            final(self).received() == old(self).received() + bytes_content(buffer),
            final(self).pending() == old(self).pending() + bytes_content(buffer),
            final(self).decoder() == old(self).decoder(),
            final(self).emitted() == old(self).emitted(),
    {
        let ghost d = self.decoder();
        let ghost p = self.pending();
        let rest = bytes_slice(&self.buffer);
        let mut i: usize = 0;
        while i < rest.len()
            invariant
                i <= rest.len(),
                rest@ == bytes_content(self.buffer),
                self.previous@ == old(self).previous@ + rest@.take(i as int),
                self.buffer == old(self).buffer,
                self.state == old(self).state,
                self.remain_len == old(self).remain_len,
                self.header_name == old(self).header_name,
                self.is_session_update == old(self).is_session_update,
                self.received == old(self).received,
                self.emitted == old(self).emitted,
            decreases rest.len() - i,
        {
            self.previous.push_back(rest[i]);
            assert(rest@.take(i as int + 1) =~= rest@.take(i as int).push(rest@[i as int]));
            i = i + 1;
        }
        assert(rest@.take(i as int) =~= rest@);
        self.buffer = buffer;
        self.received = Ghost(self.received@ + bytes_content(buffer));
        proof {
            assert(self.pending() =~= p + bytes_content(buffer));
            assert(self.previous@ =~= p);
            lemma_run_append(initial_decoder(), old(self).received@, bytes_content(buffer));
            lemma_run_append(d, p, bytes_content(buffer));
            assert(run(d, p) == (Run { outs: Seq::empty(), end: RunEnd::Waiting(d, p) }));
            let tail = run(d, p + bytes_content(buffer));
            assert(old(self).emitted@ + Seq::<Seq<char>>::empty() =~= old(self).emitted@);
            assert(glue(Seq::empty(), tail).outs =~= tail.outs);
        }
    }

    /// The first `len` bytes held, if that many are held.
    fn read(&self, len: u32) -> (r: Option<Vec<u8>>)
        ensures
            r is Some <==> self.pending().len() >= len,
            r matches Some(v) ==> v@ == self.pending().take(len as int),
    {
        let buf = bytes_slice(&self.buffer);
        let prev_len = self.previous.len();
        let len = len as usize;
        if len > prev_len && len - prev_len > buf.len() {
            return None;
        }
        let mut v: Vec<u8> = Vec::new();
        let mut i: usize = 0;
        while i < len
            invariant
                i <= len,
                len <= prev_len + buf@.len(),
                prev_len == self.previous@.len(),
                buf@ == bytes_content(self.buffer),
                v@ == self.pending().take(i as int),
            decreases len - i,
        {
            let b = if i < prev_len { self.previous[i] } else { buf[i - prev_len] };
            assert(self.pending().take(i as int + 1) =~= self.pending().take(i as int).push(b));
            v.push(b);
            i = i + 1;
        }
        Some(v)
    }

    /// Drops the first `len` bytes held.
    fn advance(&mut self, len: u32)
        requires
            old(self).pending().len() >= len,
            old(self).remain_len >= len,
        ensures
            final(self).pending() == old(self).pending().skip(len as int),
            old(self).previous@.len() <= len ==> final(self).previous@.len() == 0,
            final(self).state == old(self).state,
            final(self).remain_len == old(self).remain_len - len,
            final(self).header_name == old(self).header_name,
            final(self).is_session_update == old(self).is_session_update,
            final(self).received == old(self).received,
            final(self).emitted == old(self).emitted,
    {
        let len = len as usize;
        let from_previous = if len < self.previous.len() { len } else { self.previous.len() };
        let mut i: usize = 0;
        while i < from_previous
            invariant
                i <= from_previous,
                from_previous <= old(self).previous@.len(),
                self.previous@ == old(self).previous@.skip(i as int),
                self.buffer == old(self).buffer,
                self.state == old(self).state,
                self.remain_len == old(self).remain_len,
                self.header_name == old(self).header_name,
                self.is_session_update == old(self).is_session_update,
                self.received == old(self).received,
                self.emitted == old(self).emitted,
            decreases from_previous - i,
        {
            self.previous.pop_front();
            assert(old(self).previous@.skip(i as int).drop_first() =~= old(self).previous@.skip(i as int + 1));
            i = i + 1;
        }
        bytes_advance(&mut self.buffer, len - from_previous);
        self.remain_len = self.remain_len - len as u32;
        assert(self.pending() =~= old(self).pending().skip(len as int));
    }

    /// The first four bytes held, big-endian, if that many are held.
    fn read_u32(&mut self) -> (r: Option<u32>)
        requires
            old(self).remain_len >= 4,
        ensures
            r is Some <==> old(self).pending().len() >= 4,
            r is None ==> *final(self) == *old(self),
            r matches Some(v) ==> v == be_u32(old(self).pending().take(4)) && final(self).pending()
                == old(self).pending().skip(4),
            r is Some && old(self).previous@.len() <= 4 ==> final(self).previous@.len() == 0,
            final(self).state == old(self).state,
            r is Some ==> final(self).remain_len == old(self).remain_len - 4,
            final(self).header_name == old(self).header_name,
            final(self).is_session_update == old(self).is_session_update,
            final(self).received == old(self).received,
            final(self).emitted == old(self).emitted,
    {
        match self.read(4) {
            None => None,
            Some(b) => {
                let v = (b[0] as u32) * 16777216 + (b[1] as u32) * 65536 + (b[2] as u32) * 256 + b[3] as u32;
                self.advance(4);
                Some(v)
            },
        }
    }

    /// The first two bytes held, big-endian, if that many are held.
    fn read_u16(&mut self) -> (r: Option<u16>)
        requires
            old(self).remain_len >= 2,
        ensures
            r is Some <==> old(self).pending().len() >= 2,
            r is None ==> *final(self) == *old(self),
            r matches Some(v) ==> v == be_u16(old(self).pending().take(2)) && final(self).pending()
                == old(self).pending().skip(2),
            r is Some && old(self).previous@.len() <= 2 ==> final(self).previous@.len() == 0,
            final(self).state == old(self).state,
            r is Some ==> final(self).remain_len == old(self).remain_len - 2,
            final(self).header_name == old(self).header_name,
            final(self).is_session_update == old(self).is_session_update,
            final(self).received == old(self).received,
            final(self).emitted == old(self).emitted,
    {
        match self.read(2) {
            None => None,
            Some(b) => {
                let v = (b[0] as u16) * 256 + b[1] as u16;
                self.advance(2);
                Some(v)
            },
        }
    }

    /// The first byte held, if any.
    fn read_u8(&mut self) -> (r: Option<u8>)
        requires
            old(self).remain_len >= 1,
        ensures
            r is Some <==> old(self).pending().len() >= 1,
            r is None ==> *final(self) == *old(self),
            r matches Some(v) ==> v == old(self).pending()[0] && final(self).pending()
                == old(self).pending().skip(1),
            r is Some && old(self).previous@.len() <= 1 ==> final(self).previous@.len() == 0,
            final(self).state == old(self).state,
            r is Some ==> final(self).remain_len == old(self).remain_len - 1,
            final(self).header_name == old(self).header_name,
            final(self).is_session_update == old(self).is_session_update,
            final(self).received == old(self).received,
            final(self).emitted == old(self).emitted,
    {
        match self.read(1) {
            None => None,
            Some(b) => {
                let v = b[0];
                self.advance(1);
                Some(v)
            },
        }
    }

    /// The first `len` bytes held, as text, if that many are held.
    fn read_string(&mut self, len: u32) -> (r: Result<Option<String>, Error>)
        requires
            old(self).remain_len >= len,
        ensures
            old(self).pending().len() < len ==> (r matches Ok(None) && *final(self) == *old(self)),
            old(self).pending().len() >= len && valid_utf8(old(self).pending().take(len as int))
                ==> (r matches Ok(Some(s)) && s@ == decode_utf8(old(self).pending().take(len as int))),
            old(self).pending().len() >= len && !valid_utf8(old(self).pending().take(len as int))
                ==> (r matches Err(Error::Utf8)),
            old(self).pending().len() >= len ==> final(self).pending() == old(self).pending().skip(len as int),
            old(self).pending().len() >= len && old(self).previous@.len() <= len
                ==> final(self).previous@.len() == 0,
            final(self).state == old(self).state,
            old(self).pending().len() >= len ==> final(self).remain_len == old(self).remain_len - len,
            final(self).header_name == old(self).header_name,
            final(self).is_session_update == old(self).is_session_update,
            final(self).received == old(self).received,
            final(self).emitted == old(self).emitted,
    {
        match self.read(len) {
            None => Ok(None),
            Some(v) => {
                self.advance(len);
                match string_from_utf8(v) {
                    Some(s) => Ok(Some(s)),
                    None => Err(Error::Utf8),
                }
            },
        }
    }

    /// Decodes the next field of a header: `len` bytes of the header block
    /// are left, and `state` is where the current header stands.
    fn read_header(&mut self, len: u32, state: HeaderParserState) -> (r: Result<Progress, Error>)
        requires
            old(self).wf(),
            old(self).state == (ParserState::Header { len, state }),
        ensures
            Self::field_result(*old(self), *final(self), r),
    {
        match state {
            HeaderParserState::BeforeNameLength => {
                if len == 0 {
                    self.state = ParserState::Message;
                    assert(old(self).pending().skip(0) =~= old(self).pending());
                    return Ok(Progress::Advanced);
                }
                match self.read_u8() {
                    None => Ok(Progress::Waiting),
                    Some(v) => {
                        if v as u32 + 4 > len {
                            return Err(Error::StreamParse(String::from_str("header overruns the header block")));
                        }
                        self.state = HeaderParserState::BeforeName(v).to_state(len - 1);
                        Ok(Progress::Advanced)
                    },
                }
            },
            HeaderParserState::BeforeName(str_len) => match self.read_string(str_len as u32) {
                Err(e) => Err(e),
                Ok(None) => Ok(Progress::Waiting),
                Ok(Some(v)) => {
                    self.header_name = Some(v);
                    self.state = HeaderParserState::BeforeValueType.to_state(len - str_len as u32);
                    Ok(Progress::Advanced)
                },
            },
            HeaderParserState::BeforeValueType => match self.read_u8() {
                None => Ok(Progress::Waiting),
                Some(v) => {
                    if v != STRING_VALUE_TYPE {
                        return Err(Error::UnsupportedStreamHeaderType(v));
                    }
                    self.state = HeaderParserState::BeforeValueLength.to_state(len - 1);
                    Ok(Progress::Advanced)
                },
            },
            HeaderParserState::BeforeValueLength => match self.read_u16() {
                None => Ok(Progress::Waiting),
                Some(v) => {
                    if v as u32 + 2 > len {
                        return Err(Error::StreamParse(String::from_str("header value overruns the header block")));
                    }
                    self.state = HeaderParserState::BeforeValue(v).to_state(len - 2);
                    Ok(Progress::Advanced)
                },
            },
            HeaderParserState::BeforeValue(str_len) => match self.read_string(str_len as u32) {
                Err(e) => Err(e),
                Ok(None) => Ok(Progress::Waiting),
                Ok(Some(value)) => {
                    let name = match self.header_name.take() {
                        None => {
                            return Err(Error::StreamParse(String::from_str("header name is missing")));
                        },
                        Some(name) => name,
                    };
                    let name_bytes = name.as_str().as_bytes();
                    let value_bytes = value.as_str().as_bytes();
                    if bytes_eq(name_bytes, ":content-type".as_bytes())
                        && !bytes_eq(value_bytes, "application/x-amz-json-1.1".as_bytes()) {
                        return Err(Error::UnexpectedStreamContentType(value));
                    }
                    if bytes_eq(name_bytes, ":event-type".as_bytes())
                        && bytes_eq(value_bytes, "sessionUpdate".as_bytes()) {
                        self.is_session_update = true;
                    }
                    self.state = HeaderParserState::BeforeNameLength.to_state(len - str_len as u32);
                    Ok(Progress::Advanced)
                },
            },
        }
    }

    /// Decodes the next field of the frame, if all of it is held.
    fn next_field(&mut self) -> (r: Result<Progress, Error>)
        requires
            old(self).wf(),
        ensures
            Self::field_result(*old(self), *final(self), r),
    {
        match self.state {
            ParserState::BeforeLength => {
                // The frame's length is not known before it is read.
                self.remain_len = u32::MAX;
                match self.read_u32() {
                    None => {
                        self.remain_len = 0;
                        Ok(Progress::Waiting)
                    },
                    Some(v) => {
                        if v < 16 {
                            return Err(Error::StreamParse(String::from_str("frame shorter than its prelude and checksums")));
                        }
                        self.remain_len = v - 4;
                        self.state = ParserState::BeforeHeaderLength;
                        Ok(Progress::Advanced)
                    },
                }
            },
            ParserState::BeforeHeaderLength => match self.read_u32() {
                None => Ok(Progress::Waiting),
                Some(header_len) => {
                    if header_len > self.remain_len - 8 {
                        return Err(Error::StreamParse(String::from_str("header block overruns the frame")));
                    }
                    self.state = ParserState::BeforePreludeCRC { header_len };
                    Ok(Progress::Advanced)
                },
            },
            ParserState::BeforePreludeCRC { header_len } => match self.read_u32() {
                None => Ok(Progress::Waiting),
                Some(_) => {
                    self.state = HeaderParserState::BeforeNameLength.to_state(header_len);
                    Ok(Progress::Advanced)
                },
            },
            ParserState::Header { len, state } => self.read_header(len, state),
            ParserState::Message => {
                if self.remain_len < 4 {
                    return Err(Error::StreamParse(String::from_str("frame too short for its checksum")));
                }
                match self.read_string(self.remain_len - 4) {
                    Err(e) => Err(e),
                    Ok(None) => Ok(Progress::Waiting),
                    Ok(Some(message)) => {
                        self.state = ParserState::BeforeCRC;
                        if self.is_session_update {
                            Ok(Progress::Emitted(message))
                        } else {
                            Ok(Progress::Advanced)
                        }
                    },
                }
            },
            ParserState::BeforeCRC => match self.read_u32() {
                None => Ok(Progress::Waiting),
                Some(_) => {
                    if self.remain_len != 0 {
                        return Err(Error::StreamParse(String::from_str("remain size has to be 0 at the end of a frame")));
                    }
                    if self.previous.len() != 0 {
                        return Err(Error::StreamParse(String::from_str("expected previous to be empty")));
                    }
                    self.state = ParserState::BeforeLength;
                    self.is_session_update = false;
                    Ok(Progress::Advanced)
                },
            },
        }
    }

    /// Decodes as far as the bytes held allow, and hands out the next
    /// session-update payload, `None` when more input is needed, or the
    /// error that ends the stream.
    pub fn get(&mut self) -> (r: Result<Option<String>, Error>)
        requires
            old(self).wf(),
        ensures
            r matches Ok(Some(s)) ==> {
                &&& final(self).wf()
                &&& final(self).received() == old(self).received()
                &&& final(self).emitted() == old(self).emitted().push(s@)
                &&& final(self).emitted().len() <= run(initial_decoder(), final(self).received()).outs.len()
                &&& final(self).emitted() == run(initial_decoder(), final(self).received()).outs.take(
                    final(self).emitted().len() as int,
                )
            },
            r matches Ok(None) ==> {
                &&& final(self).wf()
                &&& final(self).waiting()
                &&& final(self).received() == old(self).received()
                &&& final(self).emitted() == old(self).emitted()
                &&& run(initial_decoder(), final(self).received()) == (Run {
                    outs: final(self).emitted(),
                    end: RunEnd::Waiting(final(self).decoder(), final(self).pending()),
                })
            },
            r matches Err(e) ==> {
                &&& run(initial_decoder(), old(self).received()).outs == old(self).emitted()
                &&& run(initial_decoder(), old(self).received()).end matches RunEnd::Failed(f)
                &&& error_matches(e, f)
            },
    {
        loop
            invariant
                self.wf(),
                self.received == old(self).received,
                self.emitted == old(self).emitted,
            decreases self.pending().len(), rank(self.decoder()),
        {
            let ghost d = self.decoder();
            let ghost p = self.pending();
            let ghost k = need(d);
            let ghost emitted = self.emitted@;
            match self.next_field() {
                Err(e) => {
                    proof {
                        assert(emitted + Seq::<Seq<char>>::empty() =~= emitted);
                    }
                    return Err(e);
                },
                Ok(Progress::Waiting) => {
                    proof {
                        assert(emitted + Seq::<Seq<char>>::empty() =~= emitted);
                    }
                    return Ok(None);
                },
                Ok(Progress::Advanced) => {
                    proof {
                        lemma_step_wf(d, p.take(k as int));
                    }
                },
                Ok(Progress::Emitted(s)) => {
                    self.emitted = Ghost(self.emitted@.push(s@));
                    proof {
                        lemma_step_wf(d, p.take(k as int));
                        let rest = run(self.decoder(), self.pending());
                        assert(emitted + (seq![s@] + rest.outs) =~= emitted.push(s@) + rest.outs);
                        assert((emitted.push(s@) + rest.outs).take(emitted.len() + 1 as int) =~= emitted.push(s@));
                    }
                    return Ok(Some(s));
                },
            }
        }
    }
}

/// The JSON document that a session-update payload holds.
#[derive(Debug)]
pub struct SessionUpdate {
    pub session_metadata: SessionMetadata,
    pub session_results: Vec<SessionResult>,
}

/// Whether the service sampled the events of an update.
#[derive(Debug, Clone, Copy)]
pub struct SessionMetadata {
    pub sampled: bool,
}

/// One log record of a session update.
#[derive(Debug)]
pub struct SessionResult {
    pub ingestion_time: u64,
    pub log_group_identifier: String,
    pub log_stream_name: String,
    pub message: String,
    pub timestamp: u64,
}

/// The queue of records of the last session update, handed out one at a time
/// in the order of the update.
pub struct MessageParser {
    parsed: VecDeque<SessionResult>,
}

impl MessageParser {
    /// The records still to hand out, front first.
    pub closed spec fn queue(&self) -> Seq<SessionResult> {
        self.parsed@
    }

    /// An empty queue.
    pub fn new() -> (r: Self)
        ensures
            r.queue() == Seq::<SessionResult>::empty(),
    {
        Self { parsed: VecDeque::new() }
    }

    /// Whether every record has been handed out, so that the next payload is
    /// needed.
    pub fn is_empty(&self) -> (r: bool)
        ensures
            r == (self.queue().len() == 0),
    {
        self.parsed.len() == 0
    }

    /// Replaces the queue with the records of `update`, in document order.
    pub fn add(&mut self, update: SessionUpdate)
        ensures
            final(self).queue() == update.session_results@,
    {
        let mut rest = update.session_results;
        let mut parsed: VecDeque<SessionResult> = VecDeque::new();
        let ghost all = rest@;
        while rest.len() > 0
            invariant
                rest@ + parsed@ == all,
            decreases rest.len(),
        {
            let ghost before = rest@;
            let ghost queued = parsed@;
            let item = rest.pop().unwrap();
            assert(before =~= rest@.push(item));
            parsed.push_front(item);
            assert(rest@ + parsed@ =~= before + queued);
        }
        assert(parsed@ =~= all);
        self.parsed = parsed;
    }

    /// The front record, if any, taken off the queue.
    pub fn next(&mut self) -> (r: Option<SessionResult>)
        ensures
            old(self).queue().len() == 0 ==> r is None && final(self).queue() == old(self).queue(),
            old(self).queue().len() > 0 ==> r == Some(old(self).queue()[0]) && final(self).queue()
                == old(self).queue().drop_first(),
    {
        self.parsed.pop_front()
    }
}

} // verus!
