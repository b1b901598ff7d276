//! The signed start-live-tail request, and the decisions of a live-tail
//! session: which response to accept and what to do next with the stream.

use vstd::prelude::*;
use vstd::utf8::*;
use vstd::string::StringSliceAdditionalSpecFns;
use crate::text::{decimal_padded, hex_digit, hex_of, push_decimal, push_hex, to_hex};
use crate::event_stream::{initial_decoder, run, Run, RunEnd};
use crate::live_tail_parser::{
    bytes_content, bytes_eq, error_matches, Error as ParserError, EventStreamParser, MessageParser, SessionResult,
    SessionUpdate,
};

verus! {

broadcast use vstd::utf8::group_utf8_lib;

#[verifier::external_type_specification]
#[verifier::external_body]
pub struct ExInvalidLength(hmac::digest::InvalidLength);

/// HMAC-SHA256 of `msg` under `key`.
pub uninterp spec fn hmac_sha256(key: Seq<u8>, msg: Seq<u8>) -> Seq<u8>;

/// SHA-256 digest of `data`.
pub uninterp spec fn sha256(data: Seq<u8>) -> Seq<u8>;

/// How one character stands inside a JSON string literal: quote, backslash
/// and the control characters are escaped, the short forms where JSON has
/// them and `\u00xx` otherwise; every other character stands for itself.
pub open spec fn json_char(c: char) -> Seq<char> {
    if c == '"' {
        seq!['\\', '"']
    } else if c == '\\' {
        seq!['\\', '\\']
    } else if c == '\u{8}' {
        seq!['\\', 'b']
    } else if c == '\t' {
        seq!['\\', 't']
    } else if c == '\n' {
        seq!['\\', 'n']
    } else if c == '\u{c}' {
        seq!['\\', 'f']
    } else if c == '\r' {
        seq!['\\', 'r']
    } else if (c as u32) < 0x20 {
        seq!['\\', 'u', '0', '0', hex_digit((c as u32 / 16) as nat), hex_digit((c as u32 % 16) as nat)]
    } else {
        seq![c]
    }
}

/// The characters of `s`, each as it stands inside a JSON string literal.
pub open spec fn json_escaped(s: Seq<char>) -> Seq<char>
    decreases s.len(),
{
    if s.len() == 0 {
        Seq::empty()
    } else {
        json_escaped(s.drop_last()) + json_char(s.last())
    }
}

/// The JSON string literal that encodes the text `s`.
pub open spec fn json_string(s: Seq<char>) -> Seq<char> {
    seq!['"'] + json_escaped(s) + seq!['"']
}

/// Relies on `Hmac<Sha256>` (`KeyInit::new_from_slice`, `Mac::update`,
/// `Mac::finalize`): the 32-byte HMAC of `msg` under `key`; HMAC takes keys of
/// any length, so the key is never refused.
#[verifier::external_body]
fn hmac_sha256_of(key: &[u8], msg: &[u8]) -> (r: Result<Vec<u8>, hmac::digest::InvalidLength>)
    ensures
        r is Ok,
        r is Ok ==> r->Ok_0@ == hmac_sha256(key@, msg@),
        r is Ok ==> r->Ok_0@.len() == 32,
{
    let mut h = <hmac::Hmac<sha2::Sha256> as hmac::digest::KeyInit>::new_from_slice(key)?;
    hmac::digest::Update::update(&mut h, msg);
    Ok(hmac::Mac::finalize(h).into_bytes().to_vec())
}

/// Relies on `sha2::Sha256`'s `Digest::digest`: the 32-byte digest of `data`.
#[verifier::external_body]
fn sha256_of(data: &[u8]) -> (r: Vec<u8>)
    ensures
        r@ == sha256(data@),
        r@.len() == 32,
{
    <sha2::Sha256 as sha2::Digest>::digest(data).to_vec()
}

/// Relies on `serde_json::to_string` on a `str`: the text in quotes, escaped
/// by serde_json's table (`ESCAPE` and `write_char_escape` in `ser.rs`).
/// Serialising a `str` into a `Vec` never fails.
#[verifier::external_body]
fn json_string_of(s: &str) -> (r: Option<String>)
    ensures
        r is Some,
        r is Some ==> r->0@ == json_string(s@),
{
    serde_json::to_string(s).ok()
}

/// Why a live-tail call failed.
#[derive(Debug)]
pub enum Error {
    /// The keyed hash refused its key.
    Signing,
    /// The response is neither JSON nor an event stream.
    UnexpectedHttpContentType(String),
    /// The HTTP exchange failed.
    Http(String),
    /// A request header holds characters that HTTP does not allow.
    HttpHeader,
    /// The service answered with an error document.
    Api(String),
    /// The event stream could not be decoded.
    Parser(ParserError),
    /// The request body could not be serialised.
    Serialize,
}

/// Long-term or session credentials.
pub struct Credentials {
    pub access_key_id: String,
    pub secret_access_key: String,
    pub session_token: Option<String>,
}

impl Credentials {
    /// The session token's text, if there is one.
    pub open spec fn token_view(&self) -> Option<Seq<char>> {
        match self.session_token {
            Some(t) => Some(t@),
            None => None,
        }
    }
}

/// A UTC instant, to the second, at which a request is signed.
pub struct SigningTime {
    pub year: u32,
    pub month: u32,
    pub day: u32,
    pub hour: u32,
    pub minute: u32,
    pub second: u32,
}

impl SigningTime {
    /// `YYYYMMDD`.
    pub open spec fn date_view(&self) -> Seq<char> {
        decimal_padded(self.year as nat, 4) + decimal_padded(self.month as nat, 2)
            + decimal_padded(self.day as nat, 2)
    }

    /// `YYYYMMDDTHHMMSSZ`.
    pub open spec fn timestamp_view(&self) -> Seq<char> {
        self.date_view() + "T"@ + decimal_padded(self.hour as nat, 2) + decimal_padded(self.minute as nat, 2)
            + decimal_padded(self.second as nat, 2) + "Z"@
    }

    /// The date, `YYYYMMDD`.
    pub fn date(&self) -> (r: String)
        ensures
            r@ == self.date_view(),
    {
        let mut s = String::new();
        push_decimal(&mut s, self.year, 4);
        push_decimal(&mut s, self.month, 2);
        push_decimal(&mut s, self.day, 2);
        s
    }

    /// The basic ISO-8601 timestamp, `YYYYMMDDTHHMMSSZ`.
    pub fn timestamp(&self) -> (r: String)
        ensures
            r@ == self.timestamp_view(),
    {
        let mut s = self.date();
        s.append("T");
        push_decimal(&mut s, self.hour, 2);
        push_decimal(&mut s, self.minute, 2);
        push_decimal(&mut s, self.second, 2);
        s.append("Z");
        s
    }
}

/// The keyed hash of `content` under `key`.
fn sign(key: &[u8], content: &str) -> (r: Result<Vec<u8>, Error>)
    ensures
        r matches Ok(v) && v@ == hmac_sha256(key@, content.spec_bytes()) && v@.len() == 32,
{
    match hmac_sha256_of(key, content.as_bytes()) {
        Ok(v) => Ok(v),
        Err(_) => Err(Error::Signing),
    }
}

/// The keyed hash of `content` under `key`, in lower-case hexadecimal.
fn sign_to_str(key: &[u8], content: &str) -> (r: Result<String, Error>)
    ensures
        r matches Ok(s) && s@ == hex_of(hmac_sha256(key@, content.spec_bytes())) && s@.len() == 64,
{
    let v = sign(key, content)?;
    Ok(to_hex(v.as_slice()))
}

/// The text of an optional string.
pub open spec fn opt_view(o: Option<&str>) -> Option<Seq<char>> {
    match o {
        Some(s) => Some(s@),
        None => None,
    }
}

/// The JSON request body: the filter pattern (empty when there is none), the
/// log group, and the log stream only when one is given.
pub open spec fn request_body_view(group_arn: Seq<char>, stream: Option<Seq<char>>, filter: Option<Seq<char>>) -> Seq<char> {
    let filter = match filter {
        Some(f) => f,
        None => Seq::empty(),
    };
    let streams = match stream {
        Some(s) => ",\"logStreamNames\":["@ + json_string(s) + "]"@,
        None => Seq::empty(),
    };
    "{\"logEventFilterPattern\":"@ + json_string(filter) + ",\"logGroupIdentifiers\":["@
        + json_string(group_arn) + "]"@ + streams + "}"@
}

/// The key that signs requests made on `date` in `region`, derived from the
/// secret by the four chained keyed hashes.
pub open spec fn signing_key_view(secret: Seq<char>, date: Seq<char>, region: Seq<char>) -> Seq<u8> {
    let k_date = hmac_sha256(encode_utf8("AWS4"@ + secret), encode_utf8(date));
    let k_region = hmac_sha256(k_date, encode_utf8(region));
    let k_service = hmac_sha256(k_region, encode_utf8("logs"@));
    hmac_sha256(k_service, encode_utf8("aws4_request"@))
}

/// The names of the signed headers, which include the security token's
/// only when there is a session token.
pub open spec fn signed_headers_view(token: Option<Seq<char>>) -> Seq<char> {
    if token is Some {
        "content-type;host;x-amz-date;x-amz-security-token;x-amz-target"@
    } else {
        "content-type;host;x-amz-date;x-amz-target"@
    }
}

/// The security-token line of the canonical request, if there is a token.
pub open spec fn token_line_view(token: Option<Seq<char>>) -> Seq<char> {
    match token {
        Some(t) => "\nx-amz-security-token:"@ + t,
        None => Seq::empty(),
    }
}

/// The canonical request: method, path, the lower-cased headers in order,
/// the signed header names and the digest of the body.
pub open spec fn canonical_request_view(region: Seq<char>, timestamp: Seq<char>, token: Option<Seq<char>>, body: Seq<char>) -> Seq<char> {
    "POST\n/\n\ncontent-type:application/x-amz-json-1.1\nhost:streaming-logs."@ + region
        + ".amazonaws.com\nx-amz-date:"@ + timestamp + token_line_view(token)
        + "\nx-amz-target:Logs_20140328.StartLiveTail\n\n"@ + signed_headers_view(token) + "\n"@
        + hex_of(sha256(encode_utf8(body)))
}

/// The credential scope: date, region, service and terminator.
pub open spec fn scope_view(date: Seq<char>, region: Seq<char>) -> Seq<char> {
    date + "/"@ + region + "/logs/aws4_request"@
}

/// The string that is signed: algorithm, timestamp, scope, and the digest of
/// the canonical request.
pub open spec fn string_to_sign_view(timestamp: Seq<char>, date: Seq<char>, region: Seq<char>, canonical: Seq<char>) -> Seq<char> {
    "AWS4-HMAC-SHA256\n"@ + timestamp + "\n"@ + scope_view(date, region) + "\n"@
        + hex_of(sha256(encode_utf8(canonical)))
}

/// The signature, in hexadecimal, of a request with body `body` signed with
/// `credentials` in `region` at `time`.
pub open spec fn signature_view(credentials: Credentials, region: Seq<char>, time: SigningTime, body: Seq<char>) -> Seq<char> {
    let canonical = canonical_request_view(region, time.timestamp_view(), credentials.token_view(), body);
    let to_sign = string_to_sign_view(time.timestamp_view(), time.date_view(), region, canonical);
    hex_of(hmac_sha256(
        signing_key_view(credentials.secret_access_key@, time.date_view(), region),
        encode_utf8(to_sign),
    ))
}

/// The `Authorization` header value.
pub open spec fn authorization_view(credentials: Credentials, region: Seq<char>, time: SigningTime, body: Seq<char>) -> Seq<char> {
    "AWS4-HMAC-SHA256 Credential="@ + credentials.access_key_id@ + "/"@ + scope_view(time.date_view(), region)
        + ", SignedHeaders="@ + signed_headers_view(credentials.token_view()) + ", Signature="@
        + signature_view(credentials, region, time, body)
}

/// The JSON request body.
pub fn request_body(group_arn: &str, stream: Option<&str>, filter: Option<&str>) -> (r: Result<String, Error>)
    ensures
        r matches Ok(b) && b@ == request_body_view(group_arn@, opt_view(stream), opt_view(filter)),
{
    let pattern = match filter {
        Some(f) => f,
        None => "",
    };
    proof {
        reveal_strlit("");
        assert(pattern@ == match opt_view(filter) { Some(f) => f, None => Seq::<char>::empty() });
    }
    let mut body = String::from_str("{\"logEventFilterPattern\":");
    match json_string_of(pattern) {
        Some(j) => body.append(j.as_str()),
        None => return Err(Error::Serialize),
    }
    body.append(",\"logGroupIdentifiers\":[");
    match json_string_of(group_arn) {
        Some(j) => body.append(j.as_str()),
        None => return Err(Error::Serialize),
    }
    body.append("]");
    let ghost head = body@;
    assert(head =~= "{\"logEventFilterPattern\":"@ + json_string(pattern@) + ",\"logGroupIdentifiers\":["@
        + json_string(group_arn@) + "]"@);
    let ghost streams = Seq::<char>::empty();
    if let Some(name) = stream {
        body.append(",\"logStreamNames\":[");
        match json_string_of(name) {
            Some(j) => body.append(j.as_str()),
            None => return Err(Error::Serialize),
        }
        body.append("]");
        proof {
            streams = ",\"logStreamNames\":["@ + json_string(name@) + "]"@;
            assert(body@ =~= head + streams);
        }
    } else {
        assert(body@ =~= head + streams);
    }
    body.append("}");
    proof {
        assert(body@ =~= request_body_view(group_arn@, opt_view(stream), opt_view(filter)));
    }
    Ok(body)
}

/// The key that signs requests made on `date` in `region`.
pub fn signing_key(secret: &str, date: &str, region: &str) -> (r: Result<Vec<u8>, Error>)
    ensures
        r matches Ok(k) && k@ == signing_key_view(secret@, date@, region@),
{
    let mut seed = String::from_str("AWS4");
    seed.append(secret);
    let secret = sign(seed.as_str().as_bytes(), date)?;
    let secret = sign(secret.as_slice(), region)?;
    let secret = sign(secret.as_slice(), "logs")?;
    sign(secret.as_slice(), "aws4_request")
}

/// The canonical request for a body signed in `region` at `timestamp`.
pub fn canonical_request(region: &str, timestamp: &str, token: Option<&str>, body: &str) -> (r: String)
    ensures
        r@ == canonical_request_view(region@, timestamp@, opt_view(token), body@),
{
    let body_hash = sha256_of(body.as_bytes());
    let mut s = String::from_str("POST\n/\n\ncontent-type:application/x-amz-json-1.1\nhost:streaming-logs.");
    s.append(region);
    s.append(".amazonaws.com\nx-amz-date:");
    s.append(timestamp);
    let signed_headers;
    match token {
        Some(t) => {
            s.append("\nx-amz-security-token:");
            s.append(t);
            signed_headers = "content-type;host;x-amz-date;x-amz-security-token;x-amz-target";
        },
        None => {
            signed_headers = "content-type;host;x-amz-date;x-amz-target";
        },
    }
    s.append("\nx-amz-target:Logs_20140328.StartLiveTail\n\n");
    s.append(signed_headers);
    s.append("\n");
    push_hex(&mut s, body_hash.as_slice());
    proof {
        assert(s@ =~= canonical_request_view(region@, timestamp@, opt_view(token), body@));
    }
    s
}

/// The string to sign for a canonical request.
pub fn string_to_sign(timestamp: &str, date: &str, region: &str, canonical: &str) -> (r: String)
    ensures
        r@ == string_to_sign_view(timestamp@, date@, region@, canonical@),
{
    let canonical_hash = sha256_of(canonical.as_bytes());
    let mut s = String::from_str("AWS4-HMAC-SHA256\n");
    s.append(timestamp);
    s.append("\n");
    s.append(date);
    s.append("/");
    s.append(region);
    s.append("/logs/aws4_request");
    s.append("\n");
    push_hex(&mut s, canonical_hash.as_slice());
    proof {
        assert(s@ =~= string_to_sign_view(timestamp@, date@, region@, canonical@));
    }
    s
}

/// The `Authorization` header value for a request with body `body`, signed
/// with `credentials` in `region` at `time`.
pub fn authorization(credentials: &Credentials, region: &str, time: &SigningTime, body: &str) -> (r: Result<String, Error>)
    ensures
        r matches Ok(a) && a@ == authorization_view(*credentials, region@, *time, body@),
{
    let date = time.date();
    let timestamp = time.timestamp();
    let token = match &credentials.session_token {
        Some(t) => Some(t.as_str()),
        None => None,
    };
    let key = signing_key(credentials.secret_access_key.as_str(), date.as_str(), region)?;
    let canonical = canonical_request(region, timestamp.as_str(), token, body);
    let to_sign = string_to_sign(timestamp.as_str(), date.as_str(), region, canonical.as_str());
    let signature = sign_to_str(key.as_slice(), to_sign.as_str())?;
    let mut a = String::from_str("AWS4-HMAC-SHA256 Credential=");
    a.append(credentials.access_key_id.as_str());
    a.append("/");
    a.append(date.as_str());
    a.append("/");
    a.append(region);
    a.append("/logs/aws4_request");
    a.append(", SignedHeaders=");
    if token.is_some() {
        a.append("content-type;host;x-amz-date;x-amz-security-token;x-amz-target");
    } else {
        a.append("content-type;host;x-amz-date;x-amz-target");
    }
    a.append(", Signature=");
    a.append(signature.as_str());
    proof {
        assert(opt_view(token) == credentials.token_view());
        assert(a@ =~= authorization_view(*credentials, region@, *time, body@));
    }
    Ok(a)
}

/// The address of the live-tail endpoint of `region`.
pub open spec fn url_view(region: Seq<char>) -> Seq<char> {
    "https://streaming-logs."@ + region + ".amazonaws.com"@
}

/// The headers of a live-tail request, in order: content type, user agent,
/// target, timestamp, the session token when there is one, and the
/// authorization.
pub open spec fn headers_view(version: Seq<char>, timestamp: Seq<char>, token: Option<Seq<char>>, auth: Seq<char>) -> Seq<(Seq<char>, Seq<char>)> {
    seq![
        ("Content-Type"@, "application/x-amz-json-1.1"@),
        ("User-Agent"@, "cw-axe/"@ + version),
        ("X-Amz-Target"@, "Logs_20140328.StartLiveTail"@),
        ("X-Amz-Date"@, timestamp),
    ] + match token {
        Some(t) => seq![("X-Amz-Security-Token"@, t)],
        None => Seq::empty(),
    } + seq![("Authorization"@, auth)]
}

/// The text of each header name and value.
pub open spec fn header_views(h: Seq<(String, String)>) -> Seq<(Seq<char>, Seq<char>)> {
    h.map_values(|p: (String, String)| (p.0@, p.1@))
}

/// A signed HTTP `POST`, ready to send.
pub struct HttpRequest {
    pub url: String,
    pub headers: Vec<(String, String)>,
    pub body: String,
}

fn push_header(headers: &mut Vec<(String, String)>, name: &str, value: &str)
    ensures
        header_views(final(headers)@) == header_views(old(headers)@).push((name@, value@)),
{
    headers.push((String::from_str(name), String::from_str(value)));
    assert(header_views(final(headers)@) =~= header_views(old(headers)@).push((name@, value@)));
}

/// The signed request that starts a live tail of `group_arn` (and of
/// `stream` alone, if given) in `region`, with the filter pattern `filter`,
/// signed with `credentials` at `time`; `version` goes into the user agent.
pub fn live_tail_request(
    credentials: &Credentials,
    region: &str,
    group_arn: &str,
    stream: Option<&str>,
    filter: Option<&str>,
    time: &SigningTime,
    version: &str,
) -> (r: Result<HttpRequest, Error>)
    ensures
        r matches Ok(q) ==> {
            &&& q.url@ == url_view(region@)
            &&& q.body@ == request_body_view(group_arn@, opt_view(stream), opt_view(filter))
            &&& header_views(q.headers@) == headers_view(
                version@,
                time.timestamp_view(),
                credentials.token_view(),
                authorization_view(*credentials, region@, *time, q.body@),
            )
        },
        r is Ok,
{
    let body = request_body(group_arn, stream, filter)?;
    let auth = authorization(credentials, region, time, body.as_str())?;
    let timestamp = time.timestamp();
    let mut agent = String::from_str("cw-axe/");
    agent.append(version);
    let mut headers: Vec<(String, String)> = Vec::new();
    push_header(&mut headers, "Content-Type", "application/x-amz-json-1.1");
    push_header(&mut headers, "User-Agent", agent.as_str());
    push_header(&mut headers, "X-Amz-Target", "Logs_20140328.StartLiveTail");
    push_header(&mut headers, "X-Amz-Date", timestamp.as_str());
    if let Some(token) = &credentials.session_token {
        push_header(&mut headers, "X-Amz-Security-Token", token.as_str());
    }
    push_header(&mut headers, "Authorization", auth.as_str());
    let mut url = String::from_str("https://streaming-logs.");
    url.append(region);
    url.append(".amazonaws.com");
    proof {
        assert(header_views(headers@) =~= headers_view(
            version@,
            time.timestamp_view(),
            credentials.token_view(),
            authorization_view(*credentials, region@, *time, body@),
        ));
    }
    Ok(HttpRequest { url, headers, body })
}

/// What the content type of the response says the body is.
#[derive(Debug, Clone, Copy, PartialEq, Eq)]
pub enum ResponseKind {
    /// A JSON error document.
    ApiError,
    /// The binary event stream.
    EventStream,
    /// Anything else, or no content type at all.
    Unexpected,
}

/// Classifies a response by the bytes of its `Content-Type` header.
pub fn response_kind(content_type: Option<&[u8]>) -> (r: ResponseKind)
    ensures
        r == ResponseKind::ApiError <==> (content_type matches Some(v)
            && v@ == "application/x-amz-json-1.1".spec_bytes()),
        r == ResponseKind::EventStream <==> (content_type matches Some(v)
            && v@ == "application/vnd.amazon.eventstream".spec_bytes()),
{
    proof {
        reveal_strlit("application/x-amz-json-1.1");
        reveal_strlit("application/vnd.amazon.eventstream");
        let json = "application/x-amz-json-1.1";
        let stream = "application/vnd.amazon.eventstream";
        assert(json@.len() != stream@.len());
        assert(decode_utf8(encode_utf8(json@)) == json@);
        assert(decode_utf8(encode_utf8(stream@)) == stream@);
        assert(json.spec_bytes() != stream.spec_bytes());
    }
    match content_type {
        None => ResponseKind::Unexpected,
        Some(v) => {
            if bytes_eq(v, "application/x-amz-json-1.1".as_bytes()) {
                ResponseKind::ApiError
            } else if bytes_eq(v, "application/vnd.amazon.eventstream".as_bytes()) {
                ResponseKind::EventStream
            } else {
                ResponseKind::Unexpected
            }
        },
    }
}

/// What a live-tail session asks its driver to do next.
#[derive(Debug)]
pub enum TailAction {
    /// Hand this record to the consumer and report its answer with `consumed`.
    Deliver(SessionResult),
    /// Decode this payload as a session update and hand it over with `updated`.
    Decode(String),
    /// Read the next chunk of the response body and hand it over with
    /// `received`, or report the end of the body with `ended`.
    Read,
    /// The session is over: the body ended or the consumer asked to stop.
    Finish,
    /// The session is over: the event stream could not be decoded.
    Fail(ParserError),
}

/// The event a session waits for.
pub enum Phase {
    /// Nothing: the driver asks for the next action.
    Ready,
    /// A chunk of the response body, or its end.
    Chunk,
    /// The session update that a payload holds.
    Update,
    /// The consumer's answer to a record.
    Answer,
    /// Nothing ever again.
    Done,
}

/// The decisions of one live-tail call: it decodes the response body as it
/// arrives, hands out its records in order, and stops for good when the body
/// ends, when decoding fails, or when the consumer declines a record.
pub struct LiveTail {
    frames: EventStreamParser,
    messages: MessageParser,
    stopped: bool,
    phase: Ghost<Phase>,
}

impl LiveTail {
    /// The frame decoder.
    pub closed spec fn frames(&self) -> EventStreamParser {
        self.frames
    }

    /// The records of the last update still to hand out.
    pub closed spec fn queue(&self) -> Seq<SessionResult> {
        self.messages.queue()
    }

    /// Whether the session will hand out nothing more.
    pub closed spec fn stopped(&self) -> bool {
        self.stopped
    }

    /// The event the session waits for.
    pub closed spec fn phase(&self) -> Phase {
        self.phase@
    }

    /// The frame decoder is consistent while the session goes on, and waits
    /// for input when the session waits for a chunk.
    pub closed spec fn wf(&self) -> bool {
        &&& !(self.phase@ is Done) ==> self.frames.wf()
        &&& self.phase@ is Chunk ==> self.frames.waiting()
    }

    /// A session that has received nothing.
    pub fn new() -> (r: Self)
        ensures
            r.wf(),
            r.phase() is Ready,
            !r.stopped(),
            r.queue() == Seq::<SessionResult>::empty(),
            r.frames().received() == Seq::<u8>::empty(),
            r.frames().emitted() == Seq::<Seq<char>>::empty(),
    {
        Self {
            frames: EventStreamParser::new(),
            messages: MessageParser::new(),
            stopped: false,
            phase: Ghost(Phase::Ready),
        }
    }

    /// The next thing to do. A stopped session only finishes; queued records
    /// go out first, in order, and the frame decoder is consulted only when
    /// none is left.
    pub fn next_action(&mut self) -> (r: TailAction)
        requires
            old(self).wf(),
            old(self).phase() is Ready,
        ensures
            old(self).stopped() ==> r is Finish && final(self).phase() is Done,
            !old(self).stopped() && old(self).queue().len() > 0 ==> {
                &&& r == TailAction::Deliver(old(self).queue()[0])
                &&& final(self).queue() == old(self).queue().drop_first()
                &&& final(self).frames() == old(self).frames()
                &&& final(self).phase() is Answer
                &&& final(self).wf()
                &&& !final(self).stopped()
            },
            !old(self).stopped() && old(self).queue().len() == 0 ==> {
                &&& r is Decode || r is Read || r is Fail
                &&& r matches TailAction::Decode(s) ==> {
                    &&& final(self).frames().received() == old(self).frames().received()
                    &&& final(self).frames().emitted() == old(self).frames().emitted().push(s@)
                    &&& final(self).frames().emitted() == run(initial_decoder(), final(self).frames().received()).outs.take(
                        final(self).frames().emitted().len() as int,
                    )
                    &&& final(self).frames().emitted().len() <= run(
                        initial_decoder(),
                        final(self).frames().received(),
                    ).outs.len()
                    &&& final(self).phase() is Update
                }
                &&& r is Read ==> {
                    &&& final(self).frames().received() == old(self).frames().received()
                    &&& final(self).frames().emitted() == old(self).frames().emitted()
                    &&& run(initial_decoder(), final(self).frames().received()) == (Run {
                        outs: final(self).frames().emitted(),
                        end: RunEnd::Waiting(final(self).frames().decoder(), final(self).frames().pending()),
                    })
                    &&& final(self).phase() is Chunk
                }
                &&& r matches TailAction::Fail(e) ==> {
                    &&& run(initial_decoder(), old(self).frames().received()).end matches RunEnd::Failed(f)
                    &&& error_matches(e, f)
                    &&& final(self).phase() is Done
                }
                &&& final(self).wf()
                &&& !final(self).stopped()
            },
    {
        if self.stopped {
            self.phase = Ghost(Phase::Done);
            return TailAction::Finish;
        }
        if let Some(record) = self.messages.next() {
            self.phase = Ghost(Phase::Answer);
            return TailAction::Deliver(record);
        }
        match self.frames.get() {
            Ok(Some(payload)) => {
                self.phase = Ghost(Phase::Update);
                TailAction::Decode(payload)
            },
            Ok(None) => {
                self.phase = Ghost(Phase::Chunk);
                TailAction::Read
            },
            Err(e) => {
                self.phase = Ghost(Phase::Done);
                TailAction::Fail(e)
            },
        }
    }

    /// Takes in the next chunk of the response body.
    pub fn received(&mut self, chunk: bytes::Bytes)
        requires
            old(self).wf(),
            old(self).phase() is Chunk,
        ensures
            final(self).wf(),
            final(self).phase() is Ready,
            final(self).frames().received() == old(self).frames().received() + bytes_content(chunk),
            final(self).frames().emitted() == old(self).frames().emitted(),
            final(self).queue() == old(self).queue(),
            final(self).stopped() == old(self).stopped(),
    {
        self.frames.add(chunk);
        self.phase = Ghost(Phase::Ready);
    }

    /// Notes that the response body has ended: the session finishes.
    pub fn ended(&mut self)
        requires
            old(self).wf(),
            old(self).phase() is Chunk,
        ensures
            final(self).wf(),
            final(self).phase() is Ready,
            final(self).stopped(),
    {
        self.stopped = true;
        self.phase = Ghost(Phase::Ready);
    }

    /// Takes in the session update that the last payload held; its records
    /// go out next, in document order.
    pub fn updated(&mut self, update: SessionUpdate)
        requires
            old(self).wf(),
            old(self).phase() is Update,
        ensures
            final(self).wf(),
            final(self).phase() is Ready,
            final(self).queue() == update.session_results@,
            final(self).frames() == old(self).frames(),
            final(self).stopped() == old(self).stopped(),
    {
        self.messages.add(update);
        self.phase = Ghost(Phase::Ready);
    }

    /// Takes in the consumer's answer to the last record: `false` stops the
    /// session, with no error, whatever input is left.
    pub fn consumed(&mut self, keep_going: bool)
        requires
            old(self).wf(),
            old(self).phase() is Answer,
        ensures
            final(self).wf(),
            final(self).phase() is Ready,
            final(self).stopped() == (old(self).stopped() || !keep_going),
            final(self).queue() == old(self).queue(),
            final(self).frames() == old(self).frames(),
    {
        if !keep_going {
            self.stopped = true;
        }
        self.phase = Ghost(Phase::Ready);
    }
}

} // verus!
