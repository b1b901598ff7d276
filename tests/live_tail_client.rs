use cw_axe::live_tail_client::{
    authorization, canonical_request, live_tail_request, request_body, response_kind, signing_key, string_to_sign,
    Credentials, ResponseKind, SigningTime,
};
use cw_axe::text::to_hex;
use hmac::Mac;
use sha2::Digest;

const EMPTY_SHA256: &str = "e3b0c44298fc1c149afbf4c8996fb92427ae41e4649b934ca495991b7852b855";

fn time() -> SigningTime {
    SigningTime { year: 2024, month: 1, day: 2, hour: 3, minute: 4, second: 5 }
}

fn credentials(token: Option<&str>) -> Credentials {
    Credentials {
        access_key_id: "AKIDEXAMPLE".to_string(),
        secret_access_key: "wJalrXUtnFEMI/K7MDENG+bPxRfiCYEXAMPLEKEY".to_string(),
        session_token: token.map(|t| t.to_string()),
    }
}

fn hmac(key: &[u8], data: &[u8]) -> Vec<u8> {
    let mut m = <hmac::Hmac<sha2::Sha256> as hmac::Mac>::new_from_slice(key).unwrap();
    m.update(data);
    m.finalize().into_bytes().to_vec()
}

fn hex(b: &[u8]) -> String {
    b.iter().map(|x| format!("{x:02x}")).collect()
}

fn sha_hex(data: &[u8]) -> String {
    hex(&sha2::Sha256::digest(data))
}

#[test]
fn signing_time_formats() {
    assert_eq!(time().date(), "20240102");
    assert_eq!(time().timestamp(), "20240102T030405Z");
    let late = SigningTime { year: 999, month: 12, day: 31, hour: 23, minute: 59, second: 59 };
    assert_eq!(late.timestamp(), "09991231T235959Z");
}

#[test]
fn hex_is_lower_case_two_digits_per_byte() {
    assert_eq!(to_hex(&[0, 1, 0x0f, 0xab, 0xff]), "00010fabff");
    assert_eq!(to_hex(&[]), "");
}

#[test]
fn request_body_without_stream() {
    let body = request_body("arn:aws:logs:us-east-1:1:log-group:g", None, None).unwrap();
    assert_eq!(body, "{\"logEventFilterPattern\":\"\",\"logGroupIdentifiers\":[\"arn:aws:logs:us-east-1:1:log-group:g\"]}");
}

#[test]
fn request_body_with_stream_and_filter() {
    let body = request_body("arn", Some("s\"1"), Some("ERROR")).unwrap();
    assert_eq!(
        body,
        "{\"logEventFilterPattern\":\"ERROR\",\"logGroupIdentifiers\":[\"arn\"],\"logStreamNames\":[\"s\\\"1\"]}"
    );
}

#[test]
fn canonical_request_known_good() {
    let c = canonical_request("us-east-1", "20240102T030405Z", None, "");
    assert_eq!(
        c,
        format!(
            "POST\n/\n\ncontent-type:application/x-amz-json-1.1\nhost:streaming-logs.us-east-1.amazonaws.com\nx-amz-date:20240102T030405Z\nx-amz-target:Logs_20140328.StartLiveTail\n\ncontent-type;host;x-amz-date;x-amz-target\n{EMPTY_SHA256}"
        )
    );
}

#[test]
fn canonical_request_with_token() {
    let c = canonical_request("eu-west-1", "20240102T030405Z", Some("TOKEN"), "{}");
    let expected = format!(
        "POST\n/\n\ncontent-type:application/x-amz-json-1.1\nhost:streaming-logs.eu-west-1.amazonaws.com\nx-amz-date:20240102T030405Z\nx-amz-security-token:TOKEN\nx-amz-target:Logs_20140328.StartLiveTail\n\ncontent-type;host;x-amz-date;x-amz-security-token;x-amz-target\n{}",
        sha_hex(b"{}")
    );
    assert_eq!(c, expected);
}

#[test]
fn string_to_sign_layout() {
    let s = string_to_sign("20240102T030405Z", "20240102", "us-east-1", "");
    assert_eq!(s, format!("AWS4-HMAC-SHA256\n20240102T030405Z\n20240102/us-east-1/logs/aws4_request\n{EMPTY_SHA256}"));
}

#[test]
fn signing_key_chain() {
    let secret = "wJalrXUtnFEMI/K7MDENG+bPxRfiCYEXAMPLEKEY";
    let k = hmac(format!("AWS4{secret}").as_bytes(), b"20240102");
    let k = hmac(&k, b"us-east-1");
    let k = hmac(&k, b"logs");
    let k = hmac(&k, b"aws4_request");
    assert_eq!(signing_key(secret, "20240102", "us-east-1").unwrap(), k);
    assert_ne!(signing_key(secret, "20240103", "us-east-1").unwrap(), k);
}

#[test]
fn signing_example_is_reproducible() {
    let creds = credentials(None);
    let body = "{\"logEventFilterPattern\":\"\",\"logGroupIdentifiers\":[\"arn:aws:logs:us-east-1:123456789012:log-group:app\"]}";
    let first = authorization(&creds, "us-east-1", &time(), body).unwrap();
    let second = authorization(&creds, "us-east-1", &time(), body).unwrap();
    assert_eq!(first, second);

    let canonical = format!(
        "POST\n/\n\ncontent-type:application/x-amz-json-1.1\nhost:streaming-logs.us-east-1.amazonaws.com\nx-amz-date:20240102T030405Z\nx-amz-target:Logs_20140328.StartLiveTail\n\ncontent-type;host;x-amz-date;x-amz-target\n{}",
        sha_hex(body.as_bytes())
    );
    let to_sign = format!(
        "AWS4-HMAC-SHA256\n20240102T030405Z\n20240102/us-east-1/logs/aws4_request\n{}",
        sha_hex(canonical.as_bytes())
    );
    let key = signing_key(&creds.secret_access_key, "20240102", "us-east-1").unwrap();
    let signature = hex(&hmac(&key, to_sign.as_bytes()));
    assert_eq!(signature.len(), 64);
    assert_eq!(
        first,
        format!(
            "AWS4-HMAC-SHA256 Credential=AKIDEXAMPLE/20240102/us-east-1/logs/aws4_request, SignedHeaders=content-type;host;x-amz-date;x-amz-target, Signature={signature}"
        )
    );
    let other_body = authorization(&creds, "us-east-1", &time(), "{}").unwrap();
    assert_ne!(first, other_body);
}

#[test]
fn session_token_is_signed_and_sent() {
    let creds = credentials(Some("TOKEN"));
    let req = live_tail_request(&creds, "us-east-1", "arn", Some("stream"), None, &time(), "1.2.3").unwrap();
    assert_eq!(req.url, "https://streaming-logs.us-east-1.amazonaws.com");
    assert_eq!(req.body, "{\"logEventFilterPattern\":\"\",\"logGroupIdentifiers\":[\"arn\"],\"logStreamNames\":[\"stream\"]}");
    let names: Vec<&str> = req.headers.iter().map(|(n, _)| n.as_str()).collect();
    assert_eq!(names, vec!["Content-Type", "User-Agent", "X-Amz-Target", "X-Amz-Date", "X-Amz-Security-Token", "Authorization"]);
    assert_eq!(req.headers[0].1, "application/x-amz-json-1.1");
    assert_eq!(req.headers[1].1, "cw-axe/1.2.3");
    assert_eq!(req.headers[2].1, "Logs_20140328.StartLiveTail");
    assert_eq!(req.headers[3].1, "20240102T030405Z");
    assert_eq!(req.headers[4].1, "TOKEN");
    let auth = authorization(&creds, "us-east-1", &time(), &req.body).unwrap();
    assert_eq!(req.headers[5].1, auth);
    assert!(auth.contains("SignedHeaders=content-type;host;x-amz-date;x-amz-security-token;x-amz-target, "));
}

#[test]
fn no_token_header_without_session_token() {
    let req = live_tail_request(&credentials(None), "ap-south-1", "arn", None, Some("x"), &time(), "0").unwrap();
    assert_eq!(req.headers.len(), 5);
    assert!(req.headers.iter().all(|(n, _)| n != "X-Amz-Security-Token"));
}

#[test]
fn response_kinds() {
    assert_eq!(response_kind(Some(b"application/x-amz-json-1.1")), ResponseKind::ApiError);
    assert_eq!(response_kind(Some(b"application/vnd.amazon.eventstream")), ResponseKind::EventStream);
    assert_eq!(response_kind(Some(b"text/html")), ResponseKind::Unexpected);
    assert_eq!(response_kind(None), ResponseKind::Unexpected);
}

#[test]
fn request_body_escapes_like_json() {
    let body = request_body("a\\b", None, Some("x\u{1}\t\"y\u{7f}é")).unwrap();
    assert_eq!(
        body,
        "{\"logEventFilterPattern\":\"x\\u0001\\t\\\"y\u{7f}é\",\"logGroupIdentifiers\":[\"a\\\\b\"]}"
    );
}
