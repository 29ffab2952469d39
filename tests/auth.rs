use aws_credential_types::Credentials;
use aws_sigv4::http_request::{sign, SignableBody, SignableRequest, SigningSettings};
use aws_sigv4::sign::v4::SigningParams;
use secrets_manager::auth::{authenticate, AccessCredentials, HeaderEntry, HttpRequest};
use secrets_manager::date::{parse_amz_date, parse_http_date, AmzDateError};
use secrets_manager::error::AwsError;
use secrets_manager::sigv4::{parse_auth_header, parse_signing_scope, AuthHeaderError};
use std::time::{Duration, UNIX_EPOCH};

const NOW: i64 = 1_761_912_000;
const AMZ_NOW: &str = "20251031T120000Z";

fn signature(method: &str, uri: &str, headers: &[(&str, &str)], body: &[u8], key_id: &str, secret: &str, time: i64) -> String {
    let identity = Credentials::new(key_id, secret, None, None, "test").into();
    let params = SigningParams::builder()
        .identity(&identity)
        .region("us-east-1")
        .name("secretsmanager")
        .time(UNIX_EPOCH + Duration::from_secs(time as u64))
        .settings(SigningSettings::default())
        .build()
        .unwrap()
        .into();
    let request = SignableRequest::new(method, uri, headers.iter().copied(), SignableBody::Bytes(body)).unwrap();
    sign(request, &params).unwrap().into_parts().1
}

fn header(name: &str, value: &str) -> HeaderEntry {
    HeaderEntry { name: name.to_string(), value: Some(value.to_string()) }
}

/// A request signed by `key_id`/`secret` at `time`, with `x-amz-date` set to `amz_date`.
fn signed_request(key_id: &str, secret: &str, time: i64, amz_date: &str, body: &[u8]) -> HttpRequest {
    let headers = [("host", "localhost:8080"), ("x-amz-date", amz_date)];
    let sig = signature("POST", "/", &headers, body, key_id, secret, time);
    let date = &amz_date[..8];
    let authorization = format!(
        "AWS4-HMAC-SHA256 Credential={key_id}/{date}/us-east-1/secretsmanager/aws4_request, SignedHeaders=host;x-amz-date, Signature={sig}"
    );
    HttpRequest {
        method: "POST".to_string(),
        uri: "/".to_string(),
        headers: vec![
            header("host", "localhost:8080"),
            header("x-amz-date", amz_date),
            header("x-amz-target", "secretsmanager.CreateSecret"),
            header("authorization", &authorization),
        ],
        body: body.to_vec(),
    }
}

fn enrolled() -> AccessCredentials {
    AccessCredentials { access_key_id: "TEST".to_string(), secret_access_key: "test".to_string() }
}

#[test]
fn valid_signature_is_accepted() {
    let req = signed_request("TEST", "test", NOW, AMZ_NOW, b"{\"Name\":\"test\"}");
    assert_eq!(authenticate(&req, &enrolled(), NOW), Ok(()));
    assert_eq!(authenticate(&req, &enrolled(), NOW + 300), Ok(()));
    assert_eq!(authenticate(&req, &enrolled(), NOW - 300), Ok(()));
}

#[test]
fn clock_skew_is_rejected() {
    let req = signed_request("TEST", "test", NOW, AMZ_NOW, b"{}");
    let r = authenticate(&req, &enrolled(), NOW + 360);
    assert!(matches!(r, Err(AwsError::InvalidRequestException(_))));
    let r = authenticate(&req, &enrolled(), NOW + 301);
    assert!(matches!(r, Err(AwsError::InvalidRequestException(_))));
}

#[test]
fn unknown_access_key_is_rejected() {
    let req = signed_request("TEST_THAT_DOES_NOT_MATCH", "test", NOW, AMZ_NOW, b"{}");
    let r = authenticate(&req, &enrolled(), NOW);
    assert!(matches!(r, Err(AwsError::InvalidClientTokenId(_))));
}

#[test]
fn wrong_secret_is_rejected() {
    let req = signed_request("TEST", "test_not_matching", NOW, AMZ_NOW, b"{}");
    let r = authenticate(&req, &enrolled(), NOW);
    assert!(matches!(r, Err(AwsError::SignatureDoesNotMatch(_))));
}

#[test]
fn tampered_body_is_rejected() {
    let mut req = signed_request("TEST", "test", NOW, AMZ_NOW, b"{\"Name\":\"a\"}");
    req.body = b"{\"Name\":\"b\"}".to_vec();
    let r = authenticate(&req, &enrolled(), NOW);
    assert!(matches!(r, Err(AwsError::SignatureDoesNotMatch(_))));
}

#[test]
fn missing_or_bad_headers() {
    let mut req = signed_request("TEST", "test", NOW, AMZ_NOW, b"{}");
    req.headers.retain(|h| h.name != "authorization");
    assert!(matches!(authenticate(&req, &enrolled(), NOW), Err(AwsError::MissingAuthenticationToken(_))));
    let mut req = signed_request("TEST", "test", NOW, AMZ_NOW, b"{}");
    for h in req.headers.iter_mut() {
        if h.name == "authorization" {
            h.value = None;
        }
    }
    assert!(matches!(authenticate(&req, &enrolled(), NOW), Err(AwsError::InvalidRequestException(_))));
    let mut req = signed_request("TEST", "test", NOW, AMZ_NOW, b"{}");
    for h in req.headers.iter_mut() {
        if h.name == "authorization" {
            h.value = Some("AWS4-HMAC-SHA1 Credential=x".to_string());
        }
    }
    assert!(matches!(authenticate(&req, &enrolled(), NOW), Err(AwsError::IncompleteSignature(_))));
    let mut req = signed_request("TEST", "test", NOW, AMZ_NOW, b"{}");
    req.headers.retain(|h| h.name != "x-amz-date");
    assert!(matches!(authenticate(&req, &enrolled(), NOW), Err(AwsError::InvalidRequestException(_))));
}

#[test]
fn date_header_is_a_fallback() {
    let mut req = signed_request("TEST", "test", NOW, AMZ_NOW, b"{}");
    for h in req.headers.iter_mut() {
        if h.name == "x-amz-date" {
            h.value = Some("not a date".to_string());
        }
    }
    req.headers.push(header("date", "Fri, 31 Oct 2025 12:10:00 GMT"));
    let r = authenticate(&req, &enrolled(), NOW);
    assert!(matches!(r, Err(AwsError::InvalidRequestException(_))));
    let r = authenticate(&req, &enrolled(), NOW + 600);
    assert!(matches!(r, Err(AwsError::SignatureDoesNotMatch(_))));
}

#[test]
fn parses_authorization_header() {
    let h = "AWS4-HMAC-SHA256 Credential=AKID/20251031/us-east-1/secretsmanager/aws4_request, SignedHeaders=host;x-amz-date, Signature=abc123";
    let auth = parse_auth_header(h).ok().unwrap();
    assert_eq!(auth.signing_scope.access_key_id, "AKID");
    assert_eq!(auth.signing_scope.date_yyyymmdd, "20251031");
    assert_eq!(auth.signing_scope.region, "us-east-1");
    assert_eq!(auth.signing_scope.service, "secretsmanager");
    assert_eq!(auth.signing_scope.aws4_request, "aws4_request");
    assert_eq!(auth.signed_headers, vec!["host", "x-amz-date"]);
    assert_eq!(auth.signature, "abc123");
}

#[test]
fn authorization_header_errors() {
    let err = |h: &str| parse_auth_header(h).err().unwrap();
    assert_eq!(err("AWS4-HMAC-SHA256"), AuthHeaderError::InvalidHeader);
    assert_eq!(err("Basic abc"), AuthHeaderError::UnsupportedAlgorithm);
    assert_eq!(err("AWS4-HMAC-SHA256 Credential=a/b/c/d/e, Broken"), AuthHeaderError::InvalidKeyValue);
    assert_eq!(err("AWS4-HMAC-SHA256 SignedHeaders=host, Signature=x"), AuthHeaderError::MissingCredential);
    assert_eq!(err("AWS4-HMAC-SHA256 Credential=a/b/c/d/e, Signature=x"), AuthHeaderError::MissingSignedHeaders);
    assert_eq!(err("AWS4-HMAC-SHA256 Credential=a/b/c/d/e, SignedHeaders=host"), AuthHeaderError::MissingSignature);
    assert_eq!(err("AWS4-HMAC-SHA256 Credential=a/b/c/d, SignedHeaders=host, Signature=x"), AuthHeaderError::InvalidScope);
    let last = parse_auth_header("AWS4-HMAC-SHA256 Signature=first, Credential=a/b/c/d/e, SignedHeaders=host, Signature=second").ok().unwrap();
    assert_eq!(last.signature, "second");
}

#[test]
fn signing_scope_needs_five_parts() {
    let s = parse_signing_scope("id/20250101/eu-west-1/svc/aws4_request").unwrap();
    assert_eq!(s.region, "eu-west-1");
    assert!(parse_signing_scope("id/20250101/eu-west-1/svc").is_none());
    assert!(parse_signing_scope("id/20250101/eu-west-1/svc/aws4_request/extra").is_none());
}

#[test]
fn parses_dates() {
    assert_eq!(parse_amz_date("20251031T120000Z"), Ok(NOW));
    assert_eq!(parse_amz_date("20251031T120000"), Err(AmzDateError::Invalid));
    assert_eq!(parse_amz_date("2025-10-31Z"), Err(AmzDateError::Parse));
    assert_eq!(parse_http_date("Fri, 31 Oct 2025 12:00:00 GMT").ok(), Some(NOW));
    assert_eq!(parse_http_date("Friday, 31-Oct-25 12:00:00 GMT").ok(), Some(NOW));
    assert_eq!(parse_http_date("Fri Oct 31 12:00:00 2025").ok(), Some(NOW));
    assert!(parse_http_date("yesterday").is_err());
}

#[test]
fn unsigned_host_is_rejected() {
    let headers = [("x-amz-date", AMZ_NOW)];
    let sig = "0".repeat(64);
    let _ = &headers;
    let authorization = format!(
        "AWS4-HMAC-SHA256 Credential=TEST/20251031/us-east-1/secretsmanager/aws4_request, SignedHeaders=x-amz-date, Signature={sig}"
    );
    let req = HttpRequest {
        method: "POST".to_string(),
        uri: "/".to_string(),
        headers: vec![header("host", "localhost:8080"), header("x-amz-date", AMZ_NOW), header("authorization", &authorization)],
        body: b"{}".to_vec(),
    };
    assert!(matches!(authenticate(&req, &enrolled(), NOW), Err(AwsError::IncompleteSignature(_))));
}

#[test]
fn dates_past_year_9999_are_rejected() {
    let far = 253_402_300_800i64;
    let req = signed_request("TEST", "test", NOW, AMZ_NOW, b"{}");
    let mut req = req;
    for h in req.headers.iter_mut() {
        if h.name == "x-amz-date" {
            h.value = Some("+100000101T000000Z".to_string());
        }
    }
    assert!(matches!(authenticate(&req, &enrolled(), far), Err(AwsError::InvalidRequestException(_))));
}
