use secrets_manager::config::{ConfigError, Environment, Settings};
use secrets_manager::error::{
    AwsError, IncompleteSignature, InternalServiceError, InvalidClientTokenId,
    InvalidParameterException, InvalidRequestException, MissingAuthenticationToken,
    NotImplemented, ResourceExistsException, ResourceNotFoundException, SignatureDoesNotMatch,
};
use secrets_manager::pagination::{parse_u32, write_decimal, PaginationToken};
use secrets_manager::search::contains_str;
use secrets_manager::text::{constant_time_eq, split_str};

#[test]
fn error_kinds_names_and_status() {
    let all = [
        (AwsError::InvalidClientTokenId(InvalidClientTokenId), "InvalidClientTokenId", 403),
        (AwsError::SignatureDoesNotMatch(SignatureDoesNotMatch), "SignatureDoesNotMatch", 403),
        (AwsError::MissingAuthenticationToken(MissingAuthenticationToken), "MissingAuthenticationToken", 400),
        (AwsError::IncompleteSignature(IncompleteSignature), "IncompleteSignature", 400),
        (AwsError::InvalidRequestException(InvalidRequestException), "InvalidRequestException", 400),
        (AwsError::InvalidParameterException(InvalidParameterException), "InvalidParameterException", 400),
        (AwsError::ResourceNotFoundException(ResourceNotFoundException), "ResourceNotFoundException", 400),
        (AwsError::ResourceExistsException(ResourceExistsException), "ResourceExistsException", 400),
        (AwsError::NotImplemented(NotImplemented), "NotImplemented", 400),
        (AwsError::InternalServiceError(InternalServiceError), "InternalServiceError", 400),
    ];
    for (e, name, status) in all {
        assert_eq!(e.error_type(), name);
        assert_eq!(e.status_code(), status);
        assert!(!e.message().is_empty());
    }
    assert_eq!(AwsError::ResourceNotFoundException(ResourceNotFoundException).message(), "Secrets Manager can't find the resource that you asked for.");
}

#[test]
fn pagination_tokens() {
    let t = PaginationToken { page_size: 25, page_index: 3 };
    assert_eq!(t.to_text(), "3:25");
    assert_eq!(PaginationToken::parse("3:25"), Some(t));
    assert_eq!(PaginationToken::parse("3-25"), None);
    assert_eq!(PaginationToken::parse(":25"), None);
    assert_eq!(PaginationToken::parse("4294967296:1"), None);
    let t = PaginationToken { page_size: 100, page_index: 0 }.page_size(10);
    assert_eq!(t.as_query_parts(), Some((10, 0)));
    assert_eq!(PaginationToken { page_size: 10, page_index: 4 }.as_query_parts(), Some((10, 40)));
    assert_eq!(PaginationToken { page_size: 100, page_index: 30_000_000 }.as_query_parts(), None);
    assert_eq!(t.get_next_page(11), Some(PaginationToken { page_size: 10, page_index: 1 }));
    assert_eq!(t.get_next_page(10), None);
    let mut s = String::from("n=");
    write_decimal(1_234_567_890, &mut s);
    assert_eq!(s, "n=1234567890");
    assert_eq!(parse_u32("0"), Some(0));
    assert_eq!(parse_u32("4294967295"), Some(u32::MAX));
    assert_eq!(parse_u32("12a"), None);
    assert_eq!(parse_u32(""), None);
}

#[test]
fn text_helpers() {
    assert_eq!(split_str("a, b,c, ", ", "), vec!["a", "b,c", ""]);
    assert_eq!(split_str("abc", ";"), vec!["abc"]);
    assert!(constant_time_eq("abc", "abc"));
    assert!(!constant_time_eq("abc", "abd"));
    assert!(!constant_time_eq("abc", "ab"));
    assert!(contains_str("database", "tab"));
    assert!(contains_str("x", ""));
    assert!(!contains_str("Database", "data"));
}

fn env() -> Environment {
    Environment {
        encryption_key: Some("key".to_string()),
        access_key_id: Some("id".to_string()),
        access_key_secret: Some("secret".to_string()),
        database_path: None,
        use_https: None,
        server_address: None,
        certificate_path: None,
        private_key_path: None,
    }
}

#[test]
fn settings_from_environment() {
    let s = Settings::from_environment(env()).ok().unwrap();
    assert_eq!(s.encryption_key, "key");
    assert_eq!(s.access_key_id, "id");
    assert_eq!(s.access_key_secret, "secret");
    assert_eq!(s.certificate_path, "sm.cert.pem");
    assert_eq!(s.private_key_path, "sm.key.pem");
    assert_eq!(s.database_path, "secrets.db");
    assert_eq!(s.server_address, "0.0.0.0:8080");
    assert!(!s.use_https);
    let mut e = env();
    e.use_https = Some("true".to_string());
    let s = Settings::from_environment(e).ok().unwrap();
    assert!(s.use_https);
    assert_eq!(s.server_address, "0.0.0.0:8443");
    let mut e = env();
    e.use_https = Some("yes".to_string());
    assert_eq!(Settings::from_environment(e).err(), Some(ConfigError::InvalidUseHttps));
    let mut e = env();
    e.encryption_key = None;
    assert_eq!(Settings::from_environment(e).err(), Some(ConfigError::MissingEncryptionKey));
    let mut e = env();
    e.access_key_secret = None;
    assert_eq!(Settings::from_environment(e).err(), Some(ConfigError::MissingAccessKeySecret));
}
