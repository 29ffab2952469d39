use secrets_manager::error::AwsError;
use secrets_manager::handlers::{
    CreateSecretHandler, CreateSecretRequest, DeleteSecretHandler, DeleteSecretRequest,
    GetRandomPasswordHandler, GetRandomPasswordRequest, GetSecretValueHandler,
    GetSecretValueRequest, PutSecretValueHandler, PutSecretValueRequest, RestoreSecretHandler,
    RestoreSecretRequest, TagResourceHandler, TagResourceRequest, UntagResourceHandler,
    UntagResourceRequest, UpdateSecretHandler, UpdateSecretRequest,
    UpdateSecretVersionStageHandler, UpdateSecretVersionStageRequest,
};
use secrets_manager::listing::{
    DescribeSecretHandler, DescribeSecretRequest, DescribeSecretResponse,
    ListSecretVersionIdsHandler, ListSecretVersionIdsRequest,
};
use secrets_manager::search::{
    BatchGetSecretValueHandler, BatchGetSecretValueRequest, Filter, ListSecretsHandler,
    ListSecretsRequest,
};
use secrets_manager::secrets::SecretStore;
use secrets_manager::store::Tag;

const NOW: u64 = 1_761_912_000;

fn create(store: &mut SecretStore, name: &str, value: &str, token: Option<&str>) -> Result<secrets_manager::secrets::CreateSecretResponse, AwsError> {
    CreateSecretHandler::handle(
        store,
        CreateSecretRequest {
            name: name.to_string(),
            description: None,
            client_request_token: token.map(|t| t.to_string()),
            secret_string: Some(value.to_string()),
            secret_binary: None,
            tags: None,
        },
        NOW,
    )
}

fn get(store: &mut SecretStore, id: &str, version_id: Option<&str>, stage: Option<&str>) -> Result<secrets_manager::secrets::GetSecretValueResponse, AwsError> {
    GetSecretValueHandler::handle(
        store,
        GetSecretValueRequest {
            secret_id: id.to_string(),
            version_id: version_id.map(|v| v.to_string()),
            version_stage: stage.map(|v| v.to_string()),
        },
        NOW,
    )
}

fn put(store: &mut SecretStore, id: &str, value: &str, token: Option<&str>, stages: Option<Vec<&str>>) -> Result<secrets_manager::secrets::PutSecretValueResponse, AwsError> {
    PutSecretValueHandler::handle(
        store,
        PutSecretValueRequest {
            client_request_token: token.map(|t| t.to_string()),
            secret_id: id.to_string(),
            secret_string: Some(value.to_string()),
            secret_binary: None,
            version_stages: stages.map(|s| s.into_iter().map(|x| x.to_string()).collect()),
        },
        NOW,
    )
}

fn describe(store: &SecretStore, id: &str) -> DescribeSecretResponse {
    DescribeSecretHandler::handle(store, DescribeSecretRequest { secret_id: id.to_string() }).unwrap()
}

fn stages_of(d: &DescribeSecretResponse, vid: &str) -> Vec<String> {
    let mut s = d
        .version_ids_to_stages
        .iter()
        .find(|v| v.version_id == vid)
        .map(|v| v.version_stages.clone())
        .unwrap_or_default();
    s.sort();
    s
}

fn holders(d: &DescribeSecretResponse, label: &str) -> usize {
    d.version_ids_to_stages.iter().filter(|v| v.version_stages.iter().any(|s| s == label)).count()
}

#[test]
fn scenario_create_and_fetch() {
    let mut store = SecretStore::new();
    let created = create(&mut store, "db/password", "s3cret", None).unwrap();
    let prefix = "arn:aws:secretsmanager:us-east-1:1:secret:db/password-";
    assert!(created.arn.starts_with(prefix));
    let suffix = &created.arn[prefix.len()..];
    assert_eq!(suffix.len(), 6);
    assert!(suffix.chars().all(|c| c.is_ascii_alphanumeric()));
    assert_eq!(created.name, "db/password");
    assert!(created.version_id.len() >= 32);
    let value = get(&mut store, "db/password", None, None).unwrap();
    assert_eq!(value.secret_string.as_deref(), Some("s3cret"));
    assert_eq!(value.version_stages, vec!["AWSCURRENT".to_string()]);
    assert_eq!(value.version_id, created.version_id);
    assert_eq!(value.arn, created.arn);
}

#[test]
fn scenario_idempotent_create() {
    let mut store = SecretStore::new();
    let token = "00000000-0000-0000-0000-000000000001";
    let first = create(&mut store, "db/password", "s3cret", Some(token)).unwrap();
    let again = create(&mut store, "db/password", "s3cret", Some(token)).unwrap();
    assert_eq!(again.arn, first.arn);
    assert_eq!(again.version_id, first.version_id);
    assert_eq!(store.len(), 1);
    let other = create(&mut store, "db/password", "other", Some(token));
    assert!(matches!(other, Err(AwsError::ResourceExistsException(_))));
    let other_token = create(&mut store, "db/password", "s3cret", Some("another-token-another-token-0001"));
    assert!(matches!(other_token, Err(AwsError::ResourceExistsException(_))));
}

#[test]
fn scenario_rotate_via_put() {
    let mut store = SecretStore::new();
    let v1 = create(&mut store, "db/password", "s3cret", None).unwrap().version_id;
    let v2 = put(&mut store, "db/password", "n3w", None, None).unwrap();
    assert_eq!(v2.version_stages, vec!["AWSCURRENT".to_string()]);
    let d = describe(&store, "db/password");
    assert_eq!(stages_of(&d, &v1), vec!["AWSPREVIOUS".to_string()]);
    assert_eq!(stages_of(&d, &v2.version_id), vec!["AWSCURRENT".to_string()]);
    let previous = get(&mut store, "db/password", None, Some("AWSPREVIOUS")).unwrap();
    assert_eq!(previous.secret_string.as_deref(), Some("s3cret"));
    let current = get(&mut store, "db/password", None, None).unwrap();
    assert_eq!(current.secret_string.as_deref(), Some("n3w"));
}

#[test]
fn scenario_stage_move() {
    let mut store = SecretStore::new();
    let v1 = create(&mut store, "db/password", "s3cret", None).unwrap().version_id;
    let v2 = put(&mut store, "db/password", "n3w", None, None).unwrap().version_id;
    UpdateSecretVersionStageHandler::handle(
        &mut store,
        UpdateSecretVersionStageRequest {
            move_to_version_id: Some(v1.clone()),
            remove_from_version_id: Some(v2.clone()),
            secret_id: "db/password".to_string(),
            version_stage: "AWSCURRENT".to_string(),
        },
    )
    .unwrap();
    let d = describe(&store, "db/password");
    assert_eq!(stages_of(&d, &v1), vec!["AWSCURRENT".to_string()]);
    assert_eq!(stages_of(&d, &v2), vec!["AWSPREVIOUS".to_string()]);
    let again = UpdateSecretVersionStageHandler::handle(
        &mut store,
        UpdateSecretVersionStageRequest {
            move_to_version_id: Some(v2.clone()),
            remove_from_version_id: None,
            secret_id: "db/password".to_string(),
            version_stage: "AWSCURRENT".to_string(),
        },
    );
    assert!(matches!(again, Err(AwsError::InvalidRequestException(_))));
    let d = describe(&store, "db/password");
    assert_eq!(stages_of(&d, &v1), vec!["AWSCURRENT".to_string()]);
    assert_eq!(stages_of(&d, &v2), vec!["AWSPREVIOUS".to_string()]);
}

#[test]
fn scenario_scheduled_delete_and_restore() {
    let mut store = SecretStore::new();
    create(&mut store, "db/password", "s3cret", None).unwrap();
    let deleted = DeleteSecretHandler::handle(
        &mut store,
        DeleteSecretRequest {
            force_delete_without_recovery: false,
            recovery_window_in_days: 7,
            secret_id: "db/password".to_string(),
        },
        NOW,
    )
    .unwrap();
    assert_eq!(deleted.deletion_date, NOW + 7 * 86400);
    let blocked = get(&mut store, "db/password", None, None);
    assert!(matches!(blocked, Err(AwsError::InvalidRequestException(_))));
    let d = describe(&store, "db/password");
    assert_eq!(d.deleted_date, Some(NOW));
    let again = DeleteSecretHandler::handle(
        &mut store,
        DeleteSecretRequest {
            force_delete_without_recovery: true,
            recovery_window_in_days: 30,
            secret_id: "db/password".to_string(),
        },
        NOW + 100,
    )
    .unwrap();
    assert_eq!(again.deletion_date, NOW + 7 * 86400);
    RestoreSecretHandler::handle(&mut store, RestoreSecretRequest { secret_id: "db/password".to_string() }).unwrap();
    let value = get(&mut store, "db/password", None, None).unwrap();
    assert_eq!(value.secret_string.as_deref(), Some("s3cret"));
    assert_eq!(describe(&store, "db/password").deleted_date, None);
}

#[test]
fn forced_delete_removes_secret() {
    let mut store = SecretStore::new();
    create(&mut store, "a", "1", None).unwrap();
    create(&mut store, "b", "2", None).unwrap();
    let r = DeleteSecretHandler::handle(
        &mut store,
        DeleteSecretRequest { force_delete_without_recovery: true, recovery_window_in_days: 30, secret_id: "a".to_string() },
        NOW,
    )
    .unwrap();
    assert_eq!(r.deletion_date, NOW);
    assert_eq!(store.len(), 1);
    assert!(matches!(get(&mut store, "a", None, None), Err(AwsError::ResourceNotFoundException(_))));
    assert!(matches!(
        DescribeSecretHandler::handle(&store, DescribeSecretRequest { secret_id: "a".to_string() }),
        Err(AwsError::ResourceNotFoundException(_))
    ));
    assert!(create(&mut store, "a", "fresh", None).is_ok());
    assert_eq!(describe(&store, "a").version_ids_to_stages.len(), 1);
}

#[test]
fn delete_rejects_recovery_window_out_of_range() {
    let mut store = SecretStore::new();
    create(&mut store, "a", "1", None).unwrap();
    for days in [6, 31] {
        let r = DeleteSecretHandler::handle(
            &mut store,
            DeleteSecretRequest { force_delete_without_recovery: false, recovery_window_in_days: days, secret_id: "a".to_string() },
            NOW,
        );
        assert!(matches!(r, Err(AwsError::InvalidParameterException(_))));
    }
    let r = DeleteSecretHandler::handle(
        &mut store,
        DeleteSecretRequest { force_delete_without_recovery: false, recovery_window_in_days: 30, secret_id: "a".to_string() },
        NOW,
    )
    .unwrap();
    assert_eq!(r.deletion_date, NOW + 30 * 86400);
}

#[test]
fn put_replay_is_idempotent() {
    let mut store = SecretStore::new();
    create(&mut store, "k", "v1", None).unwrap();
    let token = "put-token-put-token-put-token-01";
    let first = put(&mut store, "k", "v2", Some(token), None).unwrap();
    let again = put(&mut store, "k", "v2", Some(token), None).unwrap();
    assert_eq!(again.version_id, first.version_id);
    assert_eq!(again.arn, first.arn);
    assert_eq!(again.version_stages, vec!["AWSCURRENT".to_string()]);
    assert_eq!(describe(&store, "k").version_ids_to_stages.len(), 2);
    let conflict = put(&mut store, "k", "v3", Some(token), None);
    assert!(matches!(conflict, Err(AwsError::ResourceExistsException(_))));
}

#[test]
fn put_errors() {
    let mut store = SecretStore::new();
    assert!(matches!(put(&mut store, "missing", "v", None, None), Err(AwsError::ResourceNotFoundException(_))));
    create(&mut store, "k", "v1", None).unwrap();
    assert!(matches!(put(&mut store, "k", "v", None, Some(vec![])), Err(AwsError::InvalidParameterException(_))));
    let both = PutSecretValueHandler::handle(
        &mut store,
        PutSecretValueRequest {
            client_request_token: None,
            secret_id: "k".to_string(),
            secret_string: Some("a".to_string()),
            secret_binary: Some("Yg==".to_string()),
            version_stages: None,
        },
        NOW,
    );
    assert!(matches!(both, Err(AwsError::InvalidRequestException(_))));
}

#[test]
fn rotation_labels_stay_unique() {
    let mut store = SecretStore::new();
    create(&mut store, "k", "v1", None).unwrap();
    for i in 0..4 {
        put(&mut store, "k", &format!("v{}", i + 2), None, None).unwrap();
        let d = describe(&store, "k");
        assert_eq!(holders(&d, "AWSCURRENT"), 1);
        assert_eq!(holders(&d, "AWSPREVIOUS"), 1);
        let cur = d.version_ids_to_stages.iter().find(|v| v.version_stages.iter().any(|s| s == "AWSCURRENT")).unwrap();
        assert!(!cur.version_stages.iter().any(|s| s == "AWSPREVIOUS"));
    }
    let custom = put(&mut store, "k", "staged", None, Some(vec!["CUSTOM"])).unwrap();
    let d = describe(&store, "k");
    assert_eq!(stages_of(&d, &custom.version_id), vec!["CUSTOM".to_string()]);
    assert_eq!(holders(&d, "AWSCURRENT"), 1);
    assert_eq!(get(&mut store, "k", None, None).unwrap().secret_string.as_deref(), Some("v5"));
}

#[test]
fn update_secret_rotates_and_describes() {
    let mut store = SecretStore::new();
    let v1 = create(&mut store, "k", "v1", None).unwrap().version_id;
    let r = UpdateSecretHandler::handle(
        &mut store,
        UpdateSecretRequest {
            client_request_token: Some("update-token-update-token-000001".to_string()),
            description: Some("the description".to_string()),
            secret_id: "k".to_string(),
            secret_string: Some("v2".to_string()),
            secret_binary: None,
        },
        NOW + 10,
    )
    .unwrap();
    assert_eq!(r.version_id.as_deref(), Some("update-token-update-token-000001"));
    let d = describe(&store, "k");
    assert_eq!(d.description.as_deref(), Some("the description"));
    assert_eq!(stages_of(&d, &v1), vec!["AWSPREVIOUS".to_string()]);
    assert_eq!(stages_of(&d, "update-token-update-token-000001"), vec!["AWSCURRENT".to_string()]);
    assert_eq!(d.last_changed_date, Some(NOW + 10));
    let replay = UpdateSecretHandler::handle(
        &mut store,
        UpdateSecretRequest {
            client_request_token: Some("update-token-update-token-000001".to_string()),
            description: None,
            secret_id: "k".to_string(),
            secret_string: Some("v2".to_string()),
            secret_binary: None,
        },
        NOW + 20,
    )
    .unwrap();
    assert_eq!(replay.version_id, None);
    let only_description = UpdateSecretHandler::handle(
        &mut store,
        UpdateSecretRequest { client_request_token: None, description: Some("d2".to_string()), secret_id: "k".to_string(), secret_string: None, secret_binary: None },
        NOW + 30,
    )
    .unwrap();
    assert_eq!(only_description.version_id, None);
    assert_eq!(describe(&store, "k").version_ids_to_stages.len(), 2);
}

#[test]
fn get_by_version_and_stage() {
    let mut store = SecretStore::new();
    let v1 = create(&mut store, "k", "v1", None).unwrap().version_id;
    let v2 = put(&mut store, "k", "v2", None, None).unwrap().version_id;
    assert_eq!(get(&mut store, "k", Some(&v1), None).unwrap().secret_string.as_deref(), Some("v1"));
    assert_eq!(get(&mut store, "k", Some(&v2), Some("AWSCURRENT")).unwrap().secret_string.as_deref(), Some("v2"));
    assert!(matches!(get(&mut store, "k", Some(&v1), Some("AWSCURRENT")), Err(AwsError::ResourceNotFoundException(_))));
    assert!(matches!(get(&mut store, "k", Some("nope"), None), Err(AwsError::ResourceNotFoundException(_))));
    assert!(matches!(get(&mut store, "k", None, Some("NOPE")), Err(AwsError::ResourceNotFoundException(_))));
    let by_arn = describe(&store, "k").arn;
    assert_eq!(get(&mut store, &by_arn, None, None).unwrap().secret_string.as_deref(), Some("v2"));
    let d = describe(&store, "k");
    assert_eq!(d.last_accessed_date, Some(NOW - NOW % 86400));
}

#[test]
fn tags_upsert_and_remove() {
    let mut store = SecretStore::new();
    create(&mut store, "k", "v", None).unwrap();
    TagResourceHandler::handle(
        &mut store,
        TagResourceRequest {
            secret_id: "k".to_string(),
            tags: vec![
                Tag { key: "env".to_string(), value: "dev".to_string() },
                Tag { key: "team".to_string(), value: "core".to_string() },
                Tag { key: "env".to_string(), value: "prod".to_string() },
            ],
        },
        NOW + 5,
    )
    .unwrap();
    let d = describe(&store, "k");
    assert_eq!(d.tags.len(), 2);
    assert_eq!(d.tags[0].key, "env");
    assert_eq!(d.tags[0].value, "prod");
    assert_eq!(d.last_changed_date, Some(NOW + 5));
    UntagResourceHandler::handle(&mut store, UntagResourceRequest { secret_id: "k".to_string(), tag_keys: vec!["env".to_string(), "absent".to_string()] }).unwrap();
    let d = describe(&store, "k");
    assert_eq!(d.tags.len(), 1);
    assert_eq!(d.tags[0].key, "team");
    assert!(matches!(
        UntagResourceHandler::handle(&mut store, UntagResourceRequest { secret_id: "nope".to_string(), tag_keys: vec![] }),
        Err(AwsError::ResourceNotFoundException(_))
    ));
}

#[test]
fn create_rejects_bad_requests() {
    let mut store = SecretStore::new();
    assert!(matches!(create(&mut store, "", "v", None), Err(AwsError::InvalidParameterException(_))));
    let neither = CreateSecretHandler::handle(
        &mut store,
        CreateSecretRequest { name: "n".to_string(), description: None, client_request_token: None, secret_string: None, secret_binary: None, tags: None },
        NOW,
    );
    assert!(matches!(neither, Err(AwsError::InvalidRequestException(_))));
    let binary = CreateSecretHandler::handle(
        &mut store,
        CreateSecretRequest { name: "n".to_string(), description: None, client_request_token: None, secret_string: None, secret_binary: Some("AAEC".to_string()), tags: None },
        NOW,
    )
    .unwrap();
    let value = get(&mut store, "n", None, None).unwrap();
    assert_eq!(value.secret_binary.as_deref(), Some("AAEC"));
    assert_eq!(value.secret_string, None);
    assert_eq!(value.version_id, binary.version_id);
}

#[test]
fn list_versions_pages_and_deprecated() {
    let mut store = SecretStore::new();
    create(&mut store, "k", "v1", None).unwrap();
    put(&mut store, "k", "v2", None, None).unwrap();
    put(&mut store, "k", "v3", None, None).unwrap();
    let all = ListSecretVersionIdsHandler::handle(
        &store,
        ListSecretVersionIdsRequest { include_deprecated: true, max_results: 2, next_token: None, secret_id: "k".to_string() },
    )
    .unwrap();
    assert_eq!(all.versions.len(), 2);
    let next = all.next_token.unwrap();
    assert_eq!(next.page_index, 1);
    let rest = ListSecretVersionIdsHandler::handle(
        &store,
        ListSecretVersionIdsRequest { include_deprecated: true, max_results: 2, next_token: Some(next.to_text()), secret_id: "k".to_string() },
    )
    .unwrap();
    assert_eq!(rest.versions.len(), 1);
    assert!(rest.next_token.is_none());
    let live = ListSecretVersionIdsHandler::handle(
        &store,
        ListSecretVersionIdsRequest { include_deprecated: false, max_results: 100, next_token: None, secret_id: "k".to_string() },
    )
    .unwrap();
    assert_eq!(live.versions.len(), 2);
    assert!(matches!(
        ListSecretVersionIdsHandler::handle(&store, ListSecretVersionIdsRequest { include_deprecated: false, max_results: 0, next_token: None, secret_id: "k".to_string() }),
        Err(AwsError::InvalidParameterException(_))
    ));
}

fn filter(key: &str, values: &[&str], negate: Option<bool>) -> Filter {
    Filter { key: key.to_string(), values: values.iter().map(|v| v.to_string()).collect(), negate }
}

#[test]
fn list_secrets_filters_and_order() {
    let mut store = SecretStore::new();
    CreateSecretHandler::handle(&mut store, CreateSecretRequest { name: "app/db".to_string(), description: Some("database".to_string()), client_request_token: None, secret_string: Some("1".to_string()), secret_binary: None, tags: Some(vec![Tag { key: "env".to_string(), value: "prod".to_string() }]) }, NOW).unwrap();
    CreateSecretHandler::handle(&mut store, CreateSecretRequest { name: "app/cache".to_string(), description: None, client_request_token: None, secret_string: Some("2".to_string()), secret_binary: None, tags: None }, NOW + 1).unwrap();
    CreateSecretHandler::handle(&mut store, CreateSecretRequest { name: "other".to_string(), description: None, client_request_token: None, secret_string: Some("3".to_string()), secret_binary: None, tags: None }, NOW + 2).unwrap();
    let request = |filters: Vec<Filter>, order: &str| ListSecretsRequest { filters, include_planned_deletion: false, max_results: 100, next_token: None, sort_order: order.to_string() };
    let names = |r: secrets_manager::search::ListSecretsResponse| r.secret_list.into_iter().map(|s| s.name).collect::<Vec<_>>();
    assert_eq!(names(ListSecretsHandler::handle(&store, request(vec![], "asc")).unwrap()), vec!["app/db", "app/cache", "other"]);
    assert_eq!(names(ListSecretsHandler::handle(&store, request(vec![], "desc")).unwrap()), vec!["other", "app/cache", "app/db"]);
    assert_eq!(names(ListSecretsHandler::handle(&store, request(vec![filter("name", &["app/"], None)], "asc")).unwrap()), vec!["app/db", "app/cache"]);
    assert_eq!(names(ListSecretsHandler::handle(&store, request(vec![filter("name", &["App"], None)], "asc")).unwrap()), Vec::<String>::new());
    assert_eq!(names(ListSecretsHandler::handle(&store, request(vec![filter("name", &["app/"], Some(true))], "asc")).unwrap()), vec!["other"]);
    assert_eq!(names(ListSecretsHandler::handle(&store, request(vec![filter("tag-value", &["pro"], None)], "asc")).unwrap()), vec!["app/db"]);
    assert_eq!(names(ListSecretsHandler::handle(&store, request(vec![filter("all", &["datab", "cache"], None)], "asc")).unwrap()), vec!["app/db", "app/cache"]);
    assert_eq!(names(ListSecretsHandler::handle(&store, request(vec![filter("name", &["app"], None), filter("tag-key", &["env"], Some(true))], "asc")).unwrap()), vec!["app/cache"]);
    assert!(matches!(ListSecretsHandler::handle(&store, request(vec![filter("colour", &["x"], None)], "asc")), Err(AwsError::InvalidParameterException(_))));
    assert!(matches!(ListSecretsHandler::handle(&store, request(vec![], "up")), Err(AwsError::InvalidParameterException(_))));
    DeleteSecretHandler::handle(&mut store, DeleteSecretRequest { force_delete_without_recovery: false, recovery_window_in_days: 7, secret_id: "other".to_string() }, NOW).unwrap();
    assert_eq!(names(ListSecretsHandler::handle(&store, request(vec![], "asc")).unwrap()), vec!["app/db", "app/cache"]);
    let mut with_planned = request(vec![], "asc");
    with_planned.include_planned_deletion = true;
    assert_eq!(names(ListSecretsHandler::handle(&store, with_planned).unwrap()).len(), 3);
    let mut paged = request(vec![], "asc");
    paged.max_results = 1;
    let first = ListSecretsHandler::handle(&store, paged).unwrap();
    assert_eq!(first.secret_list.len(), 1);
    assert_eq!(first.next_token.unwrap().to_text(), "1:1");
}

#[test]
fn batch_get_by_ids_and_filters() {
    let mut store = SecretStore::new();
    create(&mut store, "a", "1", None).unwrap();
    create(&mut store, "b", "2", None).unwrap();
    let r = BatchGetSecretValueHandler::handle(
        &mut store,
        BatchGetSecretValueRequest { filters: None, max_results: None, next_token: None, secret_id_list: Some(vec!["a".to_string(), "missing".to_string()]) },
        NOW,
    )
    .unwrap();
    assert_eq!(r.secret_values.len(), 1);
    assert_eq!(r.secret_values[0].secret_string.as_deref(), Some("1"));
    assert_eq!(r.errors.len(), 1);
    assert_eq!(r.errors[0].error_code, "ResourceNotFoundException");
    assert_eq!(r.errors[0].secret_id, "missing");
    let f = BatchGetSecretValueHandler::handle(
        &mut store,
        BatchGetSecretValueRequest { filters: Some(vec![filter("name", &["a", "b"], None)]), max_results: None, next_token: None, secret_id_list: None },
        NOW,
    )
    .unwrap();
    assert_eq!(f.secret_values.len(), 2);
    assert_eq!(f.secret_values[0].name, "b");
    let both = BatchGetSecretValueHandler::handle(
        &mut store,
        BatchGetSecretValueRequest { filters: Some(vec![]), max_results: None, next_token: None, secret_id_list: Some(vec!["a".to_string()]) },
        NOW,
    );
    assert!(matches!(both, Err(AwsError::InvalidRequestException(_))));
    let neither = BatchGetSecretValueHandler::handle(&mut store, BatchGetSecretValueRequest { filters: None, max_results: None, next_token: None, secret_id_list: None }, NOW);
    assert!(matches!(neither, Err(AwsError::InvalidRequestException(_))));
}

#[test]
fn random_password_handler() {
    let ok = GetRandomPasswordHandler::handle(GetRandomPasswordRequest {
        exclude_characters: String::new(),
        exclude_lowercase: false,
        exclude_numbers: false,
        exclude_punctuation: true,
        exclude_uppercase: false,
        include_space: true,
        password_length: 64,
        require_each_included_type: true,
    })
    .unwrap();
    assert_eq!(ok.random_password.chars().count(), 64);
    assert!(ok.random_password.chars().all(|c| c.is_ascii_alphanumeric() || c == ' '));
    let too_long = GetRandomPasswordHandler::handle(GetRandomPasswordRequest {
        exclude_characters: String::new(),
        exclude_lowercase: false,
        exclude_numbers: false,
        exclude_punctuation: false,
        exclude_uppercase: false,
        include_space: false,
        password_length: 4097,
        require_each_included_type: false,
    });
    assert!(matches!(too_long, Err(AwsError::InvalidParameterException(_))));
    let empty = GetRandomPasswordHandler::handle(GetRandomPasswordRequest {
        exclude_characters: String::new(),
        exclude_lowercase: true,
        exclude_numbers: true,
        exclude_punctuation: true,
        exclude_uppercase: true,
        include_space: false,
        password_length: 8,
        require_each_included_type: false,
    });
    assert!(matches!(empty, Err(AwsError::InvalidRequestException(_))));
}

#[test]
fn purge_removes_only_expired_secrets() {
    let mut store = SecretStore::new();
    create(&mut store, "old", "1", None).unwrap();
    create(&mut store, "kept", "2", None).unwrap();
    create(&mut store, "later", "3", None).unwrap();
    DeleteSecretHandler::handle(&mut store, DeleteSecretRequest { force_delete_without_recovery: false, recovery_window_in_days: 7, secret_id: "old".to_string() }, NOW).unwrap();
    DeleteSecretHandler::handle(&mut store, DeleteSecretRequest { force_delete_without_recovery: false, recovery_window_in_days: 30, secret_id: "later".to_string() }, NOW).unwrap();
    assert_eq!(store.purge_expired(NOW + 7 * 86400 - 1), 0);
    assert_eq!(store.purge_expired(NOW + 7 * 86400), 1);
    assert_eq!(store.purge_expired(NOW + 7 * 86400), 0);
    assert_eq!(store.len(), 2);
    assert!(matches!(get(&mut store, "old", None, None), Err(AwsError::ResourceNotFoundException(_))));
    assert_eq!(get(&mut store, "kept", None, None).unwrap().secret_string.as_deref(), Some("2"));
    assert_eq!(store.purge_expired(NOW + 30 * 86400), 1);
    assert_eq!(store.len(), 1);
}

#[test]
fn description_length_is_validated() {
    let mut store = SecretStore::new();
    let long = "d".repeat(2049);
    let r = CreateSecretHandler::handle(
        &mut store,
        CreateSecretRequest { name: "n".to_string(), description: Some(long), client_request_token: None, secret_string: Some("v".to_string()), secret_binary: None, tags: None },
        NOW,
    );
    assert!(matches!(r, Err(AwsError::InvalidParameterException(_))));
    let name = "n".repeat(513);
    assert!(matches!(create(&mut store, &name, "v", None), Err(AwsError::InvalidParameterException(_))));
    assert!(create(&mut store, &"n".repeat(512), "v", None).is_ok());
    assert_eq!(store.len(), 1);
}

#[test]
fn put_refuses_both_rotation_labels() {
    let mut store = SecretStore::new();
    create(&mut store, "k", "v1", None).unwrap();
    let r = put(&mut store, "k", "v2", None, Some(vec!["AWSCURRENT", "AWSPREVIOUS"]));
    assert!(matches!(r, Err(AwsError::InvalidRequestException(_))));
    assert_eq!(describe(&store, "k").version_ids_to_stages.len(), 1);
    let ok = put(&mut store, "k", "v2", None, Some(vec!["AWSPREVIOUS"])).unwrap();
    let d = describe(&store, "k");
    assert_eq!(stages_of(&d, &ok.version_id), vec!["AWSPREVIOUS".to_string()]);
    assert_eq!(holders(&d, "AWSCURRENT"), 1);
}

#[test]
fn stage_moves_that_break_rotation_are_refused() {
    let mut store = SecretStore::new();
    let v1 = create(&mut store, "k", "v1", None).unwrap().version_id;
    let v2 = put(&mut store, "k", "v2", None, Some(vec!["CUSTOM"])).unwrap().version_id;
    let stage = |stage: &str, to: Option<&str>, from: Option<&str>| UpdateSecretVersionStageRequest {
        move_to_version_id: to.map(|v| v.to_string()),
        remove_from_version_id: from.map(|v| v.to_string()),
        secret_id: "k".to_string(),
        version_stage: stage.to_string(),
    };
    let r = UpdateSecretVersionStageHandler::handle(&mut store, stage("AWSCURRENT", None, Some(&v1)));
    assert!(matches!(r, Err(AwsError::InvalidRequestException(_))));
    let r = UpdateSecretVersionStageHandler::handle(&mut store, stage("AWSPREVIOUS", Some(&v1), None));
    assert!(matches!(r, Err(AwsError::InvalidRequestException(_))));
    let r = UpdateSecretVersionStageHandler::handle(&mut store, stage("AWSCURRENT", Some(&v1), Some(&v1)));
    assert!(matches!(r, Err(AwsError::InvalidRequestException(_))));
    let d = describe(&store, "k");
    assert_eq!(stages_of(&d, &v1), vec!["AWSCURRENT".to_string()]);
    UpdateSecretVersionStageHandler::handle(&mut store, stage("AWSCURRENT", Some(&v2), Some(&v1))).unwrap();
    let d = describe(&store, "k");
    assert_eq!(stages_of(&d, &v1), vec!["AWSPREVIOUS".to_string()]);
    assert_eq!(stages_of(&d, &v2), vec!["AWSCURRENT".to_string(), "CUSTOM".to_string()]);
}

#[test]
fn batch_reads_scheduled_secret_and_reports_missing() {
    let mut store = SecretStore::new();
    create(&mut store, "a", "1", None).unwrap();
    create(&mut store, "b", "2", None).unwrap();
    DeleteSecretHandler::handle(&mut store, DeleteSecretRequest { force_delete_without_recovery: false, recovery_window_in_days: 7, secret_id: "b".to_string() }, NOW).unwrap();
    let r = BatchGetSecretValueHandler::handle(
        &mut store,
        BatchGetSecretValueRequest { filters: None, max_results: None, next_token: None, secret_id_list: Some(vec!["b".to_string(), "gone".to_string(), "a".to_string()]) },
        NOW,
    )
    .unwrap();
    assert_eq!(r.secret_values.len(), 2);
    assert_eq!(r.secret_values[0].name, "b");
    assert_eq!(r.secret_values[0].secret_string.as_deref(), Some("2"));
    assert_eq!(r.secret_values[1].name, "a");
    assert_eq!(r.secret_values[1].version_stages, vec!["AWSCURRENT".to_string()]);
    assert_eq!(r.errors.len(), 1);
    assert_eq!(r.errors[0].error_code, "ResourceNotFoundException");
    assert_eq!(r.errors[0].secret_id, "gone");
}
