//! The operations as the wire protocol carries them: each request is
//! validated, then handed to the store.
use vstd::prelude::*;
use vstd::string::*;
use rand::distr::Alphanumeric;
use rand::RngExt;
use crate::error::{invalid_parameter, not_found, AwsError, InvalidParameterException, InvalidRequestException};
use crate::password::{
    alphabet_of, get_random_password, password_error, represented, type_sets_of, PasswordOptions,
};
use crate::secrets::{
    create_secret_outcome, delete_secret_outcome, get_secret_value_outcome, lookup,
    put_secret_value_outcome, restore_secret_outcome, update_secret_outcome,
    update_secret_version_stage_outcome, CreateSecretResponse, DeleteSecretResponse,
    GetSecretValueResponse, PutSecretValueResponse, RestoreSecretResponse, SecretStore,
    UpdateSecretResponse, UpdateSecretVersionStageResponse, MAX_NOW,
};
use crate::store::{remove_tags, tag_pairs, upsert_tags, views, Tag};

verus! {

/// An ASCII letter or digit.
pub open spec fn is_alphanumeric(c: char) -> bool {
    ('a' <= c <= 'z') || ('A' <= c <= 'Z') || ('0' <= c <= '9')
}

/// Relies on rand's `Alphanumeric` distribution, which samples ASCII letters
/// and digits, taking `n` of them.
#[verifier::external_body]
fn random_alphanumeric(n: usize) -> (r: String)
    ensures
        r@.len() == n,
        forall|i: int| 0 <= i < r@.len() ==> is_alphanumeric(#[trigger] r@[i]),
{
    rand::rng().sample_iter(&Alphanumeric).take(n).map(char::from).collect()
}

pub open spec fn arn_prefix() -> Seq<char> {
    "arn:aws:secretsmanager:us-east-1:1:secret:"@
}

/// The ARN of a secret called `name` with random suffix `suffix`.
pub open spec fn arn_of(name: Seq<char>, suffix: Seq<char>) -> Seq<char> {
    arn_prefix() + name + "-"@ + suffix
}

/// A new ARN for a secret called `name`: the fixed prefix, the name, `-` and
/// six random letters or digits.
pub fn create_secret_arn(name: &str) -> (r: String)
    ensures
        exists|s: Seq<char>|
            s.len() == 6 && (forall|i: int| 0 <= i < 6 ==> is_alphanumeric(#[trigger] s[i])) && r@
                == arn_of(name@, s),
{
    let suffix = random_alphanumeric(6);
    let mut arn = String::from_str("arn:aws:secretsmanager:us-east-1:1:secret:");
    arn.append(name);
    arn.append("-");
    arn.append(suffix.as_str());
    arn
}

/// A fresh client request token: 32 random letters or digits.
pub fn generate_token() -> (r: String)
    ensures
        r@.len() == 32,
        forall|i: int| 0 <= i < r@.len() ==> is_alphanumeric(#[trigger] r@[i]),
{
    random_alphanumeric(32)
}

/// `a` is an ARN that CreateSecret may give a secret called `name`.
pub open spec fn is_new_arn(a: Seq<char>, name: Seq<char>) -> bool {
    exists|sfx: Seq<char>|
        sfx.len() == 6 && (forall|i: int| 0 <= i < 6 ==> is_alphanumeric(#[trigger] sfx[i])) && a
            == arn_of(name, sfx)
}

/// `v` is the version id of a request: its client request token, or a fresh
/// token of 32 letters and digits.
pub open spec fn is_request_token(token: Option<String>, v: String) -> bool {
    match token {
        Some(t) => v@ == t@,
        None => v@.len() == 32 && forall|i: int| 0 <= i < 32 ==> is_alphanumeric(#[trigger] v@[i]),
    }
}

pub open spec fn len_in(s: Seq<char>, lo: int, hi: int) -> bool {
    lo <= s.len() <= hi
}

fn len_between(s: &String, lo: usize, hi: usize) -> (r: bool)
    ensures
        r == len_in(s@, lo as int, hi as int),
{
    let n = s.as_str().unicode_len();
    lo <= n && n <= hi
}

fn opt_len_between(s: &Option<String>, lo: usize, hi: usize) -> (r: bool)
    ensures
        r == match s {
            Some(x) => len_in(x@, lo as int, hi as int),
            None => true,
        },
{
    match s {
        Some(x) => len_between(x, lo, hi),
        None => true,
    }
}

fn all_len_between(v: &Vec<String>, lo: usize, hi: usize) -> (r: bool)
    ensures
        r == forall|i: int| 0 <= i < v@.len() ==> len_in(#[trigger] v@[i]@, lo as int, hi as int),
{
    let mut i: usize = 0;
    while i < v.len()
        invariant
            i <= v@.len(),
            forall|k: int| 0 <= k < i ==> len_in(#[trigger] v@[k]@, lo as int, hi as int),
        decreases v@.len() - i,
    {
        if !len_between(&v[i], lo, hi) {
            return false;
        }
        i = i + 1;
    }
    true
}

pub struct CreateSecretHandler;

pub struct CreateSecretRequest {
    pub name: String,
    pub description: Option<String>,
    pub client_request_token: Option<String>,
    pub secret_string: Option<String>,
    pub secret_binary: Option<String>,
    pub tags: Option<Vec<Tag>>,
}

impl CreateSecretRequest {
    /// A name of 1 to 512 characters, a description of at most 2048.
    pub open spec fn valid(&self) -> bool {
        len_in(self.name@, 1, 512) && match self.description {
            Some(d) => d@.len() <= 2048,
            None => true,
        }
    }
}

impl CreateSecretHandler {
    /// Creates a secret under a new ARN; the version id is the client
    /// request token, or a fresh one.
    pub fn handle(store: &mut SecretStore, request: CreateSecretRequest, now: u64) -> (r: Result<
        CreateSecretResponse,
        AwsError,
    >)
        requires
            old(store).inv(),
        ensures
            final(store).inv(),
            !request.valid() ==> r == Err::<CreateSecretResponse, AwsError>(invalid_parameter())
                && final(store)@ == old(store)@,
            request.valid() ==> exists|a: String, v: String|
                is_new_arn(a@, request.name@) && is_request_token(request.client_request_token, v)
                    && create_secret_outcome(
                    old(store)@,
                    final(store)@,
                    a,
                    request.name,
                    request.description,
                    v,
                    request.secret_string,
                    request.secret_binary,
                    match request.tags {
                        Some(t) => t@,
                        None => Seq::<Tag>::empty(),
                    },
                    now,
                    r,
                ),
    {
        if !len_between(&request.name, 1, 512) || !opt_len_between(&request.description, 0, 2048) {
            return Err(AwsError::InvalidParameterException(InvalidParameterException));
        }
        let arn = create_secret_arn(request.name.as_str());
        let version_id = match request.client_request_token {
            Some(t) => t,
            None => generate_token(),
        };
        let tags = match request.tags {
            Some(t) => t,
            None => Vec::new(),
        };
        let ghost a = arn;
        let ghost v = version_id;
        let ghost before = store@;
        assert(tags@ == match request.tags {
            Some(t) => t@,
            None => Seq::<Tag>::empty(),
        });
        let r = store.create_secret(
            arn,
            request.name,
            request.description,
            version_id,
            request.secret_string,
            request.secret_binary,
            &tags,
            now,
        );
        assert(is_new_arn(a@, request.name@));
        assert(is_request_token(request.client_request_token, v));
        assert(create_secret_outcome(
            before,
            store@,
            a,
            request.name,
            request.description,
            v,
            request.secret_string,
            request.secret_binary,
            tags@,
            now,
            r,
        ));
        r
    }
}

pub struct PutSecretValueHandler;

pub struct PutSecretValueRequest {
    pub client_request_token: Option<String>,
    pub secret_id: String,
    pub secret_string: Option<String>,
    pub secret_binary: Option<String>,
    pub version_stages: Option<Vec<String>>,
}

impl PutSecretValueRequest {
    /// A secret id of 1 to 2048 characters; where labels are given, 1 to 20
    /// of them, each of 1 to 256 characters.
    pub open spec fn valid(&self) -> bool {
        len_in(self.secret_id@, 1, 2048) && match self.version_stages {
            Some(v) => 1 <= v@.len() <= 20 && forall|i: int|
                0 <= i < v@.len() ==> len_in(#[trigger] v@[i]@, 1, 256),
            None => true,
        }
    }
}

impl PutSecretValueHandler {
    /// Adds a version; the version id is the client request token, or a
    /// fresh one.
    pub fn handle(store: &mut SecretStore, request: PutSecretValueRequest, now: u64) -> (r: Result<
        PutSecretValueResponse,
        AwsError,
    >)
        requires
            old(store).inv(),
        ensures
            final(store).inv(),
            r is Err ==> final(store)@ == old(store)@,
            !request.valid() ==> r == Err::<PutSecretValueResponse, AwsError>(invalid_parameter()),
            request.valid() ==> exists|v: String|
                is_request_token(request.client_request_token, v) && put_secret_value_outcome(
                    old(store)@,
                    final(store)@,
                    request.secret_id,
                    v,
                    request.secret_string,
                    request.secret_binary,
                    request.version_stages,
                    now,
                    r,
                ),
    {
        let valid_stages = match &request.version_stages {
            Some(v) => 1 <= v.len() && v.len() <= 20 && all_len_between(v, 1, 256),
            None => true,
        };
        if !len_between(&request.secret_id, 1, 2048) || !valid_stages {
            return Err(AwsError::InvalidParameterException(InvalidParameterException));
        }
        let version_id = match request.client_request_token {
            Some(t) => t,
            None => generate_token(),
        };
        let ghost v = version_id;
        let ghost before = store@;
        let r = store.put_secret_value(
            &request.secret_id,
            version_id,
            request.secret_string,
            request.secret_binary,
            request.version_stages,
            now,
        );
        assert(is_request_token(request.client_request_token, v));
        assert(put_secret_value_outcome(
            before,
            store@,
            request.secret_id,
            v,
            request.secret_string,
            request.secret_binary,
            request.version_stages,
            now,
            r,
        ));
        r
    }
}

pub struct UpdateSecretHandler;

pub struct UpdateSecretRequest {
    pub client_request_token: Option<String>,
    pub description: Option<String>,
    pub secret_id: String,
    pub secret_string: Option<String>,
    pub secret_binary: Option<String>,
}

impl UpdateSecretRequest {
    pub open spec fn valid(&self) -> bool {
        len_in(self.secret_id@, 1, 2048) && match self.description {
            Some(d) => d@.len() <= 2048,
            None => true,
        }
    }
}

impl UpdateSecretHandler {
    /// Updates the description and, with a payload, adds a current version.
    pub fn handle(store: &mut SecretStore, request: UpdateSecretRequest, now: u64) -> (r: Result<
        UpdateSecretResponse,
        AwsError,
    >)
        requires
            old(store).inv(),
        ensures
            final(store).inv(),
            r is Err ==> final(store)@ == old(store)@,
            !request.valid() ==> r == Err::<UpdateSecretResponse, AwsError>(invalid_parameter()),
            request.valid() ==> exists|v: String|
                is_request_token(request.client_request_token, v) && update_secret_outcome(
                    old(store)@,
                    final(store)@,
                    request.secret_id,
                    request.description,
                    v,
                    request.secret_string,
                    request.secret_binary,
                    now,
                    r,
                ),
    {
        if !len_between(&request.secret_id, 1, 2048) || !opt_len_between(
            &request.description,
            0,
            2048,
        ) {
            return Err(AwsError::InvalidParameterException(InvalidParameterException));
        }
        let version_id = match request.client_request_token {
            Some(t) => t,
            None => generate_token(),
        };
        let ghost v = version_id;
        let ghost before = store@;
        let r = store.update_secret(
            &request.secret_id,
            request.description,
            version_id,
            request.secret_string,
            request.secret_binary,
            now,
        );
        assert(is_request_token(request.client_request_token, v));
        assert(update_secret_outcome(
            before,
            store@,
            request.secret_id,
            request.description,
            v,
            request.secret_string,
            request.secret_binary,
            now,
            r,
        ));
        r
    }
}

pub struct UpdateSecretVersionStageHandler;

pub struct UpdateSecretVersionStageRequest {
    pub move_to_version_id: Option<String>,
    pub remove_from_version_id: Option<String>,
    pub secret_id: String,
    pub version_stage: String,
}

impl UpdateSecretVersionStageRequest {
    pub open spec fn valid(&self) -> bool {
        len_in(self.secret_id@, 1, 2048) && len_in(self.version_stage@, 1, 256)
    }
}

impl UpdateSecretVersionStageHandler {
    pub fn handle(store: &mut SecretStore, request: UpdateSecretVersionStageRequest) -> (r: Result<
        UpdateSecretVersionStageResponse,
        AwsError,
    >)
        requires
            old(store).inv(),
        ensures
            final(store).inv(),
            r is Err ==> final(store)@ == old(store)@,
            !request.valid() ==> r == Err::<UpdateSecretVersionStageResponse, AwsError>(
                invalid_parameter(),
            ),
            request.valid() ==> update_secret_version_stage_outcome(
                old(store)@,
                final(store)@,
                request.secret_id,
                request.version_stage,
                request.move_to_version_id,
                request.remove_from_version_id,
                r,
            ),
    {
        if !len_between(&request.secret_id, 1, 2048) || !len_between(
            &request.version_stage,
            1,
            256,
        ) {
            return Err(AwsError::InvalidParameterException(InvalidParameterException));
        }
        store.update_secret_version_stage(
            &request.secret_id,
            &request.version_stage,
            request.move_to_version_id,
            request.remove_from_version_id,
        )
    }
}

pub struct GetSecretValueHandler;

pub struct GetSecretValueRequest {
    pub secret_id: String,
    pub version_id: Option<String>,
    pub version_stage: Option<String>,
}

impl GetSecretValueRequest {
    pub open spec fn valid(&self) -> bool {
        len_in(self.secret_id@, 1, 2048) && match self.version_stage {
            Some(s) => len_in(s@, 1, 256),
            None => true,
        }
    }
}

impl GetSecretValueHandler {
    pub fn handle(store: &mut SecretStore, request: GetSecretValueRequest, now: u64) -> (r: Result<
        GetSecretValueResponse,
        AwsError,
    >)
        requires
            old(store).inv(),
        ensures
            final(store).inv(),
            r is Err ==> final(store)@ == old(store)@,
            !request.valid() ==> r == Err::<GetSecretValueResponse, AwsError>(invalid_parameter()),
            request.valid() ==> get_secret_value_outcome(
                old(store)@,
                final(store)@,
                request.secret_id,
                request.version_id,
                request.version_stage,
                now,
                r,
            ),
    {
        if !len_between(&request.secret_id, 1, 2048) || !opt_len_between(
            &request.version_stage,
            1,
            256,
        ) {
            return Err(AwsError::InvalidParameterException(InvalidParameterException));
        }
        store.get_secret_value(&request.secret_id, request.version_id, request.version_stage, now)
    }
}

pub struct DeleteSecretHandler;

pub struct DeleteSecretRequest {
    pub force_delete_without_recovery: bool,
    pub recovery_window_in_days: i32,
    pub secret_id: String,
}

/// The recovery window when the request names none.
pub fn default_recovery_window_days() -> (r: i32)
    ensures
        r == 30,
{
    30
}

impl DeleteSecretRequest {
    pub open spec fn valid(&self) -> bool {
        len_in(self.secret_id@, 1, 2048) && 7 <= self.recovery_window_in_days <= 30
    }
}

impl DeleteSecretHandler {
    pub fn handle(store: &mut SecretStore, request: DeleteSecretRequest, now: u64) -> (r: Result<
        DeleteSecretResponse,
        AwsError,
    >)
        requires
            old(store).inv(),
            now <= MAX_NOW,
        ensures
            final(store).inv(),
            r is Err ==> final(store)@ == old(store)@,
            !request.valid() ==> r == Err::<DeleteSecretResponse, AwsError>(invalid_parameter()),
            len_in(request.secret_id@, 1, 2048) ==> delete_secret_outcome(
                old(store)@,
                final(store)@,
                request.secret_id,
                request.force_delete_without_recovery,
                request.recovery_window_in_days,
                now,
                r,
            ),
    {
        if !len_between(&request.secret_id, 1, 2048) {
            return Err(AwsError::InvalidParameterException(InvalidParameterException));
        }
        store.delete_secret(
            &request.secret_id,
            request.force_delete_without_recovery,
            request.recovery_window_in_days,
            now,
        )
    }
}

pub struct RestoreSecretHandler;

pub struct RestoreSecretRequest {
    pub secret_id: String,
}

impl RestoreSecretHandler {
    pub fn handle(store: &mut SecretStore, request: RestoreSecretRequest) -> (r: Result<
        RestoreSecretResponse,
        AwsError,
    >)
        requires
            old(store).inv(),
        ensures
            final(store).inv(),
            r is Err ==> final(store)@ == old(store)@,
            !len_in(request.secret_id@, 1, 2048) ==> r == Err::<RestoreSecretResponse, AwsError>(
                invalid_parameter(),
            ),
            len_in(request.secret_id@, 1, 2048) ==> restore_secret_outcome(
                old(store)@,
                final(store)@,
                request.secret_id,
                r,
            ),
    {
        if !len_between(&request.secret_id, 1, 2048) {
            return Err(AwsError::InvalidParameterException(InvalidParameterException));
        }
        store.restore_secret(&request.secret_id)
    }
}

pub struct TagResourceHandler;

pub struct TagResourceRequest {
    pub secret_id: String,
    pub tags: Vec<Tag>,
}

pub struct TagResourceResponse {}

impl TagResourceHandler {
    pub fn handle(store: &mut SecretStore, request: TagResourceRequest, now: u64) -> (r: Result<
        TagResourceResponse,
        AwsError,
    >)
        requires
            old(store).inv(),
        ensures
            final(store).inv(),
            r is Err ==> final(store)@ == old(store)@,
            !len_in(request.secret_id@, 1, 2048) ==> r == Err::<TagResourceResponse, AwsError>(
                invalid_parameter(),
            ),
            len_in(request.secret_id@, 1, 2048) ==> match lookup(old(store)@, request.secret_id@) {
                None => r == Err::<TagResourceResponse, AwsError>(not_found()),
                Some(i) => r is Ok && final(store)@ == old(store)@.update(
                    i,
                    old(store)@[i].with_tags(
                        upsert_tags(old(store)@[i].tags, tag_pairs(request.tags@), now),
                    ),
                ),
            },
    {
        if !len_between(&request.secret_id, 1, 2048) {
            return Err(AwsError::InvalidParameterException(InvalidParameterException));
        }
        match store.tag_resource(&request.secret_id, &request.tags, now) {
            Ok(()) => Ok(TagResourceResponse {  }),
            Err(e) => Err(e),
        }
    }
}

pub struct UntagResourceHandler;

pub struct UntagResourceRequest {
    pub secret_id: String,
    pub tag_keys: Vec<String>,
}

pub struct UntagResourceResponse {}

impl UntagResourceRequest {
    pub open spec fn valid(&self) -> bool {
        len_in(self.secret_id@, 1, 2048) && forall|i: int|
            0 <= i < self.tag_keys@.len() ==> len_in(#[trigger] self.tag_keys@[i]@, 1, 128)
    }
}

impl UntagResourceHandler {
    pub fn handle(store: &mut SecretStore, request: UntagResourceRequest) -> (r: Result<
        UntagResourceResponse,
        AwsError,
    >)
        requires
            old(store).inv(),
        ensures
            final(store).inv(),
            r is Err ==> final(store)@ == old(store)@,
            !request.valid() ==> r == Err::<UntagResourceResponse, AwsError>(invalid_parameter()),
            request.valid() ==> match lookup(old(store)@, request.secret_id@) {
                None => r == Err::<UntagResourceResponse, AwsError>(not_found()),
                Some(i) => r is Ok && final(store)@ == old(store)@.update(
                    i,
                    old(store)@[i].with_tags(remove_tags(old(store)@[i].tags, views(request.tag_keys@))),
                ),
            },
    {
        if !len_between(&request.secret_id, 1, 2048) || !all_len_between(&request.tag_keys, 1, 128) {
            return Err(AwsError::InvalidParameterException(InvalidParameterException));
        }
        match store.untag_resource(&request.secret_id, &request.tag_keys) {
            Ok(()) => Ok(UntagResourceResponse {  }),
            Err(e) => Err(e),
        }
    }
}

pub struct GetRandomPasswordHandler;

pub struct GetRandomPasswordRequest {
    pub exclude_characters: String,
    pub exclude_lowercase: bool,
    pub exclude_numbers: bool,
    pub exclude_punctuation: bool,
    pub exclude_uppercase: bool,
    pub include_space: bool,
    pub password_length: i64,
    pub require_each_included_type: bool,
}

pub struct GetRandomPasswordResponse {
    pub random_password: String,
}

/// The password length when the request names none.
pub fn default_password_length() -> (r: i64)
    ensures
        r == 32,
{
    32
}

impl GetRandomPasswordRequest {
    pub open spec fn valid(&self) -> bool {
        self.exclude_characters@.len() <= 4096 && 1 <= self.password_length <= 4096
    }

    /// The generator's options that the request names.
    pub open spec fn options(&self) -> PasswordOptions {
        PasswordOptions {
            exclude_characters: self.exclude_characters,
            exclude_lowercase: self.exclude_lowercase,
            exclude_numbers: self.exclude_numbers,
            exclude_punctuation: self.exclude_punctuation,
            exclude_uppercase: self.exclude_uppercase,
            include_space: self.include_space,
            password_length: self.password_length as usize,
            require_each_included_type: self.require_each_included_type,
        }
    }
}

impl GetRandomPasswordHandler {
    /// A random password; options that leave no way to build one are an
    /// `InvalidRequestException`.
    pub fn handle(request: GetRandomPasswordRequest) -> (r: Result<
        GetRandomPasswordResponse,
        AwsError,
    >)
        ensures
            !request.valid() ==> r == Err::<GetRandomPasswordResponse, AwsError>(
                invalid_parameter(),
            ),
            request.valid() ==> match password_error(request.options()) {
                Some(_) => r == Err::<GetRandomPasswordResponse, AwsError>(
                    AwsError::InvalidRequestException(InvalidRequestException),
                ),
                None => (r matches Ok(resp) && {
                    let p = resp.random_password@;
                    let o = request.options();
                    &&& p.len() == request.password_length
                    &&& forall|i: int| 0 <= i < p.len() ==> alphabet_of(o).contains(#[trigger] p[i])
                    &&& o.require_each_included_type ==> forall|k: int|
                        0 <= k < type_sets_of(o).len() ==> represented(#[trigger] type_sets_of(o)[k], p)
                }),
            },
    {
        if !len_between(&request.exclude_characters, 0, 4096) || request.password_length < 1
            || request.password_length > 4096 {
            return Err(AwsError::InvalidParameterException(InvalidParameterException));
        }
        let ghost o = request.options();
        let opts = PasswordOptions {
            exclude_characters: request.exclude_characters,
            exclude_lowercase: request.exclude_lowercase,
            exclude_numbers: request.exclude_numbers,
            exclude_punctuation: request.exclude_punctuation,
            exclude_uppercase: request.exclude_uppercase,
            include_space: request.include_space,
            password_length: request.password_length as usize,
            require_each_included_type: request.require_each_included_type,
        };
        assert(opts.exclude_characters@ == o.exclude_characters@);
        assert(alphabet_of(opts) == alphabet_of(o));
        assert(type_sets_of(opts) == type_sets_of(o));
        assert(password_error(opts) == password_error(o));
        match get_random_password(opts) {
            Ok(random_password) => Ok(GetRandomPasswordResponse { random_password }),
            Err(_) => Err(AwsError::InvalidRequestException(InvalidRequestException)),
        }
    }
}

} // verus!
