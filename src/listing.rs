//! Reading secrets without changing them: DescribeSecret and
//! ListSecretVersionIds.
use vstd::prelude::*;
use crate::error::{invalid_request, not_found, AwsError, InvalidRequestException, ResourceNotFoundException};
use crate::pagination::{next_page, page_of, query_parts, requested_token, PaginationToken};
use crate::secrets::{lookup, SecretStore};
use crate::store::{opt_copy, opt_view, views, Secret, SecretView, Tag, TagView, VersionView};

verus! {

pub open spec fn max_opt(a: Option<u64>, b: Option<u64>) -> Option<u64> {
    match (a, b) {
        (Some(x), Some(y)) => Some(
            if x >= y {
                x
            } else {
                y
            },
        ),
        (Some(x), None) => Some(x),
        (None, y) => y,
    }
}

fn max_opt_exec(a: Option<u64>, b: Option<u64>) -> (r: Option<u64>)
    ensures
        r == max_opt(a, b),
{
    match (a, b) {
        (Some(x), Some(y)) => Some(
            if x >= y {
                x
            } else {
                y
            },
        ),
        (Some(x), None) => Some(x),
        (None, y) => y,
    }
}

/// The latest day any version was read.
pub open spec fn last_accessed_of(vs: Seq<VersionView>) -> Option<u64>
    decreases vs.len(),
{
    if vs.len() == 0 {
        None
    } else {
        max_opt(last_accessed_of(vs.drop_last()), vs.last().last_accessed_at)
    }
}

/// The latest creation of a version.
pub open spec fn last_created_of(vs: Seq<VersionView>) -> Option<u64>
    decreases vs.len(),
{
    if vs.len() == 0 {
        None
    } else {
        max_opt(last_created_of(vs.drop_last()), Some(vs.last().created_at))
    }
}

/// The latest change of a tag.
pub open spec fn last_tagged_of(ts: Seq<TagView>) -> Option<u64>
    decreases ts.len(),
{
    if ts.len() == 0 {
        None
    } else {
        max_opt(last_tagged_of(ts.drop_last()), Some(ts.last().updated_at))
    }
}

/// The latest of: a version's creation, the secret's update, a tag's change.
pub open spec fn last_changed_of(s: SecretView) -> Option<u64> {
    max_opt(max_opt(last_created_of(s.versions), s.updated_at), last_tagged_of(s.tags))
}

/// A version id with the labels it holds.
pub struct VersionStages {
    pub version_id: String,
    pub version_stages: Vec<String>,
}

pub struct DescribeSecretHandler;

pub struct DescribeSecretRequest {
    pub secret_id: String,
}

pub struct DescribeSecretResponse {
    pub arn: String,
    pub description: Option<String>,
    pub created_date: u64,
    pub deleted_date: Option<u64>,
    pub last_accessed_date: Option<u64>,
    pub last_changed_date: Option<u64>,
    pub name: String,
    pub tags: Vec<Tag>,
    pub version_ids_to_stages: Vec<VersionStages>,
}

/// `d` describes secret `s`.
pub open spec fn describes(d: DescribeSecretResponse, s: SecretView) -> bool {
    &&& d.arn@ == s.arn
    &&& d.name@ == s.name
    &&& opt_view(d.description) == s.description
    &&& d.created_date == s.created_at
    &&& d.deleted_date == s.deleted_at
    &&& d.last_accessed_date == last_accessed_of(s.versions)
    &&& d.last_changed_date == last_changed_of(s)
    &&& d.tags@.len() == s.tags.len()
    &&& forall|k: int|
        0 <= k < s.tags.len() ==> (#[trigger] d.tags@[k]).key@ == s.tags[k].key && d.tags@[k].value@
            == s.tags[k].value
    &&& d.version_ids_to_stages@.len() == s.versions.len()
    &&& forall|k: int|
        0 <= k < s.versions.len() ==> (#[trigger] d.version_ids_to_stages@[k]).version_id@
            == s.versions[k].version_id && forall|l: Seq<char>|
            #[trigger] views(d.version_ids_to_stages@[k].version_stages@).contains(l)
                <==> s.stages.contains((l, s.versions[k].version_id))
}

/// The metadata of a secret.
pub fn describe_of(s: &Secret) -> (r: DescribeSecretResponse)
    requires
        s.inv(),
    ensures
        describes(r, s@),
{
    let ghost sv = s@;
    let mut accessed: Option<u64> = None;
    let mut created: Option<u64> = None;
    let mut stages: Vec<VersionStages> = Vec::new();
    let mut k: usize = 0;
    while k < s.versions.len()
        invariant
            sv == s@,
            s.inv(),
            k <= sv.versions.len(),
            accessed == last_accessed_of(sv.versions.take(k as int)),
            created == last_created_of(sv.versions.take(k as int)),
            stages@.len() == k,
            forall|q: int|
                0 <= q < k ==> (#[trigger] stages@[q]).version_id@ == sv.versions[q].version_id
                    && forall|l: Seq<char>|
                    #[trigger] views(stages@[q].version_stages@).contains(l) <==> sv.stages.contains(
                        (l, sv.versions[q].version_id),
                    ),
        decreases sv.versions.len() - k,
    {
        let v = &s.versions[k];
        assert(sv.versions[k as int] == v@);
        assert(sv.versions.take(k + 1).drop_last() =~= sv.versions.take(k as int));
        accessed = max_opt_exec(accessed, v.last_accessed_at);
        created = max_opt_exec(created, Some(v.created_at));
        let labels = s.labels_for(&v.version_id);
        stages.push(VersionStages { version_id: v.version_id.clone(), version_stages: labels });
        k = k + 1;
    }
    assert(sv.versions.take(sv.versions.len() as int) =~= sv.versions);
    let mut tagged: Option<u64> = None;
    let mut tags: Vec<Tag> = Vec::new();
    let mut k: usize = 0;
    while k < s.tags.len()
        invariant
            sv == s@,
            k <= sv.tags.len(),
            tagged == last_tagged_of(sv.tags.take(k as int)),
            tags@.len() == k,
            forall|q: int|
                0 <= q < k ==> (#[trigger] tags@[q]).key@ == sv.tags[q].key && tags@[q].value@
                    == sv.tags[q].value,
        decreases sv.tags.len() - k,
    {
        let t = &s.tags[k];
        assert(sv.tags[k as int] == t@);
        assert(sv.tags.take(k + 1).drop_last() =~= sv.tags.take(k as int));
        tagged = max_opt_exec(tagged, Some(t.updated_at));
        tags.push(Tag { key: t.key.clone(), value: t.value.clone() });
        k = k + 1;
    }
    assert(sv.tags.take(sv.tags.len() as int) =~= sv.tags);
    let changed = max_opt_exec(max_opt_exec(created, s.updated_at), tagged);
    DescribeSecretResponse {
        arn: s.arn.clone(),
        description: opt_copy(&s.description),
        created_date: s.created_at,
        deleted_date: s.deleted_at,
        last_accessed_date: accessed,
        last_changed_date: changed,
        name: s.name.clone(),
        tags,
        version_ids_to_stages: stages,
    }
}

impl DescribeSecretHandler {
    /// The metadata of the secret that `secret_id` addresses, also while it
    /// is scheduled for deletion.
    pub fn handle(store: &SecretStore, request: DescribeSecretRequest) -> (r: Result<
        DescribeSecretResponse,
        AwsError,
    >)
        requires
            store.inv(),
        ensures
            match lookup(store@, request.secret_id@) {
                None => r == Err::<DescribeSecretResponse, AwsError>(not_found()),
                Some(i) => r matches Ok(d) && describes(d, store@[i]),
            },
    {
        match store.find(&request.secret_id) {
            Some(i) => Ok(describe_of(store.get(i))),
            None => Err(AwsError::ResourceNotFoundException(ResourceNotFoundException)),
        }
    }
}

/// Whether version `vid` holds some label.
pub open spec fn has_labels(st: Set<(Seq<char>, Seq<char>)>, vid: Seq<char>) -> bool {
    exists|l: Seq<char>| st.contains((l, vid))
}

/// The versions that ListSecretVersionIds shows: all of them, or those that
/// hold a label.
pub open spec fn listed_versions(s: SecretView, include_deprecated: bool) -> Seq<VersionView> {
    s.versions.filter(|v: VersionView| include_deprecated || has_labels(s.stages, v.version_id))
}

pub struct SecretVersionsListEntry {
    pub created_date: u64,
    pub last_accessed_date: Option<u64>,
    pub version_id: String,
    pub version_stages: Vec<String>,
}

/// `e` shows version `v` of secret `s`.
pub open spec fn shows_version(e: SecretVersionsListEntry, s: SecretView, v: VersionView) -> bool {
    &&& e.version_id@ == v.version_id
    &&& e.created_date == v.created_at
    &&& e.last_accessed_date == v.last_accessed_at
    &&& forall|l: Seq<char>| #[trigger]
        views(e.version_stages@).contains(l) <==> s.stages.contains((l, v.version_id))
}

pub struct ListSecretVersionIdsHandler;

pub struct ListSecretVersionIdsRequest {
    pub include_deprecated: bool,
    pub max_results: i32,
    pub next_token: Option<String>,
    pub secret_id: String,
}

pub struct ListSecretVersionIdsResponse {
    pub arn: String,
    pub name: String,
    pub next_token: Option<PaginationToken>,
    pub versions: Vec<SecretVersionsListEntry>,
}

fn version_has_labels(s: &Secret, vid: &String) -> (r: bool)
    ensures
        r == has_labels(s@.stages, vid@),
{
    let mut i: usize = 0;
    while i < s.stages.len()
        invariant
            i <= s.stages@.len(),
            forall|k: int| 0 <= k < i ==> s.stages@[k].version_id@ != vid@,
        decreases s.stages@.len() - i,
    {
        if s.stages[i].version_id == *vid {
            assert(s@.stages.contains((s.stages@[i as int].label@, vid@)));
            return true;
        }
        i = i + 1;
    }
    proof {
        if has_labels(s@.stages, vid@) {
            let l = choose|l: Seq<char>| s@.stages.contains((l, vid@));
            let k = choose|k: int|
                0 <= k < s.stages@.len() && s.stages@[k].label@ == l && s.stages@[k].version_id@
                    == vid@;
        }
    }
    false
}

proof fn lemma_page_push<T>(s: Seq<T>, x: T, offset: int, limit: int)
    requires
        0 <= offset,
        0 <= limit,
    ensures
        page_of(s.push(x), offset, limit) == if offset <= s.len() < offset + limit {
            page_of(s, offset, limit).push(x)
        } else {
            page_of(s, offset, limit)
        },
{
    let n = s.len() as int;
    if offset <= n && n < offset + limit {
        assert(page_of(s.push(x), offset, limit) =~= page_of(s, offset, limit).push(x));
    } else {
        assert(page_of(s.push(x), offset, limit) =~= page_of(s, offset, limit));
    }
}

/// The listed versions of `s`, then the page of them at `offset` of at most
/// `limit` entries, with the number listed.
pub fn list_versions(s: &Secret, include_deprecated: bool, offset: u64, limit: u64) -> (r: (
    Vec<SecretVersionsListEntry>,
    u64,
))
    requires
        s.inv(),
    ensures
        r.1 == listed_versions(s@, include_deprecated).len(),
        r.0@.len() == page_of(listed_versions(s@, include_deprecated), offset as int, limit as int).len(),
        forall|k: int|
            0 <= k < r.0@.len() ==> shows_version(
                #[trigger] r.0@[k],
                s@,
                page_of(listed_versions(s@, include_deprecated), offset as int, limit as int)[k],
            ),
{
    let ghost sv = s@;
    let ghost pred = |v: VersionView| include_deprecated || has_labels(sv.stages, v.version_id);
    let mut page: Vec<SecretVersionsListEntry> = Vec::new();
    let mut count: u64 = 0;
    let mut k: usize = 0;
    while k < s.versions.len()
        invariant
            sv == s@,
            s.inv(),
            pred == (|v: VersionView| include_deprecated || has_labels(sv.stages, v.version_id)),
            k <= sv.versions.len(),
            count == sv.versions.take(k as int).filter(pred).len(),
            count <= k,
            page@.len() == page_of(
                sv.versions.take(k as int).filter(pred),
                offset as int,
                limit as int,
            ).len(),
            forall|q: int|
                0 <= q < page@.len() ==> shows_version(
                    #[trigger] page@[q],
                    sv,
                    page_of(sv.versions.take(k as int).filter(pred), offset as int, limit as int)[q],
                ),
        decreases sv.versions.len() - k,
    {
        let v = &s.versions[k];
        let ghost before = sv.versions.take(k as int).filter(pred);
        proof {
            reveal(Seq::filter);
            assert(sv.versions[k as int] == v@);
            assert(sv.versions.take(k + 1).drop_last() =~= sv.versions.take(k as int));
            assert(sv.versions.take(k + 1).last() == v@);
            sv.versions.take(k as int).lemma_filter_len(pred);
            lemma_page_push(before, v@, offset as int, limit as int);
        }
        if include_deprecated || version_has_labels(s, &v.version_id) {
            if offset <= count && count - offset < limit {
                let labels = s.labels_for(&v.version_id);
                page.push(
                    SecretVersionsListEntry {
                        created_date: v.created_at,
                        last_accessed_date: v.last_accessed_at,
                        version_id: v.version_id.clone(),
                        version_stages: labels,
                    },
                );
            }
            count = count + 1;
        }
        k = k + 1;
    }
    assert(sv.versions.take(sv.versions.len() as int) =~= sv.versions);
    (page, count)
}

impl ListSecretVersionIdsHandler {
    /// The default page size.
    pub fn default_max_results() -> (r: i32)
        ensures
            r == 100,
    {
        100
    }

    /// The default token: the first page of the default size.
    pub fn default_next_token() -> (r: PaginationToken)
        ensures
            r == (PaginationToken { page_size: 100, page_index: 0 }),
    {
        PaginationToken { page_size: 100, page_index: 0 }
    }

    /// A page of the versions of the secret that `secret_id` addresses; where
    /// versions remain after it, the token of the next page.
    pub fn handle(store: &SecretStore, request: ListSecretVersionIdsRequest) -> (r: Result<
        ListSecretVersionIdsResponse,
        AwsError,
    >)
        requires
            store.inv(),
        ensures
            !(1 <= request.max_results <= 100) ==> r == Err::<ListSecretVersionIdsResponse, AwsError>(
                crate::error::invalid_parameter(),
            ),
            (1 <= request.max_results <= 100) ==> match requested_token(
                request.next_token,
                PaginationToken { page_size: 100, page_index: 0 },
            ) {
                None => r == Err::<ListSecretVersionIdsResponse, AwsError>(invalid_request()),
                Some(t0) => {
                    let t = PaginationToken {
                        page_size: request.max_results as u32,
                        page_index: t0.page_index,
                    };
                    match lookup(store@, request.secret_id@) {
                        None => r == Err::<ListSecretVersionIdsResponse, AwsError>(not_found()),
                        Some(i) => match query_parts(t) {
                            None => r == Err::<ListSecretVersionIdsResponse, AwsError>(
                                invalid_request(),
                            ),
                            Some(parts) => (r matches Ok(resp) && {
                                let listed = listed_versions(store@[i], request.include_deprecated);
                                let page = page_of(listed, parts.1 as int, parts.0 as int);
                                &&& resp.arn@ == store@[i].arn
                                &&& resp.name@ == store@[i].name
                                &&& resp.versions@.len() == page.len()
                                &&& forall|k: int|
                                    0 <= k < page.len() ==> shows_version(
                                        #[trigger] resp.versions@[k],
                                        store@[i],
                                        page[k],
                                    )
                                &&& resp.next_token == next_page(t, listed.len() as u64)
                            }),
                        },
                    }
                },
            },
    {
        if request.max_results < 1 || request.max_results > 100 {
            return Err(AwsError::InvalidParameterException(crate::error::InvalidParameterException));
        }
        let token = match &request.next_token {
            Some(text) => match PaginationToken::parse(text.as_str()) {
                Some(t) => t,
                None => {
                    return Err(AwsError::InvalidRequestException(InvalidRequestException));
                },
            },
            None => ListSecretVersionIdsHandler::default_next_token(),
        };
        let token = token.page_size(request.max_results as u32);
        let i = match store.find(&request.secret_id) {
            Some(i) => i,
            None => {
                return Err(AwsError::ResourceNotFoundException(ResourceNotFoundException));
            },
        };
        let (limit, offset) = match token.as_query_parts() {
            Some(p) => p,
            None => {
                return Err(AwsError::InvalidRequestException(InvalidRequestException));
            },
        };
        let s = store.get(i);
        let (versions, count) = list_versions(s, request.include_deprecated, offset, limit);
        Ok(
            ListSecretVersionIdsResponse {
                arn: s.arn.clone(),
                name: s.name.clone(),
                next_token: token.get_next_page(count),
                versions,
            },
        )
    }
}

} // verus!
