//! ListSecrets and BatchGetSecretValue: secrets chosen by filters or by id,
//! a page at a time.
use vstd::prelude::*;
use vstd::string::*;
use crate::error::{
    invalid_parameter, invalid_request, kind_message, kind_name, not_found, AwsError,
    InvalidParameterException, InvalidRequestException,
};
use crate::handlers::len_in;
use crate::listing::{describe_of, describes, DescribeSecretResponse};
use crate::pagination::{next_page, page_of, query_parts, requested_token, PaginationToken};
use crate::secrets::{
    read_value_outcome, id_matches, is_first_match, lookup, selected_version, store_rotation_ok,
    store_wf, version_index, GetSecretValueResponse, SecretStore,
};
use crate::store::{current_label, day_of, opt_view, views, Secret, SecretView, VersionView};
use crate::secrets::holder_of;
use crate::text::matches_at;

verus! {

/// `needle` occurs in `hay`.
pub open spec fn contains_sub(hay: Seq<char>, needle: Seq<char>) -> bool {
    exists|i: int| 0 <= i && i + needle.len() <= hay.len() && #[trigger] hay.subrange(i, i + needle.len()) == needle
}

/// Whether `needle` occurs in `hay`, case-sensitively.
pub fn contains_str(hay: &str, needle: &str) -> (r: bool)
    ensures
        r == contains_sub(hay@, needle@),
{
    let n = hay.unicode_len();
    let m = needle.unicode_len();
    if m > n {
        return false;
    }
    let mut i: usize = 0;
    while i < n - m
        invariant
            n == hay@.len(),
            m == needle@.len(),
            m <= n,
            i <= n - m,
            forall|k: int| 0 <= k < i ==> #[trigger] hay@.subrange(k, k + m) != needle@,
        decreases n - m - i,
    {
        if matches_at(hay, n, i, needle, m) {
            return true;
        }
        i = i + 1;
    }
    matches_at(hay, n, n - m, needle, m)
}

/// A filter clause: `key` names the column, any of `values` must occur in
/// it, and `negate` turns the clause round.
pub struct Filter {
    pub key: String,
    pub values: Vec<String>,
    pub negate: Option<bool>,
}

/// Whether `v` occurs in the column `key` of `s`; `all` stands for name,
/// description, tag keys and tag values.
pub open spec fn column_hit(s: SecretView, key: Seq<char>, v: Seq<char>) -> bool {
    let name = contains_sub(s.name, v);
    let description = match s.description {
        Some(d) => contains_sub(d, v),
        None => false,
    };
    let tag_key = exists|k: int| 0 <= k < s.tags.len() && contains_sub(#[trigger] s.tags[k].key, v);
    let tag_value = exists|k: int|
        0 <= k < s.tags.len() && contains_sub(#[trigger] s.tags[k].value, v);
    if key == "name"@ {
        name
    } else if key == "description"@ {
        description
    } else if key == "tag-key"@ {
        tag_key
    } else if key == "tag-value"@ {
        tag_value
    } else if key == "all"@ {
        name || description || tag_key || tag_value
    } else {
        false
    }
}

pub open spec fn filter_hit(s: SecretView, f: Filter) -> bool {
    let hit = exists|j: int| 0 <= j < f.values@.len() && column_hit(s, f.key@, #[trigger] f.values@[j]@);
    if f.negate == Some(true) {
        !hit
    } else {
        hit
    }
}

/// Every clause holds.
pub open spec fn matches_filters(s: SecretView, fs: Seq<Filter>) -> bool {
    forall|q: int| 0 <= q < fs.len() ==> filter_hit(s, #[trigger] fs[q])
}

/// A known key and 1 to 10 values.
pub open spec fn filter_valid(f: Filter) -> bool {
    &&& (f.key@ == "name"@ || f.key@ == "description"@ || f.key@ == "tag-key"@ || f.key@
        == "tag-value"@ || f.key@ == "all"@)
    &&& 1 <= f.values@.len() <= 10
}

fn key_is(key: &String, name: &str) -> (r: bool)
    ensures
        r == (key@ == name@),
{
    crate::text::str_eq(key.as_str(), name)
}

fn filter_is_valid(f: &Filter) -> (r: bool)
    ensures
        r == filter_valid(*f),
{
    (key_is(&f.key, "name") || key_is(&f.key, "description") || key_is(&f.key, "tag-key") || key_is(
        &f.key,
        "tag-value",
    ) || key_is(&f.key, "all")) && 1 <= f.values.len() && f.values.len() <= 10
}

fn filters_valid(fs: &Vec<Filter>) -> (r: bool)
    ensures
        r == forall|q: int| 0 <= q < fs@.len() ==> filter_valid(#[trigger] fs@[q]),
{
    let mut i: usize = 0;
    while i < fs.len()
        invariant
            i <= fs@.len(),
            forall|q: int| 0 <= q < i ==> filter_valid(#[trigger] fs@[q]),
        decreases fs@.len() - i,
    {
        if !filter_is_valid(&fs[i]) {
            return false;
        }
        i = i + 1;
    }
    true
}

fn any_tag_key(s: &Secret, v: &str) -> (r: bool)
    ensures
        r == exists|k: int| 0 <= k < s@.tags.len() && contains_sub(#[trigger] s@.tags[k].key, v@),
{
    let mut k: usize = 0;
    while k < s.tags.len()
        invariant
            k <= s@.tags.len(),
            forall|q: int| 0 <= q < k ==> !contains_sub(#[trigger] s@.tags[q].key, v@),
        decreases s@.tags.len() - k,
    {
        assert(s@.tags[k as int] == s.tags@[k as int]@);
        if contains_str(s.tags[k].key.as_str(), v) {
            assert(contains_sub(s@.tags[k as int].key, v@));
            return true;
        }
        k = k + 1;
    }
    false
}

fn any_tag_value(s: &Secret, v: &str) -> (r: bool)
    ensures
        r == exists|k: int| 0 <= k < s@.tags.len() && contains_sub(#[trigger] s@.tags[k].value, v@),
{
    let mut k: usize = 0;
    while k < s.tags.len()
        invariant
            k <= s@.tags.len(),
            forall|q: int| 0 <= q < k ==> !contains_sub(#[trigger] s@.tags[q].value, v@),
        decreases s@.tags.len() - k,
    {
        assert(s@.tags[k as int] == s.tags@[k as int]@);
        if contains_str(s.tags[k].value.as_str(), v) {
            assert(contains_sub(s@.tags[k as int].value, v@));
            return true;
        }
        k = k + 1;
    }
    false
}

fn column_hit_exec(s: &Secret, key: &String, v: &str) -> (r: bool)
    ensures
        r == column_hit(s@, key@, v@),
{
    let name = contains_str(s.name.as_str(), v);
    let description = match &s.description {
        Some(d) => contains_str(d.as_str(), v),
        None => false,
    };
    let tag_key = any_tag_key(s, v);
    let tag_value = any_tag_value(s, v);
    if key_is(key, "name") {
        name
    } else if key_is(key, "description") {
        description
    } else if key_is(key, "tag-key") {
        tag_key
    } else if key_is(key, "tag-value") {
        tag_value
    } else if key_is(key, "all") {
        name || description || tag_key || tag_value
    } else {
        false
    }
}

fn filter_hit_exec(s: &Secret, f: &Filter) -> (r: bool)
    ensures
        r == filter_hit(s@, *f),
{
    let mut hit = false;
    let mut j: usize = 0;
    while j < f.values.len()
        invariant
            j <= f.values@.len(),
            hit == exists|q: int| 0 <= q < j && column_hit(s@, f.key@, #[trigger] f.values@[q]@),
        decreases f.values@.len() - j,
    {
        if column_hit_exec(s, &f.key, f.values[j].as_str()) {
            hit = true;
        }
        j = j + 1;
    }
    match f.negate {
        Some(true) => !hit,
        _ => hit,
    }
}

fn matches_filters_exec(s: &Secret, fs: &Vec<Filter>) -> (r: bool)
    ensures
        r == matches_filters(s@, fs@),
{
    let mut i: usize = 0;
    while i < fs.len()
        invariant
            i <= fs@.len(),
            forall|q: int| 0 <= q < i ==> filter_hit(s@, #[trigger] fs@[q]),
        decreases fs@.len() - i,
    {
        if !filter_hit_exec(s, &fs[i]) {
            return false;
        }
        i = i + 1;
    }
    true
}

/// The secrets that match: the filters hold, and the secret is not scheduled
/// for deletion unless those are asked for.
pub open spec fn listed_secrets(ss: Seq<SecretView>, fs: Seq<Filter>, include_planned: bool) -> Seq<
    SecretView,
> {
    ss.filter(
        |s: SecretView| (include_planned || s.scheduled_delete_at is None) && matches_filters(s, fs),
    )
}

/// Oldest first, or newest first.
pub open spec fn in_order(s: Seq<SecretView>, asc: bool) -> Seq<SecretView> {
    if asc {
        s
    } else {
        s.reverse()
    }
}

/// The positions in the store of the secrets that match, oldest first.
fn matching_positions(store: &SecretStore, fs: &Vec<Filter>, include_planned: bool) -> (r: Vec<
    usize,
>)
    requires
        store.inv(),
    ensures
        r@.len() == listed_secrets(store@, fs@, include_planned).len(),
        forall|q: int|
            0 <= q < r@.len() ==> r@[q] < store@.len() && store@[#[trigger] r@[q] as int]
                == listed_secrets(store@, fs@, include_planned)[q],
{
    let ghost ss = store@;
    let ghost pred = |s: SecretView|
        (include_planned || s.scheduled_delete_at is None) && matches_filters(s, fs@);
    let mut out: Vec<usize> = Vec::new();
    let mut k: usize = 0;
    let n = store.len();
    while k < n
        invariant
            n == ss.len(),
            ss == store@,
            store.inv(),
            pred == (|s: SecretView|
                (include_planned || s.scheduled_delete_at is None) && matches_filters(s, fs@)),
            k <= n,
            out@.len() == ss.take(k as int).filter(pred).len(),
            forall|q: int|
                0 <= q < out@.len() ==> out@[q] < ss.len() && ss[#[trigger] out@[q] as int]
                    == ss.take(k as int).filter(pred)[q],
        decreases n - k,
    {
        let s = store.get(k);
        proof {
            reveal(Seq::filter);
            assert(ss.take(k + 1).drop_last() =~= ss.take(k as int));
            assert(ss.take(k + 1).last() == s@);
        }
        if (include_planned || s.scheduled_delete_at.is_none()) && matches_filters_exec(s, fs) {
            out.push(k);
        }
        k = k + 1;
    }
    assert(ss.take(n as int) =~= ss);
    out
}

pub struct ListSecretsHandler;

pub struct ListSecretsRequest {
    pub filters: Vec<Filter>,
    pub include_planned_deletion: bool,
    pub max_results: i32,
    pub next_token: Option<String>,
    pub sort_order: String,
}

pub struct ListSecretsResponse {
    pub next_token: Option<PaginationToken>,
    pub secret_list: Vec<SecretListEntry>,
}

/// The sort order when the request names none.
pub fn default_sort_order() -> (r: String)
    ensures
        r@ == "desc"@,
{
    String::from_str("desc")
}

/// Whether `value` is `asc` or `desc`.
pub fn is_valid_sort_order(value: &str) -> (r: bool)
    ensures
        r == (value@ == "asc"@ || value@ == "desc"@),
{
    crate::text::str_eq(value, "asc") || crate::text::str_eq(value, "desc")
}

impl ListSecretsRequest {
    pub open spec fn valid(&self) -> bool {
        &&& forall|q: int| 0 <= q < self.filters@.len() ==> filter_valid(#[trigger] self.filters@[q])
        &&& 1 <= self.max_results <= 100
        &&& (self.sort_order@ == "asc"@ || self.sort_order@ == "desc"@)
    }
}

/// The page of `ordered` that `token` selects, described.
fn describe_page(
    store: &SecretStore,
    positions: &Vec<usize>,
    asc: bool,
    offset: u64,
    limit: u64,
    listed: Ghost<Seq<SecretView>>,
) -> (r: Vec<DescribeSecretResponse>)
    requires
        store.inv(),
        positions@.len() == listed@.len(),
        forall|q: int|
            0 <= q < positions@.len() ==> positions@[q] < store@.len() && store@[#[trigger] positions@[q] as int]
                == listed@[q],
    ensures
        r@.len() == page_of(in_order(listed@, asc), offset as int, limit as int).len(),
        forall|k: int|
            0 <= k < r@.len() ==> describes(
                #[trigger] r@[k],
                page_of(in_order(listed@, asc), offset as int, limit as int)[k],
            ),
{
    let n = positions.len();
    let ghost ordered = in_order(listed@, asc);
    assert(ordered.len() == n);
    let lo: usize = if offset < n as u64 {
        offset as usize
    } else {
        n
    };
    let hi: usize = if offset < n as u64 && limit < (n - lo) as u64 {
        lo + limit as usize
    } else {
        n
    };
    let ghost page = page_of(ordered, offset as int, limit as int);
    assert(page =~= ordered.subrange(lo as int, hi as int));
    let mut out: Vec<DescribeSecretResponse> = Vec::new();
    let mut p: usize = lo;
    while p < hi
        invariant
            lo <= p <= hi <= n,
            n == positions@.len(),
            ordered == in_order(listed@, asc),
            ordered.len() == n,
            page == ordered.subrange(lo as int, hi as int),
            store.inv(),
            positions@.len() == listed@.len(),
            forall|q: int|
                0 <= q < positions@.len() ==> positions@[q] < store@.len() && store@[#[trigger] positions@[q] as int]
                    == listed@[q],
            out@.len() == p - lo,
            forall|k: int| 0 <= k < out@.len() ==> describes(#[trigger] out@[k], page[k]),
        decreases hi - p,
    {
        let q = if asc {
            p
        } else {
            n - 1 - p
        };
        assert(ordered[p as int] == listed@[q as int]);
        let s = store.get(positions[q]);
        out.push(describe_of(s));
        p = p + 1;
    }
    out
}

impl ListSecretsHandler {
    /// The default page size.
    pub fn default_max_results() -> (r: i32)
        ensures
            r == 100,
    {
        100
    }

    /// The default token: the first page of the default size.
    pub fn default_next_token() -> (r: PaginationToken)
        ensures
            r == (PaginationToken { page_size: 100, page_index: 0 }),
    {
        PaginationToken { page_size: 100, page_index: 0 }
    }

    /// A page of the secrets that match, oldest or newest first.
    pub fn handle(store: &SecretStore, request: ListSecretsRequest) -> (r: Result<
        ListSecretsResponse,
        AwsError,
    >)
        requires
            store.inv(),
        ensures
            !request.valid() ==> r == Err::<ListSecretsResponse, AwsError>(invalid_parameter()),
            request.valid() ==> match requested_token(
                request.next_token,
                PaginationToken { page_size: 100, page_index: 0 },
            ) {
                None => r == Err::<ListSecretsResponse, AwsError>(invalid_request()),
                Some(t0) => {
                    let t = PaginationToken {
                        page_size: request.max_results as u32,
                        page_index: t0.page_index,
                    };
                    match query_parts(t) {
                        None => r == Err::<ListSecretsResponse, AwsError>(invalid_request()),
                        Some(parts) => (r matches Ok(resp) && {
                            let listed = in_order(
                                listed_secrets(
                                    store@,
                                    request.filters@,
                                    request.include_planned_deletion,
                                ),
                                request.sort_order@ == "asc"@,
                            );
                            let page = page_of(listed, parts.1 as int, parts.0 as int);
                            &&& resp.secret_list@.len() == page.len()
                            &&& forall|k: int|
                                0 <= k < page.len() ==> describes(
                                    #[trigger] resp.secret_list@[k],
                                    page[k],
                                )
                            &&& resp.next_token == next_page(t, listed.len() as u64)
                        }),
                    }
                },
            },
    {
        if !filters_valid(&request.filters) || request.max_results < 1 || request.max_results > 100
            || !is_valid_sort_order(request.sort_order.as_str()) {
            return Err(AwsError::InvalidParameterException(InvalidParameterException));
        }
        let asc = crate::text::str_eq(request.sort_order.as_str(), "asc");
        let token = match &request.next_token {
            Some(text) => match PaginationToken::parse(text.as_str()) {
                Some(t) => t,
                None => {
                    return Err(AwsError::InvalidRequestException(InvalidRequestException));
                },
            },
            None => ListSecretsHandler::default_next_token(),
        };
        let token = token.page_size(request.max_results as u32);
        let (limit, offset) = match token.as_query_parts() {
            Some(p) => p,
            None => {
                return Err(AwsError::InvalidRequestException(InvalidRequestException));
            },
        };
        let positions = matching_positions(store, &request.filters, request.include_planned_deletion);
        let ghost listed = listed_secrets(store@, request.filters@, request.include_planned_deletion);
        let secret_list = describe_page(store, &positions, asc, offset, limit, Ghost(listed));
        let count = positions.len() as u64;
        assert(in_order(listed, asc).len() == listed.len());
        Ok(ListSecretsResponse { next_token: token.get_next_page(count), secret_list })
    }
}

/// An entry of ListSecrets: the same metadata as DescribeSecret gives.
pub type SecretListEntry = DescribeSecretResponse;

/// One secret value of a batch.
pub struct SecretValueEntry {
    pub arn: String,
    pub created_date: u64,
    pub name: String,
    pub secret_string: Option<String>,
    pub secret_binary: Option<String>,
    pub version_id: String,
    pub version_stages: Vec<String>,
}

/// `e` carries the current version of `s`: its id, payload and labels.
pub open spec fn shows_current(e: SecretValueEntry, s: SecretView) -> bool {
    &&& e.arn@ == s.arn
    &&& e.name@ == s.name
    &&& e.created_date == s.created_at
    &&& s.stages.contains((current_label(), e.version_id@))
    &&& s.has_version(e.version_id@)
    &&& forall|k: int|
        0 <= k < s.versions.len() && s.versions[k].version_id == e.version_id@ ==> opt_view(
            e.secret_string,
        ) == s.versions[k].secret_string && opt_view(e.secret_binary)
            == #[trigger] s.versions[k].secret_binary
    &&& forall|l: Seq<char>| #[trigger]
        views(e.version_stages@).contains(l) <==> s.stages.contains((l, e.version_id@))
    &&& views(e.version_stages@).no_duplicates()
}

/// The error that reading `id` in a batch gives, if any: the secret must
/// exist and have a current version. A secret scheduled for deletion is read
/// like any other.
pub open spec fn batch_error(ss: Seq<SecretView>, id: Seq<char>) -> Option<AwsError> {
    match lookup(ss, id) {
        None => Some(not_found()),
        Some(i) => if !ss[i].label_held(current_label()) {
            Some(not_found())
        } else {
            None
        },
    }
}

/// The ids of a batch that give a value, in order.
pub open spec fn batch_read_ids(ss: Seq<SecretView>, ids: Seq<Seq<char>>) -> Seq<Seq<char>> {
    ids.filter(|id: Seq<char>| batch_error(ss, id) is None)
}

/// The ids of a batch that give an error, in order.
pub open spec fn batch_failed_ids(ss: Seq<SecretView>, ids: Seq<Seq<char>>) -> Seq<Seq<char>> {
    ids.filter(|id: Seq<char>| batch_error(ss, id) is Some)
}

/// `e` reports error `err` for `id`.
pub open spec fn shows_error(e: ApiErrorType, id: Seq<char>, err: AwsError) -> bool {
    &&& e.secret_id@ == id
    &&& e.error_code@ == kind_name(err)
    &&& e.message@ == kind_message(err)
}

/// `b` is `a` but for the days its versions were last read.
pub open spec fn same_but_access(a: SecretView, b: SecretView) -> bool {
    &&& b.arn == a.arn
    &&& b.name == a.name
    &&& b.created_at == a.created_at
    &&& b.scheduled_delete_at == a.scheduled_delete_at
    &&& b.stages == a.stages
    &&& b.versions.len() == a.versions.len()
    &&& forall|k: int|
        0 <= k < a.versions.len() ==> (#[trigger] b.versions[k]).version_id
            == a.versions[k].version_id && b.versions[k].secret_string
            == a.versions[k].secret_string && b.versions[k].secret_binary
            == a.versions[k].secret_binary
}

pub open spec fn store_same_but_access(a: Seq<SecretView>, b: Seq<SecretView>) -> bool {
    a.len() == b.len() && forall|i: int| 0 <= i < a.len() ==> same_but_access(a[i], #[trigger] b[i])
}

proof fn lemma_same_lookup(a: Seq<SecretView>, b: Seq<SecretView>, id: Seq<char>)
    requires
        store_same_but_access(a, b),
    ensures
        lookup(a, id) == lookup(b, id),
        batch_error(a, id) == batch_error(b, id),
{
    assert forall|k: int| is_first_match(a, id, k) <==> is_first_match(b, id, k) by {
        if 0 <= k < a.len() {
            assert(same_but_access(a[k], b[k]));
            assert forall|q: int| 0 <= q < k implies id_matches(a[q], id) == id_matches(b[q], id) by {
                assert(same_but_access(a[q], b[q]));
            }
        }
    }
    if exists|k: int| is_first_match(a, id, k) {
        let x = choose|k: int| is_first_match(a, id, k);
        let y = choose|k: int| is_first_match(b, id, k);
        crate::laws::lemma_first_match_unique(a, id, x, y);
        assert(same_but_access(a[x], b[x]));
        assert(a[x].label_held(current_label()) == b[x].label_held(current_label()));
    }
}

proof fn lemma_same_trans(a: Seq<SecretView>, b: Seq<SecretView>, c: Seq<SecretView>)
    requires
        store_same_but_access(a, b),
        store_same_but_access(b, c),
    ensures
        store_same_but_access(a, c),
{
    assert forall|i: int| 0 <= i < a.len() implies same_but_access(a[i], #[trigger] c[i]) by {
        assert(same_but_access(a[i], b[i]));
        assert(same_but_access(b[i], c[i]));
        assert forall|k: int| 0 <= k < a[i].versions.len() implies (#[trigger] c[i].versions[k]).version_id
            == a[i].versions[k].version_id && c[i].versions[k].secret_string
            == a[i].versions[k].secret_string && c[i].versions[k].secret_binary
            == a[i].versions[k].secret_binary by {
            assert(b[i].versions[k] == b[i].versions[k]);
        }
    }
}

proof fn lemma_shows_current_same(e: SecretValueEntry, a: SecretView, b: SecretView)
    requires
        same_but_access(a, b),
        shows_current(e, b),
    ensures
        shows_current(e, a),
{
    let k = choose|k: int| 0 <= k < b.versions.len() && b.versions[k].version_id == e.version_id@;
    assert(a.versions[k].version_id == e.version_id@);
    assert forall|q: int|
        0 <= q < a.versions.len() && a.versions[q].version_id == e.version_id@ implies opt_view(
        e.secret_string,
    ) == a.versions[q].secret_string && opt_view(e.secret_binary)
        == #[trigger] a.versions[q].secret_binary by {
        assert(b.versions[q].version_id == a.versions[q].version_id);
    }
}

/// A read of `id` with no version or label asked for, as `get_secret_value`
/// states it, is what the batch reports, and keeps the store the same but
/// for access days.
proof fn lemma_batch_read(
    cur: Seq<SecretView>,
    new: Seq<SecretView>,
    id: String,
    now: u64,
    r: Result<GetSecretValueResponse, AwsError>,
)
    requires
        store_wf(cur),
        read_value_outcome(cur, new, id, None, None, now, false, r),
    ensures
        store_same_but_access(cur, new),
        match r {
            Ok(v) => batch_error(cur, id@) is None && shows_current(
                entry_view(v),
                cur[lookup(cur, id@).unwrap()],
            ),
            Err(e) => batch_error(cur, id@) == Some(e),
        },
{
    assert forall|i: int| 0 <= i < cur.len() implies same_but_access(cur[i], #[trigger] cur[i]) by {
    }
    match lookup(cur, id@) {
        None => {},
        Some(i) => {
            let s = cur[i];
            assert(s.wf());
            assert(selected_version(s, None, None) == holder_of(s, current_label()));
            if s.label_held(current_label()) {
                let v = choose|w: Seq<char>| s.stages.contains((current_label(), w));
                assert(s.stages.contains((current_label(), v)));
                assert(s.has_version(v));
                {
                    let k = version_index(s, v);
                    assert(0 <= k < s.versions.len() && s.versions[k].version_id == v);
                    let t = s.with_versions(
                        s.versions.update(
                            k,
                            VersionView { last_accessed_at: Some(day_of(now)), ..s.versions[k] },
                        ),
                    );
                    assert(new == cur.update(i, t));
                    assert(same_but_access(s, t));
                    assert forall|j: int| 0 <= j < cur.len() implies same_but_access(
                        cur[j],
                        #[trigger] new[j],
                    ) by {
                        if j == i {
                        }
                    }
                    if let Ok(resp) = r {
                        let e = entry_view(resp);
                        assert forall|q: int|
                            0 <= q < s.versions.len() && s.versions[q].version_id
                                == e.version_id@ implies opt_view(e.secret_string)
                            == s.versions[q].secret_string && opt_view(e.secret_binary)
                            == #[trigger] s.versions[q].secret_binary by {
                            assert(q == k);
                        }
                    }
                }
            }
        },
    }
}

/// The entry that a read gives.
pub open spec fn entry_view(v: GetSecretValueResponse) -> SecretValueEntry {
    SecretValueEntry {
        arn: v.arn,
        created_date: v.created_date,
        name: v.name,
        secret_string: v.secret_string,
        secret_binary: v.secret_binary,
        version_id: v.version_id,
        version_stages: v.version_stages,
    }
}

/// One failed id of a batch.
pub struct ApiErrorType {
    pub error_code: String,
    pub message: String,
    pub secret_id: String,
}

pub struct BatchGetSecretValueHandler;

pub struct BatchGetSecretValueRequest {
    pub filters: Option<Vec<Filter>>,
    pub max_results: Option<i32>,
    pub next_token: Option<String>,
    pub secret_id_list: Option<Vec<String>>,
}

pub struct BatchGetSecretValueResponse {
    pub errors: Vec<ApiErrorType>,
    pub next_token: Option<PaginationToken>,
    pub secret_values: Vec<SecretValueEntry>,
}

fn entry_of(v: GetSecretValueResponse) -> (r: SecretValueEntry)
    ensures
        r == entry_view(v),
{
    SecretValueEntry {
        arn: v.arn,
        created_date: v.created_date,
        name: v.name,
        secret_string: v.secret_string,
        secret_binary: v.secret_binary,
        version_id: v.version_id,
        version_stages: v.version_stages,
    }
}

impl BatchGetSecretValueRequest {
    pub open spec fn valid(&self) -> bool {
        &&& match self.filters {
            Some(fs) => forall|q: int| 0 <= q < fs@.len() ==> filter_valid(#[trigger] fs@[q]),
            None => true,
        }
        &&& match self.max_results {
            Some(m) => 1 <= m <= 20,
            None => true,
        }
        &&& match self.secret_id_list {
            Some(ids) => 1 <= ids@.len() <= 20 && forall|q: int|
                0 <= q < ids@.len() ==> len_in(#[trigger] ids@[q]@, 1, 2048),
            None => true,
        }
    }
}

fn ids_valid(ids: &Vec<String>) -> (r: bool)
    ensures
        r == forall|q: int| 0 <= q < ids@.len() ==> len_in(#[trigger] ids@[q]@, 1, 2048),
{
    let mut i: usize = 0;
    while i < ids.len()
        invariant
            i <= ids@.len(),
            forall|q: int| 0 <= q < i ==> len_in(#[trigger] ids@[q]@, 1, 2048),
        decreases ids@.len() - i,
    {
        let n = ids[i].as_str().unicode_len();
        if n < 1 || n > 2048 {
            return false;
        }
        i = i + 1;
    }
    true
}

impl BatchGetSecretValueHandler {
    /// The default page size.
    pub fn default_max_results() -> (r: i32)
        ensures
            r == 20,
    {
        20
    }

    /// The default token: the first page of the default size.
    pub fn default_next_token() -> (r: PaginationToken)
        ensures
            r == (PaginationToken { page_size: 20, page_index: 0 }),
    {
        PaginationToken { page_size: 20, page_index: 0 }
    }

    /// The current values of the secrets that the filters match (newest
    /// first, a page at a time), or of each listed id, where an id that
    /// cannot be read adds an entry to `errors` instead. Exactly one of
    /// `filters` and `secret_id_list` must be given.
    pub fn handle(store: &mut SecretStore, request: BatchGetSecretValueRequest, now: u64) -> (r: Result<
        BatchGetSecretValueResponse,
        AwsError,
    >)
        requires
            old(store).inv(),
        ensures
            final(store).inv(),
            !request.valid() ==> r == Err::<BatchGetSecretValueResponse, AwsError>(invalid_parameter()),
            request.valid() && (request.filters is Some == request.secret_id_list is Some) ==> r
                == Err::<BatchGetSecretValueResponse, AwsError>(invalid_request()),
            r is Err ==> final(store)@ == old(store)@,
            (request.valid() && request.filters is None && request.secret_id_list is Some) ==> (
            r matches Ok(resp) && {
                let ids = views(request.secret_id_list.unwrap()@);
                let read = batch_read_ids(old(store)@, ids);
                let failed = batch_failed_ids(old(store)@, ids);
                &&& resp.next_token is None
                &&& resp.secret_values@.len() == read.len()
                &&& forall|k: int|
                    0 <= k < read.len() ==> shows_current(
                        #[trigger] resp.secret_values@[k],
                        old(store)@[lookup(old(store)@, read[k]).unwrap()],
                    )
                &&& resp.errors@.len() == failed.len()
                &&& forall|k: int|
                    0 <= k < failed.len() ==> shows_error(
                        #[trigger] resp.errors@[k],
                        failed[k],
                        batch_error(old(store)@, failed[k]).unwrap(),
                    )
            }),
            r is Ok && request.secret_id_list is None ==> final(store)@ == old(store)@,
            request.valid() && request.filters is Some && request.secret_id_list is None
                ==> match requested_token(
                request.next_token,
                PaginationToken { page_size: 20, page_index: 0 },
            ) {
                None => r == Err::<BatchGetSecretValueResponse, AwsError>(invalid_request()),
                Some(t0) => {
                    let t = PaginationToken {
                        page_size: match request.max_results {
                            Some(m) => m as u32,
                            None => 20,
                        },
                        page_index: t0.page_index,
                    };
                    match query_parts(t) {
                        None => r == Err::<BatchGetSecretValueResponse, AwsError>(invalid_request()),
                        Some(parts) => (r matches Ok(resp) && {
                            let listed = listed_secrets(old(store)@, request.filters.unwrap()@, false);
                            let page = page_of(in_order(listed, false), parts.1 as int, parts.0 as int);
                            &&& resp.errors@.len() == 0
                            &&& resp.secret_values@.len() == page.len()
                            &&& forall|k: int|
                                0 <= k < page.len() ==> shows_current(
                                    #[trigger] resp.secret_values@[k],
                                    page[k],
                                )
                            &&& resp.next_token == next_page(t, listed.len() as u64)
                        }),
                    }
                },
            },
    {
        let ok_filters = match &request.filters {
            Some(fs) => filters_valid(fs),
            None => true,
        };
        let ok_max = match request.max_results {
            Some(m) => 1 <= m && m <= 20,
            None => true,
        };
        let ok_ids = match &request.secret_id_list {
            Some(ids) => 1 <= ids.len() && ids.len() <= 20 && ids_valid(ids),
            None => true,
        };
        if !ok_filters || !ok_max || !ok_ids {
            return Err(AwsError::InvalidParameterException(InvalidParameterException));
        }
        match (request.filters, request.secret_id_list) {
            (Some(filters), None) => {
                let max_results = match request.max_results {
                    Some(m) => m,
                    None => BatchGetSecretValueHandler::default_max_results(),
                };
                let token = match &request.next_token {
                    Some(text) => match PaginationToken::parse(text.as_str()) {
                        Some(t) => t,
                        None => {
                            return Err(AwsError::InvalidRequestException(InvalidRequestException));
                        },
                    },
                    None => BatchGetSecretValueHandler::default_next_token(),
                };
                let token = token.page_size(max_results as u32);
                let (limit, offset) = match token.as_query_parts() {
                    Some(p) => p,
                    None => {
                        return Err(AwsError::InvalidRequestException(InvalidRequestException));
                    },
                };
                proof {
                    store.lemma_inv();
                }
                let positions = matching_positions(store, &filters, false);
                let ghost listed = listed_secrets(store@, filters@, false);
                let ghost ordered = in_order(listed, false);
                let n = positions.len();
                let lo: usize = if offset < n as u64 {
                    offset as usize
                } else {
                    n
                };
                let hi: usize = if offset < n as u64 && limit < (n - lo) as u64 {
                    lo + limit as usize
                } else {
                    n
                };
                let ghost page = page_of(ordered, offset as int, limit as int);
                assert(ordered.len() == n);
                assert(page =~= ordered.subrange(lo as int, hi as int));
                let mut secret_values: Vec<SecretValueEntry> = Vec::new();
                let mut p: usize = lo;
                while p < hi
                    invariant
                        lo <= p <= hi <= n,
                        n == positions@.len(),
                        store.inv(),
                        store@ == old(store)@,
                        listed == listed_secrets(store@, filters@, false),
                        ordered == in_order(listed, false),
                        ordered.len() == n,
                        page == ordered.subrange(lo as int, hi as int),
                        positions@.len() == listed.len(),
                        forall|q: int|
                            0 <= q < positions@.len() ==> positions@[q] < store@.len()
                                && store@[#[trigger] positions@[q] as int] == listed[q],
                        store_rotation_ok(store@),
                        secret_values@.len() == p - lo,
                        forall|k: int|
                            0 <= k < secret_values@.len() ==> shows_current(
                                #[trigger] secret_values@[k],
                                page[k],
                            ),
                    decreases hi - p,
                {
                    let q = n - 1 - p;
                    assert(ordered[p as int] == listed[q as int]);
                    let s = store.get(positions[q]);
                    let cur = crate::store::awscurrent();
                    proof {
                        if store_rotation_ok(store@) {
                            crate::laws::lemma_rotation_member(store@, positions@[q as int] as int);
                        }
                    }
                    match s.holder(&cur) {
                        Some(vid) => match s.find_version(&vid) {
                            Some(k) => {
                                let v = &s.versions[k];
                                let stages = s.labels_for(&vid);
                                proof {
                                    assert(s@.wf());
                                    assert(s@.versions[k as int] == v@);
                                    assert forall|q: int|
                                        0 <= q < s@.versions.len() && s@.versions[q].version_id
                                            == vid@ implies opt_view(v.secret_string)
                                        == s@.versions[q].secret_string && opt_view(v.secret_binary)
                                        == #[trigger] s@.versions[q].secret_binary by {
                                        assert(q == k);
                                    }
                                }
                                secret_values.push(
                                    SecretValueEntry {
                                        arn: s.arn.clone(),
                                        created_date: s.created_at,
                                        name: s.name.clone(),
                                        secret_string: crate::store::opt_copy(&v.secret_string),
                                        secret_binary: crate::store::opt_copy(&v.secret_binary),
                                        version_id: vid,
                                        version_stages: stages,
                                    },
                                );
                            },
                            None => {
                                assert(s@.wf());
                            },
                        },
                        None => {},
                    }
                    p = p + 1;
                }
                Ok(
                    BatchGetSecretValueResponse {
                        errors: Vec::new(),
                        next_token: token.get_next_page(n as u64),
                        secret_values,
                    },
                )
            },
            (None, Some(ids)) => {
                let mut errors: Vec<ApiErrorType> = Vec::new();
                let mut secret_values: Vec<SecretValueEntry> = Vec::new();
                let ghost old_ss = store@;
                let ghost idv = views(ids@);
                let mut i: usize = 0;
                proof {
                    assert forall|j: int| 0 <= j < old_ss.len() implies same_but_access(
                        old_ss[j],
                        #[trigger] old_ss[j],
                    ) by {}
                    assert(idv.take(0) =~= Seq::<Seq<char>>::empty());
                    reveal(Seq::filter);
                }
                while i < ids.len()
                    invariant
                        i <= ids@.len(),
                        idv == views(ids@),
                        old_ss == old(store)@,
                        store.inv(),
                        store_same_but_access(old_ss, store@),
                        secret_values@.len() == batch_read_ids(old_ss, idv.take(i as int)).len(),
                        forall|k: int|
                            0 <= k < secret_values@.len() ==> shows_current(
                                #[trigger] secret_values@[k],
                                old_ss[lookup(old_ss, batch_read_ids(old_ss, idv.take(i as int))[k]).unwrap()],
                            ),
                        errors@.len() == batch_failed_ids(old_ss, idv.take(i as int)).len(),
                        forall|k: int|
                            0 <= k < errors@.len() ==> shows_error(
                                #[trigger] errors@[k],
                                batch_failed_ids(old_ss, idv.take(i as int))[k],
                                batch_error(old_ss, batch_failed_ids(old_ss, idv.take(i as int))[k]).unwrap(),
                            ),
                    decreases ids@.len() - i,
                {
                    let ghost cur = store@;
                    let ghost id = ids@[i as int];
                    proof {
                        store.lemma_inv();
                        reveal(Seq::filter);
                        assert(idv.take(i + 1).drop_last() =~= idv.take(i as int));
                        assert(idv.take(i + 1).last() == id@);
                        lemma_same_lookup(old_ss, cur, id@);
                    }
                    let got = store.read_secret_value(&ids[i], None, None, now, false);
                    proof {
                        lemma_batch_read(cur, store@, id, now, got);
                        lemma_same_trans(old_ss, cur, store@);
                    }
                    match got {
                        Ok(v) => {
                            let ghost e = entry_view(v);
                            proof {
                                let j = lookup(cur, id@).unwrap();
                                assert(lookup(old_ss, id@) == lookup(cur, id@));
                                assert(same_but_access(old_ss[j], cur[j]));
                                lemma_shows_current_same(e, old_ss[j], cur[j]);
                            }
                            secret_values.push(entry_of(v));
                        },
                        Err(e) => {
                            let code = e.error_type();
                            let message = e.message();
                            errors.push(ApiErrorType { error_code: code, message, secret_id: ids[i].clone() });
                        },
                    }
                    i = i + 1;
                }
                proof {
                    assert(idv.take(ids@.len() as int) =~= idv);
                }
                Ok(BatchGetSecretValueResponse { errors, next_token: None, secret_values })
            },
            _ => Err(AwsError::InvalidRequestException(InvalidRequestException)),
        }
    }
}

} // verus!
