//! The collection of secrets and the operations that change it.
use vstd::prelude::*;
use crate::error::{
    already_exists, invalid_parameter, invalid_request, not_found, AwsError,
    InvalidParameterException, InvalidRequestException, ResourceExistsException,
    ResourceNotFoundException,
};
use crate::store::{
    awscurrent, awsprevious, current_label, opt_eq, opt_view, previous_label, tag_pairs,
    upsert_tags, views, without_label, day_of, day_start, opt_copy, remove_tags, lemma_labels_differ, Secret, SecretView, Stage, Tag, TagView, Version, VersionView,
};

verus! {

/// Whether `s` is addressed by `id`, which is an ARN or a name.
pub open spec fn id_matches(s: SecretView, id: Seq<char>) -> bool {
    s.arn == id || s.name == id
}

/// The secret called `name`; names are unique in a store.
pub open spec fn name_index(ss: Seq<SecretView>, name: Seq<char>) -> Option<int> {
    if exists|i: int| 0 <= i < ss.len() && ss[i].name == name {
        Some(choose|i: int| 0 <= i < ss.len() && ss[i].name == name)
    } else {
        None
    }
}

/// `i` is the first secret of `ss` that `id` addresses.
pub open spec fn is_first_match(ss: Seq<SecretView>, id: Seq<char>, i: int) -> bool {
    &&& 0 <= i < ss.len()
    &&& id_matches(ss[i], id)
    &&& forall|k: int| 0 <= k < i ==> !id_matches(ss[k], id)
}

/// The secret that `id` addresses.
pub open spec fn lookup(ss: Seq<SecretView>, id: Seq<char>) -> Option<int> {
    if exists|i: int| is_first_match(ss, id, i) {
        Some(choose|i: int| is_first_match(ss, id, i))
    } else {
        None
    }
}

/// Exactly one of the two payloads is given.
pub open spec fn one_payload(s: Option<String>, b: Option<String>) -> bool {
    s is Some != b is Some
}

/// Version `vid` of `s` exists and holds exactly this payload.
pub open spec fn same_payload(
    s: SecretView,
    vid: Seq<char>,
    string: Option<Seq<char>>,
    binary: Option<Seq<char>>,
) -> bool {
    exists|k: int|
        0 <= k < s.versions.len() && s.versions[k].version_id == vid && s.versions[k].secret_string
            == string && s.versions[k].secret_binary == binary
}

/// `j` is where a secret created at `now` goes: after every secret created
/// no later, before every secret created later.
pub open spec fn is_insert_pos(ss: Seq<SecretView>, now: u64, j: int) -> bool {
    &&& 0 <= j <= ss.len()
    &&& forall|k: int| 0 <= k < j ==> ss[k].created_at <= now
    &&& forall|k: int| j <= k < ss.len() ==> ss[k].created_at > now
}

/// The secret that CreateSecret makes.
pub open spec fn new_secret(
    arn: Seq<char>,
    name: Seq<char>,
    description: Option<Seq<char>>,
    vid: Seq<char>,
    string: Option<Seq<char>>,
    binary: Option<Seq<char>>,
    tags: Seq<(Seq<char>, Seq<char>)>,
    now: u64,
) -> SecretView {
    SecretView {
        arn,
        name,
        description,
        created_at: now,
        updated_at: None,
        deleted_at: None,
        scheduled_delete_at: None,
        versions: seq![
            VersionView {
                version_id: vid,
                secret_string: string,
                secret_binary: binary,
                created_at: now,
                last_accessed_at: None,
            },
        ],
        stages: set![(current_label(), vid)],
        tags: upsert_tags(Seq::empty(), tags, now),
    }
}

/// All secrets, ordered by creation time.
pub struct SecretStore {
    secrets: Vec<Secret>,
}

pub struct CreateSecretResponse {
    pub arn: String,
    pub name: String,
    pub version_id: String,
}

impl View for SecretStore {
    type V = Seq<SecretView>;

    closed spec fn view(&self) -> Seq<SecretView> {
        self.secrets@.map_values(|s: Secret| s@)
    }
}

pub open spec fn store_wf(ss: Seq<SecretView>) -> bool {
    &&& forall|i: int| 0 <= i < ss.len() ==> #[trigger] ss[i].wf()
    &&& forall|i: int, j: int| 0 <= i < j < ss.len() ==> ss[i].arn != ss[j].arn
    &&& forall|i: int, j: int| 0 <= i < j < ss.len() ==> ss[i].name != ss[j].name
    &&& forall|i: int, j: int| 0 <= i < j < ss.len() ==> ss[i].created_at <= ss[j].created_at
}

/// Every secret has exactly one `AWSCURRENT` version, and `AWSPREVIOUS`, if
/// held, is elsewhere.
pub open spec fn store_rotation_ok(ss: Seq<SecretView>) -> bool {
    forall|i: int| 0 <= i < ss.len() ==> #[trigger] ss[i].rotation_ok()
}

impl SecretStore {
    /// The structure of the store: its model is well formed, and so is each
    /// secret as stored.
    pub closed spec fn shape(&self) -> bool {
        &&& store_wf(self@)
        &&& forall|i: int| 0 <= i < self.secrets@.len() ==> #[trigger] self.secrets@[i].inv()
    }

    /// The invariant of the store: its structure, and every secret has
    /// exactly one `AWSCURRENT` version, with `AWSPREVIOUS`, if held,
    /// elsewhere.
    pub closed spec fn inv(&self) -> bool {
        &&& self.shape()
        &&& store_rotation_ok(self@)
    }

    /// The invariant of the store gives that of its model.
    pub proof fn lemma_inv(&self)
        requires
            self.inv(),
        ensures
            store_wf(self@),
            store_rotation_ok(self@),
    {
    }

    /// An empty store.
    pub fn new() -> (r: SecretStore)
        ensures
            r.inv(),
            r@ == Seq::<SecretView>::empty(),
    {
        let r = SecretStore { secrets: Vec::new() };
        assert(r@ =~= Seq::<SecretView>::empty());
        r
    }

    /// The secret at position `i`, in order of creation.
    pub fn get(&self, i: usize) -> (r: &Secret)
        requires
            self.inv(),
            i < self@.len(),
        ensures
            r@ == self@[i as int],
            r.inv(),
    {
        &self.secrets[i]
    }

    /// The number of secrets.
    pub fn len(&self) -> (r: usize)
        ensures
            r == self@.len(),
    {
        self.secrets.len()
    }

    /// The secret called `name`.
    pub fn find_name(&self, name: &String) -> (r: Option<usize>)
        requires
            self.inv(),
        ensures
            r == match name_index(self@, name@) {
                Some(i) => Some(i as usize),
                None => None::<usize>,
            },
            r matches Some(i) ==> i < self@.len() && name_index(self@, name@) == Some(i as int),
    {
        let mut i: usize = 0;
        while i < self.secrets.len()
            invariant
                i <= self.secrets@.len(),
                self.inv(),
                forall|k: int| 0 <= k < i ==> self@[k].name != name@,
            decreases self.secrets@.len() - i,
        {
            if self.secrets[i].name == *name {
                proof {
                    assert(self@[i as int].name == name@);
                    let c = choose|c: int| 0 <= c < self@.len() && self@[c].name == name@;
                    assert(c == i) by {
                        if c != i {
                            assert(store_wf(self@));
                            if c < i {
                                assert(self@[c].name != self@[i as int].name);
                            } else {
                                assert(self@[i as int].name != self@[c].name);
                            }
                        }
                    }
                }
                return Some(i);
            }
            i = i + 1;
        }
        None
    }

    /// The first secret that `id` (an ARN or a name) addresses.
    pub fn find(&self, id: &String) -> (r: Option<usize>)
        ensures
            r == match lookup(self@, id@) {
                Some(i) => Some(i as usize),
                None => None::<usize>,
            },
            r matches Some(i) ==> is_first_match(self@, id@, i as int),
    {
        let mut i: usize = 0;
        while i < self.secrets.len()
            invariant
                i <= self.secrets@.len(),
                forall|k: int| 0 <= k < i ==> !id_matches(self@[k], id@),
            decreases self.secrets@.len() - i,
        {
            if self.secrets[i].arn == *id || self.secrets[i].name == *id {
                assert(is_first_match(self@, id@, i as int));
                proof {
                    let c = choose|c: int| is_first_match(self@, id@, c);
                    assert(c == i) by {
                        if c < i {
                        } else if c > i {
                        }
                    }
                }
                return Some(i);
            }
            i = i + 1;
        }
        None
    }

    /// Whether a secret already has this ARN or this name.
    fn collides(&self, arn: &String, name: &String) -> (r: bool)
        ensures
            r == exists|k: int| 0 <= k < self@.len() && (self@[k].arn == arn@ || self@[k].name == name@),
    {
        let mut i: usize = 0;
        while i < self.secrets.len()
            invariant
                i <= self.secrets@.len(),
                forall|k: int| 0 <= k < i ==> !(self@[k].arn == arn@ || self@[k].name == name@),
            decreases self.secrets@.len() - i,
        {
            if self.secrets[i].arn == *arn || self.secrets[i].name == *name {
                assert(self@[i as int].arn == arn@ || self@[i as int].name == name@);
                return true;
            }
            i = i + 1;
        }
        false
    }

    /// Adds a secret at the place its creation time gives it.
    fn insert_sorted(&mut self, s: Secret)
        requires
            old(self).shape(),
            s.inv(),
            forall|k: int|
                0 <= k < old(self)@.len() ==> old(self)@[k].arn != s@.arn && old(self)@[k].name
                    != s@.name,
        ensures
            final(self).shape(),
            exists|j: int|
                is_insert_pos(old(self)@, s@.created_at, j) && final(self)@ == old(self)@.insert(
                    j,
                    s@,
                ),
    {
        let now = s.created_at;
        let mut j: usize = 0;
        while j < self.secrets.len() && self.secrets[j].created_at <= now
            invariant
                j <= self.secrets@.len(),
                forall|k: int| 0 <= k < j ==> self@[k].created_at <= now,
            decreases self.secrets@.len() - j,
        {
            j = j + 1;
        }
        let ghost before = self@;
        proof {
            assert forall|k: int| j <= k < before.len() implies before[k].created_at > now by {
                if j < before.len() {
                    assert(before[j as int].created_at > now);
                    if k > j {
                        assert(before[j as int].created_at <= before[k].created_at);
                    }
                }
            }
        }
        self.secrets.insert(j, s);
        proof {
            assert(self@ =~= before.insert(j as int, s@));
            let ss = self@;
            assert forall|a: int, b: int| 0 <= a < b < ss.len() implies ss[a].arn != ss[b].arn
                && ss[a].name != ss[b].name && ss[a].created_at <= ss[b].created_at by {
                if b < j {
                } else if b == j {
                } else if a < j {
                    assert(ss[b] == before[b - 1]);
                } else if a == j {
                    assert(ss[b] == before[b - 1]);
                } else {
                    assert(ss[a] == before[a - 1]);
                    assert(ss[b] == before[b - 1]);
                }
            }
            assert forall|i: int| 0 <= i < self.secrets@.len() implies #[trigger] self.secrets@[i].inv() by {
                if i < j {
                } else if i > j {
                    assert(self.secrets@[i] == old(self).secrets@[i - 1]);
                }
            }
            assert(is_insert_pos(before, now, j as int));
        }
    }

    /// Creates a secret with its first version, which holds `AWSCURRENT`,
    /// and its tags.
    ///
    /// Where the ARN or the name is taken, the call is a replay: it succeeds,
    /// changing nothing, where the secret that the name addresses already has
    /// version `version_id` with this payload, and fails with
    /// `ResourceExistsException` otherwise.
    pub fn create_secret(
        &mut self,
        arn: String,
        name: String,
        description: Option<String>,
        version_id: String,
        secret_string: Option<String>,
        secret_binary: Option<String>,
        tags: &Vec<Tag>,
        now: u64,
    ) -> (r: Result<CreateSecretResponse, AwsError>)
        requires
            old(self).inv(),
        ensures
            store_rotation_ok(old(self)@) ==> store_rotation_ok(final(self)@),
            final(self).inv(),
            create_secret_outcome(old(self)@, final(self)@, arn, name, description, version_id, secret_string, secret_binary, tags@, now, r),
    {
        if secret_string.is_some() == secret_binary.is_some() {
            return Err(AwsError::InvalidRequestException(InvalidRequestException));
        }
        if self.collides(&arn, &name) {
            match self.find_name(&name) {
                Some(i) => {
                    let s = &self.secrets[i];
                    match s.find_version(&version_id) {
                        Some(k) => {
                            let v = &s.versions[k];
                            if opt_eq(&v.secret_string, &secret_string) && opt_eq(
                                &v.secret_binary,
                                &secret_binary,
                            ) {
                                assert(same_payload(
                                    self@[i as int],
                                    version_id@,
                                    opt_view(secret_string),
                                    opt_view(secret_binary),
                                )) by {
                                    assert(self@[i as int].versions[k as int] == v@);
                                }
                                return Ok(
                                    CreateSecretResponse {
                                        arn: s.arn.clone(),
                                        name,
                                        version_id,
                                    },
                                );
                            }
                            proof {
                                let sv = self@[i as int];
                                if same_payload(
                                    sv,
                                    version_id@,
                                    opt_view(secret_string),
                                    opt_view(secret_binary),
                                ) {
                                    let q = choose|q: int|
                                        0 <= q < sv.versions.len() && sv.versions[q].version_id
                                            == version_id@ && sv.versions[q].secret_string
                                            == opt_view(secret_string)
                                            && sv.versions[q].secret_binary == opt_view(
                                            secret_binary,
                                        );
                                    assert(sv.wf());
                                    assert(q == k);
                                }
                            }
                            return Err(AwsError::ResourceExistsException(ResourceExistsException));
                        },
                        None => {
                            return Err(AwsError::ResourceExistsException(ResourceExistsException));
                        },
                    }
                },
                None => {
                    return Err(AwsError::ResourceExistsException(ResourceExistsException));
                },
            }
        }
        let ghost string_v = opt_view(secret_string);
        let ghost binary_v = opt_view(secret_binary);
        let ghost desc_v = opt_view(description);
        let mut stages: Vec<Stage> = Vec::new();
        stages.push(Stage { label: awscurrent(), version_id: version_id.clone() });
        let mut versions: Vec<Version> = Vec::new();
        versions.push(
            Version {
                version_id: version_id.clone(),
                secret_string,
                secret_binary,
                created_at: now,
                last_accessed_at: None,
            },
        );
        let mut secret = Secret {
            arn: arn.clone(),
            name: name.clone(),
            description,
            created_at: now,
            updated_at: None,
            deleted_at: None,
            scheduled_delete_at: None,
            versions,
            stages,
            tags: Vec::new(),
        };
        proof {
            let sv = secret@;
            assert(sv.versions =~= seq![
                VersionView {
                    version_id: version_id@,
                    secret_string: string_v,
                    secret_binary: binary_v,
                    created_at: now,
                    last_accessed_at: None,
                },
            ]);
            assert(sv.stages =~= set![(current_label(), version_id@)]) by {
                assert forall|p: (Seq<char>, Seq<char>)| sv.stages.contains(p) implies p == (
                    current_label(),
                    version_id@,
                ) by {
                    let k = choose|k: int|
                        0 <= k < secret.stages@.len() && secret.stages@[k].label@ == p.0
                            && secret.stages@[k].version_id@ == p.1;
                    assert(k == 0);
                }
                assert(secret.stages@[0].label@ == current_label());
            }
            assert(sv.tags =~= Seq::<TagView>::empty());
            assert(sv.has_version(version_id@)) by {
                assert(sv.versions[0].version_id == version_id@);
            }
            assert(secret.stages_unique());
            assert(secret.inv());
        }
        secret.put_tags(tags, now);
        let resp = CreateSecretResponse { arn: arn.clone(), name: name.clone(), version_id };
        proof {
            assert(secret@ == new_secret(
                arn@,
                name@,
                desc_v,
                resp.version_id@,
                string_v,
                binary_v,
                tag_pairs(tags@),
                now,
            ));
        }
        let ghost before = self@;
        self.insert_sorted(secret);
        proof {
            let nv = secret@;
            assert(nv.stages.contains((current_label(), resp.version_id@)));
            assert(nv.rotation_ok()) by {
                lemma_labels_differ();
                assert forall|w: Seq<char>| nv.stages.contains((previous_label(), w)) implies !nv.stages.contains(
                    (current_label(), w),
                ) by {
                    assert(nv.stages =~= set![(current_label(), resp.version_id@)]);
                }
            }
            if store_rotation_ok(before) {
                let j = choose|j: int|
                    is_insert_pos(before, nv.created_at, j) && self@ == before.insert(j, nv);
                lemma_rotation_insert(before, j, nv);
            }
        }
        Ok(resp)
    }
}


/// The version that holds `label`, if any.
pub open spec fn holder_of(s: SecretView, label: Seq<char>) -> Option<Seq<char>> {
    if s.label_held(label) {
        Some(choose|v: Seq<char>| s.stages.contains((label, v)))
    } else {
        None
    }
}

/// One label of PutSecretValue: `label` moves to version `v`; where it is
/// `AWSCURRENT`, `AWSPREVIOUS` moves to `prior`, the version that held
/// `AWSCURRENT` when the call began.
pub open spec fn put_step(
    st: Set<(Seq<char>, Seq<char>)>,
    label: Seq<char>,
    v: Seq<char>,
    prior: Option<Seq<char>>,
) -> Set<(Seq<char>, Seq<char>)> {
    let s1 = without_label(st, label);
    let s2 = if label == current_label() {
        let s = without_label(s1, previous_label());
        match prior {
            Some(x) => s.insert((previous_label(), x)),
            None => s,
        }
    } else {
        s1
    };
    s2.insert((label, v))
}

/// The labels after PutSecretValue has applied each of `labels` in turn.
pub open spec fn put_stages(
    st: Set<(Seq<char>, Seq<char>)>,
    labels: Seq<Seq<char>>,
    v: Seq<char>,
    prior: Option<Seq<char>>,
) -> Set<(Seq<char>, Seq<char>)>
    decreases labels.len(),
{
    if labels.len() == 0 {
        st
    } else {
        put_step(put_stages(st, labels.drop_last(), v, prior), labels.last(), v, prior)
    }
}

/// The labels that PutSecretValue applies: those asked for, or `AWSCURRENT`.
pub open spec fn requested_labels(labels: Option<Vec<String>>) -> Seq<Seq<char>> {
    match labels {
        Some(l) => views(l@),
        None => seq![current_label()],
    }
}

/// PutSecretValue refuses an empty label list, and one that names both
/// `AWSCURRENT` and `AWSPREVIOUS`: moving `AWSCURRENT` already gives
/// `AWSPREVIOUS` to the version that held it.
pub open spec fn put_labels_refused(labels: Option<Vec<String>>) -> bool {
    ||| (labels matches Some(l) && l@.len() == 0)
    ||| (requested_labels(labels).contains(current_label()) && requested_labels(labels).contains(
        previous_label(),
    ))
}

fn has_label(labels: &Vec<String>, l: &String) -> (r: bool)
    ensures
        r == views(labels@).contains(l@),
{
    let mut i: usize = 0;
    while i < labels.len()
        invariant
            i <= labels@.len(),
            forall|k: int| 0 <= k < i ==> labels@[k]@ != l@,
        decreases labels@.len() - i,
    {
        if labels[i] == *l {
            assert(views(labels@)[i as int] == l@);
            return true;
        }
        i = i + 1;
    }
    false
}

proof fn lemma_rotation_state_names(labels: Seq<Seq<char>>)
    ensures
        rotation_state(labels) == 1 ==> labels.contains(current_label()),
        rotation_state(labels) == 2 ==> labels.contains(current_label()) && labels.contains(
            previous_label(),
        ),
    decreases labels.len(),
{
    if labels.len() > 0 {
        let p = labels.drop_last();
        lemma_rotation_state_names(p);
        lemma_rotation_state_range(p);
        if p.contains(current_label()) {
            let k = choose|k: int| 0 <= k < p.len() && p[k] == current_label();
            assert(labels[k] == current_label());
        }
        if p.contains(previous_label()) {
            let k = choose|k: int| 0 <= k < p.len() && p[k] == previous_label();
            assert(labels[k] == previous_label());
        }
        assert(labels[labels.len() - 1] == labels.last());
    }
}

/// Secret `s` after PutSecretValue added version `vid` and moved `labels` to it.
pub open spec fn put_secret(
    s: SecretView,
    vid: Seq<char>,
    string: Option<Seq<char>>,
    binary: Option<Seq<char>>,
    labels: Seq<Seq<char>>,
    now: u64,
) -> SecretView {
    s.with_versions(
        s.versions.push(
            VersionView {
                version_id: vid,
                secret_string: string,
                secret_binary: binary,
                created_at: now,
                last_accessed_at: None,
            },
        ),
    ).with_stages(put_stages(s.stages, labels, vid, holder_of(s, current_label())))
}

pub struct PutSecretValueResponse {
    pub arn: String,
    pub name: String,
    pub version_id: String,
    pub version_stages: Vec<String>,
}

impl SecretStore {
    proof fn lemma_put_back(old_store: SecretStore, new_store: SecretStore, i: int, s: Secret)
        requires
            old_store.shape(),
            0 <= i < old_store@.len(),
            new_store.secrets@ == old_store.secrets@.update(i, s),
            s.inv(),
            s@.arn == old_store@[i].arn,
            s@.name == old_store@[i].name,
            s@.created_at == old_store@[i].created_at,
        ensures
            new_store.shape(),
            new_store@ == old_store@.update(i, s@),
    {
        assert(new_store@ =~= old_store@.update(i, s@));
        let ss = new_store@;
        assert forall|a: int, b: int| 0 <= a < b < ss.len() implies ss[a].arn != ss[b].arn
            && ss[a].name != ss[b].name && ss[a].created_at <= ss[b].created_at by {
            assert(old_store@[a].arn != old_store@[b].arn);
        }
    }

    /// Adds version `version_id` to the secret that `secret_id` addresses and
    /// moves each requested label (by default `AWSCURRENT`) to it; moving
    /// `AWSCURRENT` also moves `AWSPREVIOUS` to the version that held
    /// `AWSCURRENT` before.
    ///
    /// Where the secret already has version `version_id`, the call is a
    /// replay: it succeeds, changing nothing, where that version holds this
    /// payload, and fails with `ResourceExistsException` otherwise.
    pub fn put_secret_value(
        &mut self,
        secret_id: &String,
        version_id: String,
        secret_string: Option<String>,
        secret_binary: Option<String>,
        version_stages: Option<Vec<String>>,
        now: u64,
    ) -> (r: Result<PutSecretValueResponse, AwsError>)
        requires
            old(self).inv(),
        ensures
            store_rotation_ok(old(self)@) ==> store_rotation_ok(final(self)@),
            final(self).inv(),
            put_secret_value_outcome(old(self)@, final(self)@, *secret_id, version_id, secret_string, secret_binary, version_stages, now, r),
    {
        let labels: Vec<String> = match version_stages {
            Some(l) => {
                if l.len() == 0 {
                    return Err(AwsError::InvalidRequestException(InvalidRequestException));
                }
                l
            },
            None => {
                let mut l: Vec<String> = Vec::new();
                l.push(awscurrent());
                assert(views(l@) =~= seq![current_label()]);
                l
            },
        };
        if has_label(&labels, &awscurrent()) && has_label(&labels, &awsprevious()) {
            return Err(AwsError::InvalidRequestException(InvalidRequestException));
        }
        assert(!put_labels_refused(version_stages));
        if secret_string.is_some() == secret_binary.is_some() {
            return Err(AwsError::InvalidRequestException(InvalidRequestException));
        }
        let i = match self.find(secret_id) {
            Some(i) => i,
            None => {
                return Err(AwsError::ResourceNotFoundException(ResourceNotFoundException));
            },
        };
        match self.secrets[i].find_version(&version_id) {
            Some(k) => {
                let s = &self.secrets[i];
                let v = &s.versions[k];
                if opt_eq(&v.secret_string, &secret_string) && opt_eq(
                    &v.secret_binary,
                    &secret_binary,
                ) {
                    assert(same_payload(
                        self@[i as int],
                        version_id@,
                        opt_view(secret_string),
                        opt_view(secret_binary),
                    )) by {
                        assert(self@[i as int].versions[k as int] == v@);
                    }
                    assert(self.secrets@[i as int].inv());
                    let stages = s.labels_for(&version_id);
                    return Ok(
                        PutSecretValueResponse {
                            arn: s.arn.clone(),
                            name: s.name.clone(),
                            version_id,
                            version_stages: stages,
                        },
                    );
                }
                proof {
                    let sv = self@[i as int];
                    if same_payload(sv, version_id@, opt_view(secret_string), opt_view(secret_binary)) {
                        let q = choose|q: int|
                            0 <= q < sv.versions.len() && sv.versions[q].version_id == version_id@
                                && sv.versions[q].secret_string == opt_view(secret_string)
                                && sv.versions[q].secret_binary == opt_view(secret_binary);
                        assert(sv.wf());
                        assert(q == k);
                    }
                }
                return Err(AwsError::ResourceExistsException(ResourceExistsException));
            },
            None => {},
        }
        let ghost old_store = *self;
        let ghost string_v = opt_view(secret_string);
        let ghost binary_v = opt_view(secret_binary);
        let mut s = self.secrets.remove(i);
        assert(s@ == old_store@[i as int]);
        let cur = awscurrent();
        let prev = awsprevious();
        let prior = s.holder(&cur);
        proof {
            lemma_labels_differ();
            assert(s@.wf());
            if let Some(x) = &prior {
                assert(s@.label_held(current_label()));
                let c = choose|v: Seq<char>| s@.stages.contains((current_label(), v));
                assert(c == x@);
            }
            assert(opt_view(prior) == holder_of(s@, current_label()));
        }
        s.push_version(
            Version {
                version_id: version_id.clone(),
                secret_string,
                secret_binary,
                created_at: now,
                last_accessed_at: None,
            },
        );
        let ghost base = s@;
        proof {
            assert(base.has_version(version_id@)) by {
                assert(base.versions[base.versions.len() - 1].version_id == version_id@);
            }
            if let Some(x) = &prior {
                assert(old_store@[i as int].wf());
                assert(base.has_version(x@)) by {
                    let k = choose|k: int|
                        0 <= k < old_store@[i as int].versions.len()
                            && old_store@[i as int].versions[k].version_id == x@;
                    assert(base.versions[k] == old_store@[i as int].versions[k]);
                }
            }
        }
        let mut n: usize = 0;
        while n < labels.len()
            invariant
                n <= labels@.len(),
                i < old_store@.len(),
                s.inv(),
                base == old_store@[i as int].with_versions(
                    old_store@[i as int].versions.push(
                        VersionView {
                            version_id: version_id@,
                            secret_string: string_v,
                            secret_binary: binary_v,
                            created_at: now,
                            last_accessed_at: None,
                        },
                    ),
                ),
                opt_view(prior) == holder_of(old_store@[i as int], current_label()),
                cur@ == current_label(),
                prev@ == previous_label(),
                current_label() != previous_label(),
                s@ == base.with_stages(
                    put_stages(
                        old_store@[i as int].stages,
                        views(labels@).take(n as int),
                        version_id@,
                        opt_view(prior),
                    ),
                ),
                s@.has_version(version_id@),
                prior matches Some(x) ==> s@.has_version(x@),
            decreases labels@.len() - n,
        {
            let label = &labels[n];
            let ghost st0 = s@.stages;
            s.strip_label(label);
            if *label == cur {
                s.strip_label(&prev);
                match &prior {
                    Some(x) => {
                        proof {
                            if s@.label_held(previous_label()) {
                                let v = choose|v: Seq<char>| s@.stages.contains((previous_label(), v));
                                assert(s@.stages.contains((previous_label(), v)));
                            }
                        }
                        let ok = s.attach_label(x, &prev);
                    },
                    None => {},
                }
            }
            proof {
                if s@.label_held(label@) {
                    let v = choose|v: Seq<char>| s@.stages.contains((label@, v));
                    assert(s@.stages.contains((label@, v)));
                }
            }
            let ok = s.attach_label(&version_id, label);
            proof {
                assert(s@.stages =~= put_step(st0, label@, version_id@, opt_view(prior)));
            }
            proof {
                assert(views(labels@).take(n + 1).drop_last() =~= views(labels@).take(n as int));
                assert(views(labels@).take(n + 1).last() == label@);
            }
            n = n + 1;
        }
        proof {
            assert(views(labels@).take(labels@.len() as int) =~= views(labels@));
        }
        let arn = s.arn.clone();
        let name = s.name.clone();
        self.secrets.insert(i, s);
        proof {
            assert(self.secrets@ =~= old_store.secrets@.update(i as int, s));
            SecretStore::lemma_put_back(old_store, *self, i as int, s);
            if store_rotation_ok(old_store@) {
                lemma_rotation_state_names(views(labels@));
                assert(old_store@[i as int].rotation_ok());
                assert(old_store@[i as int].wf());
                lemma_put_secret_rotation(
                    old_store@[i as int],
                    version_id@,
                    string_v,
                    binary_v,
                    views(labels@),
                    now,
                );
                lemma_rotation_update(old_store@, i as int, s@);
            }
        }
        Ok(PutSecretValueResponse { arn, name, version_id, version_stages: labels })
    }
}


/// The labels after UpdateSecret made version `vid` current: `AWSPREVIOUS`
/// moves to `prior`, which loses `AWSCURRENT`, and `vid` takes `AWSCURRENT`.
pub open spec fn rotate_stages(
    st: Set<(Seq<char>, Seq<char>)>,
    vid: Seq<char>,
    prior: Option<Seq<char>>,
) -> Set<(Seq<char>, Seq<char>)> {
    let s1 = without_label(st, previous_label());
    let s2 = match prior {
        Some(x) => s1.insert((previous_label(), x)).remove((current_label(), x)),
        None => s1,
    };
    s2.insert((current_label(), vid))
}

/// Secret `s` after UpdateSecret: the description, where one is given, then
/// a new current version, where a payload is given and `vid` is new.
pub open spec fn update_secret_result(
    s: SecretView,
    description: Option<Seq<char>>,
    vid: Seq<char>,
    string: Option<Seq<char>>,
    binary: Option<Seq<char>>,
    now: u64,
) -> SecretView {
    let s1 = match description {
        Some(d) => s.with_description(d, now),
        None => s,
    };
    if (string is Some || binary is Some) && !s.has_version(vid) {
        s1.with_versions(
            s1.versions.push(
                VersionView {
                    version_id: vid,
                    secret_string: string,
                    secret_binary: binary,
                    created_at: now,
                    last_accessed_at: None,
                },
            ),
        ).with_stages(rotate_stages(s1.stages, vid, holder_of(s, current_label())))
    } else {
        s1
    }
}

pub struct UpdateSecretResponse {
    pub arn: String,
    pub name: String,
    pub version_id: Option<String>,
}

impl SecretStore {
    /// Updates the description and, where a payload is given, makes a new
    /// version `version_id` current, the former current one becoming
    /// `AWSPREVIOUS`. A `version_id` that the secret already has is a replay:
    /// no version is added and no version id is returned.
    pub fn update_secret(
        &mut self,
        secret_id: &String,
        description: Option<String>,
        version_id: String,
        secret_string: Option<String>,
        secret_binary: Option<String>,
        now: u64,
    ) -> (r: Result<UpdateSecretResponse, AwsError>)
        requires
            old(self).inv(),
        ensures
            store_rotation_ok(old(self)@) ==> store_rotation_ok(final(self)@),
            final(self).inv(),
            update_secret_outcome(old(self)@, final(self)@, *secret_id, description, version_id, secret_string, secret_binary, now, r),
    {
        if secret_string.is_some() && secret_binary.is_some() {
            return Err(AwsError::InvalidRequestException(InvalidRequestException));
        }
        let i = match self.find(secret_id) {
            Some(i) => i,
            None => {
                return Err(AwsError::ResourceNotFoundException(ResourceNotFoundException));
            },
        };
        let ghost old_store = *self;
        let ghost sv = old_store@[i as int];
        let ghost string_v = opt_view(secret_string);
        let ghost desc_v = opt_view(description);
        let ghost binary_v = opt_view(secret_binary);
        let mut s = self.secrets.remove(i);
        assert(s@ == sv);
        let cur = awscurrent();
        let prev = awsprevious();
        let prior = s.holder(&cur);
        proof {
            lemma_labels_differ();
            assert(s@.wf());
            if let Some(x) = &prior {
                let c = choose|v: Seq<char>| s@.stages.contains((current_label(), v));
                assert(c == x@);
            }
            assert(opt_view(prior) == holder_of(sv, current_label()));
        }
        match description {
            Some(d) => s.set_description(d, now),
            None => {},
        }
        let has_payload = secret_string.is_some() || secret_binary.is_some();
        let new_version = if has_payload {
            match s.find_version(&version_id) {
                Some(_) => None,
                None => {
                    let ghost s1 = s@;
                    s.push_version(
                        Version {
                            version_id: version_id.clone(),
                            secret_string,
                            secret_binary,
                            created_at: now,
                            last_accessed_at: None,
                        },
                    );
                    proof {
                        assert(s@.has_version(version_id@)) by {
                            assert(s@.versions[s@.versions.len() - 1].version_id == version_id@);
                        }
                        if let Some(x) = &prior {
                            assert(sv.wf());
                            assert(s@.has_version(x@)) by {
                                let k = choose|k: int|
                                    0 <= k < sv.versions.len() && sv.versions[k].version_id == x@;
                                assert(s@.versions[k] == sv.versions[k]);
                            }
                        }
                    }
                    let ghost st0 = s@.stages;
                    s.strip_label(&prev);
                    match &prior {
                        Some(x) => {
                            proof {
                                if s@.label_held(previous_label()) {
                                    let v = choose|v: Seq<char>|
                                        s@.stages.contains((previous_label(), v));
                                    assert(s@.stages.contains((previous_label(), v)));
                                }
                            }
                            s.attach_label(x, &prev);
                            let removed = s.detach_label(x, &cur);
                            proof {
                                assert(s1.stages.contains((current_label(), x@)));
                                assert(removed);
                            }
                        },
                        None => {},
                    }
                    proof {
                        if s@.label_held(current_label()) {
                            let v = choose|v: Seq<char>| s@.stages.contains((current_label(), v));
                            assert(s@.stages.contains((current_label(), v)));
                            assert(st0.contains((current_label(), v)));
                        }
                    }
                    s.attach_label(&version_id, &cur);
                    proof {
                        assert(s@.stages =~= rotate_stages(st0, version_id@, opt_view(prior)));
                    }
                    Some(version_id)
                },
            }
        } else {
            None
        };
        let arn = s.arn.clone();
        let name = s.name.clone();
        self.secrets.insert(i, s);
        proof {
            assert(self.secrets@ =~= old_store.secrets@.update(i as int, s));
            SecretStore::lemma_put_back(old_store, *self, i as int, s);
            if store_rotation_ok(old_store@) {
                assert(old_store@[i as int].rotation_ok());
                lemma_update_secret_rotation(sv, desc_v, version_id@, string_v, binary_v, now);
                lemma_rotation_update(old_store@, i as int, s@);
            }
        }
        Ok(UpdateSecretResponse { arn, name, version_id: new_version })
    }
}


/// The labels after the steps of UpdateSecretVersionStage, or `None` where a
/// step fails: `stage` leaves `remove_from` (which must hold it); where
/// `AWSCURRENT` moves, `AWSPREVIOUS` goes to the version that held
/// `AWSCURRENT`; then `stage` goes to `move_to`, which must exist and must not
/// find `stage` held elsewhere.
pub open spec fn stage_steps(
    s: SecretView,
    stage: Seq<char>,
    move_to: Option<Seq<char>>,
    remove_from: Option<Seq<char>>,
) -> Option<Set<(Seq<char>, Seq<char>)>> {
    let prior = holder_of(s, current_label());
    let st1 = match remove_from {
        Some(src) => if s.stages.contains((stage, src)) {
            Some(s.stages.remove((stage, src)))
        } else {
            None
        },
        None => Some(s.stages),
    };
    match st1 {
        None => None,
        Some(st1) => {
            let st2 = if stage == current_label() && move_to is Some {
                let t = without_label(st1, previous_label());
                match prior {
                    Some(x) => t.insert((previous_label(), x)),
                    None => t,
                }
            } else {
                st1
            };
            match move_to {
                None => Some(st2),
                Some(dest) => if s.has_version(dest) && !label_in(st2, stage) {
                    Some(st2.insert((stage, dest)))
                } else {
                    None
                },
            }
        },
    }
}

proof fn lemma_stage_held_refused(s: SecretView, stage: Seq<char>, dest: Seq<char>, h: Seq<char>)
    requires
        s.stages.contains((stage, h)),
    ensures
        stage_steps(s, stage, Some(dest), None) is None,
{
    lemma_labels_differ();
    let t = without_label(s.stages, previous_label());
    if stage == current_label() {
        assert(t.contains((stage, h)));
        match holder_of(s, current_label()) {
            Some(x) => {
                assert(t.insert((previous_label(), x)).contains((stage, h)));
            },
            None => {},
        }
    }
}

/// Whether some version holds `label` in `st`.
pub open spec fn label_in(st: Set<(Seq<char>, Seq<char>)>, label: Seq<char>) -> bool {
    exists|v: Seq<char>| st.contains((label, v))
}

pub struct UpdateSecretVersionStageResponse {
    pub arn: String,
    pub name: String,
}

impl SecretStore {
    /// Moves stage label `version_stage` off `remove_from_version_id` and
    /// onto `move_to_version_id`; fails with `InvalidRequestException`,
    /// changing nothing, where the label is not on the first or is held
    /// elsewhere when it would go onto the second.
    pub fn update_secret_version_stage(
        &mut self,
        secret_id: &String,
        version_stage: &String,
        move_to_version_id: Option<String>,
        remove_from_version_id: Option<String>,
    ) -> (r: Result<UpdateSecretVersionStageResponse, AwsError>)
        requires
            old(self).inv(),
        ensures
            store_rotation_ok(old(self)@) ==> store_rotation_ok(final(self)@),
            final(self).inv(),
            update_secret_version_stage_outcome(old(self)@, final(self)@, *secret_id, *version_stage, move_to_version_id, remove_from_version_id, r),
    {
        let i = match self.find(secret_id) {
            Some(i) => i,
            None => {
                return Err(AwsError::ResourceNotFoundException(ResourceNotFoundException));
            },
        };
        let ghost old_store = *self;
        let ghost sv = old_store@[i as int];
        let cur = awscurrent();
        let prev = awsprevious();
        let prior = self.secrets[i].holder(&cur);
        let held = self.secrets[i].holder(version_stage);
        proof {
            lemma_labels_differ();
            assert(sv.wf());
            if let Some(x) = &prior {
                let c = choose|v: Seq<char>| sv.stages.contains((current_label(), v));
                assert(c == x@);
            }
            assert(opt_view(prior) == holder_of(sv, current_label()));
        }
        let refused = if *version_stage == cur {
            (move_to_version_id.is_none() && remove_from_version_id.is_some()) || match (
                &move_to_version_id,
                &prior,
            ) {
                (Some(d), Some(p)) => *d == *p,
                _ => false,
            }
        } else if *version_stage == prev {
            match (&move_to_version_id, &prior) {
                (Some(d), Some(p)) => *d == *p,
                _ => false,
            }
        } else {
            false
        };
        if refused {
            return Err(AwsError::InvalidRequestException(InvalidRequestException));
        }
        assert(stage_move_safe(
            sv,
            version_stage@,
            opt_view(move_to_version_id),
            opt_view(remove_from_version_id),
        ));
        match &remove_from_version_id {
            Some(src) => {
                let holds = match &held {
                    Some(h) => *h == *src,
                    None => false,
                };
                if !holds {
                    proof {
                        if sv.stages.contains((version_stage@, src@)) {
                            assert(sv.label_held(version_stage@));
                        }
                    }
                    return Err(AwsError::InvalidRequestException(InvalidRequestException));
                }
            },
            None => {},
        }
        match &move_to_version_id {
            Some(dest) => {
                let exists_dest = self.secrets[i].find_version(dest).is_some();
                if !exists_dest || (held.is_some() && remove_from_version_id.is_none()) {
                    proof {
                        if exists_dest {
                            let h = held.unwrap();
                            lemma_stage_held_refused(sv, version_stage@, dest@, h@);
                        } else {
                            assert(!sv.has_version(dest@));
                        }
                        match &remove_from_version_id {
                            Some(src) => {
                                assert(sv.stages.contains((version_stage@, src@)));
                            },
                            None => {},
                        }
                        assert(opt_view(move_to_version_id) == Some(dest@));
                        if !exists_dest {
                            assert(stage_steps(
                                sv,
                                version_stage@,
                                opt_view(move_to_version_id),
                                opt_view(remove_from_version_id),
                            ) is None);
                        } else {
                            assert(stage_steps(
                                sv,
                                version_stage@,
                                opt_view(move_to_version_id),
                                opt_view(remove_from_version_id),
                            ) is None);
                        }
                    }
                    return Err(AwsError::InvalidRequestException(InvalidRequestException));
                }
            },
            None => {},
        }
        let mut s = self.secrets.remove(i);
        assert(s@ == sv);
        let ghost st1 = match &remove_from_version_id {
            Some(src) => sv.stages.remove((version_stage@, src@)),
            None => sv.stages,
        };
        match &remove_from_version_id {
            Some(src) => {
                let removed = s.detach_label(src, version_stage);
            },
            None => {},
        }
        assert(s@.stages == st1);
        if *version_stage == cur && move_to_version_id.is_some() {
            s.strip_label(&prev);
            match &prior {
                Some(x) => {
                    proof {
                        assert(s@.has_version(x@));
                        if s@.label_held(previous_label()) {
                            let v = choose|v: Seq<char>| s@.stages.contains((previous_label(), v));
                            assert(s@.stages.contains((previous_label(), v)));
                        }
                    }
                    s.attach_label(x, &prev);
                },
                None => {},
            }
        }
        let ghost st2 = s@.stages;
        match &move_to_version_id {
            Some(dest) => {
                proof {
                    assert(s@.has_version(dest@));
                    if s@.label_held(version_stage@) {
                        let v = choose|v: Seq<char>| s@.stages.contains((version_stage@, v));
                        assert(s@.stages.contains((version_stage@, v)));
                        assert(sv.stages.contains((version_stage@, v)));
                        assert(held is Some);
                        if let Some(src) = &remove_from_version_id {
                            assert(v == src@);
                        }
                    }
                }
                s.attach_label(dest, version_stage);
                proof {
                    assert(!label_in(st2, version_stage@));
                }
            },
            None => {},
        }
        proof {
            assert(stage_steps(
                sv,
                version_stage@,
                opt_view(move_to_version_id),
                opt_view(remove_from_version_id),
            ) == Some(s@.stages));
            assert(s@ == sv.with_stages(s@.stages));
        }
        let arn = s.arn.clone();
        let name = s.name.clone();
        self.secrets.insert(i, s);
        proof {
            assert(self.secrets@ =~= old_store.secrets@.update(i as int, s));
            SecretStore::lemma_put_back(old_store, *self, i as int, s);
            if store_rotation_ok(old_store@) {
                assert(sv.rotation_ok());
                lemma_stage_move_rotation(
                    sv,
                    version_stage@,
                    opt_view(move_to_version_id),
                    opt_view(remove_from_version_id),
                );
                lemma_rotation_update(old_store@, i as int, s@);
            }
        }
        Ok(UpdateSecretVersionStageResponse { arn, name })
    }
}


/// The version that GetSecretValue reads. With both a version id and a label,
/// the version of that id if it holds the label; with an id alone, the
/// version of that id; with a label alone, the version holding it; with
/// neither, the version holding `AWSCURRENT`. `None` where there is none.
pub open spec fn selected_version(
    s: SecretView,
    version_id: Option<Seq<char>>,
    version_stage: Option<Seq<char>>,
) -> Option<Seq<char>> {
    match (version_id, version_stage) {
        (Some(v), Some(l)) => if s.has_version(v) && s.stages.contains((l, v)) {
            Some(v)
        } else {
            None
        },
        (Some(v), None) => if s.has_version(v) {
            Some(v)
        } else {
            None
        },
        (None, Some(l)) => holder_of(s, l),
        (None, None) => holder_of(s, current_label()),
    }
}

/// The index of version `vid` of `s`.
pub open spec fn version_index(s: SecretView, vid: Seq<char>) -> int {
    choose|k: int| 0 <= k < s.versions.len() && s.versions[k].version_id == vid
}

pub struct GetSecretValueResponse {
    pub arn: String,
    pub created_date: u64,
    pub name: String,
    pub secret_string: Option<String>,
    pub secret_binary: Option<String>,
    pub version_id: String,
    pub version_stages: Vec<String>,
}

pub struct DeleteSecretResponse {
    pub arn: String,
    pub name: String,
    pub deletion_date: u64,
}

pub struct RestoreSecretResponse {
    pub arn: String,
    pub name: String,
}

/// Seconds in a day.
pub const DAY_SECONDS: u64 = 86400;

/// The latest time for which every scheduled deletion stays in range.
pub const MAX_NOW: u64 = 18446744073706959615;

impl SecretView {
    pub open spec fn scheduled(self, deleted_at: u64, at: u64) -> SecretView {
        SecretView { deleted_at: Some(deleted_at), scheduled_delete_at: Some(at), ..self }
    }

    pub open spec fn restored(self) -> SecretView {
        SecretView { deleted_at: None, scheduled_delete_at: None, ..self }
    }
}

impl SecretStore {
    /// Reads a version of the secret that `secret_id` addresses and stamps it
    /// as read today. Fails with `InvalidRequestException` while the secret
    /// is scheduled for deletion.
    pub fn get_secret_value(
        &mut self,
        secret_id: &String,
        version_id: Option<String>,
        version_stage: Option<String>,
        now: u64,
    ) -> (r: Result<GetSecretValueResponse, AwsError>)
        requires
            old(self).inv(),
        ensures
            store_rotation_ok(old(self)@) ==> store_rotation_ok(final(self)@),
            final(self).inv(),
            get_secret_value_outcome(old(self)@, final(self)@, *secret_id, version_id, version_stage, now, r),
    {
        self.read_secret_value(secret_id, version_id, version_stage, now, true)
    }

    /// Reads a version as GetSecretValue does; a secret scheduled for
    /// deletion is refused only where `refuse_scheduled` says so.
    pub fn read_secret_value(
        &mut self,
        secret_id: &String,
        version_id: Option<String>,
        version_stage: Option<String>,
        now: u64,
        refuse_scheduled: bool,
    ) -> (r: Result<GetSecretValueResponse, AwsError>)
        requires
            old(self).inv(),
        ensures
            store_rotation_ok(old(self)@) ==> store_rotation_ok(final(self)@),
            final(self).inv(),
            read_value_outcome(old(self)@, final(self)@, *secret_id, version_id, version_stage, now, refuse_scheduled, r),
    {
        let i = match self.find(secret_id) {
            Some(i) => i,
            None => {
                return Err(AwsError::ResourceNotFoundException(ResourceNotFoundException));
            },
        };
        let ghost sv = self@[i as int];
        proof {
            assert(sv.wf());
        }
        let vid: String = match (&version_id, &version_stage) {
            (Some(v), Some(l)) => {
                let ok = match self.secrets[i].find_version(v) {
                    Some(_) => {
                        let held = self.secrets[i].holder(l);
                        match held {
                            Some(h) => h == *v,
                            None => false,
                        }
                    },
                    None => false,
                };
                if !ok {
                    proof {
                        if sv.has_version(v@) && sv.stages.contains((l@, v@)) {
                            assert(sv.label_held(l@));
                        }
                    }
                    return Err(AwsError::ResourceNotFoundException(ResourceNotFoundException));
                }
                v.clone()
            },
            (Some(v), None) => {
                if self.secrets[i].find_version(v).is_none() {
                    return Err(AwsError::ResourceNotFoundException(ResourceNotFoundException));
                }
                v.clone()
            },
            (None, Some(l)) => match self.secrets[i].holder(l) {
                Some(h) => {
                    proof {
                        let c = choose|w: Seq<char>| sv.stages.contains((l@, w));
                        assert(c == h@);
                    }
                    h
                },
                None => {
                    return Err(AwsError::ResourceNotFoundException(ResourceNotFoundException));
                },
            },
            (None, None) => match self.secrets[i].holder(&awscurrent()) {
                Some(h) => {
                    proof {
                        let c = choose|w: Seq<char>| sv.stages.contains((current_label(), w));
                        assert(c == h@);
                    }
                    h
                },
                None => {
                    return Err(AwsError::ResourceNotFoundException(ResourceNotFoundException));
                },
            },
        };
        assert(selected_version(sv, opt_view(version_id), opt_view(version_stage)) == Some(vid@));
        if refuse_scheduled && self.secrets[i].scheduled_delete_at.is_some() {
            return Err(AwsError::InvalidRequestException(InvalidRequestException));
        }
        let k = match self.secrets[i].find_version(&vid) {
            Some(k) => k,
            None => {
                proof {
                    let v = choose|w: Seq<char>| sv.stages.contains((current_label(), w));
                }
                return Err(AwsError::ResourceNotFoundException(ResourceNotFoundException));
            },
        };
        proof {
            let q = version_index(sv, vid@);
            assert(sv.versions[k as int].version_id == vid@);
            assert(q == k);
        }
        let ghost old_store = *self;
        let mut s = self.secrets.remove(i);
        assert(s@ == sv);
        assert(old_store.secrets@[i as int].inv());
        let resp = GetSecretValueResponse {
            arn: s.arn.clone(),
            created_date: if version_id.is_some() {
                s.versions[k].created_at
            } else {
                s.created_at
            },
            name: s.name.clone(),
            secret_string: opt_copy(&s.versions[k].secret_string),
            secret_binary: opt_copy(&s.versions[k].secret_binary),
            version_id: vid.clone(),
            version_stages: s.labels_for(&vid),
        };
        assert(sv.versions[k as int] == s.versions@[k as int]@);
        s.touch_version(k, day_start(now));
        self.secrets.insert(i, s);
        proof {
            assert(self.secrets@ =~= old_store.secrets@.update(i as int, s));
            SecretStore::lemma_put_back(old_store, *self, i as int, s);
            if store_rotation_ok(old_store@) {
                assert(old_store@[i as int].rotation_ok());
                assert(s@.stages == sv.stages);
                lemma_rotation_update(old_store@, i as int, s@);
            }
        }
        Ok(resp)
    }

    /// Schedules the secret for deletion `recovery_window_in_days` days from
    /// now, or, forced, removes it with everything it owns at once. A secret
    /// already scheduled keeps its date.
    pub fn delete_secret(
        &mut self,
        secret_id: &String,
        force_delete_without_recovery: bool,
        recovery_window_in_days: i32,
        now: u64,
    ) -> (r: Result<DeleteSecretResponse, AwsError>)
        requires
            old(self).inv(),
            now <= MAX_NOW,
        ensures
            store_rotation_ok(old(self)@) ==> store_rotation_ok(final(self)@),
            final(self).inv(),
            delete_secret_outcome(old(self)@, final(self)@, *secret_id, force_delete_without_recovery, recovery_window_in_days, now, r),
    {
        if recovery_window_in_days < 7 || recovery_window_in_days > 30 {
            return Err(AwsError::InvalidParameterException(InvalidParameterException));
        }
        let i = match self.find(secret_id) {
            Some(i) => i,
            None => {
                return Err(AwsError::ResourceNotFoundException(ResourceNotFoundException));
            },
        };
        let arn = self.secrets[i].arn.clone();
        let name = self.secrets[i].name.clone();
        if let Some(t) = self.secrets[i].scheduled_delete_at {
            return Ok(DeleteSecretResponse { arn, name, deletion_date: t });
        }
        let ghost old_store = *self;
        if force_delete_without_recovery {
            self.secrets.remove(i);
            proof {
                assert(self@ =~= old_store@.remove(i as int));
                let ss = self@;
                assert forall|a: int, b: int| 0 <= a < b < ss.len() implies ss[a].arn != ss[b].arn
                    && ss[a].name != ss[b].name && ss[a].created_at <= ss[b].created_at by {
                    if a < i && b >= i {
                        assert(ss[b] == old_store@[b + 1]);
                    } else if a >= i {
                        assert(ss[a] == old_store@[a + 1]);
                        assert(ss[b] == old_store@[b + 1]);
                    }
                }
                assert forall|q: int| 0 <= q < self.secrets@.len() implies #[trigger] self.secrets@[q].inv() by {
                    if q >= i {
                        assert(self.secrets@[q] == old_store.secrets@[q + 1]);
                    }
                }
            }
            proof {
                if store_rotation_ok(old_store@) {
                    lemma_rotation_remove(old_store@, i as int);
                }
            }
            return Ok(DeleteSecretResponse { arn, name, deletion_date: now });
        }
        let days = recovery_window_in_days as u64;
        assert(days * 86400 <= 30 * 86400) by (nonlinear_arith)
            requires
                days <= 30,
        ;
        let at = now + days * DAY_SECONDS;
        let mut s = self.secrets.remove(i);
        assert(old_store.secrets@[i as int].inv());
        s.deleted_at = Some(now);
        s.scheduled_delete_at = Some(at);
        self.secrets.insert(i, s);
        proof {
            assert(self.secrets@ =~= old_store.secrets@.update(i as int, s));
            SecretStore::lemma_put_back(old_store, *self, i as int, s);
            if store_rotation_ok(old_store@) {
                assert(old_store@[i as int].rotation_ok());
                assert(s@.stages == old_store@[i as int].stages);
                assert(s@.rotation_ok());
                lemma_rotation_update(old_store@, i as int, s@);
            }
        }
        Ok(DeleteSecretResponse { arn, name, deletion_date: at })
    }

    /// Cancels a scheduled deletion; a secret not scheduled is left as is.
    pub fn restore_secret(&mut self, secret_id: &String) -> (r: Result<
        RestoreSecretResponse,
        AwsError,
    >)
        requires
            old(self).inv(),
        ensures
            store_rotation_ok(old(self)@) ==> store_rotation_ok(final(self)@),
            final(self).inv(),
            restore_secret_outcome(old(self)@, final(self)@, *secret_id, r),
    {
        let i = match self.find(secret_id) {
            Some(i) => i,
            None => {
                return Err(AwsError::ResourceNotFoundException(ResourceNotFoundException));
            },
        };
        let ghost old_store = *self;
        let mut s = self.secrets.remove(i);
        assert(old_store.secrets@[i as int].inv());
        let ghost s0 = s;
        s.deleted_at = None;
        s.scheduled_delete_at = None;
        assert(s@.versions == s0@.versions && s@.stages == s0@.stages && s@.tags == s0@.tags);
        assert(s.stages == s0.stages);
        assert(s.inv());
        let arn = s.arn.clone();
        let name = s.name.clone();
        self.secrets.insert(i, s);
        proof {
            assert(self.secrets@ =~= old_store.secrets@.update(i as int, s));
            SecretStore::lemma_put_back(old_store, *self, i as int, s);
            if store_rotation_ok(old_store@) {
                assert(old_store@[i as int].rotation_ok());
                assert(s@.stages == old_store@[i as int].stages);
                assert(s@.rotation_ok());
                lemma_rotation_update(old_store@, i as int, s@);
            }
        }
        Ok(RestoreSecretResponse { arn, name })
    }

    /// Sets each tag in turn on the secret that `secret_id` addresses.
    pub fn tag_resource(&mut self, secret_id: &String, tags: &Vec<Tag>, now: u64) -> (r: Result<
        (),
        AwsError,
    >)
        requires
            old(self).inv(),
        ensures
            store_rotation_ok(old(self)@) ==> store_rotation_ok(final(self)@),
            final(self).inv(),
            match lookup(old(self)@, secret_id@) {
                None => r == Err::<(), AwsError>(not_found()) && final(self)@ == old(self)@,
                Some(i) => r is Ok && final(self)@ == old(self)@.update(
                    i,
                    old(self)@[i].with_tags(upsert_tags(old(self)@[i].tags, tag_pairs(tags@), now)),
                ),
            },
    {
        let i = match self.find(secret_id) {
            Some(i) => i,
            None => {
                return Err(AwsError::ResourceNotFoundException(ResourceNotFoundException));
            },
        };
        let ghost old_store = *self;
        let mut s = self.secrets.remove(i);
        assert(s@ == old_store@[i as int]);
        s.put_tags(tags, now);
        self.secrets.insert(i, s);
        proof {
            assert(self.secrets@ =~= old_store.secrets@.update(i as int, s));
            SecretStore::lemma_put_back(old_store, *self, i as int, s);
            if store_rotation_ok(old_store@) {
                assert(old_store@[i as int].rotation_ok());
                assert(s@.stages == old_store@[i as int].stages);
                assert(s@.rotation_ok());
                lemma_rotation_update(old_store@, i as int, s@);
            }
        }
        Ok(())
    }

    /// Removes each tag key in turn from the secret that `secret_id` addresses.
    pub fn untag_resource(&mut self, secret_id: &String, tag_keys: &Vec<String>) -> (r: Result<
        (),
        AwsError,
    >)
        requires
            old(self).inv(),
        ensures
            store_rotation_ok(old(self)@) ==> store_rotation_ok(final(self)@),
            final(self).inv(),
            match lookup(old(self)@, secret_id@) {
                None => r == Err::<(), AwsError>(not_found()) && final(self)@ == old(self)@,
                Some(i) => r is Ok && final(self)@ == old(self)@.update(
                    i,
                    old(self)@[i].with_tags(remove_tags(old(self)@[i].tags, views(tag_keys@))),
                ),
            },
    {
        let i = match self.find(secret_id) {
            Some(i) => i,
            None => {
                return Err(AwsError::ResourceNotFoundException(ResourceNotFoundException));
            },
        };
        let ghost old_store = *self;
        let mut s = self.secrets.remove(i);
        assert(s@ == old_store@[i as int]);
        s.drop_tags(tag_keys);
        assert(tag_keys@.map_values(|k: String| k@) =~= views(tag_keys@));
        self.secrets.insert(i, s);
        proof {
            assert(self.secrets@ =~= old_store.secrets@.update(i as int, s));
            SecretStore::lemma_put_back(old_store, *self, i as int, s);
            if store_rotation_ok(old_store@) {
                assert(old_store@[i as int].rotation_ok());
                assert(s@.stages == old_store@[i as int].stages);
                assert(s@.rotation_ok());
                lemma_rotation_update(old_store@, i as int, s@);
            }
        }
        Ok(())
    }
}


/// How PutSecretValue's labels leave the two rotation labels: `0` while
/// `AWSCURRENT` has not been moved, `1` once it has, `2` where `AWSPREVIOUS`
/// was moved after it (both then end on the new version).
pub open spec fn rotation_state(labels: Seq<Seq<char>>) -> int
    decreases labels.len(),
{
    if labels.len() == 0 {
        0
    } else {
        let s = rotation_state(labels.drop_last());
        if labels.last() == current_label() {
            1
        } else if labels.last() == previous_label() && s != 0 {
            2
        } else {
            s
        }
    }
}

pub proof fn lemma_rotation_state_range(labels: Seq<Seq<char>>)
    ensures
        0 <= rotation_state(labels) <= 2,
    decreases labels.len(),
{
    if labels.len() > 0 {
        lemma_rotation_state_range(labels.drop_last());
    }
}

/// Only `a` holds `l` in `st`.
pub open spec fn only_holder(st: Set<(Seq<char>, Seq<char>)>, l: Seq<char>, a: Seq<char>) -> bool {
    forall|w: Seq<char>| #[trigger] st.contains((l, w)) <==> w == a
}

pub proof fn lemma_put_stages_rotation(
    st: Set<(Seq<char>, Seq<char>)>,
    labels: Seq<Seq<char>>,
    v: Seq<char>,
    x: Seq<char>,
)
    requires
        x != v,
        only_holder(st, current_label(), x),
        forall|w: Seq<char>| #[trigger] st.contains((previous_label(), w)) ==> w != x,
    ensures
        rotation_state(labels) == 0 ==> only_holder(put_stages(st, labels, v, Some(x)), current_label(), x),
        rotation_state(labels) == 0 ==> forall|w: Seq<char>|
            #[trigger] put_stages(st, labels, v, Some(x)).contains((previous_label(), w)) ==> w != x,
        rotation_state(labels) == 1 ==> only_holder(put_stages(st, labels, v, Some(x)), current_label(), v),
        rotation_state(labels) == 1 ==> only_holder(put_stages(st, labels, v, Some(x)), previous_label(), x),
        rotation_state(labels) == 2 ==> only_holder(put_stages(st, labels, v, Some(x)), current_label(), v),
    decreases labels.len(),
{
    lemma_labels_differ();
    if labels.len() > 0 {
        let prev = labels.drop_last();
        lemma_put_stages_rotation(st, prev, v, x);
        lemma_rotation_state_range(prev);
        let p = put_stages(st, prev, v, Some(x));
        let l = labels.last();
        let sp = rotation_state(prev);
        let r = put_step(p, l, v, Some(x));
        assert(put_stages(st, labels, v, Some(x)) == r);
        assert(rotation_state(labels) == (if l == current_label() {
            1
        } else if l == previous_label() && sp != 0 {
            2
        } else {
            sp
        }));
        if l == current_label() {
            assert forall|w: Seq<char>| #[trigger] r.contains((current_label(), w)) <==> w == v by {
            }
            assert forall|w: Seq<char>| #[trigger] r.contains((previous_label(), w)) <==> w == x by {
            }
        } else if l == previous_label() {
            assert forall|w: Seq<char>| #[trigger] r.contains((current_label(), w)) <==> p.contains(
                (current_label(), w),
            ) by {
            }
            assert forall|w: Seq<char>| #[trigger] r.contains((previous_label(), w)) <==> w == v by {
            }
            if sp == 0 {
                assert(only_holder(r, current_label(), x));
                assert forall|w: Seq<char>| #[trigger] r.contains((previous_label(), w)) implies w
                    != x by {
                }
            } else if sp == 1 {
                assert(only_holder(r, current_label(), v));
            } else if sp == 2 {
                assert(only_holder(r, current_label(), v));
            }
        } else {
            assert forall|w: Seq<char>| #[trigger] r.contains((current_label(), w)) <==> p.contains(
                (current_label(), w),
            ) by {
            }
            assert forall|w: Seq<char>| #[trigger] r.contains((previous_label(), w)) <==> p.contains(
                (previous_label(), w),
            ) by {
            }
            if sp == 0 {
                assert(only_holder(r, current_label(), x));
                assert forall|w: Seq<char>| #[trigger] r.contains((previous_label(), w)) implies w
                    != x by {
                    assert(p.contains((previous_label(), w)));
                }
            } else if sp == 1 {
                assert(only_holder(r, current_label(), v));
                assert(only_holder(r, previous_label(), x));
            } else if sp == 2 {
                assert(only_holder(r, current_label(), v));
            }
        }
    }
}

/// Before PutSecretValue: rotation holds, the new version holds nothing.
proof fn lemma_put_secret_rotation(
    s: SecretView,
    vid: Seq<char>,
    string: Option<Seq<char>>,
    binary: Option<Seq<char>>,
    labels: Seq<Seq<char>>,
    now: u64,
)
    requires
        s.wf(),
        s.rotation_ok(),
        !s.has_version(vid),
        rotation_state(labels) != 2,
    ensures
        put_secret(s, vid, string, binary, labels, now).rotation_ok(),
{
    let x = choose|v: Seq<char>| s.stages.contains((current_label(), v));
    assert(holder_of(s, current_label()) == Some(x));
    assert(s.has_version(x));
    assert(only_holder(s.stages, current_label(), x));
    assert forall|w: Seq<char>| #[trigger] s.stages.contains((previous_label(), w)) implies w
        != x by {
    }
    lemma_put_stages_rotation(s.stages, labels, vid, x);
    lemma_rotation_state_range(labels);
    let r = put_stages(s.stages, labels, vid, Some(x));
    let t = put_secret(s, vid, string, binary, labels, now);
    assert(t.stages == r);
    if rotation_state(labels) == 0 {
        assert(r.contains((current_label(), x)));
        assert(t.label_held(current_label()));
    } else {
        assert(only_holder(r, current_label(), vid));
        assert(r.contains((current_label(), vid)));
        assert(t.label_held(current_label()));
    }
}

/// UpdateSecret's rotation keeps exactly one `AWSCURRENT`, away from
/// `AWSPREVIOUS`.
proof fn lemma_update_secret_rotation(
    s: SecretView,
    description: Option<Seq<char>>,
    vid: Seq<char>,
    string: Option<Seq<char>>,
    binary: Option<Seq<char>>,
    now: u64,
)
    requires
        s.wf(),
        s.rotation_ok(),
    ensures
        update_secret_result(s, description, vid, string, binary, now).rotation_ok(),
{
    lemma_labels_differ();
    let t = update_secret_result(s, description, vid, string, binary, now);
    if (string is Some || binary is Some) && !s.has_version(vid) {
        let x = choose|v: Seq<char>| s.stages.contains((current_label(), v));
        assert(holder_of(s, current_label()) == Some(x));
        assert(s.has_version(x));
        assert(x != vid);
        assert(t.stages.contains((current_label(), vid)));
        assert forall|w: Seq<char>| t.stages.contains((previous_label(), w)) implies !t.stages.contains(
            (current_label(), w),
        ) by {
            assert(w == x);
        }
    }
}

/// The moves UpdateSecretVersionStage accepts: it does not take
/// `AWSCURRENT` away without moving it, and moves neither rotation label
/// onto the version that holds `AWSCURRENT`; the others keep exactly one
/// `AWSCURRENT`, away from `AWSPREVIOUS`.
pub open spec fn stage_move_safe(
    s: SecretView,
    stage: Seq<char>,
    move_to: Option<Seq<char>>,
    remove_from: Option<Seq<char>>,
) -> bool {
    &&& !(stage == current_label() && move_to is None && remove_from is Some)
    &&& !((stage == current_label() || stage == previous_label()) && move_to is Some && move_to
        == holder_of(s, current_label()))
}

/// The labels after UpdateSecretVersionStage, or `None` where the call is
/// refused: a move that `stage_move_safe` rules out, or a step that fails.
pub open spec fn stage_move(
    s: SecretView,
    stage: Seq<char>,
    move_to: Option<Seq<char>>,
    remove_from: Option<Seq<char>>,
) -> Option<Set<(Seq<char>, Seq<char>)>> {
    if stage_move_safe(s, stage, move_to, remove_from) {
        stage_steps(s, stage, move_to, remove_from)
    } else {
        None
    }
}

proof fn lemma_stage_move_rotation(
    s: SecretView,
    stage: Seq<char>,
    move_to: Option<Seq<char>>,
    remove_from: Option<Seq<char>>,
)
    requires
        s.wf(),
        s.rotation_ok(),
        stage_move_safe(s, stage, move_to, remove_from),
    ensures
        stage_steps(s, stage, move_to, remove_from) matches Some(st) ==> s.with_stages(
            st,
        ).rotation_ok(),
{
    lemma_labels_differ();
    let x = choose|v: Seq<char>| s.stages.contains((current_label(), v));
    assert(holder_of(s, current_label()) == Some(x));
    assert(only_holder(s.stages, current_label(), x));
    let st1 = match remove_from {
        Some(src) => s.stages.remove((stage, src)),
        None => s.stages,
    };
    if let Some(st) = stage_steps(s, stage, move_to, remove_from) {
        let t = s.with_stages(st);
        if let Some(src) = remove_from {
            assert(s.stages.contains((stage, src)));
        }
        if stage == current_label() {
            if let Some(dest) = move_to {
                assert(dest != x);
                let st2 = without_label(st1, previous_label()).insert((previous_label(), x));
                if let Some(src) = remove_from {
                    assert(src == x);
                    assert(st == st2.insert((current_label(), dest)));
                    assert(t.stages.contains((current_label(), dest)));
                    assert forall|w: Seq<char>| t.stages.contains((previous_label(), w)) implies !t.stages.contains(
                        (current_label(), w),
                    ) by {
                        assert(w == x);
                    }
                } else {
                    assert(st2.contains((current_label(), x)));
                    assert(label_in(st2, current_label()));
                }
            } else {
                assert(remove_from is None);
                assert(st == s.stages);
            }
        } else if stage == previous_label() {
            assert(st == match move_to {
                Some(dest) => st1.insert((previous_label(), dest)),
                None => st1,
            });
            assert(t.stages.contains((current_label(), x)));
            assert forall|w: Seq<char>| t.stages.contains((previous_label(), w)) implies !t.stages.contains(
                (current_label(), w),
            ) by {
                if t.stages.contains((current_label(), w)) {
                    assert(s.stages.contains((current_label(), w)));
                    assert(w == x);
                    if move_to == Some(w) {
                    } else {
                        assert(s.stages.contains((previous_label(), w)));
                    }
                }
            }
        } else {
            assert(st == match move_to {
                Some(dest) => st1.insert((stage, dest)),
                None => st1,
            });
            assert(t.stages.contains((current_label(), x)));
            assert forall|w: Seq<char>| t.stages.contains((previous_label(), w)) implies !t.stages.contains(
                (current_label(), w),
            ) by {
                assert(s.stages.contains((previous_label(), w)));
                if t.stages.contains((current_label(), w)) {
                    assert(s.stages.contains((current_label(), w)));
                }
            }
        }
    }
}


pub proof fn lemma_rotation_update(ss: Seq<SecretView>, i: int, t: SecretView)
    requires
        store_rotation_ok(ss),
        0 <= i < ss.len(),
        t.rotation_ok(),
    ensures
        store_rotation_ok(ss.update(i, t)),
{
    assert forall|k: int| 0 <= k < ss.update(i, t).len() implies #[trigger] ss.update(i, t)[k].rotation_ok() by {
        if k != i {
            assert(ss[k].rotation_ok());
        }
    }
}

pub proof fn lemma_rotation_remove(ss: Seq<SecretView>, i: int)
    requires
        store_rotation_ok(ss),
        0 <= i < ss.len(),
    ensures
        store_rotation_ok(ss.remove(i)),
{
    assert forall|k: int| 0 <= k < ss.remove(i).len() implies #[trigger] ss.remove(i)[k].rotation_ok() by {
        if k < i {
            assert(ss[k].rotation_ok());
        } else {
            assert(ss[k + 1].rotation_ok());
        }
    }
}

proof fn lemma_rotation_insert(ss: Seq<SecretView>, j: int, t: SecretView)
    requires
        store_rotation_ok(ss),
        0 <= j <= ss.len(),
        t.rotation_ok(),
    ensures
        store_rotation_ok(ss.insert(j, t)),
{
    assert forall|k: int| 0 <= k < ss.insert(j, t).len() implies #[trigger] ss.insert(j, t)[k].rotation_ok() by {
        if k < j {
            assert(ss[k].rotation_ok());
        } else if k > j {
            assert(ss[k - 1].rotation_ok());
        }
    }
}


/// Whether the scheduled deletion of `s` has come by `now`.
pub open spec fn expired(s: SecretView, now: u64) -> bool {
    s.scheduled_delete_at matches Some(t) && t <= now
}

impl SecretStore {
    /// Removes, with everything they own, the secrets whose scheduled
    /// deletion has come; says how many. Running it again at the same time
    /// removes nothing more.
    pub fn purge_expired(&mut self, now: u64) -> (r: usize)
        requires
            old(self).inv(),
        ensures
            final(self).inv(),
            final(self)@ == old(self)@.filter(|s: SecretView| !expired(s, now)),
            r == old(self)@.len() - final(self)@.len(),
            store_rotation_ok(old(self)@) ==> store_rotation_ok(final(self)@),
    {
        let ghost old_store = *self;
        let ghost pred = |s: SecretView| !expired(s, now);
        let n = self.secrets.len();
        let mut kept: Vec<Secret> = Vec::new();
        let mut removed: usize = 0;
        let mut all = Vec::new();
        std::mem::swap(&mut all, &mut self.secrets);
        assert(all@ == old_store.secrets@);
        let mut rest = all;
        let mut taken: Vec<Secret> = Vec::new();
        while rest.len() > 0
            invariant
                taken@.len() + rest@.len() == n,
                n == old_store.secrets@.len(),
                rest@ == old_store.secrets@.subrange(0, rest@.len() as int),
                forall|q: int| 0 <= q < taken@.len() ==> #[trigger] taken@[q] == old_store.secrets@[n - 1 - q],
            decreases rest@.len(),
        {
            let s = rest.pop().unwrap();
            taken.push(s);
        }
        let ghost ss = old_store@;
        while taken.len() > 0
            invariant
                n == old_store.secrets@.len(),
                ss == old_store@,
                store_wf(ss),
                forall|i: int| 0 <= i < old_store.secrets@.len() ==> #[trigger] old_store.secrets@[i].inv(),
                pred == (|s: SecretView| !expired(s, now)),
                taken@.len() <= n,
                forall|q: int| 0 <= q < taken@.len() ==> #[trigger] taken@[q] == old_store.secrets@[n - 1 - q],
                kept@.map_values(|s: Secret| s@) == ss.take(n - taken@.len()).filter(pred),
                forall|q: int| 0 <= q < kept@.len() ==> #[trigger] kept@[q].inv(),
                removed == (n - taken@.len()) - kept@.len(),
            decreases taken@.len(),
        {
            let s = taken.pop().unwrap();
            let ghost k = n - 1 - taken@.len();
            proof {
                reveal(Seq::filter);
                assert(ss.take(k + 1).drop_last() =~= ss.take(k));
                assert(ss.take(k + 1).last() == s@);
                ss.take(k).lemma_filter_len(pred);
            }
            let gone = match s.scheduled_delete_at {
                Some(t) => t <= now,
                None => false,
            };
            if gone {
                removed = removed + 1;
            } else {
                let ghost before = kept@.map_values(|s: Secret| s@);
                kept.push(s);
                assert(kept@.map_values(|s: Secret| s@) =~= before.push(s@));
            }
        }
        assert(ss.take(n as int) =~= ss);
        self.secrets = kept;
        proof {
            let f = ss.filter(pred);
            assert(self@ == f);
            assert forall|a: int| 0 <= a < f.len() implies ss.contains(#[trigger] f[a]) by {
                lemma_filter_member(ss, pred, a);
            }
            assert forall|a: int, b: int| 0 <= a < b < f.len() implies f[a].arn != f[b].arn && f[a].name
                != f[b].name && f[a].created_at <= f[b].created_at by {
                lemma_filter_order(ss, pred, a, b);
            }
            assert forall|a: int| 0 <= a < f.len() implies #[trigger] f[a].wf() by {
                lemma_filter_member(ss, pred, a);
                let i = choose|i: int| 0 <= i < ss.len() && ss[i] == f[a];
                assert(ss[i].wf());
            }
            if store_rotation_ok(ss) {
                assert forall|a: int| 0 <= a < f.len() implies #[trigger] f[a].rotation_ok() by {
                    lemma_filter_member(ss, pred, a);
                    let i = choose|i: int| 0 <= i < ss.len() && ss[i] == f[a];
                    assert(ss[i].rotation_ok());
                }
            }
        }
        removed
    }
}

proof fn lemma_filter_member(ss: Seq<SecretView>, pred: spec_fn(SecretView) -> bool, a: int)
    requires
        0 <= a < ss.filter(pred).len(),
    ensures
        exists|i: int| 0 <= i < ss.len() && ss[i] == ss.filter(pred)[a],
    decreases ss.len(),
{
    reveal(Seq::filter);
    let prev = ss.drop_last().filter(pred);
    ss.drop_last().lemma_filter_len(pred);
    if a < prev.len() {
        lemma_filter_member(ss.drop_last(), pred, a);
        let i = choose|i: int| 0 <= i < ss.drop_last().len() && ss.drop_last()[i] == prev[a];
        assert(ss[i] == ss.drop_last()[i]);
    } else {
        assert(ss[ss.len() - 1] == ss.filter(pred)[a]);
    }
}

/// Two elements kept in order come from positions in the same order.
proof fn lemma_filter_order(ss: Seq<SecretView>, pred: spec_fn(SecretView) -> bool, a: int, b: int)
    requires
        0 <= a < b < ss.filter(pred).len(),
    ensures
        exists|i: int, j: int|
            0 <= i < j < ss.len() && ss[i] == ss.filter(pred)[a] && ss[j] == ss.filter(pred)[b],
    decreases ss.len(),
{
    reveal(Seq::filter);
    let prev = ss.drop_last().filter(pred);
    ss.drop_last().lemma_filter_len(pred);
    if b < prev.len() {
        lemma_filter_order(ss.drop_last(), pred, a, b);
        let (i, j) = choose|i: int, j: int|
            0 <= i < j < ss.drop_last().len() && ss.drop_last()[i] == prev[a] && ss.drop_last()[j]
                == prev[b];
        assert(ss[i] == ss.drop_last()[i] && ss[j] == ss.drop_last()[j]);
    } else {
        lemma_filter_member(ss.drop_last(), pred, a);
        let i = choose|i: int| 0 <= i < ss.drop_last().len() && ss.drop_last()[i] == prev[a];
        assert(ss[i] == ss.drop_last()[i]);
        assert(ss[ss.len() - 1] == ss.filter(pred)[b]);
    }
}

/// What `create_secret` does: `old` and `new` are the store before and after.
pub open spec fn create_secret_outcome(
    old: Seq<SecretView>,
    new: Seq<SecretView>,
    arn: String,
    name: String,
    description: Option<String>,
    version_id: String,
    secret_string: Option<String>,
    secret_binary: Option<String>,
    tags: Seq<Tag>,
    now: u64,
    r: Result<CreateSecretResponse, AwsError>,
) -> bool {
    (!one_payload(secret_string, secret_binary) ==> r == Err::<CreateSecretResponse, AwsError>(
                invalid_request(),
            ) && new == old) &&
    (one_payload(secret_string, secret_binary) && (exists|k: int|
                0 <= k < old.len() && (old[k].arn == arn@ || old[k].name
                    == name@)) ==> new == old && match name_index(old, name@) {
                Some(i) => if same_payload(
                    old[i],
                    version_id@,
                    opt_view(secret_string),
                    opt_view(secret_binary),
                ) {
                    r matches Ok(resp) && resp.arn@ == old[i].arn && resp.name@ == name@
                        && resp.version_id@ == version_id@
                } else {
                    r == Err::<CreateSecretResponse, AwsError>(already_exists())
                },
                None => r == Err::<CreateSecretResponse, AwsError>(already_exists()),
            }) &&
    (one_payload(secret_string, secret_binary) && !(exists|k: int|
                0 <= k < old.len() && (old[k].arn == arn@ || old[k].name
                    == name@)) ==> {
                &&& r matches Ok(resp) && resp.arn@ == arn@ && resp.name@ == name@
                    && resp.version_id@ == version_id@
                &&& exists|j: int|
                    is_insert_pos(old, now, j) && new == old.insert(
                        j,
                        new_secret(
                            arn@,
                            name@,
                            opt_view(description),
                            version_id@,
                            opt_view(secret_string),
                            opt_view(secret_binary),
                            tag_pairs(tags),
                            now,
                        ),
                    )
            })
}

/// What `put_secret_value` does: `old` and `new` are the store before and after.
pub open spec fn put_secret_value_outcome(
    old: Seq<SecretView>,
    new: Seq<SecretView>,
    secret_id: String,
    version_id: String,
    secret_string: Option<String>,
    secret_binary: Option<String>,
    version_stages: Option<Vec<String>>,
    now: u64,
    r: Result<PutSecretValueResponse, AwsError>,
) -> bool {
    (r is Err ==> new == old) &&
    (put_labels_refused(version_stages) || !one_payload(
                secret_string,
                secret_binary,
            ) ==> r == Err::<PutSecretValueResponse, AwsError>(invalid_request())) &&
    (!put_labels_refused(version_stages) && one_payload(
                secret_string,
                secret_binary,
            ) ==> match lookup(old, secret_id@) {
                None => r == Err::<PutSecretValueResponse, AwsError>(not_found()),
                Some(i) => if old[i].has_version(version_id@) {
                    &&& new == old
                    &&& if same_payload(
                        old[i],
                        version_id@,
                        opt_view(secret_string),
                        opt_view(secret_binary),
                    ) {
                        r matches Ok(resp) && resp.arn@ == old[i].arn && resp.name@
                            == old[i].name && resp.version_id@ == version_id@ && (forall|
                            l: Seq<char>,
                        | #[trigger] views(resp.version_stages@).contains(l) <==> old[i].stages.contains((l, version_id@)))
                    } else {
                        r == Err::<PutSecretValueResponse, AwsError>(already_exists())
                    }
                } else {
                    &&& r matches Ok(resp) && resp.arn@ == old[i].arn && resp.name@
                        == old[i].name && resp.version_id@ == version_id@ && views(
                        resp.version_stages@,
                    ) == requested_labels(version_stages)
                    &&& new == old.update(
                        i,
                        put_secret(
                            old[i],
                            version_id@,
                            opt_view(secret_string),
                            opt_view(secret_binary),
                            requested_labels(version_stages),
                            now,
                        ),
                    )
                },
            })
}

/// What `update_secret` does: `old` and `new` are the store before and after.
pub open spec fn update_secret_outcome(
    old: Seq<SecretView>,
    new: Seq<SecretView>,
    secret_id: String,
    description: Option<String>,
    version_id: String,
    secret_string: Option<String>,
    secret_binary: Option<String>,
    now: u64,
    r: Result<UpdateSecretResponse, AwsError>,
) -> bool {
    (r is Err ==> new == old) &&
    (secret_string is Some && secret_binary is Some ==> r == Err::<
                UpdateSecretResponse, AwsError, >(invalid_request())) &&
    (!(secret_string is Some && secret_binary is Some) ==> match lookup(
                old,
                secret_id@,
            ) {
                None => r == Err::<UpdateSecretResponse, AwsError>(not_found()),
                Some(i) => {
                    &&& r matches Ok(resp) && resp.arn@ == old[i].arn && resp.name@ == old[i].name && opt_view(resp.version_id) == (if (secret_string is Some
                        || secret_binary is Some) && !old[i].has_version(version_id@) {
                        Some(version_id@)
                    } else {
                        None
                    })
                    &&& new == old.update(
                        i,
                        update_secret_result(
                            old[i],
                            opt_view(description),
                            version_id@,
                            opt_view(secret_string),
                            opt_view(secret_binary),
                            now,
                        ),
                    )
                },
            })
}

/// What `update_secret_version_stage` does: `old` and `new` are the store before and after.
pub open spec fn update_secret_version_stage_outcome(
    old: Seq<SecretView>,
    new: Seq<SecretView>,
    secret_id: String,
    version_stage: String,
    move_to_version_id: Option<String>,
    remove_from_version_id: Option<String>,
    r: Result<UpdateSecretVersionStageResponse, AwsError>,
) -> bool {
    (r is Err ==> new == old) &&
    (match lookup(old, secret_id@) {
                None => r == Err::<UpdateSecretVersionStageResponse, AwsError>(not_found()),
                Some(i) => match stage_move(
                    old[i],
                    version_stage@,
                    opt_view(move_to_version_id),
                    opt_view(remove_from_version_id),
                ) {
                    None => r == Err::<UpdateSecretVersionStageResponse, AwsError>(
                        invalid_request(),
                    ),
                    Some(st) => r matches Ok(resp) && resp.arn@ == old[i].arn && resp.name@
                        == old[i].name && new == old.update(
                        i,
                        old[i].with_stages(st),
                    ),
                },
            })
}

/// What `get_secret_value` does: `old` and `new` are the store before and after.
pub open spec fn get_secret_value_outcome(
    old: Seq<SecretView>,
    new: Seq<SecretView>,
    secret_id: String,
    version_id: Option<String>,
    version_stage: Option<String>,
    now: u64,
    r: Result<GetSecretValueResponse, AwsError>,
) -> bool {
    read_value_outcome(old, new, secret_id, version_id, version_stage, now, true, r)
}

/// What `read_secret_value` does: as GetSecretValue, but a secret scheduled
/// for deletion is refused only where `refuse_scheduled` says so.
pub open spec fn read_value_outcome(
    old: Seq<SecretView>,
    new: Seq<SecretView>,
    secret_id: String,
    version_id: Option<String>,
    version_stage: Option<String>,
    now: u64,
    refuse_scheduled: bool,
    r: Result<GetSecretValueResponse, AwsError>,
) -> bool {
    (r is Err ==> new == old) &&
    (match lookup(old, secret_id@) {
                None => r == Err::<GetSecretValueResponse, AwsError>(not_found()),
                Some(i) => match selected_version(
                    old[i],
                    opt_view(version_id),
                    opt_view(version_stage),
                ) {
                    None => r == Err::<GetSecretValueResponse, AwsError>(not_found()),
                    Some(v) => if refuse_scheduled && old[i].scheduled_delete_at is Some {
                        r == Err::<GetSecretValueResponse, AwsError>(invalid_request())
                    } else {
                        let s = old[i];
                        let k = version_index(s, v);
                        &&& r matches Ok(resp) && resp.arn@ == s.arn && resp.name@ == s.name
                            && resp.version_id@ == v && opt_view(resp.secret_string)
                            == s.versions[k].secret_string && opt_view(resp.secret_binary)
                            == s.versions[k].secret_binary && resp.created_date == (
                        if version_id is Some {
                            s.versions[k].created_at
                        } else {
                            s.created_at
                        }) && (forall|l: Seq<char>| #[trigger]
                            views(resp.version_stages@).contains(l) <==> s.stages.contains((l, v)))
                            && views(resp.version_stages@).no_duplicates()
                        &&& new == old.update(
                            i,
                            s.with_versions(
                                s.versions.update(
                                    k,
                                    VersionView {
                                        last_accessed_at: Some(day_of(now)),
                                        ..s.versions[k]
                                    },
                                ),
                            ),
                        )
                    },
                },
            })
}

/// What `delete_secret` does: `old` and `new` are the store before and after.
pub open spec fn delete_secret_outcome(
    old: Seq<SecretView>,
    new: Seq<SecretView>,
    secret_id: String,
    force_delete_without_recovery: bool,
    recovery_window_in_days: i32,
    now: u64,
    r: Result<DeleteSecretResponse, AwsError>,
) -> bool {
    (r is Err ==> new == old) &&
    (!(7 <= recovery_window_in_days <= 30) ==> r == Err::<DeleteSecretResponse, AwsError>(
                invalid_parameter(),
            )) &&
    (7 <= recovery_window_in_days <= 30 ==> match lookup(old, secret_id@) {
                None => r == Err::<DeleteSecretResponse, AwsError>(not_found()),
                Some(i) => {
                    let s = old[i];
                    r matches Ok(resp) && resp.arn@ == s.arn && resp.name@ == s.name && match s.scheduled_delete_at {
                        Some(t) => resp.deletion_date == t && new == old,
                        None => if force_delete_without_recovery {
                            resp.deletion_date == now && new == old.remove(i)
                        } else {
                            let at = (now + recovery_window_in_days * 86400) as u64;
                            resp.deletion_date == at && new == old.update(
                                i,
                                s.scheduled(now, at),
                            )
                        },
                    }
                },
            })
}

/// What `restore_secret` does: `old` and `new` are the store before and after.
pub open spec fn restore_secret_outcome(
    old: Seq<SecretView>,
    new: Seq<SecretView>,
    secret_id: String,
    r: Result<RestoreSecretResponse, AwsError>,
) -> bool {
    (match lookup(old, secret_id@) {
                None => r == Err::<RestoreSecretResponse, AwsError>(not_found()) && new
                    == old,
                Some(i) => r matches Ok(resp) && resp.arn@ == old[i].arn && resp.name@
                    == old[i].name && new == old.update(
                    i,
                    old[i].restored(),
                ),
            })
}

} // verus!
