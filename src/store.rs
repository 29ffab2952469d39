//! The state of the service: secrets, their versions, stage labels and tags.
//!
//! A secret owns its versions, its stage labels and its tags, so removing a
//! secret removes everything that belongs to it.
use vstd::prelude::*;
use vstd::string::*;

verus! {

/// The label of the version that is served by default.
pub open spec fn current_label() -> Seq<char> {
    "AWSCURRENT"@
}

/// The label of the version that held `AWSCURRENT` before the last rotation.
pub open spec fn previous_label() -> Seq<char> {
    "AWSPREVIOUS"@
}

pub fn awscurrent() -> (r: String)
    ensures
        r@ == current_label(),
{
    String::from_str("AWSCURRENT")
}

pub fn awsprevious() -> (r: String)
    ensures
        r@ == previous_label(),
{
    String::from_str("AWSPREVIOUS")
}

pub proof fn lemma_labels_differ()
    ensures
        current_label() != previous_label(),
        current_label().len() == 10,
        previous_label().len() == 11,
{
    reveal_strlit("AWSCURRENT");
    reveal_strlit("AWSPREVIOUS");
    assert(current_label().len() != previous_label().len());
}

/// The contents of a list of strings.
pub open spec fn views(v: Seq<String>) -> Seq<Seq<char>> {
    v.map_values(|x: String| x@)
}

pub open spec fn opt_view(o: Option<String>) -> Option<Seq<char>> {
    match o {
        Some(s) => Some(s@),
        None => None,
    }
}

/// Compares two optional strings by content.
pub fn opt_eq(a: &Option<String>, b: &Option<String>) -> (r: bool)
    ensures
        r == (opt_view(*a) == opt_view(*b)),
{
    match (a, b) {
        (Some(x), Some(y)) => *x == *y,
        (None, None) => true,
        _ => false,
    }
}

pub fn opt_copy(a: &Option<String>) -> (r: Option<String>)
    ensures
        opt_view(r) == opt_view(*a),
{
    match a {
        Some(x) => Some(x.clone()),
        None => None,
    }
}

/// One immutable snapshot of a secret's payload.
pub struct Version {
    pub version_id: String,
    pub secret_string: Option<String>,
    pub secret_binary: Option<String>,
    pub created_at: u64,
    /// Start of the UTC day of the last read, if any.
    pub last_accessed_at: Option<u64>,
}

pub struct VersionView {
    pub version_id: Seq<char>,
    pub secret_string: Option<Seq<char>>,
    pub secret_binary: Option<Seq<char>>,
    pub created_at: u64,
    pub last_accessed_at: Option<u64>,
}

impl View for Version {
    type V = VersionView;

    open spec fn view(&self) -> VersionView {
        VersionView {
            version_id: self.version_id@,
            secret_string: opt_view(self.secret_string),
            secret_binary: opt_view(self.secret_binary),
            created_at: self.created_at,
            last_accessed_at: self.last_accessed_at,
        }
    }
}

impl VersionView {
    /// A version holds exactly one of a string and a binary payload.
    pub open spec fn payload_ok(self) -> bool {
        self.secret_string is Some != self.secret_binary is Some
    }
}

impl Version {
    pub fn copy(&self) -> (r: Version)
        ensures
            r@ == self@,
    {
        Version {
            version_id: self.version_id.clone(),
            secret_string: opt_copy(&self.secret_string),
            secret_binary: opt_copy(&self.secret_binary),
            created_at: self.created_at,
            last_accessed_at: self.last_accessed_at,
        }
    }
}

/// A stage label attached to one version.
pub struct Stage {
    pub label: String,
    pub version_id: String,
}

/// A tag of a secret.
pub struct TagEntry {
    pub key: String,
    pub value: String,
    pub updated_at: u64,
}

pub struct TagView {
    pub key: Seq<char>,
    pub value: Seq<char>,
    pub updated_at: u64,
}

impl View for TagEntry {
    type V = TagView;

    open spec fn view(&self) -> TagView {
        TagView { key: self.key@, value: self.value@, updated_at: self.updated_at }
    }
}

/// A secret with everything it owns.
pub struct Secret {
    pub arn: String,
    pub name: String,
    pub description: Option<String>,
    pub created_at: u64,
    pub updated_at: Option<u64>,
    pub deleted_at: Option<u64>,
    pub scheduled_delete_at: Option<u64>,
    pub versions: Vec<Version>,
    pub stages: Vec<Stage>,
    pub tags: Vec<TagEntry>,
}

pub struct SecretView {
    pub arn: Seq<char>,
    pub name: Seq<char>,
    pub description: Option<Seq<char>>,
    pub created_at: u64,
    pub updated_at: Option<u64>,
    pub deleted_at: Option<u64>,
    pub scheduled_delete_at: Option<u64>,
    pub versions: Seq<VersionView>,
    /// The attached stage labels, as pairs `(label, version_id)`.
    pub stages: Set<(Seq<char>, Seq<char>)>,
    pub tags: Seq<TagView>,
}

/// The pairs of `st` whose label is not `label`.
pub open spec fn without_label(st: Set<(Seq<char>, Seq<char>)>, label: Seq<char>) -> Set<
    (Seq<char>, Seq<char>),
> {
    st.filter(|p: (Seq<char>, Seq<char>)| p.0 != label)
}

pub open spec fn stage_set(stages: Seq<Stage>) -> Set<(Seq<char>, Seq<char>)> {
    Set::new(
        |p: (Seq<char>, Seq<char>)|
            exists|i: int|
                0 <= i < stages.len() && stages[i].label@ == p.0 && stages[i].version_id@ == p.1,
    )
}

impl View for Secret {
    type V = SecretView;

    open spec fn view(&self) -> SecretView {
        SecretView {
            arn: self.arn@,
            name: self.name@,
            description: opt_view(self.description),
            created_at: self.created_at,
            updated_at: self.updated_at,
            deleted_at: self.deleted_at,
            scheduled_delete_at: self.scheduled_delete_at,
            versions: self.versions@.map_values(|v: Version| v@),
            stages: stage_set(self.stages@),
            tags: self.tags@.map_values(|t: TagEntry| t@),
        }
    }
}

impl SecretView {
    pub open spec fn has_version(self, vid: Seq<char>) -> bool {
        exists|k: int| 0 <= k < self.versions.len() && self.versions[k].version_id == vid
    }

    /// Whether some version holds `label`.
    pub open spec fn label_held(self, label: Seq<char>) -> bool {
        exists|v: Seq<char>| self.stages.contains((label, v))
    }

    /// The structural invariant of a secret.
    pub open spec fn wf(self) -> bool {
        &&& forall|i: int, j: int|
            0 <= i < j < self.versions.len() ==> self.versions[i].version_id
                != self.versions[j].version_id
        &&& forall|i: int| 0 <= i < self.versions.len() ==> #[trigger] self.versions[i].payload_ok()
        &&& forall|l: Seq<char>, v: Seq<char>, w: Seq<char>|
            self.stages.contains((l, v)) && self.stages.contains((l, w)) ==> v == w
        &&& forall|l: Seq<char>, v: Seq<char>| #[trigger]
            self.stages.contains((l, v)) ==> self.has_version(v)
        &&& forall|i: int, j: int|
            0 <= i < j < self.tags.len() ==> self.tags[i].key != self.tags[j].key
    }

    /// Exactly one existing version holds `AWSCURRENT`, and `AWSPREVIOUS`,
    /// when held, is on another version.
    pub open spec fn rotation_ok(self) -> bool {
        &&& self.label_held(current_label())
        &&& forall|v: Seq<char>|
            self.stages.contains((previous_label(), v)) ==> !self.stages.contains(
                (current_label(), v),
            )
    }

    /// This secret with its stage labels replaced.
    pub open spec fn with_stages(self, stages: Set<(Seq<char>, Seq<char>)>) -> SecretView {
        SecretView { stages, ..self }
    }

    /// The stage labels with `label` taken from whichever version held it.
    pub open spec fn strip(self, label: Seq<char>) -> Set<(Seq<char>, Seq<char>)> {
        without_label(self.stages, label)
    }
}

impl Secret {
    pub open spec fn stages_unique(self) -> bool {
        forall|i: int, j: int|
            0 <= i < j < self.stages@.len() ==> self.stages@[i].label@ != self.stages@[j].label@
    }

    /// The invariant of the stored form: the view's invariant, and no label
    /// stored twice.
    pub open spec fn inv(self) -> bool {
        self@.wf() && self.stages_unique()
    }

    pub fn find_version(&self, vid: &String) -> (r: Option<usize>)
        ensures
            match r {
                Some(i) => i < self.versions@.len() && self@.versions[i as int].version_id == vid@,
                None => !self@.has_version(vid@),
            },
    {
        let mut i: usize = 0;
        while i < self.versions.len()
            invariant
                i <= self.versions@.len(),
                forall|k: int| 0 <= k < i ==> self@.versions[k].version_id != vid@,
            decreases self.versions@.len() - i,
        {
            if self.versions[i].version_id == *vid {
                return Some(i);
            }
            i = i + 1;
        }
        None
    }

    fn label_index(&self, label: &String) -> (r: Option<usize>)
        ensures
            match r {
                Some(i) => i < self.stages@.len() && self.stages@[i as int].label@ == label@,
                None => forall|k: int|
                    0 <= k < self.stages@.len() ==> self.stages@[k].label@ != label@,
            },
    {
        let mut i: usize = 0;
        while i < self.stages.len()
            invariant
                i <= self.stages@.len(),
                forall|k: int| 0 <= k < i ==> self.stages@[k].label@ != label@,
            decreases self.stages@.len() - i,
        {
            if self.stages[i].label == *label {
                return Some(i);
            }
            i = i + 1;
        }
        None
    }

    /// The version that holds `label`, if any.
    pub fn holder(&self, label: &String) -> (r: Option<String>)
        requires
            self.inv(),
        ensures
            match r {
                Some(v) => self@.stages.contains((label@, v@)),
                None => !self@.label_held(label@),
            },
    {
        match self.label_index(label) {
            Some(i) => {
                let v = self.stages[i].version_id.clone();
                assert(self@.stages.contains((label@, v@)));
                Some(v)
            },
            None => {
                assert forall|v: Seq<char>| !self@.stages.contains((label@, v)) by {
                    if self@.stages.contains((label@, v)) {
                        let k = choose|k: int|
                            0 <= k < self.stages@.len() && self.stages@[k].label@ == label@
                                && self.stages@[k].version_id@ == v;
                    }
                }
                None
            },
        }
    }

    proof fn lemma_remove_stage(self, old_stages: Seq<Stage>, i: int)
        requires
            0 <= i < old_stages.len(),
            self.stages@ == old_stages.remove(i),
            forall|a: int, b: int|
                0 <= a < b < old_stages.len() ==> old_stages[a].label@ != old_stages[b].label@,
        ensures
            stage_set(self.stages@) =~= stage_set(old_stages).filter(
                |p: (Seq<char>, Seq<char>)| p.0 != old_stages[i].label@,
            ),
            self.stages_unique(),
    {
        let l = old_stages[i].label@;
        let s = self.stages@;
        assert forall|p: (Seq<char>, Seq<char>)| stage_set(s).contains(p) implies stage_set(
            old_stages,
        ).contains(p) && p.0 != l by {
            let k = choose|k: int| 0 <= k < s.len() && s[k].label@ == p.0 && s[k].version_id@ == p.1;
            if k < i {
                assert(old_stages[k] == s[k]);
            } else {
                assert(old_stages[k + 1] == s[k]);
            }
        }
        assert forall|p: (Seq<char>, Seq<char>)|
            stage_set(old_stages).contains(p) && p.0 != l implies stage_set(s).contains(p) by {
            let k = choose|k: int|
                0 <= k < old_stages.len() && old_stages[k].label@ == p.0
                    && old_stages[k].version_id@ == p.1;
            if k < i {
                assert(s[k] == old_stages[k]);
            } else {
                assert(s[k - 1] == old_stages[k]);
            }
        }
        assert forall|a: int, b: int| 0 <= a < b < s.len() implies s[a].label@ != s[b].label@ by {
            if b < i {
            } else if a < i {
                assert(s[b] == old_stages[b + 1]);
            } else {
                assert(s[a] == old_stages[a + 1]);
                assert(s[b] == old_stages[b + 1]);
            }
        }
    }

    /// Takes `label` from whichever version holds it.
    pub fn strip_label(&mut self, label: &String)
        requires
            old(self).inv(),
        ensures
            final(self).inv(),
            final(self)@ == old(self)@.with_stages(old(self)@.strip(label@)),
    {
        match self.label_index(label) {
            Some(i) => {
                let ghost old_stages = self.stages@;
                let ghost before = *self;
                self.stages.remove(i);
                proof {
                    self.lemma_remove_stage(old_stages, i as int);
                    assert(self@.stages =~= before@.strip(label@));
                    assert(self@.versions == before@.versions);
                    assert(self@ == before@.with_stages(before@.strip(label@)));
                }
            },
            None => {
                assert(self@.stages =~= self@.strip(label@)) by {
                    assert forall|p: (Seq<char>, Seq<char>)| #[trigger]
                        self@.stages.contains(p) implies p.0 != label@ by {
                        let k = choose|k: int|
                            0 <= k < self.stages@.len() && self.stages@[k].label@ == p.0
                                && self.stages@[k].version_id@ == p.1;
                    }
                }
            },
        }
    }

    /// Attaches `label` to version `vid`. Fails, changing nothing, where some
    /// version already holds `label`.
    pub fn attach_label(&mut self, vid: &String, label: &String) -> (r: bool)
        requires
            old(self).inv(),
            old(self)@.has_version(vid@),
        ensures
            final(self).inv(),
            r == !old(self)@.label_held(label@),
            r ==> final(self)@ == old(self)@.with_stages(old(self)@.stages.insert((label@, vid@))),
            !r ==> final(self)@ == old(self)@,
    {
        match self.label_index(label) {
            Some(i) => {
                assert(self@.stages.contains((label@, self.stages@[i as int].version_id@)));
                false
            },
            None => {
                let ghost before = *self;
                proof {
                    assert forall|v: Seq<char>| !self@.stages.contains((label@, v)) by {
                        if self@.stages.contains((label@, v)) {
                            let k = choose|k: int|
                                0 <= k < self.stages@.len() && self.stages@[k].label@ == label@
                                    && self.stages@[k].version_id@ == v;
                        }
                    }
                }
                self.stages.push(Stage { label: label.clone(), version_id: vid.clone() });
                proof {
                    let s = self.stages@;
                    let n = s.len() - 1;
                    assert forall|p: (Seq<char>, Seq<char>)|
                        stage_set(s).contains(p) <==> before@.stages.insert((label@, vid@)).contains(
                            p,
                        ) by {
                        if stage_set(s).contains(p) {
                            let k = choose|k: int|
                                0 <= k < s.len() && s[k].label@ == p.0 && s[k].version_id@ == p.1;
                            if k < n {
                                assert(before.stages@[k] == s[k]);
                            }
                        }
                        if before@.stages.contains(p) {
                            let k = choose|k: int|
                                0 <= k < before.stages@.len() && before.stages@[k].label@ == p.0
                                    && before.stages@[k].version_id@ == p.1;
                            assert(s[k] == before.stages@[k]);
                        }
                        if p == (label@, vid@) {
                            assert(s[n].label@ == p.0);
                        }
                    }
                    assert(self@.stages =~= before@.stages.insert((label@, vid@)));
                    assert(self@.versions == before@.versions);
                    assert(self@ == before@.with_stages(before@.stages.insert((label@, vid@))));
                }
                true
            },
        }
    }

    /// Takes `label` from version `vid`; says whether it held it.
    pub fn detach_label(&mut self, vid: &String, label: &String) -> (r: bool)
        requires
            old(self).inv(),
        ensures
            final(self).inv(),
            r == old(self)@.stages.contains((label@, vid@)),
            r ==> final(self)@ == old(self)@.with_stages(old(self)@.stages.remove((label@, vid@))),
            !r ==> final(self)@ == old(self)@,
    {
        match self.label_index(label) {
            Some(i) => {
                if self.stages[i].version_id == *vid {
                    let ghost before = *self;
                    self.stages.remove(i);
                    proof {
                        self.lemma_remove_stage(before.stages@, i as int);
                        assert(self@.stages =~= before@.stages.remove((label@, vid@)));
                        assert(self@.versions == before@.versions);
                    }
                    true
                } else {
                    proof {
                        if self@.stages.contains((label@, vid@)) {
                            let k = choose|k: int|
                                0 <= k < self.stages@.len() && self.stages@[k].label@ == label@
                                    && self.stages@[k].version_id@ == vid@;
                            assert(k == i);
                        }
                    }
                    false
                }
            },
            None => {
                proof {
                    if self@.stages.contains((label@, vid@)) {
                        let k = choose|k: int|
                            0 <= k < self.stages@.len() && self.stages@[k].label@ == label@
                                && self.stages@[k].version_id@ == vid@;
                    }
                }
                false
            },
        }
    }
}


/// A tag as a request carries it.
pub struct Tag {
    pub key: String,
    pub value: String,
}

/// `tags` after setting `key` to `value` at time `now`: the entry of that key
/// is updated in place, or a new entry is appended.
pub open spec fn upsert_tag(tags: Seq<TagView>, key: Seq<char>, value: Seq<char>, now: u64) -> Seq<
    TagView,
> {
    let t = TagView { key, value, updated_at: now };
    if exists|k: int| 0 <= k < tags.len() && tags[k].key == key {
        let k = choose|k: int| 0 <= k < tags.len() && tags[k].key == key;
        tags.update(k, t)
    } else {
        tags.push(t)
    }
}

/// `tags` after each of `list` is set in turn.
pub open spec fn upsert_tags(tags: Seq<TagView>, list: Seq<(Seq<char>, Seq<char>)>, now: u64) -> Seq<
    TagView,
>
    decreases list.len(),
{
    if list.len() == 0 {
        tags
    } else {
        let prev = upsert_tags(tags, list.drop_last(), now);
        upsert_tag(prev, list.last().0, list.last().1, now)
    }
}

/// `tags` without the entry of `key`.
pub open spec fn remove_tag(tags: Seq<TagView>, key: Seq<char>) -> Seq<TagView> {
    if exists|k: int| 0 <= k < tags.len() && tags[k].key == key {
        let k = choose|k: int| 0 <= k < tags.len() && tags[k].key == key;
        tags.remove(k)
    } else {
        tags
    }
}

/// `tags` after each key of `keys` is removed in turn.
pub open spec fn remove_tags(tags: Seq<TagView>, keys: Seq<Seq<char>>) -> Seq<TagView>
    decreases keys.len(),
{
    if keys.len() == 0 {
        tags
    } else {
        remove_tag(remove_tags(tags, keys.drop_last()), keys.last())
    }
}

pub open spec fn tag_pairs(list: Seq<Tag>) -> Seq<(Seq<char>, Seq<char>)> {
    list.map_values(|t: Tag| (t.key@, t.value@))
}

impl SecretView {
    pub open spec fn with_tags(self, tags: Seq<TagView>) -> SecretView {
        SecretView { tags, ..self }
    }
}

impl Secret {
    /// Sets tag `key` to `value`, stamping `now`.
    pub fn put_tag(&mut self, key: &String, value: &String, now: u64)
        requires
            old(self).inv(),
        ensures
            final(self).inv(),
            final(self)@ == old(self)@.with_tags(upsert_tag(old(self)@.tags, key@, value@, now)),
    {
        let ghost before = self@;
        let entry = TagEntry { key: key.clone(), value: value.clone(), updated_at: now };
        let mut i: usize = 0;
        while i < self.tags.len()
            invariant
                i <= self.tags@.len(),
                self@ == before,
                before == old(self)@,
                self.inv(),
                entry@ == (TagView { key: key@, value: value@, updated_at: now }),
                forall|k: int| 0 <= k < i ==> self@.tags[k].key != key@,
            decreases self.tags@.len() - i,
        {
            if self.tags[i].key == *key {
                let ghost t = entry@;
                self.tags.set(i, entry);
                proof {
                    assert(before.tags[i as int].key == key@);
                    let k = choose|k: int| 0 <= k < before.tags.len() && before.tags[k].key == key@;
                    assert(k == i);
                    assert(t == TagView { key: key@, value: value@, updated_at: now });
                    assert(upsert_tag(before.tags, key@, value@, now) == before.tags.update(k, t));
                    assert(self@.tags =~= before.tags.update(i as int, t));
                    assert(self@.versions =~= before.versions);
                    assert(self@.stages == before.stages);
                    assert(self@ == before.with_tags(upsert_tag(before.tags, key@, value@, now)));
                    let ts = self@.tags;
                    assert forall|a: int, b: int| 0 <= a < b < ts.len() implies ts[a].key != ts[b].key by {
                        assert(ts[a].key == before.tags[a].key);
                        assert(ts[b].key == before.tags[b].key);
                    }
                }
                return;
            }
            i = i + 1;
        }
        let ghost t = entry@;
        self.tags.push(entry);
        proof {
            assert(!(exists|k: int| 0 <= k < before.tags.len() && before.tags[k].key == key@));
            assert(self@.tags =~= before.tags.push(t));
            assert(self@.versions =~= before.versions);
        }
    }

    /// Removes the tag `key`, if there is one.
    pub fn drop_tag(&mut self, key: &String)
        requires
            old(self).inv(),
        ensures
            final(self).inv(),
            final(self)@ == old(self)@.with_tags(remove_tag(old(self)@.tags, key@)),
    {
        let ghost before = self@;
        let mut i: usize = 0;
        while i < self.tags.len()
            invariant
                i <= self.tags@.len(),
                self@ == before,
                before == old(self)@,
                self.inv(),
                forall|k: int| 0 <= k < i ==> self@.tags[k].key != key@,
            decreases self.tags@.len() - i,
        {
            if self.tags[i].key == *key {
                proof {
                    assert(before.tags[i as int].key == key@);
                    let k = choose|k: int| 0 <= k < before.tags.len() && before.tags[k].key == key@;
                    assert(k == i);
                }
                self.tags.remove(i);
                proof {
                    assert(before.tags[i as int].key == key@);
                    let k = choose|k: int| 0 <= k < before.tags.len() && before.tags[k].key == key@;
                    assert(k == i);
                    assert(remove_tag(before.tags, key@) == before.tags.remove(k));
                    assert(self@.tags =~= before.tags.remove(i as int));
                    assert(self@.versions =~= before.versions);
                    assert(self@.stages == before.stages);
                    assert(self@ == before.with_tags(remove_tag(before.tags, key@)));
                    let ts = self@.tags;
                    assert forall|a: int, b: int| 0 <= a < b < ts.len() implies ts[a].key != ts[b].key by {
                        if b < i {
                        } else if a < i {
                            assert(ts[b] == before.tags[b + 1]);
                        } else {
                            assert(ts[a] == before.tags[a + 1]);
                            assert(ts[b] == before.tags[b + 1]);
                        }
                    }
                }
                return;
            }
            i = i + 1;
        }
        assert(!(exists|k: int| 0 <= k < before.tags.len() && before.tags[k].key == key@));
    }

    /// Sets each tag of `list` in turn.
    pub fn put_tags(&mut self, list: &Vec<Tag>, now: u64)
        requires
            old(self).inv(),
        ensures
            final(self).inv(),
            final(self)@ == old(self)@.with_tags(upsert_tags(old(self)@.tags, tag_pairs(list@), now)),
    {
        let ghost before = self@;
        let mut i: usize = 0;
        while i < list.len()
            invariant
                i <= list@.len(),
                self.inv(),
                before == old(self)@,
                self@ == before.with_tags(upsert_tags(before.tags, tag_pairs(list@).take(i as int), now)),
            decreases list@.len() - i,
        {
            self.put_tag(&list[i].key, &list[i].value, now);
            assert(tag_pairs(list@).take(i + 1).drop_last() =~= tag_pairs(list@).take(i as int));
            i = i + 1;
        }
        assert(tag_pairs(list@).take(list@.len() as int) =~= tag_pairs(list@));
    }

    /// Removes each tag of `keys` in turn.
    pub fn drop_tags(&mut self, keys: &Vec<String>)
        requires
            old(self).inv(),
        ensures
            final(self).inv(),
            final(self)@ == old(self)@.with_tags(
                remove_tags(old(self)@.tags, keys@.map_values(|k: String| k@)),
            ),
    {
        let ghost before = self@;
        let ghost ks = keys@.map_values(|k: String| k@);
        let mut i: usize = 0;
        while i < keys.len()
            invariant
                i <= keys@.len(),
                ks == keys@.map_values(|k: String| k@),
                self.inv(),
                before == old(self)@,
                self@ == before.with_tags(remove_tags(before.tags, ks.take(i as int))),
            decreases keys@.len() - i,
        {
            self.drop_tag(&keys[i]);
            assert(ks.take(i + 1).drop_last() =~= ks.take(i as int));
            i = i + 1;
        }
        assert(ks.take(keys@.len() as int) =~= ks);
    }
}


impl SecretView {
    pub open spec fn with_versions(self, versions: Seq<VersionView>) -> SecretView {
        SecretView { versions, ..self }
    }
}

impl Secret {
    /// Adds a version, which holds no label yet.
    pub fn push_version(&mut self, v: Version)
        requires
            old(self).inv(),
            !old(self)@.has_version(v@.version_id),
            v@.payload_ok(),
        ensures
            final(self).inv(),
            final(self)@ == old(self)@.with_versions(old(self)@.versions.push(v@)),
    {
        let ghost before = self@;
        let ghost vv = v@;
        self.versions.push(v);
        proof {
            assert(self@.versions =~= before.versions.push(vv));
            assert forall|l: Seq<char>, w: Seq<char>| #[trigger]
                self@.stages.contains((l, w)) implies self@.has_version(w) by {
                assert(before.has_version(w));
                let k = choose|k: int| 0 <= k < before.versions.len() && before.versions[k].version_id == w;
                assert(self@.versions[k] == before.versions[k]);
            }
        }
    }

    /// The labels that version `vid` holds.
    pub fn labels_for(&self, vid: &String) -> (r: Vec<String>)
        requires
            self.stages_unique(),
        ensures
            forall|l: Seq<char>| #[trigger]
                views(r@).contains(l) <==> self@.stages.contains((l, vid@)),
            views(r@).no_duplicates(),
    {
        let mut out: Vec<String> = Vec::new();
        let mut i: usize = 0;
        while i < self.stages.len()
            invariant
                i <= self.stages@.len(),
                self.stages_unique(),
                forall|l: Seq<char>| #[trigger]
                    views(out@).contains(l) <==> exists|k: int|
                        0 <= k < i && self.stages@[k].label@ == l && self.stages@[k].version_id@
                            == vid@,
                views(out@).no_duplicates(),
            decreases self.stages@.len() - i,
        {
            let ghost prev = views(out@);
            if self.stages[i].version_id == *vid {
                out.push(self.stages[i].label.clone());
                proof {
                    let cur = views(out@);
                    assert(cur =~= prev.push(self.stages@[i as int].label@));
                    assert(!prev.contains(self.stages@[i as int].label@));
                    assert forall|a: int, b: int| 0 <= a < b < cur.len() implies cur[a] != cur[b] by {
                        if b == prev.len() {
                            assert(prev.contains(cur[a]));
                        }
                    }
                    assert forall|l: Seq<char>| #[trigger] cur.contains(l) <==> exists|k: int|
                        0 <= k < i + 1 && self.stages@[k].label@ == l && self.stages@[k].version_id@
                            == vid@ by {
                        if cur.contains(l) {
                            let q = choose|q: int| 0 <= q < cur.len() && cur[q] == l;
                            if q < prev.len() {
                                assert(prev.contains(l));
                            }
                        }
                        if exists|k: int|
                            0 <= k < i + 1 && self.stages@[k].label@ == l
                                && self.stages@[k].version_id@ == vid@ {
                            let k = choose|k: int|
                                0 <= k < i + 1 && self.stages@[k].label@ == l
                                    && self.stages@[k].version_id@ == vid@;
                            if k < i {
                                assert(prev.contains(l));
                                let q = choose|q: int| 0 <= q < prev.len() && prev[q] == l;
                                assert(cur[q] == l);
                            } else {
                                assert(cur[prev.len() as int] == l);
                            }
                        }
                    }
                }
            } else {
                proof {
                    assert forall|l: Seq<char>| #[trigger] prev.contains(l) <==> exists|k: int|
                        0 <= k < i + 1 && self.stages@[k].label@ == l && self.stages@[k].version_id@
                            == vid@ by {
                        if exists|k: int|
                            0 <= k < i + 1 && self.stages@[k].label@ == l
                                && self.stages@[k].version_id@ == vid@ {
                            let k = choose|k: int|
                                0 <= k < i + 1 && self.stages@[k].label@ == l
                                    && self.stages@[k].version_id@ == vid@;
                            assert(k < i);
                        }
                    }
                }
            }
            i = i + 1;
        }
        out
    }
}


impl SecretView {
    /// This secret with a new description, stamped `now`.
    pub open spec fn with_description(self, d: Seq<char>, now: u64) -> SecretView {
        SecretView { description: Some(d), updated_at: Some(now), ..self }
    }
}

impl Secret {
    pub fn set_description(&mut self, d: String, now: u64)
        requires
            old(self).inv(),
        ensures
            final(self).inv(),
            final(self)@ == old(self)@.with_description(d@, now),
    {
        self.description = Some(d);
        self.updated_at = Some(now);
    }
}


/// The start (UTC midnight) of the day holding `now`.
pub open spec fn day_of(now: u64) -> u64 {
    (now - now % 86400) as u64
}

pub fn day_start(now: u64) -> (r: u64)
    ensures
        r == day_of(now),
{
    now - now % 86400
}

impl Secret {
    /// Stamps version `k` as read on day `day`.
    pub fn touch_version(&mut self, k: usize, day: u64)
        requires
            old(self).inv(),
            k < old(self)@.versions.len(),
        ensures
            final(self).inv(),
            final(self)@ == old(self)@.with_versions(
                old(self)@.versions.update(
                    k as int,
                    VersionView { last_accessed_at: Some(day), ..old(self)@.versions[k as int] },
                ),
            ),
    {
        let ghost before = self@;
        let mut v = self.versions[k].copy();
        v.last_accessed_at = Some(day);
        let ghost vv = v@;
        self.versions.set(k, v);
        proof {
            assert(self@.versions =~= before.versions.update(k as int, vv));
            assert forall|q: int| 0 <= q < self@.versions.len() implies self@.versions[q].version_id
                == before.versions[q].version_id && self@.versions[q].payload_ok() by {
                assert(before.versions[q].payload_ok());
            }
            assert forall|l: Seq<char>, w: Seq<char>| #[trigger]
                self@.stages.contains((l, w)) implies self@.has_version(w) by {
                assert(before.stages.contains((l, w)));
                assert(before.has_version(w));
                let q = choose|q: int| 0 <= q < before.versions.len() && before.versions[q].version_id == w;
                assert(self@.versions[q].version_id == w);
            }
        }
    }
}

} // verus!
