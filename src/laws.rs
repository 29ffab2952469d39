//! Laws of the secret store that relate several operations.
use vstd::prelude::*;
use crate::secrets::{
    holder_of, lemma_put_stages_rotation, lemma_rotation_state_range, only_holder, rotation_state,
    id_matches, is_first_match, name_index, update_secret_result, stage_move, label_in, is_insert_pos, lookup, new_secret, put_secret, same_payload,
    selected_version, store_rotation_ok, store_wf, SecretStore,
};
use crate::store::{
    current_label, lemma_labels_differ, previous_label, without_label, SecretView, VersionView,
};

verus! {

pub proof fn lemma_first_match_unique(ss: Seq<SecretView>, id: Seq<char>, a: int, b: int)
    requires
        is_first_match(ss, id, a),
        is_first_match(ss, id, b),
    ensures
        a == b,
{
    if a < b {
        assert(!id_matches(ss[a], id));
    } else if b < a {
        assert(!id_matches(ss[b], id));
    }
}

/// Replacing a secret by one with the same ARN and name leaves every lookup
/// as it was.
pub proof fn lemma_lookup_update(ss: Seq<SecretView>, id: Seq<char>, i: int, t: SecretView)
    requires
        0 <= i < ss.len(),
        t.arn == ss[i].arn,
        t.name == ss[i].name,
    ensures
        lookup(ss.update(i, t), id) == lookup(ss, id),
{
    let s2 = ss.update(i, t);
    assert forall|k: int| is_first_match(s2, id, k) <==> is_first_match(ss, id, k) by {
        if 0 <= k < ss.len() {
            assert forall|q: int| 0 <= q < k implies id_matches(s2[q], id) == id_matches(ss[q], id) by {
            }
        }
    }
    if exists|k: int| is_first_match(ss, id, k) {
        let a = choose|k: int| is_first_match(ss, id, k);
        let b = choose|k: int| is_first_match(s2, id, k);
        lemma_first_match_unique(ss, id, a, b);
    }
}

/// Each secret of a store where the rotation labels are right has them
/// right.
pub proof fn lemma_rotation_member(ss: Seq<SecretView>, i: int)
    requires
        store_rotation_ok(ss),
        0 <= i < ss.len(),
    ensures
        ss[i].rotation_ok(),
        ss[i].label_held(current_label()),
{
    assert(ss[i].rotation_ok());
}

/// Every version of every secret holds exactly one of a string and a binary
/// payload; each operation keeps the store's invariant, so this holds after
/// any sequence of them.
pub proof fn law_every_version_has_one_payload(store: &SecretStore)
    requires
        store.inv(),
    ensures
        forall|i: int, k: int|
            0 <= i < store@.len() && 0 <= k < store@[i].versions.len() ==> (
            #[trigger] store@[i].versions[k]).payload_ok(),
{
    store.lemma_inv();
    assert forall|i: int, k: int|
        0 <= i < store@.len() && 0 <= k < store@[i].versions.len() implies (
        #[trigger] store@[i].versions[k]).payload_ok() by {
        assert(store@[i].wf());
    }
}

/// After CreateSecret made a secret, the same request again finds it by
/// name: with the same payload under the same token it is the replay that
/// returns the secret's ARN and the version (`create_secret` then changes
/// nothing); with another payload it is `ResourceExistsException`.
pub proof fn law_create_replay(
    ss: Seq<SecretView>,
    j: int,
    arn: Seq<char>,
    name: Seq<char>,
    description: Option<Seq<char>>,
    vid: Seq<char>,
    string: Option<Seq<char>>,
    binary: Option<Seq<char>>,
    tags: Seq<(Seq<char>, Seq<char>)>,
    now: u64,
    string2: Option<Seq<char>>,
    binary2: Option<Seq<char>>,
)
    requires
        store_wf(ss),
        is_insert_pos(ss, now, j),
        forall|k: int| 0 <= k < ss.len() ==> ss[k].arn != arn && ss[k].name != name,
    ensures
        ({
            let s1 = ss.insert(j, new_secret(arn, name, description, vid, string, binary, tags, now));
            &&& exists|k: int| 0 <= k < s1.len() && s1[k].name == name
            &&& name_index(s1, name) == Some(j)
            &&& s1[j].arn == arn
            &&& same_payload(s1[j], vid, string2, binary2) <==> (string2 == string && binary2
                == binary)
        }),
{
    let t = new_secret(arn, name, description, vid, string, binary, tags, now);
    let s1 = ss.insert(j, t);
    assert(s1[j] == t);
    assert(s1[j].name == name);
    let c = choose|c: int| 0 <= c < s1.len() && s1[c].name == name;
    if c < j {
        assert(s1[c] == ss[c]);
    } else if c > j {
        assert(s1[c] == ss[c - 1]);
    }
    if string2 == string && binary2 == binary {
        assert(t.versions[0].version_id == vid);
    }
}

/// After PutSecretValue added version `vid` to the secret that `id`
/// addresses, the same request again finds that version: with the same
/// payload it is the replay (`put_secret_value` then changes nothing); with
/// another payload it is `ResourceExistsException`.
pub proof fn law_put_replay(
    ss: Seq<SecretView>,
    id: Seq<char>,
    i: int,
    vid: Seq<char>,
    string: Option<Seq<char>>,
    binary: Option<Seq<char>>,
    labels: Seq<Seq<char>>,
    now: u64,
    string2: Option<Seq<char>>,
    binary2: Option<Seq<char>>,
)
    requires
        store_wf(ss),
        lookup(ss, id) == Some(i),
        !ss[i].has_version(vid),
    ensures
        ({
            let s1 = ss.update(i, put_secret(ss[i], vid, string, binary, labels, now));
            &&& lookup(s1, id) == Some(i)
            &&& s1[i].has_version(vid)
            &&& same_payload(s1[i], vid, string2, binary2) <==> (string2 == string && binary2
                == binary)
        }),
{
    let s = ss[i];
    assert(is_first_match(ss, id, i));
    let t = put_secret(s, vid, string, binary, labels, now);
    lemma_lookup_update(ss, id, i, t);
    let n = s.versions.len() as int;
    assert(t.versions[n].version_id == vid);
    if same_payload(t, vid, string2, binary2) {
        let k = choose|k: int|
            0 <= k < t.versions.len() && t.versions[k].version_id == vid
                && t.versions[k].secret_string == string2 && t.versions[k].secret_binary == binary2;
        if k < n {
            assert(s.versions[k].version_id == vid);
        }
    }
}

/// A secret scheduled for deletion is still found, but its current version
/// is then refused to GetSecretValue (`InvalidRequestException`); once
/// restored, the same read succeeds again.
pub proof fn law_scheduled_delete_then_restore(
    ss: Seq<SecretView>,
    id: Seq<char>,
    i: int,
    now: u64,
    at: u64,
)
    requires
        store_wf(ss),
        store_rotation_ok(ss),
        lookup(ss, id) == Some(i),
    ensures
        ({
            let s1 = ss.update(i, ss[i].scheduled(now, at));
            let s2 = s1.update(i, s1[i].restored());
            &&& lookup(s1, id) == Some(i)
            &&& s1[i].scheduled_delete_at is Some
            &&& selected_version(s1[i], None, None) is Some
            &&& lookup(s2, id) == Some(i)
            &&& s2[i].scheduled_delete_at is None
            &&& selected_version(s2[i], None, None) is Some
        }),
{
    assert(is_first_match(ss, id, i));
    let s1 = ss.update(i, ss[i].scheduled(now, at));
    lemma_lookup_update(ss, id, i, ss[i].scheduled(now, at));
    lemma_lookup_update(s1, id, i, s1[i].restored());
    assert(ss[i].rotation_ok());
    assert(s1[i].stages == ss[i].stages);
    assert(s1[i].label_held(current_label()));
    let s2 = s1.update(i, s1[i].restored());
    assert(s2[i].stages == ss[i].stages);
    assert(s2[i].label_held(current_label()));
}

/// A forced delete leaves no secret with the deleted secret's ARN or name,
/// and with it none of its versions, stage labels or tags, which it owned.
pub proof fn law_forced_delete_removes_everything(ss: Seq<SecretView>, i: int)
    requires
        store_wf(ss),
        0 <= i < ss.len(),
    ensures
        forall|k: int|
            0 <= k < ss.remove(i).len() ==> (#[trigger] ss.remove(i)[k]).arn != ss[i].arn && ss.remove(
                i,
            )[k].name != ss[i].name,
{
    assert forall|k: int| 0 <= k < ss.remove(i).len() implies (#[trigger] ss.remove(i)[k]).arn
        != ss[i].arn && ss.remove(i)[k].name != ss[i].name by {
        if k < i {
            assert(ss.remove(i)[k] == ss[k]);
        } else {
            assert(ss.remove(i)[k] == ss[k + 1]);
        }
    }
}


proof fn lemma_current_only(labels: Seq<Seq<char>>)
    requires
        labels.contains(current_label()),
        !labels.contains(previous_label()),
    ensures
        rotation_state(labels) == 1,
    decreases labels.len(),
{
    let p = labels.drop_last();
    lemma_rotation_state_range(p);
    if labels.last() != current_label() {
        let k = choose|k: int| 0 <= k < labels.len() && labels[k] == current_label();
        assert(p[k] == current_label());
        assert forall|q: int| 0 <= q < p.len() implies p[q] != previous_label() by {
            assert(labels[q] == p[q]);
        }
        lemma_current_only(p);
        assert(labels[labels.len() - 1] == labels.last());
    }
}

/// PutSecretValue asked to move `AWSCURRENT` (without `AWSPREVIOUS`, which
/// it refuses alongside) leaves `AWSCURRENT` on the new version alone and
/// `AWSPREVIOUS` on the version that held `AWSCURRENT` before, alone.
pub proof fn law_put_moves_current(
    s: SecretView,
    vid: Seq<char>,
    string: Option<Seq<char>>,
    binary: Option<Seq<char>>,
    labels: Seq<Seq<char>>,
    now: u64,
)
    requires
        s.wf(),
        s.rotation_ok(),
        !s.has_version(vid),
        labels.contains(current_label()),
        !labels.contains(previous_label()),
    ensures
        ({
            let t = put_secret(s, vid, string, binary, labels, now);
            &&& only_holder(t.stages, current_label(), vid)
            &&& only_holder(t.stages, previous_label(), holder_of(s, current_label()).unwrap())
        }),
{
    let x = choose|v: Seq<char>| s.stages.contains((current_label(), v));
    assert(holder_of(s, current_label()) == Some(x));
    assert(s.has_version(x));
    assert(only_holder(s.stages, current_label(), x));
    lemma_put_stages_rotation(s.stages, labels, vid, x);
    lemma_current_only(labels);
}


/// UpdateSecret with a payload and a new version id leaves `AWSCURRENT` on
/// the new version alone and `AWSPREVIOUS` on the version that held
/// `AWSCURRENT` before, alone; the new version holds exactly that payload.
pub proof fn law_update_moves_current(
    s: SecretView,
    description: Option<Seq<char>>,
    vid: Seq<char>,
    string: Option<Seq<char>>,
    binary: Option<Seq<char>>,
    now: u64,
)
    requires
        s.wf(),
        s.rotation_ok(),
        !s.has_version(vid),
        string is Some || binary is Some,
    ensures
        ({
            let t = update_secret_result(s, description, vid, string, binary, now);
            &&& only_holder(t.stages, current_label(), vid)
            &&& only_holder(t.stages, previous_label(), holder_of(s, current_label()).unwrap())
            &&& t.versions.last().version_id == vid
            &&& t.versions.last().secret_string == string
            &&& t.versions.last().secret_binary == binary
        }),
{
    lemma_labels_differ();
    let x = choose|v: Seq<char>| s.stages.contains((current_label(), v));
    assert(holder_of(s, current_label()) == Some(x));
    assert(s.has_version(x));
    let t = update_secret_result(s, description, vid, string, binary, now);
    assert forall|w: Seq<char>| #[trigger] t.stages.contains((current_label(), w)) <==> w == vid by {
    }
    assert forall|w: Seq<char>| #[trigger] t.stages.contains((previous_label(), w)) <==> w == x by {
    }
}

/// Moving `AWSCURRENT` from its holder to another version `d` leaves
/// `AWSCURRENT` on `d` alone and `AWSPREVIOUS` on the former holder alone.
pub proof fn law_stage_move_current(s: SecretView, d: Seq<char>)
    requires
        s.wf(),
        s.rotation_ok(),
        s.has_version(d),
        holder_of(s, current_label()) != Some(d),
    ensures
        ({
            let x = holder_of(s, current_label()).unwrap();
            &&& stage_move(s, current_label(), Some(d), Some(x)) matches Some(st) && only_holder(
                st,
                current_label(),
                d,
            ) && only_holder(st, previous_label(), x)
        }),
{
    lemma_labels_differ();
    let x = choose|v: Seq<char>| s.stages.contains((current_label(), v));
    assert(holder_of(s, current_label()) == Some(x));
    let st1 = s.stages.remove((current_label(), x));
    let st2 = without_label(st1, previous_label()).insert((previous_label(), x));
    assert(!label_in(st2, current_label()));
    let st = st2.insert((current_label(), d));
    assert(stage_move(s, current_label(), Some(d), Some(x)) == Some(st));
    assert forall|w: Seq<char>| #[trigger] st.contains((current_label(), w)) <==> w == d by {
    }
    assert forall|w: Seq<char>| #[trigger] st.contains((previous_label(), w)) <==> w == x by {
    }
}

} // verus!
