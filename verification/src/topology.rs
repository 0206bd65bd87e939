//! The production topology guard: whether the Container App resource keeps
//! one replica with the durable `/data` share mounted, and the patch that
//! restores that shape.
use vstd::prelude::*;
use crate::text::{chars_of, same_chars};

verus! {

/// A JSON number as `serde_json` holds it; a float is carried by its bits
/// and never inspected.
#[derive(Clone, Copy, Debug)]
pub enum JsonNumber {
    PosInt(u64),
    NegInt(i64),
    Float(u64),
}

/// A JSON value. Object members keep their order; a key that occurs twice
/// is looked up at its first occurrence.
#[derive(Debug)]
pub enum Json {
    Null,
    Bool(bool),
    Number(JsonNumber),
    Str(String),
    Array(Vec<Json>),
    Object(Vec<(String, Json)>),
}

/// The value of the first member named `key`, or `Null`.
pub open spec fn lookup(entries: Seq<(String, Json)>, key: Seq<char>) -> Json
    decreases entries.len(),
{
    if entries.len() == 0 {
        Json::Null
    } else if entries[0].0@ == key {
        entries[0].1
    } else {
        lookup(entries.drop_first(), key)
    }
}

/// `value[key]`: the member's value for an object, `Null` otherwise.
pub open spec fn get(v: Json, key: Seq<char>) -> Json {
    match v {
        Json::Object(e) => lookup(e@, key),
        _ => Json::Null,
    }
}

/// The member names of an object (none for anything else).
pub open spec fn keys_of(v: Json) -> Set<Seq<char>> {
    match v {
        Json::Object(e) => entry_keys(e@),
        _ => Set::empty(),
    }
}

/// `as_array()`.
pub open spec fn items(v: Json) -> Option<Seq<Json>> {
    match v {
        Json::Array(a) => Some(a@),
        _ => None,
    }
}

/// `value == "s"`.
pub open spec fn is_str(v: Json, s: Seq<char>) -> bool {
    v matches Json::Str(x) && x@ == s
}

/// `value == n` for an integer `n`: the number is an integer equal to `n`.
pub open spec fn is_int(v: Json, n: int) -> bool {
    match v {
        Json::Number(JsonNumber::PosInt(u)) => u == n,
        Json::Number(JsonNumber::NegInt(i)) => i == n,
        _ => false,
    }
}

pub open spec fn template_of(resource: Json) -> Json {
    get(get(resource, "properties"@), "template"@)
}

/// The durable share is declared as a volume.
pub open spec fn is_data_volume(v: Json) -> bool {
    &&& is_str(get(v, "name"@), "workspace-data"@)
    &&& is_str(get(v, "storageType"@), "AzureFile"@)
    &&& is_str(get(v, "storageName"@), "integration-changelog-watch-data"@)
}

/// A volume mount puts the durable share at `/data`.
pub open spec fn is_data_mount(m: Json) -> bool {
    is_str(get(m, "volumeName"@), "workspace-data"@) && is_str(get(m, "mountPath"@), "/data"@)
}

pub open spec fn is_app_container(c: Json) -> bool {
    is_str(get(c, "name"@), "app"@)
}

pub open spec fn any_data_mount(ms: Seq<Json>) -> bool {
    exists|j: int| 0 <= j < ms.len() && is_data_mount(#[trigger] ms[j])
}

pub open spec fn any_data_volume_spec(vs: Seq<Json>) -> bool {
    exists|i: int| 0 <= i < vs.len() && is_data_volume(#[trigger] vs[i])
}

pub open spec fn any_app_mount_spec(cs: Seq<Json>) -> bool {
    exists|i: int| 0 <= i < cs.len() && app_mounts_data(#[trigger] cs[i])
}

/// The app container mounts the durable share.
pub open spec fn app_mounts_data(c: Json) -> bool {
    is_app_container(c) && match items(get(c, "volumeMounts"@)) {
        Some(ms) => any_data_mount(ms),
        None => false,
    }
}

/// Exactly one replica, the durable share declared, and the app container
/// mounting it.
pub open spec fn durable_spec(resource: Json) -> bool {
    let template = template_of(resource);
    let scale = get(template, "scale"@);
    let has_volume = match items(get(template, "volumes"@)) {
        Some(vs) => any_data_volume_spec(vs),
        None => false,
    };
    let has_mount = match items(get(template, "containers"@)) {
        Some(cs) => any_app_mount_spec(cs),
        None => false,
    };
    is_int(get(scale, "minReplicas"@), 1) && is_int(get(scale, "maxReplicas"@), 1) && has_volume
        && has_mount
}

pub open spec fn opt_json(o: Option<&Json>) -> Json {
    match o {
        Some(x) => *x,
        None => Json::Null,
    }
}

fn key_is(k: &String, key: &str) -> (r: bool)
    ensures
        r == (k@ == key@),
{
    same_chars(&chars_of(k.as_str()), &chars_of(key))
}

/// `value[key]`, with `None` standing for `Null`.
fn at<'a>(v: Option<&'a Json>, key: &str) -> (r: Option<&'a Json>)
    ensures
        opt_json(r) == get(opt_json(v), key@),
{
    let j = match v {
        None => return None,
        Some(j) => j,
    };
    match j {
        Json::Object(e) => {
            assert(opt_json(v) == *j);
            let n = e.len();
            let mut i: usize = 0;
            assert(e@.skip(0) =~= e@);
            while i < n
                invariant
                    n == e.len(),
                    i <= n,
                    lookup(e@, key@) == lookup(e@.skip(i as int), key@),
                    get(opt_json(v), key@) == lookup(e@, key@),
                decreases n - i,
            {
                let ghost rest = e@.skip(i as int);
                assert(rest[0] == e@[i as int]);
                assert(rest.drop_first() =~= e@.skip(i + 1));
                if key_is(&e[i].0, key) {
                    assert(lookup(rest, key@) == e@[i as int].1);
                    assert(get(opt_json(v), key@) == lookup(e@, key@));
                    let found: &Json = &e[i].1;
                    assert(*found == e@[i as int].1);
                    return Some(found);
                }
                i += 1;
            }
            None
        },
        _ => None,
    }
}

fn str_is(v: Option<&Json>, s: &str) -> (r: bool)
    ensures
        r == is_str(opt_json(v), s@),
{
    match v {
        Some(Json::Str(x)) => key_is(x, s),
        _ => false,
    }
}

fn int_is_one(v: Option<&Json>) -> (r: bool)
    ensures
        r == is_int(opt_json(v), 1),
{
    match v {
        Some(Json::Number(JsonNumber::PosInt(u))) => *u == 1,
        Some(Json::Number(JsonNumber::NegInt(i))) => *i == 1,
        _ => false,
    }
}

fn array_of<'a>(v: Option<&'a Json>) -> (r: Option<&'a Vec<Json>>)
    ensures
        match r {
            Some(a) => items(opt_json(v)) == Some(a@),
            None => items(opt_json(v)) is None,
        },
{
    match v {
        Some(Json::Array(a)) => Some(a),
        _ => None,
    }
}

fn volume_is_data(v: &Json) -> (r: bool)
    ensures
        r == is_data_volume(*v),
{
    str_is(at(Some(v), "name"), "workspace-data") && str_is(at(Some(v), "storageType"), "AzureFile")
        && str_is(at(Some(v), "storageName"), "integration-changelog-watch-data")
}

fn mount_is_data(m: &Json) -> (r: bool)
    ensures
        r == is_data_mount(*m),
{
    str_is(at(Some(m), "volumeName"), "workspace-data") && str_is(at(Some(m), "mountPath"), "/data")
}

fn container_mounts_data(c: &Json) -> (r: bool)
    ensures
        r == app_mounts_data(*c),
{
    if !str_is(at(Some(c), "name"), "app") {
        return false;
    }
    match array_of(at(Some(c), "volumeMounts")) {
        None => false,
        Some(ms) => {
            let n = ms.len();
            let mut j: usize = 0;
            while j < n
                invariant
                    n == ms.len(),
                    j <= n,
                    forall|q: int| 0 <= q < j ==> !is_data_mount(#[trigger] ms@[q]),
                    is_app_container(*c),
                    items(get(*c, "volumeMounts"@)) == Some(ms@),
                decreases n - j,
            {
                if mount_is_data(&ms[j]) {
                    assert(is_data_mount(ms@[j as int]));
                    return true;
                }
                j += 1;
            }
            false
        },
    }
}

fn any_data_volume(vs: &Vec<Json>) -> (r: bool)
    ensures
        r == any_data_volume_spec(vs@),
{
    let n = vs.len();
    let mut i: usize = 0;
    while i < n
        invariant
            n == vs.len(),
            i <= n,
            forall|q: int| 0 <= q < i ==> !is_data_volume(#[trigger] vs@[q]),
        decreases n - i,
    {
        if volume_is_data(&vs[i]) {
            assert(is_data_volume(vs@[i as int]));
            return true;
        }
        i += 1;
    }
    false
}

fn any_app_mount(cs: &Vec<Json>) -> (r: bool)
    ensures
        r == any_app_mount_spec(cs@),
{
    let n = cs.len();
    let mut i: usize = 0;
    while i < n
        invariant
            n == cs.len(),
            i <= n,
            forall|q: int| 0 <= q < i ==> !app_mounts_data(#[trigger] cs@[q]),
        decreases n - i,
    {
        if container_mounts_data(&cs[i]) {
            assert(app_mounts_data(cs@[i as int]));
            return true;
        }
        i += 1;
    }
    false
}

/// Whether the Container App resource keeps the durable single-replica
/// shape.
pub fn topology_is_durable(resource: &Json) -> (r: bool)
    ensures
        r == durable_spec(*resource),
{
    let template = at(at(Some(resource), "properties"), "template");
    let scale = at(template, "scale");
    let has_volume = match array_of(at(template, "volumes")) {
        None => false,
        Some(vs) => any_data_volume(vs),
    };
    let has_mount = match array_of(at(template, "containers")) {
        None => false,
        Some(cs) => any_app_mount(cs),
    };
    int_is_one(at(scale, "minReplicas")) && int_is_one(at(scale, "maxReplicas")) && has_volume
        && has_mount
}


/// The entries hold a member named `key`.
pub open spec fn has_key(e: Seq<(String, Json)>, key: Seq<char>) -> bool {
    exists|i: int| 0 <= i < e.len() && #[trigger] e[i].0@ == key
}

pub open spec fn entry_keys(e: Seq<(String, Json)>) -> Set<Seq<char>> {
    Set::new(|k: Seq<char>| has_key(e, k))
}

proof fn lemma_lookup_push(e: Seq<(String, Json)>, x: (String, Json), key: Seq<char>)
    ensures
        lookup(e.push(x), key) == if has_key(e, key) {
            lookup(e, key)
        } else if x.0@ == key {
            x.1
        } else {
            Json::Null
        },
    decreases e.len(),
{
    if e.len() > 0 {
        assert(e.push(x).drop_first() =~= e.drop_first().push(x));
        assert(e.push(x)[0] == e[0]);
        lemma_lookup_push(e.drop_first(), x, key);
        if e[0].0@ == key {
            assert(has_key(e, key));
            assert(lookup(e.push(x), key) == lookup(e, key));
        } else {
            assert(lookup(e.push(x), key) == lookup(e.drop_first().push(x), key));
            if has_key(e, key) {
                let i = choose|i: int| 0 <= i < e.len() && #[trigger] e[i].0@ == key;
                assert(e.drop_first()[i - 1].0@ == key);
            }
            if has_key(e.drop_first(), key) {
                let i = choose|i: int| 0 <= i < e.len() - 1 && #[trigger] e.drop_first()[i].0@ == key;
                assert(e[i + 1].0@ == key);
            }
            assert(has_key(e, key) == has_key(e.drop_first(), key));
            assert(lookup(e, key) == lookup(e.drop_first(), key));
        }
    } else {
        assert(e.push(x).drop_first() =~= Seq::<(String, Json)>::empty());
        assert(!has_key(e, key));
        assert(e.push(x)[0] == x);
        assert(lookup(Seq::<(String, Json)>::empty(), key) == Json::Null);
        assert(lookup(e.push(x), key) == if x.0@ == key { x.1 } else { Json::Null });
    }
}

proof fn lemma_lookup_replace(e: Seq<(String, Json)>, i: int, x: (String, Json), key: Seq<char>)
    requires
        0 <= i < e.len(),
        e[i].0@ == x.0@,
        forall|j: int| 0 <= j < i ==> e[j].0@ != x.0@,
    ensures
        lookup(e.update(i, x), key) == if key == x.0@ {
            x.1
        } else {
            lookup(e, key)
        },
    decreases i,
{
    if i > 0 {
        assert(e.update(i, x).drop_first() =~= e.drop_first().update(i - 1, x));
        assert(e.update(i, x)[0] == e[0]);
        assert(e[0].0@ != x.0@);
        lemma_lookup_replace(e.drop_first(), i - 1, x, key);
    } else {
        assert(e.update(i, x).drop_first() =~= e.drop_first());
        assert(e.update(i, x)[0] == x);
    }
}

proof fn lemma_lookup_first(e: Seq<(String, Json)>, i: int, key: Seq<char>)
    requires
        0 <= i < e.len(),
        e[i].0@ == key,
        forall|j: int| 0 <= j < i ==> e[j].0@ != key,
    ensures
        lookup(e, key) == e[i].1,
    decreases i,
{
    if i > 0 {
        lemma_lookup_first(e.drop_first(), i - 1, key);
    }
}

proof fn lemma_lookup_absent(e: Seq<(String, Json)>, key: Seq<char>)
    requires
        !has_key(e, key),
    ensures
        lookup(e, key) == Json::Null,
    decreases e.len(),
{
    if e.len() > 0 {
        if has_key(e.drop_first(), key) {
            let i = choose|i: int| 0 <= i < e.len() - 1 && #[trigger] e.drop_first()[i].0@ == key;
            assert(e[i + 1].0@ == key);
        }
        lemma_lookup_absent(e.drop_first(), key);
    }
}

/// An object with members `(k, v)` in order, for distinct keys.
pub open spec fn object_is(o: Json, members: Seq<(Seq<char>, Json)>) -> bool {
    &&& o is Object
    &&& keys_of(o) == Set::new(|k: Seq<char>| exists|i: int| 0 <= i < members.len() && #[trigger] members[i].0 == k)
    &&& forall|i: int| 0 <= i < members.len() ==> get(o, #[trigger] members[i].0) == members[i].1
}

pub open spec fn distinct_keys(members: Seq<(Seq<char>, Json)>) -> bool {
    forall|i: int, j: int| 0 <= i < j < members.len() ==> members[i].0 != members[j].0
}

/// Builds an object from members with distinct names.
fn object_of(members: Vec<(String, Json)>) -> (r: Json)
    requires
        forall|i: int, j: int| 0 <= i < j < members@.len() ==> members@[i].0@ != members@[j].0@,
    ensures
        object_is(r, Seq::new(members@.len(), |i: int| (members@[i].0@, members@[i].1))),
{
    let ghost ms = Seq::new(members@.len(), |i: int| (members@[i].0@, members@[i].1));
    let ghost e = members@;
    let r = Json::Object(members);
    assert forall|i: int| 0 <= i < ms.len() implies get(r, #[trigger] ms[i].0) == ms[i].1 by {
        lemma_lookup_first(e, i, e[i].0@);
    }
    assert(keys_of(r) =~= Set::new(|k: Seq<char>| exists|i: int| 0 <= i < ms.len() && #[trigger] ms[i].0 == k)) by {
        assert forall|k: Seq<char>| keys_of(r).contains(k) implies exists|i: int| 0 <= i < ms.len() && #[trigger] ms[i].0 == k by {
            let i = choose|i: int| 0 <= i < e.len() && #[trigger] e[i].0@ == k;
            assert(ms[i].0 == k);
        }
        assert forall|k: Seq<char>| (exists|i: int| 0 <= i < ms.len() && #[trigger] ms[i].0 == k) implies keys_of(r).contains(k) by {
            let i = choose|i: int| 0 <= i < ms.len() && #[trigger] ms[i].0 == k;
            assert(e[i].0@ == k);
        }
    }
    r
}

fn str_json(s: &str) -> (r: Json)
    ensures
        r matches Json::Str(x) && x@ == s@,
{
    Json::Str(String::from_str(s))
}

/// `value[key]` on an owned value: the member's value, or `Null`.
fn take_field(v: Json, key: &str) -> (r: Json)
    ensures
        r == get(v, key@),
{
    match v {
        Json::Object(mut e) => {
            let ghost e0 = e@;
            let n = e.len();
            let mut i: usize = 0;
            while i < n
                invariant
                    n == e.len(),
                    e@ == e0,
                    i <= n,
                    get(v, key@) == lookup(e0, key@),
                    forall|j: int| 0 <= j < i ==> e0[j].0@ != key@,
                decreases n - i,
            {
                if key_is(&e[i].0, key) {
                    proof {
                        lemma_lookup_first(e0, i as int, key@);
                    }
                    let (_, value) = e.remove(i);
                    return value;
                }
                i += 1;
            }
            proof {
                lemma_lookup_absent(e0, key@);
            }
            Json::Null
        },
        _ => Json::Null,
    }
}

/// The first container named `app` in the resource's template.
pub open spec fn first_app_container(resource: Json) -> Option<Json> {
    match items(get(template_of(resource), "containers"@)) {
        Some(cs) => first_app_in(cs, 0),
        None => None,
    }
}

pub open spec fn first_app_in(cs: Seq<Json>, k: int) -> Option<Json>
    decreases cs.len() - k,
{
    if k < 0 || k >= cs.len() {
        None
    } else if is_app_container(cs[k]) {
        Some(cs[k])
    } else {
        first_app_in(cs, k + 1)
    }
}

/// `c` with its `volumeMounts` member replaced (or added) by `mounts`.
pub open spec fn with_mounts(c2: Json, c: Json, mounts: Json) -> bool {
    &&& c2 is Object
    &&& keys_of(c2) == keys_of(c).insert("volumeMounts"@)
    &&& forall|k: Seq<char>| #[trigger] get(c2, k) == if k == "volumeMounts"@ {
        mounts
    } else {
        get(c, k)
    }
}


/// The `[{volumeName: workspace-data, mountPath: /data}]` mount list.
pub open spec fn is_data_mount_list(m: Json) -> bool {
    items(m) matches Some(ms) && ms.len() == 1 && keys_of(ms[0]) == set!["volumeName"@, "mountPath"@]
        && is_data_mount(ms[0])
}

/// The patch that restores the durable topology, for a resource whose
/// first `app` container is `c`: one replica at most and at least, the
/// durable share as the only volume, a 30-second grace period, and `c` as
/// the only container, with the share mounted at `/data` in place of its
/// own mounts. Member order is not part of it.
pub open spec fn patch_for(out: Json, c: Json) -> bool {
    let p = get(out, "properties"@);
    let t = get(p, "template"@);
    let scale = get(t, "scale"@);
    &&& out is Object
    &&& keys_of(out) == set!["properties"@]
    &&& p is Object
    &&& keys_of(p) == set!["template"@]
    &&& t is Object
    &&& keys_of(t) == set!["terminationGracePeriodSeconds"@, "scale"@, "volumes"@, "containers"@]
    &&& get(t, "terminationGracePeriodSeconds"@) == Json::Number(JsonNumber::PosInt(30))
    &&& scale is Object
    &&& keys_of(scale) == set!["minReplicas"@, "maxReplicas"@]
    &&& get(scale, "minReplicas"@) == Json::Number(JsonNumber::PosInt(1))
    &&& get(scale, "maxReplicas"@) == Json::Number(JsonNumber::PosInt(1))
    &&& items(get(t, "volumes"@)) matches Some(vs) && vs.len() == 1 && vs[0] is Object && keys_of(vs[0])
        == set!["name"@, "storageType"@, "storageName"@] && is_data_volume(vs[0])
    &&& items(get(t, "containers"@)) matches Some(cs) && cs.len() == 1 && with_mounts(
        cs[0],
        c,
        get(cs[0], "volumeMounts"@),
    ) && is_data_mount_list(get(cs[0], "volumeMounts"@))
}

proof fn lemma_keys_push(e: Seq<(String, Json)>, x: (String, Json))
    ensures
        entry_keys(e.push(x)) == entry_keys(e).insert(x.0@),
{
    assert forall|k: Seq<char>| entry_keys(e.push(x)).contains(k) == entry_keys(e).insert(x.0@).contains(k) by {
        if has_key(e.push(x), k) {
            let i = choose|i: int| 0 <= i < e.len() + 1 && #[trigger] e.push(x)[i].0@ == k;
            if i < e.len() {
                assert(e[i].0@ == k);
            }
        }
        if has_key(e, k) {
            let i = choose|i: int| 0 <= i < e.len() && #[trigger] e[i].0@ == k;
            assert(e.push(x)[i].0@ == k);
        }
        if k == x.0@ {
            assert(e.push(x)[e.len() as int].0@ == k);
        }
    }
    assert(entry_keys(e.push(x)) =~= entry_keys(e).insert(x.0@));
}

proof fn lemma_keys_replace(e: Seq<(String, Json)>, i: int, x: (String, Json))
    requires
        0 <= i < e.len(),
        e[i].0@ == x.0@,
    ensures
        entry_keys(e.update(i, x)) == entry_keys(e),
{
    assert forall|k: Seq<char>| entry_keys(e.update(i, x)).contains(k) == entry_keys(e).contains(k) by {
        if has_key(e.update(i, x), k) {
            let j = choose|j: int| 0 <= j < e.len() && #[trigger] e.update(i, x)[j].0@ == k;
            assert(e[j].0@ == k);
        }
        if has_key(e, k) {
            let j = choose|j: int| 0 <= j < e.len() && #[trigger] e[j].0@ == k;
            assert(e.update(i, x)[j].0@ == k);
        }
    }
    assert(entry_keys(e.update(i, x)) =~= entry_keys(e));
}

fn data_mount_list() -> (r: Json)
    ensures
        is_data_mount_list(r),
{
    let mut m: Vec<(String, Json)> = Vec::new();
    m.push((String::from_str("volumeName"), str_json("workspace-data")));
    m.push((String::from_str("mountPath"), str_json("/data")));
    proof {
        reveal_strlit("volumeName");
        reveal_strlit("mountPath");
        assert(m@[0].0@[0] != m@[1].0@[0]);
    }
    let o = object_of(m);
    let ghost ms = Seq::new(2, |i: int| (m@[i].0@, m@[i].1));
    assert(ms[0].0 == "volumeName"@);
    assert(ms[1].0 == "mountPath"@);
    assert(get(o, ms[0].0) == ms[0].1);
    assert(get(o, ms[1].0) == ms[1].1);
    assert(keys_of(o) =~= set!["volumeName"@, "mountPath"@]) by {
        assert forall|k: Seq<char>| keys_of(o).contains(k) == set!["volumeName"@, "mountPath"@].contains(k) by {
            if k == "volumeName"@ {
                assert(ms[0].0 == k);
            }
            if k == "mountPath"@ {
                assert(ms[1].0 == k);
            }
        }
    }
    let mut l: Vec<Json> = Vec::new();
    l.push(o);
    Json::Array(l)
}

/// `container["volumeMounts"] = [{volumeName, mountPath}]` on an object.
fn set_data_mounts(c: Json) -> (r: Json)
    requires
        c is Object,
    ensures
        with_mounts(r, c, get(r, "volumeMounts"@)),
        is_data_mount_list(get(r, "volumeMounts"@)),
{
    let mounts = data_mount_list();
    let ghost gm = mounts;
    match c {
        Json::Object(mut e) => {
            let ghost e0 = e@;
            let n = e.len();
            let mut i: usize = 0;
            while i < n
                invariant
                    n == e.len(),
                    e@ == e0,
                    c == Json::Object(e),
                    i <= n,
                    forall|j: int| 0 <= j < i ==> e0[j].0@ != "volumeMounts"@,
                ensures
                    i <= n,
                    e@ == e0,
                    c == Json::Object(e),
                    forall|j: int| 0 <= j < i ==> e0[j].0@ != "volumeMounts"@,
                    i < n ==> e0[i as int].0@ == "volumeMounts"@,
                decreases n - i,
            {
                if key_is(&e[i].0, "volumeMounts") {
                    break;
                }
                i += 1;
            }
            let x = (String::from_str("volumeMounts"), mounts);
            let ghost gx = x;
            if i < n {
                let _ = e.remove(i);
                e.insert(i, x);
                assert(e@ =~= e0.update(i as int, gx));
                proof {
                    lemma_keys_replace(e0, i as int, gx);
                    assert forall|k: Seq<char>| #[trigger] lookup(e@, k) == if k == "volumeMounts"@ { gm } else { lookup(e0, k) } by {
                        lemma_lookup_replace(e0, i as int, gx, k);
                    }
                }
            } else {
                e.push(x);
                proof {
                    lemma_keys_push(e0, gx);
                    assert(!has_key(e0, "volumeMounts"@));
                    assert forall|k: Seq<char>| #[trigger] lookup(e@, k) == if k == "volumeMounts"@ { gm } else { lookup(e0, k) } by {
                        lemma_lookup_push(e0, gx, k);
                        if k != "volumeMounts"@ && !has_key(e0, k) {
                            lemma_lookup_absent(e0, k);
                        }
                    }
                }
            }
            let ghost e1 = e@;
            let r = Json::Object(e);
            assert(get(r, "volumeMounts"@) == gm);
            assert(keys_of(c) == entry_keys(e0));
            assert(keys_of(r) == entry_keys(e1));
            assert(keys_of(r) == keys_of(c).insert("volumeMounts"@));
            assert forall|k: Seq<char>| #[trigger] get(r, k) == if k == "volumeMounts"@ { gm } else { get(c, k) } by {
                assert(get(r, k) == lookup(e1, k));
                assert(get(c, k) == lookup(e0, k));
            }
            r
        },
        _ => {
            proof {
                assert(false);
            }
            Json::Null
        },
    }
}


fn is_app(c: &Json) -> (r: bool)
    ensures
        r == is_app_container(*c),
{
    str_is(at(Some(c), "name"), "app")
}

/// Builds the object `{k0: v0, .., kn: vn}` view facts used below.
pub open spec fn members_of(v: Seq<(String, Json)>) -> Seq<(Seq<char>, Json)> {
    Seq::new(v.len(), |i: int| (v[i].0@, v[i].1))
}

fn one_int(n: u64) -> (r: Json)
    ensures
        r == Json::Number(JsonNumber::PosInt(n)),
{
    Json::Number(JsonNumber::PosInt(n))
}

fn singleton(v: Json) -> (r: Json)
    ensures
        items(r) == Some(seq![v]),
{
    let mut l: Vec<Json> = Vec::new();
    l.push(v);
    assert(l@ =~= seq![v]);
    Json::Array(l)
}

/// The patch that makes the resource durable again
/// (`durable_topology_patch`); refused when the template has no container
/// named `app`. It takes the resource by value: the app container moves into
/// the patch unchanged apart from its mounts.
pub fn durable_topology_patch(resource: Json) -> (r: Result<Json, String>)
    ensures
        match first_app_container(resource) {
            None => r matches Err(e) && e@ == "Container App has no app container to repair"@,
            Some(c) => r matches Ok(out) && patch_for(out, c),
        },
{
    let ghost res0 = resource;
    let containers = take_field(take_field(take_field(resource, "properties"), "template"), "containers");
    assert(containers == get(template_of(res0), "containers"@));
    let mut cs = match containers {
        Json::Array(cs) => cs,
        _ => return Err(String::from_str("Container App has no app container to repair")),
    };
    let ghost cs0 = cs@;
    let n = cs.len();
    let mut i: usize = 0;
    while i < n
        invariant
            n == cs.len(),
            cs@ == cs0,
            i <= n,
            first_app_in(cs0, 0) == first_app_in(cs0, i as int),
        ensures
            i <= n,
            cs@ == cs0,
            first_app_in(cs0, 0) == first_app_in(cs0, i as int),
            i < n ==> is_app_container(cs0[i as int]),
        decreases n - i,
    {
        if is_app(&cs[i]) {
            break;
        }
        i += 1;
    }
    if i == n {
        return Err(String::from_str("Container App has no app container to repair"));
    }
    let c = cs.remove(i);
    let ghost gc = c;
    assert(first_app_container(res0) == Some(gc));
    assert(c is Object) by {
        if !(c is Object) {
            assert(get(c, "name"@) == Json::Null);
        }
    }
    let c2 = set_data_mounts(c);
    let ghost gc2 = c2;
    proof {
        reveal_strlit("name");
        reveal_strlit("storageType");
        reveal_strlit("storageName");
        reveal_strlit("minReplicas");
        reveal_strlit("maxReplicas");
        reveal_strlit("terminationGracePeriodSeconds");
        reveal_strlit("scale");
        reveal_strlit("volumes");
        reveal_strlit("containers");
        reveal_strlit("template");
        reveal_strlit("properties");
    }
    // the durable share volume
    let mut vm: Vec<(String, Json)> = Vec::new();
    vm.push((String::from_str("name"), str_json("workspace-data")));
    vm.push((String::from_str("storageType"), str_json("AzureFile")));
    vm.push((String::from_str("storageName"), str_json("integration-changelog-watch-data")));
    assert(vm@[0].0@[0] != vm@[1].0@[0]);
    assert(vm@[0].0@[0] != vm@[2].0@[0]);
    assert(vm@[1].0@[7] != vm@[2].0@[7]);
    let ghost vms = members_of(vm@);
    let volume = object_of(vm);
    assert(vms[0].0 == "name"@ && vms[1].0 == "storageType"@ && vms[2].0 == "storageName"@);
    assert(get(volume, vms[0].0) == vms[0].1);
    assert(get(volume, vms[1].0) == vms[1].1);
    assert(get(volume, vms[2].0) == vms[2].1);
    assert(keys_of(volume) =~= set!["name"@, "storageType"@, "storageName"@]) by {
        assert forall|k: Seq<char>| keys_of(volume).contains(k) == set!["name"@, "storageType"@, "storageName"@].contains(k) by {
            if k == "name"@ { assert(vms[0].0 == k); }
            if k == "storageType"@ { assert(vms[1].0 == k); }
            if k == "storageName"@ { assert(vms[2].0 == k); }
        }
    }
    let ghost gvol = volume;
    let volumes = singleton(volume);
    // one replica
    let mut sm: Vec<(String, Json)> = Vec::new();
    sm.push((String::from_str("minReplicas"), one_int(1)));
    sm.push((String::from_str("maxReplicas"), one_int(1)));
    assert(sm@[0].0@[1] != sm@[1].0@[1]);
    let ghost sms = members_of(sm@);
    let scale = object_of(sm);
    assert(sms[0].0 == "minReplicas"@ && sms[1].0 == "maxReplicas"@);
    assert(get(scale, sms[0].0) == sms[0].1);
    assert(get(scale, sms[1].0) == sms[1].1);
    assert(keys_of(scale) =~= set!["minReplicas"@, "maxReplicas"@]) by {
        assert forall|k: Seq<char>| keys_of(scale).contains(k) == set!["minReplicas"@, "maxReplicas"@].contains(k) by {
            if k == "minReplicas"@ { assert(sms[0].0 == k); }
            if k == "maxReplicas"@ { assert(sms[1].0 == k); }
        }
    }
    let ghost gscale = scale;
    let containers_out = singleton(c2);
    let ghost gvolumes = volumes;
    let ghost gcontainers = containers_out;
    // the template
    let mut tm: Vec<(String, Json)> = Vec::new();
    tm.push((String::from_str("terminationGracePeriodSeconds"), one_int(30)));
    tm.push((String::from_str("scale"), scale));
    tm.push((String::from_str("volumes"), volumes));
    tm.push((String::from_str("containers"), containers_out));
    assert(tm@[0].0@[0] != tm@[1].0@[0]);
    assert(tm@[0].0@[0] != tm@[2].0@[0]);
    assert(tm@[0].0@[0] != tm@[3].0@[0]);
    assert(tm@[1].0@[0] != tm@[2].0@[0]);
    assert(tm@[1].0@[0] != tm@[3].0@[0]);
    assert(tm@[2].0@[0] != tm@[3].0@[0]);
    let ghost tms = members_of(tm@);
    let template = object_of(tm);
    assert(tms[0].0 == "terminationGracePeriodSeconds"@ && tms[1].0 == "scale"@ && tms[2].0 == "volumes"@ && tms[3].0 == "containers"@);
    assert(get(template, tms[0].0) == tms[0].1);
    assert(get(template, tms[1].0) == tms[1].1);
    assert(get(template, tms[2].0) == tms[2].1);
    assert(get(template, tms[3].0) == tms[3].1);
    assert(keys_of(template) =~= set!["terminationGracePeriodSeconds"@, "scale"@, "volumes"@, "containers"@]) by {
        assert forall|k: Seq<char>| keys_of(template).contains(k) == set!["terminationGracePeriodSeconds"@, "scale"@, "volumes"@, "containers"@].contains(k) by {
            if k == "terminationGracePeriodSeconds"@ { assert(tms[0].0 == k); }
            if k == "scale"@ { assert(tms[1].0 == k); }
            if k == "volumes"@ { assert(tms[2].0 == k); }
            if k == "containers"@ { assert(tms[3].0 == k); }
        }
    }
    let ghost gtemplate = template;
    // properties, then the patch
    let mut pm: Vec<(String, Json)> = Vec::new();
    pm.push((String::from_str("template"), template));
    let ghost pms = members_of(pm@);
    let props = object_of(pm);
    assert(pms[0].0 == "template"@);
    assert(get(props, pms[0].0) == pms[0].1);
    assert(keys_of(props) =~= set!["template"@]) by {
        assert forall|k: Seq<char>| keys_of(props).contains(k) == set!["template"@].contains(k) by {
            if k == "template"@ { assert(pms[0].0 == k); }
        }
    }
    let mut om: Vec<(String, Json)> = Vec::new();
    om.push((String::from_str("properties"), props));
    let ghost oms = members_of(om@);
    let out = object_of(om);
    assert(oms[0].0 == "properties"@);
    assert(get(out, oms[0].0) == oms[0].1);
    assert(keys_of(out) =~= set!["properties"@]) by {
        assert forall|k: Seq<char>| keys_of(out).contains(k) == set!["properties"@].contains(k) by {
            if k == "properties"@ { assert(oms[0].0 == k); }
        }
    }
    assert(items(get(gtemplate, "containers"@)) == Some(seq![gc2]));
    assert(patch_for(out, gc));
    Ok(out)
}


proof fn lemma_first_app_in_is_app(cs: Seq<Json>, k: int)
    ensures
        first_app_in(cs, k) matches Some(c) ==> is_app_container(c),
    decreases cs.len() - k,
{
    if 0 <= k < cs.len() && !is_app_container(cs[k]) {
        lemma_first_app_in_is_app(cs, k + 1);
    }
}

/// The repair restores the boundary: the patch made for a resource
/// describes, on its own, a durable single-replica topology.
pub proof fn law_repair_is_durable(resource: Json, out: Json)
    requires
        first_app_container(resource) matches Some(c) && patch_for(out, c),
    ensures
        durable_spec(out),
{
    let c = first_app_container(resource)->0;
    if let Some(cs) = items(get(template_of(resource), "containers"@)) {
        lemma_first_app_in_is_app(cs, 0);
    }
    let t = template_of(out);
    let vs = items(get(t, "volumes"@))->0;
    assert(is_data_volume(vs[0]));
    let cs = items(get(t, "containers"@))->0;
    let c2 = cs[0];
    reveal_strlit("name");
    reveal_strlit("volumeMounts");
    assert("name"@ != "volumeMounts"@) by {
        assert("name"@.len() != "volumeMounts"@.len());
    }
    assert(with_mounts(c2, c, get(c2, "volumeMounts"@)));
    assert(get(c2, "name"@) == get(c, "name"@));
    let ms = items(get(c2, "volumeMounts"@))->0;
    assert(is_data_mount(ms[0]));
    assert(any_data_mount(ms));
    assert(app_mounts_data(c2));
}

/// What a reconciliation pass of the topology guard does next.
#[derive(Debug)]
pub enum TopologyRepair {
    /// The topology is durable and `/data` is mounted: open the workspace
    /// APIs.
    Ready,
    /// Send this patch and wait for the repaired revision.
    Patch(Json),
}

/// The decision of one reconciliation pass, once the resource has been read
/// and the mount checked: ready when the resource is durable and `/data` is
/// mounted, otherwise the repair patch (refused as `durable_topology_patch`
/// refuses).
pub fn plan_topology_repair(resource: Json, data_mounted: bool) -> (r: Result<TopologyRepair, String>)
    ensures
        durable_spec(resource) && data_mounted ==> r matches Ok(TopologyRepair::Ready),
        !(durable_spec(resource) && data_mounted) ==> match first_app_container(resource) {
            None => r matches Err(e) && e@ == "Container App has no app container to repair"@,
            Some(c) => r matches Ok(TopologyRepair::Patch(out)) && patch_for(out, c),
        },
{
    if topology_is_durable(&resource) && data_mounted {
        return Ok(TopologyRepair::Ready);
    }
    match durable_topology_patch(resource) {
        Ok(out) => Ok(TopologyRepair::Patch(out)),
        Err(e) => Err(e),
    }
}

/// Whether a reconciliation outcome opens the workspace APIs: only a pass
/// that found the topology ready does; a requested repair or a failure
/// keeps them closed until the next pass.
pub fn guard_opens(outcome: &Result<bool, String>) -> (r: bool)
    ensures
        r == (outcome matches Ok(true)),
{
    match outcome {
        Ok(ready) => *ready,
        Err(_) => false,
    }
}

/// How many reconciliation passes the guard makes when they would end with
/// `outcomes` in turn (`true` for a pass that found the topology ready): it
/// stops after the first ready pass.
pub open spec fn passes_until_open(outcomes: Seq<bool>) -> nat
    decreases outcomes.len(),
{
    if outcomes.len() == 0 {
        0
    } else if outcomes[0] {
        1
    } else {
        1 + passes_until_open(outcomes.drop_first())
    }
}

/// The workspace APIs stay closed through every pass that did not find the
/// topology ready: the guard opens them at the first ready pass and makes
/// no pass after it, and it opens them at all only if some pass is ready.
pub proof fn law_guard_opens_only_when_ready(outcomes: Seq<bool>)
    ensures
        passes_until_open(outcomes) <= outcomes.len(),
        forall|i: int| 0 <= i < passes_until_open(outcomes) - 1 ==> !#[trigger] outcomes[i],
        (exists|i: int| 0 <= i < outcomes.len() && #[trigger] outcomes[i]) <==> (passes_until_open(outcomes) > 0
            && outcomes[passes_until_open(outcomes) - 1]),
    decreases outcomes.len(),
{
    if outcomes.len() > 0 && !outcomes[0] {
        let rest = outcomes.drop_first();
        law_guard_opens_only_when_ready(rest);
        assert forall|i: int| 0 <= i < passes_until_open(outcomes) - 1 implies !#[trigger] outcomes[i] by {
            if i > 0 {
                assert(outcomes[i] == rest[i - 1]);
            }
        }
        if exists|i: int| 0 <= i < outcomes.len() && #[trigger] outcomes[i] {
            let i = choose|i: int| 0 <= i < outcomes.len() && #[trigger] outcomes[i];
            assert(rest[i - 1]);
        }
        if passes_until_open(outcomes) > 0 && outcomes[passes_until_open(outcomes) - 1] {
            assert(rest[passes_until_open(rest) - 1]);
        }
    }
}

/// `v` is the JSON string `s`.
pub open spec fn json_str_is(v: Json, s: Seq<char>) -> bool {
    v matches Json::Str(x) && x@ == s
}

/// `v` is a JSON integer equal to one.
pub open spec fn json_is_one(v: Json) -> bool {
    v == Json::Number(JsonNumber::PosInt(1)) || v == Json::Number(JsonNumber::NegInt(1))
}

/// The deployment is durable exactly when its template's scale has both
/// `minReplicas` and `maxReplicas` equal to the integer 1, some volume is
/// the `workspace-data` Azure Files share `integration-changelog-watch-data`,
/// and some container named `app` mounts `workspace-data` at `/data`. In
/// particular a scale-to-zero or multi-replica deployment is never durable.
pub proof fn law_durable(resource: Json)
    ensures
        durable_spec(resource) <==> ({
            let t = get(get(resource, "properties"@), "template"@);
            let scale = get(t, "scale"@);
            &&& json_is_one(get(scale, "minReplicas"@))
            &&& json_is_one(get(scale, "maxReplicas"@))
            &&& get(t, "volumes"@) matches Json::Array(vs) && exists|i: int|
                0 <= i < vs@.len() && json_str_is(get(#[trigger] vs@[i], "name"@), "workspace-data"@)
                    && json_str_is(get(vs@[i], "storageType"@), "AzureFile"@) && json_str_is(
                    get(vs@[i], "storageName"@),
                    "integration-changelog-watch-data"@,
                )
            &&& get(t, "containers"@) matches Json::Array(cs) && exists|i: int|
                0 <= i < cs@.len() && json_str_is(get(#[trigger] cs@[i], "name"@), "app"@) && (get(
                    cs@[i],
                    "volumeMounts"@,
                ) matches Json::Array(ms) && exists|j: int|
                    0 <= j < ms@.len() && json_str_is(get(#[trigger] ms@[j], "volumeName"@), "workspace-data"@)
                        && json_str_is(get(ms@[j], "mountPath"@), "/data"@))
        }),
{
    let t = get(get(resource, "properties"@), "template"@);
    let scale = get(t, "scale"@);
    assert(is_int(get(scale, "minReplicas"@), 1) == json_is_one(get(scale, "minReplicas"@)));
    assert(is_int(get(scale, "maxReplicas"@), 1) == json_is_one(get(scale, "maxReplicas"@)));
    if let Json::Array(vs) = get(t, "volumes"@) {
        if any_data_volume_spec(vs@) {
            let i = choose|i: int| 0 <= i < vs@.len() && is_data_volume(#[trigger] vs@[i]);
            assert(json_str_is(get(vs@[i], "name"@), "workspace-data"@));
        }
        if exists|i: int|
            0 <= i < vs@.len() && json_str_is(get(#[trigger] vs@[i], "name"@), "workspace-data"@) && json_str_is(
                get(vs@[i], "storageType"@),
                "AzureFile"@,
            ) && json_str_is(get(vs@[i], "storageName"@), "integration-changelog-watch-data"@) {
            let i = choose|i: int|
                0 <= i < vs@.len() && json_str_is(get(#[trigger] vs@[i], "name"@), "workspace-data"@) && json_str_is(
                    get(vs@[i], "storageType"@),
                    "AzureFile"@,
                ) && json_str_is(get(vs@[i], "storageName"@), "integration-changelog-watch-data"@);
            assert(is_data_volume(vs@[i]));
        }
    }
    if let Json::Array(cs) = get(t, "containers"@) {
        if any_app_mount_spec(cs@) {
            let i = choose|i: int| 0 <= i < cs@.len() && app_mounts_data(#[trigger] cs@[i]);
            let ms = items(get(cs@[i], "volumeMounts"@))->0;
            let j = choose|j: int| 0 <= j < ms.len() && is_data_mount(#[trigger] ms[j]);
            assert(json_str_is(get(ms[j], "volumeName"@), "workspace-data"@));
            assert(json_str_is(get(cs@[i], "name"@), "app"@));
        }
        if exists|i: int|
            0 <= i < cs@.len() && json_str_is(get(#[trigger] cs@[i], "name"@), "app"@) && (get(
                cs@[i],
                "volumeMounts"@,
            ) matches Json::Array(ms) && exists|j: int|
                0 <= j < ms@.len() && json_str_is(get(#[trigger] ms@[j], "volumeName"@), "workspace-data"@)
                    && json_str_is(get(ms@[j], "mountPath"@), "/data"@)) {
            let i = choose|i: int|
                0 <= i < cs@.len() && json_str_is(get(#[trigger] cs@[i], "name"@), "app"@) && (get(
                    cs@[i],
                    "volumeMounts"@,
                ) matches Json::Array(ms) && exists|j: int|
                    0 <= j < ms@.len() && json_str_is(get(#[trigger] ms@[j], "volumeName"@), "workspace-data"@)
                        && json_str_is(get(ms@[j], "mountPath"@), "/data"@));
            let ms = items(get(cs@[i], "volumeMounts"@))->0;
            let j = choose|j: int|
                0 <= j < ms.len() && json_str_is(get(#[trigger] ms[j], "volumeName"@), "workspace-data"@) && json_str_is(
                    get(ms[j], "mountPath"@),
                    "/data"@,
                );
            assert(is_data_mount(ms[j]));
            assert(app_mounts_data(cs@[i]));
        }
    }
}

/// A member lookup gives the value of the first member with that name, or
/// `Null` when no member has it; anything but an object gives `Null`.
pub proof fn law_get(v: Json, key: Seq<char>, i: int)
    ensures
        match v {
            Json::Object(e) => ((forall|j: int| 0 <= j < e@.len() ==> #[trigger] e@[j].0@ != key) ==> get(v, key)
                == Json::Null) && (0 <= i < e@.len() && e@[i].0@ == key && (forall|j: int|
                0 <= j < i ==> #[trigger] e@[j].0@ != key) ==> get(v, key) == e@[i].1),
            _ => get(v, key) == Json::Null,
        },
{
    if let Json::Object(e) = v {
        if forall|j: int| 0 <= j < e@.len() ==> #[trigger] e@[j].0@ != key {
            lemma_lookup_absent(e@, key);
        }
        if 0 <= i < e@.len() && e@[i].0@ == key && (forall|j: int| 0 <= j < i ==> #[trigger] e@[j].0@ != key) {
            lemma_lookup_first(e@, i, key);
        }
    }
}

/// The repair patch keeps the `app` container as it was, but for its
/// mounts, which become the one `/data` mount of the durable share; it sets
/// one replica at least and at most, the share as the only volume and a
/// 30-second grace period.
pub proof fn law_patch_keeps_container(resource: Json, out: Json)
    requires
        first_app_container(resource) matches Some(c) && patch_for(out, c),
    ensures
        ({
            let c = first_app_container(resource)->0;
            let t = get(get(out, "properties"@), "template"@);
            &&& get(t, "containers"@) matches Json::Array(cs) && cs@.len() == 1 && (forall|k: Seq<char>|
                k != "volumeMounts"@ ==> #[trigger] get(cs@[0], k) == get(c, k)) && (get(cs@[0], "volumeMounts"@) matches Json::Array(
                ms,
            ) && ms@.len() == 1 && json_str_is(get(ms@[0], "volumeName"@), "workspace-data"@) && json_str_is(
                get(ms@[0], "mountPath"@),
                "/data"@,
            ))
            &&& get(get(t, "scale"@), "minReplicas"@) == Json::Number(JsonNumber::PosInt(1))
            &&& get(get(t, "scale"@), "maxReplicas"@) == Json::Number(JsonNumber::PosInt(1))
            &&& get(t, "terminationGracePeriodSeconds"@) == Json::Number(JsonNumber::PosInt(30))
            &&& get(t, "volumes"@) matches Json::Array(vs) && vs@.len() == 1 && json_str_is(get(vs@[0], "name"@), "workspace-data"@)
                && json_str_is(get(vs@[0], "storageType"@), "AzureFile"@) && json_str_is(
                get(vs@[0], "storageName"@),
                "integration-changelog-watch-data"@,
            )
        }),
{
}

/// The container the repair keeps is the first container of the template
/// named `app`; there is none when the template has no container list or
/// no container of that name.
pub proof fn law_first_app_container(resource: Json)
    ensures
        match first_app_container(resource) {
            Some(c) => get(get(get(resource, "properties"@), "template"@), "containers"@) matches Json::Array(cs)
                && exists|i: int|
                0 <= i < cs@.len() && cs@[i] == c && json_str_is(get(c, "name"@), "app"@) && forall|j: int|
                    0 <= j < i ==> !json_str_is(get(#[trigger] cs@[j], "name"@), "app"@),
            None => !(get(get(get(resource, "properties"@), "template"@), "containers"@) matches Json::Array(cs) && exists|i: int|
                0 <= i < cs@.len() && json_str_is(get(#[trigger] cs@[i], "name"@), "app"@)),
        },
{
    if let Json::Array(cs) = get(template_of(resource), "containers"@) {
        lemma_first_app_in(cs@, 0);
    }
}

proof fn lemma_first_app_in(cs: Seq<Json>, k: int)
    requires
        0 <= k,
    ensures
        match first_app_in(cs, k) {
            Some(c) => exists|i: int|
                k <= i < cs.len() && cs[i] == c && json_str_is(get(c, "name"@), "app"@) && forall|j: int|
                    k <= j < i ==> !json_str_is(get(#[trigger] cs[j], "name"@), "app"@),
            None => forall|i: int| k <= i < cs.len() ==> !json_str_is(get(#[trigger] cs[i], "name"@), "app"@),
        },
    decreases cs.len() - k,
{
    if k < cs.len() {
        lemma_first_app_in(cs, k + 1);
        if !is_app_container(cs[k]) {
            if let Some(c) = first_app_in(cs, k + 1) {
                let i = choose|i: int|
                    k + 1 <= i < cs.len() && cs[i] == c && json_str_is(get(c, "name"@), "app"@) && forall|j: int|
                        k + 1 <= j < i ==> !json_str_is(get(#[trigger] cs[j], "name"@), "app"@);
                assert(forall|j: int| k <= j < i ==> !json_str_is(get(#[trigger] cs[j], "name"@), "app"@));
            }
        } else {
            assert(forall|j: int| k <= j < k ==> !json_str_is(get(#[trigger] cs[j], "name"@), "app"@));
        }
    }
}

/// The managed identity's access token: `access_token` when it is a string.
pub fn access_token(token_json: &Json) -> (r: Result<String, String>)
    ensures
        match get(*token_json, "access_token"@) {
            Json::Str(t) => r matches Ok(x) && x@ == t@,
            _ => r matches Err(e) && e@ == "deployment identity returned no access token"@,
        },
{
    match at(Some(token_json), "access_token") {
        Some(Json::Str(t)) => Ok(t.clone()),
        _ => Err(String::from_str("deployment identity returned no access token")),
    }
}

/// The Container App resource URL for a resource ID.
pub fn topology_resource_url(resource_id: &str) -> (r: String)
    ensures
        r@ == "https://management.azure.com"@ + resource_id@ + "?api-version=2024-03-01"@,
{
    let mut t: Vec<char> = Vec::new();
    crate::text::push_str(&mut t, "https://management.azure.com");
    crate::text::push_str(&mut t, resource_id);
    crate::text::push_str(&mut t, "?api-version=2024-03-01");
    crate::text::string_of(&t)
}

/// The guard runs only in the production Container App, where Azure's
/// managed identity is available.
pub fn production_guard_applies(app_name: Option<&str>, has_identity_endpoint: bool, has_identity_header: bool) -> (r: bool)
    ensures
        r == (app_name matches Some(a) && a@ == "sf-integration-changelog-watch"@ && has_identity_endpoint
            && has_identity_header),
{
    match app_name {
        None => false,
        Some(a) => same_chars(&chars_of(a), &chars_of("sf-integration-changelog-watch")) && has_identity_endpoint
            && has_identity_header,
    }
}

/// Workspace APIs stay closed, answering 503, while the production topology
/// is not confirmed; `/health` always answers.
pub fn topology_gate_blocks(path: &str, ready: bool) -> (r: bool)
    ensures
        r == (path@ != "/health"@ && !ready),
{
    !same_chars(&chars_of(path), &chars_of("/health")) && !ready
}

} // verus!
