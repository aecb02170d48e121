//! Reading and writing the persisted state as a structured document, and
//! the round-trip guarantee for fields the library does not recognize.
//!
//! Reading is strict: a document whose objects repeat a key, or whose
//! recognized fields carry the wrong type, is rejected as a parse error.
//! Profiles are stored in the rich shape `{env, command_args}`; an older
//! document that stores a profile as a flat object of string bindings is
//! still read, as bindings with no extra arguments.

use vstd::prelude::*;
use crate::error::{CoreError, ErrorCode};
use crate::json::JsonValue;
use crate::omap::{OrderedMap, has_key, key_index, value_of, distinct_keys};
use crate::state::{AppConfig, ProfileConfig, State, validated_state};

verus! {

// ---------------------------------------------------------------------------
// Document shapes
// ---------------------------------------------------------------------------

/// Every value of the entry sequence is text.
pub open spec fn texts_object(s: Seq<(String, JsonValue)>) -> bool {
    forall|i: int| 0 <= i < s.len() ==> (#[trigger] s[i]).1 is Text
}

/// Every element of the sequence is text.
pub open spec fn texts_array(s: Seq<JsonValue>) -> bool {
    forall|i: int| 0 <= i < s.len() ==> (#[trigger] s[i]) is Text
}

/// A well-shaped stored profile: either the rich shape, an object whose
/// `env` is an object of strings and whose `command_args`, if present, is
/// an array of strings; or, for compatibility with older documents, a flat
/// object of string bindings (recognized by the absence of an `env` key).
pub open spec fn profile_shape_ok(v: JsonValue) -> bool {
    &&& v is Object
    &&& distinct_keys(v.obj())
    &&& if has_key(v.obj(), "env"@) {
        &&& value_of(v.obj(), "env"@) is Object
        &&& distinct_keys(value_of(v.obj(), "env"@).obj())
        &&& texts_object(value_of(v.obj(), "env"@).obj())
        &&& (has_key(v.obj(), "command_args"@) ==> {
            &&& value_of(v.obj(), "command_args"@) is Array
            &&& texts_array(value_of(v.obj(), "command_args"@).arr())
        })
    } else {
        texts_object(v.obj())
    }
}

/// The field names a stored app carries with fixed meanings; anything else
/// is preserved as an unrecognized field.
pub open spec fn known_app_key(k: Seq<char>) -> bool {
    ||| k == "installed"@
    ||| k == "target_binary"@
    ||| k == "install_path"@
    ||| k == "active_profile"@
    ||| k == "profiles"@
}

/// A well-shaped stored app: recognized fields carry their types, and the
/// profiles, when present, form a well-shaped object of profiles.
pub open spec fn app_shape_ok(v: JsonValue) -> bool {
    &&& v is Object
    &&& distinct_keys(v.obj())
    &&& (has_key(v.obj(), "installed"@) ==> value_of(v.obj(), "installed"@) is Bool)
    &&& (has_key(v.obj(), "target_binary"@) ==> value_of(v.obj(), "target_binary"@) is Text)
    &&& (has_key(v.obj(), "install_path"@) ==> (value_of(v.obj(), "install_path"@) is Null
        || value_of(v.obj(), "install_path"@) is Text))
    &&& (has_key(v.obj(), "active_profile"@) ==> (value_of(v.obj(), "active_profile"@) is Null
        || value_of(v.obj(), "active_profile"@) is Text))
    &&& (has_key(v.obj(), "profiles"@) ==> {
        &&& value_of(v.obj(), "profiles"@) is Object
        &&& distinct_keys(value_of(v.obj(), "profiles"@).obj())
        &&& forall|i: int| 0 <= i < value_of(v.obj(), "profiles"@).obj().len()
            ==> profile_shape_ok((#[trigger] value_of(v.obj(), "profiles"@).obj()[i]).1)
    })
}

/// A well-shaped state document: an object whose `apps` field, when
/// present, is an object of well-shaped apps.
pub open spec fn doc_shape_ok(v: JsonValue) -> bool {
    &&& v is Object
    &&& distinct_keys(v.obj())
    &&& (has_key(v.obj(), "apps"@) ==> {
        &&& value_of(v.obj(), "apps"@) is Object
        &&& distinct_keys(value_of(v.obj(), "apps"@).obj())
        &&& forall|i: int| 0 <= i < value_of(v.obj(), "apps"@).obj().len() ==> app_shape_ok(
            (#[trigger] value_of(v.obj(), "apps"@).obj()[i]).1,
        )
    })
}

// ---------------------------------------------------------------------------
// Parse relations
// ---------------------------------------------------------------------------

/// The bindings read off an object of strings, entry for entry.
pub open spec fn env_parsed(s: Seq<(String, JsonValue)>, env: Seq<(String, String)>) -> bool {
    &&& env.len() == s.len()
    &&& forall|i: int| 0 <= i < s.len() ==> (#[trigger] env[i]).0 == s[i].0 && s[i].1
        == JsonValue::Text(env[i].1)
}

/// The arguments read off an array of strings, element for element.
pub open spec fn args_parsed(s: Seq<JsonValue>, args: Seq<String>) -> bool {
    &&& args.len() == s.len()
    &&& forall|i: int| 0 <= i < s.len() ==> (#[trigger] s[i]) == JsonValue::Text(args[i])
}

/// How a profile value follows from its well-shaped stored form.
pub open spec fn profile_parsed(v: JsonValue, p: ProfileConfig) -> bool {
    if has_key(v.obj(), "env"@) {
        &&& env_parsed(value_of(v.obj(), "env"@).obj(), p.env@)
        &&& if has_key(v.obj(), "command_args"@) {
            args_parsed(value_of(v.obj(), "command_args"@).arr(), p.command_args@)
        } else {
            p.command_args@.len() == 0
        }
    } else {
        &&& env_parsed(v.obj(), p.env@)
        &&& p.command_args@.len() == 0
    }
}

/// The entries of `s` whose keys the app shape does not recognize, in
/// order.
pub open spec fn app_extras_of(s: Seq<(String, JsonValue)>) -> Seq<(String, JsonValue)>
    decreases s.len(),
{
    if s.len() == 0 {
        s
    } else {
        app_extras_of(s.drop_last()) + (if known_app_key(s.last().0@) {
            Seq::empty()
        } else {
            seq![s.last()]
        })
    }
}

/// The entries of `s` other than the `apps` field, in order.
pub open spec fn doc_extras_of(s: Seq<(String, JsonValue)>) -> Seq<(String, JsonValue)>
    decreases s.len(),
{
    if s.len() == 0 {
        s
    } else {
        doc_extras_of(s.drop_last()) + (if s.last().0@ == "apps"@ {
            Seq::empty()
        } else {
            seq![s.last()]
        })
    }
}

/// How an app configuration follows from its well-shaped stored form:
/// recognized fields are read (missing ones default), profiles are parsed
/// name by name, and every unrecognized field is kept, in order.
pub open spec fn app_parsed(v: JsonValue, a: AppConfig) -> bool {
    &&& a.installed == (if has_key(v.obj(), "installed"@) {
        value_of(v.obj(), "installed"@).bool_of()
    } else {
        false
    })
    &&& if has_key(v.obj(), "target_binary"@) {
        value_of(v.obj(), "target_binary"@) == JsonValue::Text(a.target_binary)
    } else {
        a.target_binary@ == Seq::<char>::empty()
    }
    &&& match a.install_path {
        Some(s) => has_key(v.obj(), "install_path"@) && value_of(v.obj(), "install_path"@)
            == JsonValue::Text(s),
        None => !has_key(v.obj(), "install_path"@) || value_of(
            v.obj(),
            "install_path"@,
        ) is Null,
    }
    &&& match a.active_profile {
        Some(s) => has_key(v.obj(), "active_profile"@) && value_of(v.obj(), "active_profile"@)
            == JsonValue::Text(s),
        None => !has_key(v.obj(), "active_profile"@) || value_of(
            v.obj(),
            "active_profile"@,
        ) is Null,
    }
    &&& if has_key(v.obj(), "profiles"@) {
        let ps = value_of(v.obj(), "profiles"@).obj();
        &&& a.profiles@.len() == ps.len()
        &&& forall|i: int| 0 <= i < ps.len() ==> (#[trigger] a.profiles@[i]).0 == ps[i].0
            && profile_parsed(ps[i].1, a.profiles@[i].1)
    } else {
        a.profiles@.len() == 0
    }
    &&& a.extra@ == app_extras_of(v.obj())
}

/// How a state follows from its well-shaped stored document.
pub open spec fn state_parsed(v: JsonValue, st: State) -> bool {
    &&& if has_key(v.obj(), "apps"@) {
        let aps = value_of(v.obj(), "apps"@).obj();
        &&& st.apps@.len() == aps.len()
        &&& forall|i: int| 0 <= i < aps.len() ==> (#[trigger] st.apps@[i]).0 == aps[i].0
            && app_parsed(aps[i].1, st.apps@[i].1)
    } else {
        st.apps@.len() == 0
    }
    &&& st.extra@ == doc_extras_of(v.obj())
}

// ---------------------------------------------------------------------------
// Helpers
// ---------------------------------------------------------------------------

/// The recognized field names all read differently.
proof fn lemma_field_names_distinct()
    ensures
        "installed"@ != "target_binary"@,
        "installed"@ != "install_path"@,
        "installed"@ != "active_profile"@,
        "installed"@ != "profiles"@,
        "target_binary"@ != "install_path"@,
        "target_binary"@ != "active_profile"@,
        "target_binary"@ != "profiles"@,
        "install_path"@ != "active_profile"@,
        "install_path"@ != "profiles"@,
        "active_profile"@ != "profiles"@,
{
    reveal_strlit("installed");
    reveal_strlit("target_binary");
    reveal_strlit("install_path");
    reveal_strlit("active_profile");
    reveal_strlit("profiles");
    assert("installed"@.len() == 9);
    assert("target_binary"@.len() == 13);
    assert("install_path"@.len() == 12);
    assert("active_profile"@.len() == 14);
    assert("profiles"@.len() == 8);
}

fn err_json(message: &str) -> (r: CoreError)
    ensures
        r.code == ErrorCode::Json,
{
    CoreError::new(ErrorCode::Json, message.to_owned())
}

/// How one appended entry changes key lookups, under distinct keys.
proof fn lemma_value_of_snoc<T>(s: Seq<(String, T)>, e: (String, T), k: Seq<char>)
    requires
        distinct_keys(s.push(e)),
    ensures
        has_key(s.push(e), k) == (has_key(s, k) || e.0@ == k),
        e.0@ != k && has_key(s, k) ==> value_of(s.push(e), k) == value_of(s, k),
        e.0@ == k ==> value_of(s.push(e), k) == e.1,
{
    let t = s.push(e);
    assert forall|p: int, q: int| 0 <= p < q < s.len() implies s[p].0@ != s[q].0@ by {
        assert(t[p].0@ != t[q].0@);
    }
    if has_key(t, k) {
        let i = key_index(t, k);
        assert(0 <= i < t.len() && t[i].0@ == k);
        if i < s.len() {
            assert(s[i].0@ == k);
        }
    }
    if has_key(s, k) {
        let i = key_index(s, k);
        assert(t[i].0@ == k);
        assert(has_key(t, k));
        crate::omap::lemma_key_index_of_entry(t, i);
        if e.0@ != k {
            crate::omap::lemma_key_index_of_entry(s, i);
        }
    }
    if e.0@ == k {
        assert(t[s.len() as int].0@ == k);
        assert(has_key(t, k));
        crate::omap::lemma_key_index_of_entry(t, s.len() as int);
    }
}

// ---------------------------------------------------------------------------
// Shape checks (read-only)
// ---------------------------------------------------------------------------

impl OrderedMap<JsonValue> {
    /// Whether this object's keys are pairwise distinct.
    fn keys_distinct(&self) -> (r: bool)
        ensures
            r == distinct_keys(self@),
    {
        let n = self.entries.len();
        let mut i: usize = 0;
        while i < n
            invariant
                n == self@.len(),
                i <= n,
                forall|p: int, q: int| 0 <= p < q < i ==> self@[p].0@ != self@[q].0@,
            decreases n - i,
        {
            let mut j: usize = 0;
            while j < i
                invariant
                    i < n,
                    n == self@.len(),
                    j <= i,
                    forall|q: int| 0 <= q < j ==> self@[q].0@ != self@[i as int].0@,
                decreases i - j,
            {
                if self.entries[j].0 == self.entries[i].0 {
                    return false;
                }
                j += 1;
            }
            i += 1;
        }
        true
    }

    /// Whether every value of this object is text.
    fn all_text_values(&self) -> (r: bool)
        ensures
            r == texts_object(self@),
    {
        let n = self.entries.len();
        let mut i: usize = 0;
        while i < n
            invariant
                n == self@.len(),
                i <= n,
                forall|j: int| 0 <= j < i ==> (#[trigger] self@[j]).1 is Text,
            decreases n - i,
        {
            match &self.entries[i].1 {
                JsonValue::Text(_) => {},
                _ => {
                    return false;
                },
            }
            i += 1;
        }
        true
    }
}

/// Whether every element of the array is text.
fn all_text_elems(v: &Vec<JsonValue>) -> (r: bool)
    ensures
        r == texts_array(v@),
{
    let n = v.len();
    let mut i: usize = 0;
    while i < n
        invariant
            n == v@.len(),
            i <= n,
            forall|j: int| 0 <= j < i ==> (#[trigger] v@[j]) is Text,
        decreases n - i,
    {
        match &v[i] {
            JsonValue::Text(_) => {},
            _ => {
                return false;
            },
        }
        i += 1;
    }
    true
}

/// Whether `v` is a well-shaped stored profile.
fn profile_shape_check(v: &JsonValue) -> (r: bool)
    ensures
        r == profile_shape_ok(*v),
{
    let m = match v {
        JsonValue::Object(m) => m,
        _ => {
            return false;
        },
    };
    if !m.keys_distinct() {
        return false;
    }
    if m.contains_key("env") {
        let em = match m.get("env") {
            Some(JsonValue::Object(em)) => em,
            Some(_) => {
                return false;
            },
            None => {
                proof {
                    assert(false);
                }
                return false;
            },
        };
        if !em.keys_distinct() || !em.all_text_values() {
            return false;
        }
        if m.contains_key("command_args") {
            match m.get("command_args") {
                Some(JsonValue::Array(av)) => all_text_elems(av),
                _ => false,
            }
        } else {
            true
        }
    } else {
        m.all_text_values()
    }
}

/// Whether `v` is a well-shaped stored app.
fn app_shape_check(v: &JsonValue) -> (r: bool)
    ensures
        r == app_shape_ok(*v),
{
    let m = match v {
        JsonValue::Object(m) => m,
        _ => {
            return false;
        },
    };
    if !m.keys_distinct() {
        return false;
    }
    if m.contains_key("installed") {
        match m.get("installed") {
            Some(JsonValue::Bool(_)) => {},
            _ => {
                return false;
            },
        }
    }
    if m.contains_key("target_binary") {
        match m.get("target_binary") {
            Some(JsonValue::Text(_)) => {},
            _ => {
                return false;
            },
        }
    }
    if m.contains_key("install_path") {
        match m.get("install_path") {
            Some(JsonValue::Null) => {},
            Some(JsonValue::Text(_)) => {},
            _ => {
                return false;
            },
        }
    }
    if m.contains_key("active_profile") {
        match m.get("active_profile") {
            Some(JsonValue::Null) => {},
            Some(JsonValue::Text(_)) => {},
            _ => {
                return false;
            },
        }
    }
    if m.contains_key("profiles") {
        let pm = match m.get("profiles") {
            Some(JsonValue::Object(pm)) => pm,
            _ => {
                return false;
            },
        };
        if !pm.keys_distinct() {
            return false;
        }
        let n = pm.entries.len();
        let mut i: usize = 0;
        while i < n
            invariant
                n == pm@.len(),
                i <= n,
                *v matches JsonValue::Object(_),
                v.obj() == m@,
                has_key(m@, "profiles"@),
                value_of(m@, "profiles"@) is Object,
                value_of(m@, "profiles"@).obj() == pm@,
                forall|j: int| 0 <= j < i ==> profile_shape_ok((#[trigger] pm@[j]).1),
            decreases n - i,
        {
            if !profile_shape_check(&pm.entries[i].1) {
                return false;
            }
            i += 1;
        }
    }
    true
}

/// Whether `v` is a well-shaped state document.
fn doc_shape_check(v: &JsonValue) -> (r: bool)
    ensures
        r == doc_shape_ok(*v),
{
    let m = match v {
        JsonValue::Object(m) => m,
        _ => {
            return false;
        },
    };
    if !m.keys_distinct() {
        return false;
    }
    if m.contains_key("apps") {
        let am = match m.get("apps") {
            Some(JsonValue::Object(am)) => am,
            _ => {
                return false;
            },
        };
        if !am.keys_distinct() {
            return false;
        }
        let n = am.entries.len();
        let mut i: usize = 0;
        while i < n
            invariant
                n == am@.len(),
                i <= n,
                *v matches JsonValue::Object(_),
                v.obj() == m@,
                distinct_keys(m@),
                has_key(m@, "apps"@),
                value_of(m@, "apps"@) is Object,
                value_of(m@, "apps"@).obj() == am@,
                distinct_keys(am@),
                forall|j: int| 0 <= j < i ==> app_shape_ok((#[trigger] am@[j]).1),
            decreases n - i,
        {
            if !app_shape_check(&am.entries[i].1) {
                return false;
            }
            i += 1;
        }
    }
    true
}

// ---------------------------------------------------------------------------
// Reading
// ---------------------------------------------------------------------------

/// Read one well-shaped stored profile.
fn profile_of_doc(v: &JsonValue) -> (p: ProfileConfig)
    requires
        profile_shape_ok(*v),
    ensures
        p.wf(),
        profile_parsed(*v, p),
{
    let m = match v {
        JsonValue::Object(m) => m,
        _ => {
            proof {
                assert(false);
            }
            return ProfileConfig::new();
        },
    };
    let mut env: OrderedMap<String> = OrderedMap::new();
    let mut args: Vec<String> = Vec::new();
    if m.contains_key("env") {
        let em = match m.get("env") {
            Some(JsonValue::Object(em)) => em,
            _ => {
                proof {
                    assert(false);
                }
                return ProfileConfig::new();
            },
        };
        let n = em.entries.len();
        let mut i: usize = 0;
        while i < n
            invariant
                n == em@.len(),
                distinct_keys(em@),
                texts_object(em@),
                i <= n,
                env_parsed(em@.take(i as int), env@),
                env.wf(),
            decreases n - i,
        {
            let t = match &em.entries[i].1 {
                JsonValue::Text(t) => t.clone(),
                _ => {
                    proof {
                        assert(em@[i as int].1 is Text);
                        assert(false);
                    }
                    String::new()
                },
            };
            proof {
                assert forall|q: int| 0 <= q < env@.len() implies env@[q].0@
                    != em@[i as int].0@ by {
                    assert(env@[q].0 == em@.take(i as int)[q].0);
                    assert(em@[q].0@ != em@[i as int].0@);
                }
            }
            env.insert(em.entries[i].0.clone(), t);
            proof {
                assert(em@.take(i + 1).drop_last() =~= em@.take(i as int));
                assert(env_parsed(em@.take(i + 1), env@));
            }
            i += 1;
        }
        proof {
            assert(em@.take(n as int) =~= em@);
        }
        if m.contains_key("command_args") {
            let av = match m.get("command_args") {
                Some(JsonValue::Array(av)) => av,
                _ => {
                    proof {
                        assert(false);
                    }
                    return ProfileConfig { env, command_args: args };
                },
            };
            let an = av.len();
            let mut j: usize = 0;
            while j < an
                invariant
                    an == av@.len(),
                    texts_array(av@),
                    j <= an,
                    args_parsed(av@.take(j as int), args@),
                decreases an - j,
            {
                let t = match &av[j] {
                    JsonValue::Text(t) => t.clone(),
                    _ => {
                        proof {
                            assert(av@[j as int] is Text);
                            assert(false);
                        }
                        String::new()
                    },
                };
                args.push(t);
                proof {
                    assert(av@.take(j + 1).drop_last() =~= av@.take(j as int));
                    assert(args_parsed(av@.take(j + 1), args@));
                }
                j += 1;
            }
            proof {
                assert(av@.take(an as int) =~= av@);
            }
        }
        ProfileConfig { env, command_args: args }
    } else {
        let n = m.entries.len();
        let mut i: usize = 0;
        while i < n
            invariant
                n == m@.len(),
                distinct_keys(m@),
                texts_object(m@),
                i <= n,
                env_parsed(m@.take(i as int), env@),
                env.wf(),
            decreases n - i,
        {
            let t = match &m.entries[i].1 {
                JsonValue::Text(t) => t.clone(),
                _ => {
                    proof {
                        assert(m@[i as int].1 is Text);
                        assert(false);
                    }
                    String::new()
                },
            };
            proof {
                assert forall|q: int| 0 <= q < env@.len() implies env@[q].0@
                    != m@[i as int].0@ by {
                    assert(env@[q].0 == m@.take(i as int)[q].0);
                    assert(m@[q].0@ != m@[i as int].0@);
                }
            }
            env.insert(m.entries[i].0.clone(), t);
            proof {
                assert(m@.take(i + 1).drop_last() =~= m@.take(i as int));
                assert(env_parsed(m@.take(i + 1), env@));
            }
            i += 1;
        }
        proof {
            assert(m@.take(n as int) =~= m@);
        }
        ProfileConfig { env, command_args: Vec::new() }
    }
}

/// Read one well-shaped stored app, keeping its unrecognized fields.
fn app_of_doc(v: JsonValue) -> (a: AppConfig)
    requires
        app_shape_ok(v),
    ensures
        a.wf(),
        app_parsed(v, a),
{
    let ghost gv = v;
    let m = match v {
        JsonValue::Object(m) => m,
        _ => {
            proof {
                assert(false);
            }
            return AppConfig::default();
        },
    };
    let ghost gs = m@;
    let mut entries = m.entries;
    let ghost n = gs.len();
    let mut installed = false;
    let mut target_binary = String::new();
    let mut install_path: Option<String> = None;
    let mut active_profile: Option<String> = None;
    let mut profiles: OrderedMap<ProfileConfig> = OrderedMap::new();
    let mut extra: OrderedMap<JsonValue> = OrderedMap::new();
    proof {
        assert(gs.take(0) =~= Seq::<(String, JsonValue)>::empty());
        assert(gs.take(n as int) =~= gs);
    }
    while entries.len() > 0
        invariant
            entries@ == gs.skip(n - entries@.len() as int),
            n == gs.len(),
            0 <= gs.len() - entries@.len(),
            app_shape_ok(gv),
            gv.obj() == gs,
            gs.take(n as int) == gs,
            installed == (if has_key(gs.take(n - entries@.len() as int), "installed"@) {
                value_of(gs.take(n - entries@.len() as int), "installed"@).bool_of()
            } else {
                false
            }),
            (if has_key(gs.take(n - entries@.len() as int), "target_binary"@) {
                value_of(gs.take(n - entries@.len() as int), "target_binary"@)
                    == JsonValue::Text(target_binary)
            } else {
                target_binary@ == Seq::<char>::empty()
            }),
            (match install_path {
                Some(s) => has_key(gs.take(n - entries@.len() as int), "install_path"@)
                    && value_of(gs.take(n - entries@.len() as int), "install_path"@)
                    == JsonValue::Text(s),
                None => !has_key(gs.take(n - entries@.len() as int), "install_path"@)
                    || value_of(gs.take(n - entries@.len() as int), "install_path"@) is Null,
            }),
            (match active_profile {
                Some(s) => has_key(gs.take(n - entries@.len() as int), "active_profile"@)
                    && value_of(gs.take(n - entries@.len() as int), "active_profile"@)
                    == JsonValue::Text(s),
                None => !has_key(gs.take(n - entries@.len() as int), "active_profile"@)
                    || value_of(gs.take(n - entries@.len() as int), "active_profile"@) is Null,
            }),
            (if has_key(gs.take(n - entries@.len() as int), "profiles"@) {
                let ps = value_of(gs.take(n - entries@.len() as int), "profiles"@).obj();
                profiles@.len() == ps.len() && forall|i: int| 0 <= i < ps.len() ==> (
                #[trigger] profiles@[i]).0 == ps[i].0 && profile_parsed(ps[i].1, profiles@[i].1)
                    && profiles@[i].1.wf()
            } else {
                profiles@.len() == 0
            }),
            profiles.wf(),
            extra@ == app_extras_of(gs.take(n - entries@.len() as int)),
            extra.wf(),
        decreases entries@.len(),
    {
        let ghost i = n - entries@.len() as int;
        let (k, val) = entries.remove(0);
        proof {
            assert(gs.skip(i)[0] == gs[i]);
            assert(gs.skip(i).remove(0) =~= gs.skip(i + 1));
            assert(gs.take(i + 1).drop_last() =~= gs.take(i));
            assert(gs.take(i + 1).last() == gs[i]);
            assert((k, val) == gs[i]);
            lemma_field_names_distinct();
            lemma_distinct_prefix_push(gs, i);
            lemma_value_of_snoc(gs.take(i), gs[i], "installed"@);
            lemma_value_of_snoc(gs.take(i), gs[i], "target_binary"@);
            lemma_value_of_snoc(gs.take(i), gs[i], "install_path"@);
            lemma_value_of_snoc(gs.take(i), gs[i], "active_profile"@);
            lemma_value_of_snoc(gs.take(i), gs[i], "profiles"@);
            crate::omap::lemma_key_index_of_entry(gs, i);
        }
        if crate::text::str_eq(k.as_str(), "installed") {
            match val {
                JsonValue::Bool(b) => {
                    installed = b;
                },
                _ => {
                    proof {
                        assert(false);
                    }
                },
            }
        } else if crate::text::str_eq(k.as_str(), "target_binary") {
            match val {
                JsonValue::Text(t) => {
                    target_binary = t;
                },
                _ => {
                    proof {
                        assert(false);
                    }
                },
            }
        } else if crate::text::str_eq(k.as_str(), "install_path") {
            match val {
                JsonValue::Null => {
                    install_path = None;
                },
                JsonValue::Text(t) => {
                    install_path = Some(t);
                },
                _ => {
                    proof {
                        assert(false);
                    }
                },
            }
        } else if crate::text::str_eq(k.as_str(), "active_profile") {
            match val {
                JsonValue::Null => {
                    active_profile = None;
                },
                JsonValue::Text(t) => {
                    active_profile = Some(t);
                },
                _ => {
                    proof {
                        assert(false);
                    }
                },
            }
        } else if crate::text::str_eq(k.as_str(), "profiles") {
            match val {
                JsonValue::Object(pm) => {
                    let ghost gps = pm@;
                    let mut pentries = pm.entries;
                    let ghost pn = gps.len();
                    let mut fresh: OrderedMap<ProfileConfig> = OrderedMap::new();
                    proof {
                        assert(value_of(gs, "profiles"@).obj() == gps);
                    }
                    while pentries.len() > 0
                        invariant
                            pentries@ == gps.skip(pn - pentries@.len() as int),
                            pn == gps.len(),
                            0 <= gps.len() - pentries@.len(),
                            distinct_keys(gps),
                            forall|j: int| 0 <= j < gps.len() ==> profile_shape_ok(
                                (#[trigger] gps[j]).1,
                            ),
                            fresh@.len() == pn - pentries@.len(),
                            forall|j: int| 0 <= j < pn - pentries@.len() ==> (
                            #[trigger] fresh@[j]).0 == gps[j].0 && profile_parsed(
                                gps[j].1,
                                fresh@[j].1,
                            ) && fresh@[j].1.wf(),
                            fresh.wf(),
                        decreases pentries@.len(),
                    {
                        let ghost pj = pn - pentries@.len() as int;
                        let (pk, pv) = pentries.remove(0);
                        proof {
                            assert(gps.skip(pj)[0] == gps[pj]);
                            assert(gps.skip(pj).remove(0) =~= gps.skip(pj + 1));
                            assert((pk, pv) == gps[pj]);
                            assert forall|q: int| 0 <= q < fresh@.len() implies fresh@[q].0@
                                != pk@ by {
                                assert(fresh@[q].0 == gps[q].0);
                                assert(gps[q].0@ != gps[pj].0@);
                            }
                        }
                        let p = profile_of_doc(&pv);
                        fresh.insert(pk, p);
                    }
                    profiles = fresh;
                },
                _ => {
                    proof {
                        assert(false);
                    }
                },
            }
        } else {
            proof {
                assert(!known_app_key(k@));
                assert forall|q: int| 0 <= q < extra@.len() implies extra@[q].0@ != k@ by {
                    assert(extra@[q] == app_extras_of(gs.take(i))[q]);
                    lemma_extras_subset(gs.take(i), q);
                }
            }
            extra.insert(k, val);
            proof {
                assert(extra@ =~= app_extras_of(gs.take(i + 1)));
            }
        }
        proof {
            assert(app_extras_of(gs.take(i + 1)) == app_extras_of(gs.take(i)) + (if known_app_key(
                gs[i].0@,
            ) {
                Seq::<(String, JsonValue)>::empty()
            } else {
                seq![gs[i]]
            }));
            if known_app_key(gs[i].0@) {
                assert(app_extras_of(gs.take(i + 1)) =~= app_extras_of(gs.take(i)));
            }
            if k@ != "install_path"@ {
                assert(has_key(gs.take(i + 1), "install_path"@) == has_key(
                    gs.take(i),
                    "install_path"@,
                ));
                if has_key(gs.take(i), "install_path"@) {
                    assert(value_of(gs.take(i + 1), "install_path"@) == value_of(
                        gs.take(i),
                        "install_path"@,
                    ));
                }
            } else {
                assert(has_key(gs.take(i + 1), "install_path"@));
                assert(value_of(gs.take(i + 1), "install_path"@) == gs[i].1);
            }
            if k@ != "active_profile"@ {
                assert(has_key(gs.take(i + 1), "active_profile"@) == has_key(
                    gs.take(i),
                    "active_profile"@,
                ));
                if has_key(gs.take(i), "active_profile"@) {
                    assert(value_of(gs.take(i + 1), "active_profile"@) == value_of(
                        gs.take(i),
                        "active_profile"@,
                    ));
                }
            } else {
                assert(has_key(gs.take(i + 1), "active_profile"@));
                assert(value_of(gs.take(i + 1), "active_profile"@) == gs[i].1);
            }
        }
    }
    proof {
        assert(gs.take(n as int) =~= gs);
    }
    AppConfig { installed, target_binary, install_path, active_profile, profiles, extra }
}

/// Each entry of `app_extras_of(s)` is an entry of `s`.
proof fn lemma_extras_subset(s: Seq<(String, JsonValue)>, q: int)
    requires
        0 <= q < app_extras_of(s).len(),
    ensures
        exists|w: int| 0 <= w < s.len() && app_extras_of(s)[q] == s[w],
    decreases s.len(),
{
    if s.len() > 0 {
        let rest = app_extras_of(s.drop_last());
        if q < rest.len() {
            lemma_extras_subset(s.drop_last(), q);
            let w = choose|w: int| 0 <= w < s.drop_last().len() && rest[q] == s.drop_last()[w];
            assert(s.drop_last()[w] == s[w]);
        } else {
            assert(app_extras_of(s)[q] == s.last());
        }
    }
}

/// A prefix of a sequence with distinct keys has distinct keys, and so has
/// the prefix one longer.
proof fn lemma_distinct_prefix_push(s: Seq<(String, JsonValue)>, i: int)
    requires
        0 <= i < s.len(),
        distinct_keys(s),
    ensures
        distinct_keys(s.take(i)),
        distinct_keys(s.take(i).push(s[i])),
        s.take(i).push(s[i]) == s.take(i + 1),
{
    assert forall|p: int, q: int| 0 <= p < q < i + 1 implies (#[trigger] s.take(i + 1)[p]).0@ != (
    #[trigger] s.take(i + 1)[q]).0@ by {
        assert(s[p].0@ != s[q].0@);
    }
    assert(s.take(i).push(s[i]) =~= s.take(i + 1));
    assert forall|p: int, q: int| 0 <= p < q < i implies (#[trigger] s.take(i)[p]).0@ != (
    #[trigger] s.take(i)[q]).0@ by {
        assert(s[p].0@ != s[q].0@);
    }
}

/// Read a whole state document.  Fails with a parse error, exactly when
/// the document is not well-shaped; otherwise every app is read and every
/// unrecognized top-level field is kept, in order.
pub fn state_from_doc(doc: JsonValue) -> (r: Result<State, CoreError>)
    ensures
        match r {
            Ok(st) => st.wf() && doc_shape_ok(doc) && state_parsed(doc, st),
            Err(e) => e.code == ErrorCode::Json && !doc_shape_ok(doc),
        },
{
    if !doc_shape_check(&doc) {
        return Err(err_json("malformed state document"));
    }
    let ghost gv = doc;
    let m = match doc {
        JsonValue::Object(m) => m,
        _ => {
            proof {
                assert(false);
            }
            return Err(err_json("malformed state document"));
        },
    };
    let ghost gs = m@;
    let mut entries = m.entries;
    let ghost n = gs.len();
    let mut apps: OrderedMap<AppConfig> = OrderedMap::new();
    let mut extra: OrderedMap<JsonValue> = OrderedMap::new();
    proof {
        assert(gs.take(0) =~= Seq::<(String, JsonValue)>::empty());
        assert(gs.take(n as int) =~= gs);
        assert(gv.obj() == gs);
    }
    while entries.len() > 0
        invariant
            entries@ == gs.skip(n - entries@.len() as int),
            n == gs.len(),
            0 <= gs.len() - entries@.len(),
            doc_shape_ok(gv),
            gv.obj() == gs,
            (if has_key(gs.take(n - entries@.len() as int), "apps"@) {
                let aps = value_of(gs.take(n - entries@.len() as int), "apps"@).obj();
                apps@.len() == aps.len() && forall|i: int| 0 <= i < aps.len() ==> (
                #[trigger] apps@[i]).0 == aps[i].0 && app_parsed(aps[i].1, apps@[i].1)
                    && apps@[i].1.wf()
            } else {
                apps@.len() == 0
            }),
            apps.wf(),
            extra@ == doc_extras_of(gs.take(n - entries@.len() as int)),
            extra.wf(),
        decreases entries@.len(),
    {
        let ghost i = n - entries@.len() as int;
        let (k, val) = entries.remove(0);
        proof {
            assert(gs.skip(i)[0] == gs[i]);
            assert(gs.skip(i).remove(0) =~= gs.skip(i + 1));
            assert(gs.take(i + 1).drop_last() =~= gs.take(i));
            assert(gs.take(i + 1).last() == gs[i]);
            assert((k, val) == gs[i]);
            lemma_distinct_prefix_push(gs, i);
            lemma_value_of_snoc(gs.take(i), gs[i], "apps"@);
            crate::omap::lemma_key_index_of_entry(gs, i);
        }
        if crate::text::str_eq(k.as_str(), "apps") {
            match val {
                JsonValue::Object(am) => {
                    let ghost gas = am@;
                    let mut aentries = am.entries;
                    let ghost an = gas.len();
                    let mut fresh: OrderedMap<AppConfig> = OrderedMap::new();
                    proof {
                        assert(value_of(gs, "apps"@).obj() == gas);
                    }
                    while aentries.len() > 0
                        invariant
                            aentries@ == gas.skip(an - aentries@.len() as int),
                            an == gas.len(),
                            0 <= gas.len() - aentries@.len(),
                            distinct_keys(gas),
                            forall|j: int| 0 <= j < gas.len() ==> app_shape_ok(
                                (#[trigger] gas[j]).1,
                            ),
                            fresh@.len() == an - aentries@.len(),
                            forall|j: int| 0 <= j < an - aentries@.len() ==> (
                            #[trigger] fresh@[j]).0 == gas[j].0 && app_parsed(
                                gas[j].1,
                                fresh@[j].1,
                            ) && fresh@[j].1.wf(),
                            fresh.wf(),
                        decreases aentries@.len(),
                    {
                        let ghost aj = an - aentries@.len() as int;
                        let (ak, av) = aentries.remove(0);
                        proof {
                            assert(gas.skip(aj)[0] == gas[aj]);
                            assert(gas.skip(aj).remove(0) =~= gas.skip(aj + 1));
                            assert((ak, av) == gas[aj]);
                            assert forall|q: int| 0 <= q < fresh@.len() implies fresh@[q].0@
                                != ak@ by {
                                assert(fresh@[q].0 == gas[q].0);
                                assert(gas[q].0@ != gas[aj].0@);
                            }
                        }
                        let a = app_of_doc(av);
                        fresh.insert(ak, a);
                    }
                    apps = fresh;
                },
                _ => {
                    proof {
                        assert(false);
                    }
                },
            }
        } else {
            proof {
                assert forall|q: int| 0 <= q < extra@.len() implies extra@[q].0@ != k@ by {
                    assert(extra@[q] == doc_extras_of(gs.take(i))[q]);
                    lemma_doc_extras_subset(gs.take(i), q);
                }
            }
            extra.insert(k, val);
            proof {
                assert(extra@ =~= doc_extras_of(gs.take(i + 1)));
            }
        }
        proof {
            if gs[i].0@ == "apps"@ {
                assert(doc_extras_of(gs.take(i + 1)) =~= doc_extras_of(gs.take(i)));
            }
        }
    }
    proof {
        assert(gs.take(n as int) =~= gs);
    }
    Ok(State { apps, extra })
}

/// Each entry of `doc_extras_of(s)` is an entry of `s`.
proof fn lemma_doc_extras_subset(s: Seq<(String, JsonValue)>, q: int)
    requires
        0 <= q < doc_extras_of(s).len(),
    ensures
        exists|w: int| 0 <= w < s.len() && doc_extras_of(s)[q] == s[w],
    decreases s.len(),
{
    if s.len() > 0 {
        let rest = doc_extras_of(s.drop_last());
        if q < rest.len() {
            lemma_doc_extras_subset(s.drop_last(), q);
            let w = choose|w: int| 0 <= w < s.drop_last().len() && rest[q] == s.drop_last()[w];
            assert(s.drop_last()[w] == s[w]);
        } else {
            assert(doc_extras_of(s)[q] == s.last());
        }
    }
}

// ---------------------------------------------------------------------------
// Writing
// ---------------------------------------------------------------------------

/// An object of strings written from bindings, entry for entry.
pub open spec fn env_written(env: Seq<(String, String)>, s: Seq<(String, JsonValue)>) -> bool {
    &&& s.len() == env.len()
    &&& forall|i: int| 0 <= i < env.len() ==> (#[trigger] s[i]).0 == env[i].0 && s[i].1
        == JsonValue::Text(env[i].1)
}

/// An array of strings written from arguments, element for element.
pub open spec fn args_written(args: Seq<String>, s: Seq<JsonValue>) -> bool {
    &&& s.len() == args.len()
    &&& forall|i: int| 0 <= i < args.len() ==> (#[trigger] s[i]) == JsonValue::Text(args[i])
}

/// How a profile is written: the rich shape, with its bindings and its
/// extra arguments in order.
pub open spec fn profile_doc_rel(p: ProfileConfig, d: JsonValue) -> bool {
    &&& d is Object
    &&& d.obj().len() == 2
    &&& d.obj()[0].0@ == "env"@
    &&& d.obj()[0].1 is Object
    &&& env_written(p.env@, d.obj()[0].1.obj())
    &&& d.obj()[1].0@ == "command_args"@
    &&& d.obj()[1].1 is Array
    &&& args_written(p.command_args@, d.obj()[1].1.arr())
}

/// How an app is written: the five recognized fields first, then every
/// preserved unrecognized field, in order.
pub open spec fn app_doc_rel(a: AppConfig, d: JsonValue) -> bool {
    &&& d is Object
    &&& d.obj().len() == 5 + a.extra@.len()
    &&& d.obj()[0].0@ == "installed"@ && d.obj()[0].1 == JsonValue::Bool(a.installed)
    &&& d.obj()[1].0@ == "target_binary"@ && d.obj()[1].1 == JsonValue::Text(a.target_binary)
    &&& d.obj()[2].0@ == "install_path"@ && (match a.install_path {
        Some(s) => d.obj()[2].1 == JsonValue::Text(s),
        None => d.obj()[2].1 is Null,
    })
    &&& d.obj()[3].0@ == "active_profile"@ && (match a.active_profile {
        Some(s) => d.obj()[3].1 == JsonValue::Text(s),
        None => d.obj()[3].1 is Null,
    })
    &&& d.obj()[4].0@ == "profiles"@ && d.obj()[4].1 is Object
    &&& {
        let ps = d.obj()[4].1.obj();
        &&& ps.len() == a.profiles@.len()
        &&& forall|i: int| 0 <= i < a.profiles@.len() ==> (#[trigger] ps[i]).0
            == a.profiles@[i].0 && profile_doc_rel(a.profiles@[i].1, ps[i].1)
    }
    &&& forall|j: int| 0 <= j < a.extra@.len() ==> d.obj()[5 + j] == a.extra@[j]
}

/// How a state is written: the `apps` object first, then every preserved
/// unrecognized top-level field, in order.
pub open spec fn state_doc_rel(st: State, d: JsonValue) -> bool {
    &&& d is Object
    &&& d.obj().len() == 1 + st.extra@.len()
    &&& d.obj()[0].0@ == "apps"@ && d.obj()[0].1 is Object
    &&& {
        let aps = d.obj()[0].1.obj();
        &&& aps.len() == st.apps@.len()
        &&& forall|i: int| 0 <= i < st.apps@.len() ==> (#[trigger] aps[i]).0 == st.apps@[i].0
            && app_doc_rel(st.apps@[i].1, aps[i].1)
    }
    &&& forall|j: int| 0 <= j < st.extra@.len() ==> d.obj()[1 + j] == st.extra@[j]
}

/// Write one profile in the rich shape.
fn profile_to_doc(p: ProfileConfig) -> (d: JsonValue)
    ensures
        profile_doc_rel(p, d),
{
    let ghost genv = p.env@;
    let ghost gargs = p.command_args@;
    let mut env_items: Vec<(String, JsonValue)> = Vec::new();
    let mut src = p.env.entries;
    let ghost n = genv.len();
    while src.len() > 0
        invariant
            src@ == genv.skip(n - src@.len() as int),
            n == genv.len(),
            0 <= genv.len() - src@.len(),
            env_items@.len() == n - src@.len(),
            forall|i: int| 0 <= i < env_items@.len() ==> (#[trigger] env_items@[i]).0
                == genv[i].0 && env_items@[i].1 == JsonValue::Text(genv[i].1),
        decreases src@.len(),
    {
        let ghost i = n - src@.len() as int;
        let (k, v) = src.remove(0);
        proof {
            assert(genv.skip(i)[0] == genv[i]);
            assert(genv.skip(i).remove(0) =~= genv.skip(i + 1));
        }
        env_items.push((k, JsonValue::Text(v)));
    }
    let mut arg_items: Vec<JsonValue> = Vec::new();
    let mut asrc = p.command_args;
    let ghost an = gargs.len();
    while asrc.len() > 0
        invariant
            asrc@ == gargs.skip(an - asrc@.len() as int),
            an == gargs.len(),
            0 <= gargs.len() - asrc@.len(),
            arg_items@.len() == an - asrc@.len(),
            forall|i: int| 0 <= i < arg_items@.len() ==> (#[trigger] arg_items@[i])
                == JsonValue::Text(gargs[i]),
        decreases asrc@.len(),
    {
        let ghost i = an - asrc@.len() as int;
        let a = asrc.remove(0);
        proof {
            assert(gargs.skip(i)[0] == gargs[i]);
            assert(gargs.skip(i).remove(0) =~= gargs.skip(i + 1));
        }
        arg_items.push(JsonValue::Text(a));
    }
    let mut items: Vec<(String, JsonValue)> = Vec::new();
    items.push(("env".to_owned(), JsonValue::Object(OrderedMap { entries: env_items })));
    items.push(("command_args".to_owned(), JsonValue::Array(arg_items)));
    JsonValue::Object(OrderedMap { entries: items })
}

/// Write one app: recognized fields, profiles, then its preserved fields.
fn app_to_doc(a: AppConfig) -> (d: JsonValue)
    ensures
        app_doc_rel(a, d),
{
    let ghost ga = a;
    let mut items: Vec<(String, JsonValue)> = Vec::new();
    items.push(("installed".to_owned(), JsonValue::Bool(a.installed)));
    items.push(("target_binary".to_owned(), JsonValue::Text(a.target_binary)));
    let ip = match a.install_path {
        Some(s) => JsonValue::Text(s),
        None => JsonValue::Null,
    };
    items.push(("install_path".to_owned(), ip));
    let ap = match a.active_profile {
        Some(s) => JsonValue::Text(s),
        None => JsonValue::Null,
    };
    items.push(("active_profile".to_owned(), ap));
    let ghost gprofiles = a.profiles@;
    let mut pitems: Vec<(String, JsonValue)> = Vec::new();
    let mut psrc = a.profiles.entries;
    let ghost pn = gprofiles.len();
    while psrc.len() > 0
        invariant
            psrc@ == gprofiles.skip(pn - psrc@.len() as int),
            pn == gprofiles.len(),
            0 <= gprofiles.len() - psrc@.len(),
            pitems@.len() == pn - psrc@.len(),
            forall|i: int| 0 <= i < pitems@.len() ==> (#[trigger] pitems@[i]).0
                == gprofiles[i].0 && profile_doc_rel(gprofiles[i].1, pitems@[i].1),
        decreases psrc@.len(),
    {
        let ghost i = pn - psrc@.len() as int;
        let (k, p) = psrc.remove(0);
        proof {
            assert(gprofiles.skip(i)[0] == gprofiles[i]);
            assert(gprofiles.skip(i).remove(0) =~= gprofiles.skip(i + 1));
        }
        let pd = profile_to_doc(p);
        pitems.push((k, pd));
    }
    items.push(("profiles".to_owned(), JsonValue::Object(OrderedMap { entries: pitems })));
    let mut extras = a.extra.entries;
    items.append(&mut extras);
    JsonValue::Object(OrderedMap { entries: items })
}

/// Write a whole state document: the apps under `"apps"`, then every
/// preserved top-level field, in order.
pub fn state_to_doc(st: State) -> (d: JsonValue)
    ensures
        state_doc_rel(st, d),
{
    let ghost gapps = st.apps@;
    let mut aitems: Vec<(String, JsonValue)> = Vec::new();
    let mut asrc = st.apps.entries;
    let ghost an = gapps.len();
    while asrc.len() > 0
        invariant
            asrc@ == gapps.skip(an - asrc@.len() as int),
            an == gapps.len(),
            0 <= gapps.len() - asrc@.len(),
            aitems@.len() == an - asrc@.len(),
            forall|i: int| 0 <= i < aitems@.len() ==> (#[trigger] aitems@[i]).0 == gapps[i].0
                && app_doc_rel(gapps[i].1, aitems@[i].1),
        decreases asrc@.len(),
    {
        let ghost i = an - asrc@.len() as int;
        let (k, a) = asrc.remove(0);
        proof {
            assert(gapps.skip(i)[0] == gapps[i]);
            assert(gapps.skip(i).remove(0) =~= gapps.skip(i + 1));
        }
        let ad = app_to_doc(a);
        aitems.push((k, ad));
    }
    let mut items: Vec<(String, JsonValue)> = Vec::new();
    items.push(("apps".to_owned(), JsonValue::Object(OrderedMap { entries: aitems })));
    let mut extras = st.extra.entries;
    items.append(&mut extras);
    JsonValue::Object(OrderedMap { entries: items })
}

// ---------------------------------------------------------------------------
// The round-trip law for unrecognized fields
// ---------------------------------------------------------------------------

/// Under distinct keys, dropping the `apps` entry changes no other key:
/// presence, values and distinctness of the remaining entries are kept.
pub proof fn lemma_doc_extras_pointwise(s: Seq<(String, JsonValue)>, k: Seq<char>)
    requires
        distinct_keys(s),
        k != "apps"@,
    ensures
        has_key(doc_extras_of(s), k) == has_key(s, k),
        has_key(s, k) ==> value_of(doc_extras_of(s), k) == value_of(s, k),
        distinct_keys(doc_extras_of(s)),
    decreases s.len(),
{
    if s.len() == 0 {
    } else {
        let d = s.drop_last();
        let e = s.last();
        assert forall|p: int, q: int| 0 <= p < q < d.len() implies (#[trigger] d[p]).0@ != (
        #[trigger] d[q]).0@ by {
            assert(s[p].0@ != s[q].0@);
        }
        lemma_doc_extras_pointwise(d, k);
        let e0 = doc_extras_of(d);
        assert(d.push(e) =~= s);
        lemma_value_of_snoc(d, e, k);
        if e.0@ == "apps"@ {
            assert(doc_extras_of(s) =~= e0);
        } else {
            assert(doc_extras_of(s) =~= e0.push(e));
            assert forall|p: int, q: int| 0 <= p < q < e0.push(e).len() implies (
            #[trigger] e0.push(e)[p]).0@ != (#[trigger] e0.push(e)[q]).0@ by {
                if q < e0.len() {
                    assert(e0[p].0@ != e0[q].0@);
                } else {
                    lemma_doc_extras_subset(d, p);
                    let w = choose|w: int| 0 <= w < d.len() && e0[p] == d[w];
                    assert(s[w].0@ != s[s.len() - 1].0@);
                }
            }
            lemma_value_of_snoc(e0, e, k);
        }
    }
}

/// Loading a well-shaped document and writing the validated state back
/// keeps every top-level field beside `apps`, in order, with its value
/// untouched.
pub proof fn lemma_unknown_fields_round_trip(doc: JsonValue, st: State, st2: State, out: JsonValue)
    requires
        doc_shape_ok(doc),
        state_parsed(doc, st),
        validated_state(st, st2),
        state_doc_rel(st2, out),
    ensures
        out.obj().len() == 1 + doc_extras_of(doc.obj()).len(),
        forall|j: int| 0 <= j < doc_extras_of(doc.obj()).len() ==> out.obj()[1 + j]
            == doc_extras_of(doc.obj())[j],
{
    assert(st.extra@ == doc_extras_of(doc.obj()));
    assert(st2.extra@ == st.extra@);
}

/// The same round trip, read key by key: any unrecognized top-level key of
/// the loaded document is present in the written document with the very
/// value it had.
pub proof fn lemma_unknown_field_value_kept(
    doc: JsonValue,
    st: State,
    st2: State,
    out: JsonValue,
    k: Seq<char>,
)
    requires
        doc_shape_ok(doc),
        state_parsed(doc, st),
        validated_state(st, st2),
        state_doc_rel(st2, out),
        k != "apps"@,
        has_key(doc.obj(), k),
    ensures
        has_key(out.obj(), k),
        value_of(out.obj(), k) == value_of(doc.obj(), k),
{
    lemma_doc_extras_pointwise(doc.obj(), k);
    let ex = doc_extras_of(doc.obj());
    assert(st2.extra@ == ex);
    let j = key_index(ex, k);
    assert(0 <= j < ex.len() && ex[j].0@ == k);
    assert(out.obj()[1 + j] == ex[j]);
    assert(out.obj()[1 + j].0@ == k);
    assert(has_key(out.obj(), k));
    let w = key_index(out.obj(), k);
    assert(0 <= w < out.obj().len() && out.obj()[w].0@ == k);
    assert(w != 0) by {
        reveal_strlit("apps");
    }
    assert(out.obj()[w] == ex[w - 1]);
    assert(ex[w - 1].0@ == k);
    crate::omap::lemma_key_index_of_entry(ex, j);
    assert(w - 1 == j);
    assert(value_of(out.obj(), k) == ex[j].1);
    assert(value_of(ex, k) == ex[j].1);
}


} // verus!
