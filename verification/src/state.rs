//! The persistent state model: apps keyed by alias, each with named profiles
//! of environment bindings and extra arguments, plus validation, which
//! repairs missing or dangling profile references and rejects blank targets.

use vstd::prelude::*;
use crate::error::{CoreError, ErrorCode};
use crate::json::JsonValue;
use crate::omap::{OrderedMap, has_key, distinct_keys};
use crate::text::{blank, is_blank};

verus! {

/// A named set of environment overrides (insertion-ordered) and extra
/// command-line arguments prepended at launch.
#[derive(Debug, Clone)]
pub struct ProfileConfig {
    pub env: OrderedMap<String>,
    pub command_args: Vec<String>,
}

impl ProfileConfig {
    pub open spec fn wf(&self) -> bool {
        distinct_keys(self.env@)
    }

    pub open spec fn is_empty_profile(&self) -> bool {
        self.env@.len() == 0 && self.command_args@.len() == 0
    }

    pub fn new() -> (r: Self)
        ensures
            r.is_empty_profile(),
            r.wf(),
    {
        ProfileConfig { env: OrderedMap::new(), command_args: Vec::new() }
    }

    /// A deep copy whose bindings and arguments read the same.
    pub fn duplicate(&self) -> (r: Self)
        ensures
            r.env@ == self.env@,
            r.command_args@ == self.command_args@,
    {
        let mut args: Vec<String> = Vec::new();
        let n = self.command_args.len();
        let mut i: usize = 0;
        while i < n
            invariant
                n == self.command_args@.len(),
                i <= n,
                args@.len() == i,
                forall|j: int| 0 <= j < i ==> args@[j] == self.command_args@[j],
            decreases n - i,
        {
            args.push(self.command_args[i].clone());
            i += 1;
        }
        proof {
            assert(args@ =~= self.command_args@);
        }
        ProfileConfig { env: self.env.duplicate(), command_args: args }
    }
}

impl Default for ProfileConfig {
    fn default() -> (r: Self)
        ensures
            r.is_empty_profile(),
            r.wf(),
    {
        ProfileConfig::new()
    }
}

/// Configuration of one registered app: its real target binary, an optional
/// install-directory override, the active profile, a best-effort installation
/// flag, its profiles, and any unrecognized fields of its persisted form.
#[derive(Debug)]
pub struct AppConfig {
    pub installed: bool,
    pub target_binary: String,
    pub install_path: Option<String>,
    pub active_profile: Option<String>,
    pub profiles: OrderedMap<ProfileConfig>,
    pub extra: OrderedMap<JsonValue>,
}

/// Every profile in the entry sequence is well-formed.
pub open spec fn all_profiles_wf(s: Seq<(String, ProfileConfig)>) -> bool {
    forall|i: int| 0 <= i < s.len() ==> (#[trigger] s[i]).1.wf()
}

impl AppConfig {
    pub open spec fn wf(&self) -> bool {
        &&& distinct_keys(self.profiles@)
        &&& distinct_keys(self.extra@)
        &&& all_profiles_wf(self.profiles@)
    }
}

impl Default for AppConfig {
    fn default() -> (r: Self)
        ensures
            r.installed == false,
            r.target_binary@ == Seq::<char>::empty(),
            r.install_path is None,
            r.active_profile is None,
            r.profiles@ == Seq::<(String, ProfileConfig)>::empty(),
            r.extra@ == Seq::<(String, JsonValue)>::empty(),
            r.wf(),
    {
        AppConfig {
            installed: false,
            target_binary: String::new(),
            install_path: None,
            active_profile: None,
            profiles: OrderedMap::new(),
            extra: OrderedMap::new(),
        }
    }
}

/// The root of the persisted state: apps keyed by alias, in insertion order,
/// plus any unrecognized top-level fields, preserved for round-tripping.
#[derive(Debug)]
pub struct State {
    pub apps: OrderedMap<AppConfig>,
    pub extra: OrderedMap<JsonValue>,
}

/// Every app in the entry sequence is well-formed.
pub open spec fn all_apps_wf(s: Seq<(String, AppConfig)>) -> bool {
    forall|i: int| 0 <= i < s.len() ==> (#[trigger] s[i]).1.wf()
}

impl State {
    pub open spec fn wf(&self) -> bool {
        &&& distinct_keys(self.apps@)
        &&& distinct_keys(self.extra@)
        &&& all_apps_wf(self.apps@)
    }
}

impl Default for State {
    fn default() -> (r: Self)
        ensures
            r.apps@ == Seq::<(String, AppConfig)>::empty(),
            r.extra@ == Seq::<(String, JsonValue)>::empty(),
            r.wf(),
    {
        State { apps: OrderedMap::new(), extra: OrderedMap::new() }
    }
}

/// Whether `n.active_profile` names the first profile of `n`, in insertion
/// order.
pub open spec fn active_is_first(n: AppConfig) -> bool {
    &&& n.profiles@.len() > 0
    &&& match n.active_profile {
        Some(q) => q == n.profiles@[0].0,
        None => false,
    }
}

/// How validation repairs one app: a missing profile map gains a single
/// empty `"default"` profile; an `active_profile` that no longer names a
/// profile (or was never set) becomes the first profile in insertion order;
/// everything else is untouched.
pub open spec fn validated_app(o: AppConfig, n: AppConfig) -> bool {
    &&& n.installed == o.installed
    &&& n.target_binary == o.target_binary
    &&& n.install_path == o.install_path
    &&& n.extra@ == o.extra@
    &&& if o.profiles@.len() == 0 {
        &&& n.profiles@.len() == 1
        &&& n.profiles@[0].0@ == "default"@
        &&& n.profiles@[0].1.is_empty_profile()
    } else {
        n.profiles@ == o.profiles@
    }
    &&& match o.active_profile {
        Some(p) => if has_key(n.profiles@, p@) {
            n.active_profile == Some(p)
        } else {
            active_is_first(n)
        },
        None => active_is_first(n),
    }
}

/// How validation transforms a whole state: every app is repaired in place;
/// aliases, their order, and unrecognized fields are untouched.
pub open spec fn validated_state(o: State, n: State) -> bool {
    &&& n.extra@ == o.extra@
    &&& n.apps@.len() == o.apps@.len()
    &&& forall|i: int| 0 <= i < o.apps@.len() ==> (#[trigger] n.apps@[i]).0 == o.apps@[i].0
        && validated_app(o.apps@[i].1, n.apps@[i].1)
}

/// Two states with the same entry sequences are equally well-formed.
pub proof fn lemma_wf_congruent(a: State, b: State)
    requires
        a.wf(),
        a.apps@ == b.apps@,
        a.extra@ == b.extra@,
    ensures
        b.wf(),
{
    assert forall|i: int| 0 <= i < b.apps@.len() implies (#[trigger] b.apps@[i]).1.wf() by {
        assert(a.apps@[i].1.wf());
    }
    assert forall|i: int, j: int| 0 <= i < j < b.apps@.len() implies b.apps@[i].0@
        != b.apps@[j].0@ by {
        assert(a.apps@[i].0@ != a.apps@[j].0@);
    }
    assert forall|i: int, j: int| 0 <= i < j < b.extra@.len() implies b.extra@[i].0@
        != b.extra@[j].0@ by {
        assert(a.extra@[i].0@ != a.extra@[j].0@);
    }
}

/// Validate and repair `state`: every app must have a non-blank target
/// binary, at least one profile (else a `"default"` profile is synthesized),
/// and an `active_profile` naming an existing profile (else it falls back to
/// the first profile in insertion order).  Fails, leaving the state
/// untouched, exactly when some app's target binary is blank.
pub fn validate_state(state: &mut State) -> (r: Result<(), CoreError>)
    requires
        old(state).wf(),
    ensures
        final(state).wf(),
        match r {
            Ok(()) => {
                &&& forall|i: int| 0 <= i < old(state).apps@.len() ==> !is_blank(
                    (#[trigger] old(state).apps@[i]).1.target_binary@,
                )
                &&& validated_state(*old(state), *final(state))
            },
            Err(e) => {
                &&& *final(state) == *old(state)
                &&& e.code == ErrorCode::InvalidState
                &&& exists|i: int| 0 <= i < old(state).apps@.len() && is_blank(
                    (#[trigger] old(state).apps@[i]).1.target_binary@,
                )
            },
        },
{
    let n = state.apps.len();
    let mut i: usize = 0;
    while i < n
        invariant
            old(state).wf(),
            n == state.apps@.len(),
            i <= n,
            *state == *old(state),
            forall|j: int| 0 <= j < i ==> !is_blank((#[trigger] state.apps@[j]).1.target_binary@),
        decreases n - i,
    {
        if blank(state.apps.value_at(i).target_binary.as_str()) {
            let mut m: String = "App \"".to_owned();
            m.append(state.apps.key_at(i).as_str());
            m.append("\" is missing target_binary");
            proof {
                lemma_wf_congruent(*old(state), *state);
            }
            return Err(CoreError::new(ErrorCode::InvalidState, m));
        }
        i += 1;
    }
    let ghost orig = *state;
    let mut i: usize = 0;
    while i < n
        invariant
            n == orig.apps@.len(),
            i <= n,
            orig.wf(),
            state.apps@.len() == orig.apps@.len(),
            state.extra@ == orig.extra@,
            forall|j: int| 0 <= j < orig.apps@.len() ==> (#[trigger] state.apps@[j]).0
                == orig.apps@[j].0,
            forall|j: int| i <= j < orig.apps@.len() ==> (#[trigger] state.apps@[j]).1
                == orig.apps@[j].1,
            forall|j: int| 0 <= j < i ==> validated_app(
                orig.apps@[j].1,
                (#[trigger] state.apps@[j]).1,
            ),
            forall|j: int| 0 <= j < orig.apps@.len() ==> (#[trigger] state.apps@[j]).1.wf(),
            distinct_keys(state.apps@),
        decreases n - i,
    {
        let app = state.apps.value_at_mut(i);
        if app.profiles.is_empty() {
            app.profiles.insert("default".to_owned(), ProfileConfig::new());
        }
        let keep = match &app.active_profile {
            Some(p) => app.profiles.contains_key(p.as_str()),
            None => false,
        };
        if !keep {
            match app.profiles.first_key() {
                Some(k) => {
                    app.active_profile = Some(k);
                },
                None => {
                    proof {
                        assert(false);
                    }
                },
            }
        }
        i += 1;
    }
    Ok(())
}

/// Validation gives every app that had no profiles exactly one profile,
/// named `"default"`, with no bindings and no extra arguments, and makes it
/// the active profile.
pub proof fn lemma_validation_synthesizes_default(o: State, n: State, i: int)
    requires
        validated_state(o, n),
        0 <= i < o.apps@.len(),
        o.apps@[i].1.profiles@.len() == 0,
    ensures
        n.apps@[i].1.profiles@.len() == 1,
        n.apps@[i].1.profiles@[0].0@ == "default"@,
        n.apps@[i].1.profiles@[0].1.is_empty_profile(),
        match n.apps@[i].1.active_profile {
            Some(q) => q@ == "default"@,
            None => false,
        },
{
    let oa = o.apps@[i].1;
    let na = n.apps@[i].1;
    assert(validated_app(oa, na));
    match oa.active_profile {
        Some(p) => {
            if has_key(na.profiles@, p@) {
                assert(na.profiles@[crate::omap::key_index(na.profiles@, p@)].0@ == p@);
                assert(p@ == "default"@);
            }
        },
        None => {},
    }
}

/// Validation resets an `active_profile` that names no existing profile to
/// the first profile in insertion order, and leaves the profiles themselves
/// untouched.
pub proof fn lemma_validation_repairs_dangling_active(o: State, n: State, i: int)
    requires
        validated_state(o, n),
        0 <= i < o.apps@.len(),
        o.apps@[i].1.profiles@.len() > 0,
        match o.apps@[i].1.active_profile {
            Some(p) => !has_key(o.apps@[i].1.profiles@, p@),
            None => true,
        },
    ensures
        n.apps@[i].1.profiles@ == o.apps@[i].1.profiles@,
        match n.apps@[i].1.active_profile {
            Some(q) => q == o.apps@[i].1.profiles@[0].0,
            None => false,
        },
{
    assert(validated_app(o.apps@[i].1, n.apps@[i].1));
}

} // verus!
