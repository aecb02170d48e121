//! Registry operations on the persistent state: register an app, switch the
//! active profile, list, add, remove and clone profiles, and set or remove a
//! profile's environment bindings.
//!
//! Every operation is a pure transformation of a [`State`] value; callers
//! load the state beforehand and persist it afterwards.  An operation that
//! fails returns its error kind and leaves the state exactly as it was.

use vstd::prelude::*;
use crate::error::{CoreError, ErrorCode};
use crate::omap::{has_key, key_index, value_of};
use crate::state::{
    AppConfig,
    ProfileConfig,
    State,
    all_profiles_wf,
    validate_state,
    validated_state,
};
use crate::text::{blank, is_blank};

verus! {

// ---------------------------------------------------------------------------
// Frame conditions and helper lemmas
// ---------------------------------------------------------------------------

/// `n` equals `o` except possibly at index `i`, where the key is unchanged.
pub open spec fn apps_updated_at(
    o: Seq<(String, AppConfig)>,
    n: Seq<(String, AppConfig)>,
    i: int,
) -> bool {
    &&& 0 <= i < o.len()
    &&& n.len() == o.len()
    &&& forall|j: int| 0 <= j < o.len() && j != i ==> n[j] == o[j]
    &&& n[i].0 == o[i].0
}

/// `n` equals `o` except possibly at index `i`, where the key is unchanged.
pub open spec fn profiles_updated_at(
    o: Seq<(String, ProfileConfig)>,
    n: Seq<(String, ProfileConfig)>,
    i: int,
) -> bool {
    &&& 0 <= i < o.len()
    &&& n.len() == o.len()
    &&& forall|j: int| 0 <= j < o.len() && j != i ==> n[j] == o[j]
    &&& n[i].0 == o[i].0
}

/// A state stays well-formed when one app is replaced by a well-formed app
/// under the same alias.
pub proof fn lemma_wf_after_app_update(o: State, n: State, i: int)
    requires
        o.wf(),
        n.extra@ == o.extra@,
        apps_updated_at(o.apps@, n.apps@, i),
        n.apps@[i].1.wf(),
    ensures
        n.wf(),
{
    assert forall|p: int| 0 <= p < n.apps@.len() implies (#[trigger] n.apps@[p]).1.wf() by {
        if p != i {
            assert(o.apps@[p].1.wf());
        }
    }
    assert forall|p: int, q: int| 0 <= p < q < n.apps@.len() implies n.apps@[p].0@
        != n.apps@[q].0@ by {
        assert(o.apps@[p].0@ != o.apps@[q].0@);
        assert(n.apps@[p].0 == o.apps@[p].0);
        assert(n.apps@[q].0 == o.apps@[q].0);
    }
    assert forall|p: int, q: int| 0 <= p < q < n.extra@.len() implies n.extra@[p].0@
        != n.extra@[q].0@ by {
        assert(o.extra@[p].0@ != o.extra@[q].0@);
    }
}

/// An app stays well-formed when one profile is replaced by a well-formed
/// profile under the same name.
pub proof fn lemma_app_wf_after_profile_update(o: AppConfig, n: AppConfig, i: int)
    requires
        o.wf(),
        n.extra@ == o.extra@,
        profiles_updated_at(o.profiles@, n.profiles@, i),
        n.profiles@[i].1.wf(),
    ensures
        n.wf(),
{
    assert forall|p: int| 0 <= p < n.profiles@.len() implies (#[trigger] n.profiles@[p]).1.wf() by {
        if p != i {
            assert(o.profiles@[p].1.wf());
        }
    }
    assert forall|p: int, q: int| 0 <= p < q < n.profiles@.len() implies n.profiles@[p].0@
        != n.profiles@[q].0@ by {
        assert(o.profiles@[p].0@ != o.profiles@[q].0@);
        assert(n.profiles@[p].0 == o.profiles@[p].0);
        assert(n.profiles@[q].0 == o.profiles@[q].0);
    }
}

// ---------------------------------------------------------------------------
// Error constructors
// ---------------------------------------------------------------------------

fn err_app_not_found(name: &str) -> (r: CoreError)
    ensures
        r.code == ErrorCode::AppNotFound,
{
    let mut m: String = "App \"".to_owned();
    m.append(name);
    m.append("\" is not registered");
    CoreError::new(ErrorCode::AppNotFound, m)
}

fn err_profile_not_found(profile: &str, name: &str) -> (r: CoreError)
    ensures
        r.code == ErrorCode::ProfileNotFound,
{
    let mut m: String = "Profile \"".to_owned();
    m.append(profile);
    m.append("\" not found for app \"");
    m.append(name);
    m.append("\"");
    CoreError::new(ErrorCode::ProfileNotFound, m)
}

fn err_invalid(message: &str) -> (r: CoreError)
    ensures
        r.code == ErrorCode::InvalidState,
{
    CoreError::new(ErrorCode::InvalidState, message.to_owned())
}

// ---------------------------------------------------------------------------
// Register
// ---------------------------------------------------------------------------

/// How registering rewrites one app's configuration: the target binary is
/// replaced, the installed flag is cleared, a missing active profile becomes
/// `"default"`, an empty profile map gains an empty `"default"` profile, and
/// everything else is kept.
pub open spec fn registered_from(o: AppConfig, n: AppConfig, target: Seq<char>) -> bool {
    &&& n.target_binary@ == target
    &&& n.installed == false
    &&& n.install_path == o.install_path
    &&& n.extra@ == o.extra@
    &&& match o.active_profile {
        Some(p) => n.active_profile == Some(p),
        None => match n.active_profile {
            Some(q) => q@ == "default"@,
            None => false,
        },
    }
    &&& if o.profiles@.len() == 0 {
        &&& n.profiles@.len() == 1
        &&& n.profiles@[0].0@ == "default"@
        &&& n.profiles@[0].1.is_empty_profile()
    } else {
        n.profiles@ == o.profiles@
    }
}

/// The state right after the register mutation, before validation: app
/// `name` is created or overwritten per [`registered_from`]; nothing else
/// moves.
pub open spec fn register_mutation(o: State, m: State, name: Seq<char>, target: Seq<char>) -> bool {
    &&& m.extra@ == o.extra@
    &&& if has_key(o.apps@, name) {
        &&& apps_updated_at(o.apps@, m.apps@, key_index(o.apps@, name))
        &&& registered_from(o.apps@[key_index(o.apps@, name)].1, m.apps@[key_index(o.apps@, name)].1, target)
    } else {
        &&& m.apps@.len() == o.apps@.len() + 1
        &&& forall|j: int| 0 <= j < o.apps@.len() ==> m.apps@[j] == o.apps@[j]
        &&& m.apps@[o.apps@.len() as int].0@ == name
        &&& fresh_registered_app(m.apps@[o.apps@.len() as int].1, target)
    }
}

/// The configuration of an app created from scratch by registration: the
/// given target, a single empty `"default"` profile which is active, and
/// nothing else.
pub open spec fn fresh_registered_app(n: AppConfig, target: Seq<char>) -> bool {
    &&& n.target_binary@ == target
    &&& n.installed == false
    &&& n.install_path is None
    &&& n.extra@.len() == 0
    &&& match n.active_profile {
        Some(q) => q@ == "default"@,
        None => false,
    }
    &&& n.profiles@.len() == 1
    &&& n.profiles@[0].0@ == "default"@
    &&& n.profiles@[0].1.is_empty_profile()
}

/// Create or overwrite app `name` with target binary `target`, clear its
/// installed flag, make sure it has a `"default"` profile and an active
/// profile, and validate the whole state.  Fails with Invalid-state, leaving
/// the state untouched, when `name` or `target` is blank, or when another
/// registered app has a blank target binary.
pub fn register_app(state: &mut State, name: &str, target: &str) -> (r: Result<(), CoreError>)
    requires
        old(state).wf(),
    ensures
        final(state).wf(),
        match r {
            Ok(()) => {
                &&& !is_blank(name@)
                &&& !is_blank(target@)
                &&& exists|m: State|
                    register_mutation(*old(state), m, name@, target@) && validated_state(
                        m,
                        *final(state),
                    )
            },
            Err(e) => {
                &&& *final(state) == *old(state)
                &&& e.code == ErrorCode::InvalidState
                &&& (is_blank(name@) || is_blank(target@) || exists|j: int|
                    0 <= j < old(state).apps@.len() && old(state).apps@[j].0@ != name@ && is_blank(
                        (#[trigger] old(state).apps@[j]).1.target_binary@,
                    ))
            },
        },
{
    if blank(name) || blank(target) {
        return Err(err_invalid("App name and target must be non-empty"));
    }
    // Any other app with a blank target makes validation fail; report it
    // first, before touching the state.
    let napps = state.apps.len();
    let mut j: usize = 0;
    while j < napps
        invariant
            old(state).wf(),
            *state == *old(state),
            napps == state.apps@.len(),
            j <= napps,
            forall|p: int| 0 <= p < j ==> (#[trigger] state.apps@[p]).0@ == name@ || !is_blank(
                state.apps@[p].1.target_binary@,
            ),
        decreases napps - j,
    {
        let key_matches = {
            let k: String = name.to_owned();
            *state.apps.key_at(j) == k
        };
        if !key_matches && blank(state.apps.value_at(j).target_binary.as_str()) {
            let mut m: String = "App \"".to_owned();
            m.append(state.apps.key_at(j).as_str());
            m.append("\" is missing target_binary");
            proof {
                crate::state::lemma_wf_congruent(*old(state), *state);
            }
            return Err(CoreError::new(ErrorCode::InvalidState, m));
        }
        j += 1;
    }
    if !state.apps.contains_key(name) {
        state.apps.insert(name.to_owned(), AppConfig::default());
        proof {
            assert(state.apps@.last().1.wf());
            assert forall|p: int| 0 <= p < state.apps@.len() implies (
            #[trigger] state.apps@[p]).1.wf() by {
                if p < state.apps@.len() - 1 {
                    assert(old(state).apps@[p].1.wf());
                }
            }
        }
    }
    let idx = match state.apps.index_of(name) {
        Some(i) => i,
        None => {
            proof {
                assert(false);
            }
            0
        },
    };
    let ghost pre = *state;
    let app = state.apps.value_at_mut(idx);
    app.target_binary = target.to_owned();
    if app.active_profile.is_none() {
        app.active_profile = Some("default".to_owned());
    }
    if app.profiles.is_empty() {
        app.profiles.insert("default".to_owned(), ProfileConfig::new());
    }
    app.installed = false;
    proof {
        assert(state.apps@[idx as int].1.wf());
        lemma_wf_after_app_update(pre, *state, idx as int);
        assert(register_mutation(*old(state), *state, name@, target@));
    }
    let ghost mid = *state;
    match validate_state(state) {
        Ok(()) => {
            proof {
                assert(register_mutation(*old(state), mid, name@, target@) && validated_state(
                    mid,
                    *state,
                ));
            }
            Ok(())
        },
        Err(e) => {
            proof {
                assert(forall|p: int|
                    0 <= p < mid.apps@.len() ==> !is_blank(
                        (#[trigger] mid.apps@[p]).1.target_binary@,
                    ));
                assert(false);
            }
            Err(e)
        },
    }
}

// ---------------------------------------------------------------------------
// Active profile
// ---------------------------------------------------------------------------

/// Make `profile` the active profile of app `name`.  Fails App-not-found or
/// Profile-not-found, leaving the state untouched, when the app or the
/// profile does not exist.
pub fn set_active_profile(state: &mut State, name: &str, profile: &str) -> (r: Result<
    (),
    CoreError,
>)
    requires
        old(state).wf(),
    ensures
        final(state).wf(),
        match r {
            Ok(()) => {
                &&& has_key(old(state).apps@, name@)
                &&& has_key(value_of(old(state).apps@, name@).profiles@, profile@)
                &&& final(state).extra@ == old(state).extra@
                &&& apps_updated_at(
                    old(state).apps@,
                    final(state).apps@,
                    key_index(old(state).apps@, name@),
                )
                &&& {
                    let o = value_of(old(state).apps@, name@);
                    let n = final(state).apps@[key_index(old(state).apps@, name@)].1;
                    &&& n.installed == o.installed
                    &&& n.target_binary == o.target_binary
                    &&& n.install_path == o.install_path
                    &&& n.profiles@ == o.profiles@
                    &&& n.extra@ == o.extra@
                    &&& match n.active_profile {
                        Some(q) => q@ == profile@,
                        None => false,
                    }
                }
            },
            Err(e) => {
                &&& *final(state) == *old(state)
                &&& (if !has_key(old(state).apps@, name@) {
                    e.code == ErrorCode::AppNotFound
                } else {
                    e.code == ErrorCode::ProfileNotFound && !has_key(
                        value_of(old(state).apps@, name@).profiles@,
                        profile@,
                    )
                })
            },
        },
{
    let idx = match state.apps.index_of(name) {
        Some(i) => i,
        None => {
            return Err(err_app_not_found(name));
        },
    };
    if !state.apps.value_at(idx).profiles.contains_key(profile) {
        return Err(err_profile_not_found(profile, name));
    }
    let ghost pre = *state;
    let app = state.apps.value_at_mut(idx);
    app.active_profile = Some(profile.to_owned());
    proof {
        assert(state.apps@[idx as int].1.wf());
        lemma_wf_after_app_update(pre, *state, idx as int);
    }
    Ok(())
}

// ---------------------------------------------------------------------------
// Listing
// ---------------------------------------------------------------------------

/// The registered aliases, in insertion order.
pub fn list_apps(state: &State) -> (r: Vec<String>)
    ensures
        r@.len() == state.apps@.len(),
        forall|i: int| 0 <= i < state.apps@.len() ==> r@[i] == state.apps@[i].0,
{
    state.apps.keys()
}

/// The profile names of app `name`, in insertion order.  Fails App-not-found
/// when the app does not exist.
pub fn list_profiles(state: &State, name: &str) -> (r: Result<Vec<String>, CoreError>)
    requires
        state.wf(),
    ensures
        match r {
            Ok(v) => {
                &&& has_key(state.apps@, name@)
                &&& v@.len() == value_of(state.apps@, name@).profiles@.len()
                &&& forall|i: int| 0 <= i < v@.len() ==> v@[i] == value_of(
                    state.apps@,
                    name@,
                ).profiles@[i].0
            },
            Err(e) => e.code == ErrorCode::AppNotFound && !has_key(state.apps@, name@),
        },
{
    match state.apps.get(name) {
        Some(app) => Ok(app.profiles.keys()),
        None => Err(err_app_not_found(name)),
    }
}

// ---------------------------------------------------------------------------
// Add / remove / clone profiles
// ---------------------------------------------------------------------------

/// Add an empty profile named `profile` to app `name`; if the profile
/// already exists it is kept as is.  Either way, an unset active profile
/// becomes `profile`.  Fails Invalid-state on a blank profile name and
/// App-not-found when the app does not exist, leaving the state untouched.
pub fn add_profile(state: &mut State, name: &str, profile: &str) -> (r: Result<(), CoreError>)
    requires
        old(state).wf(),
    ensures
        final(state).wf(),
        match r {
            Ok(()) => {
                &&& !is_blank(profile@)
                &&& has_key(old(state).apps@, name@)
                &&& final(state).extra@ == old(state).extra@
                &&& apps_updated_at(
                    old(state).apps@,
                    final(state).apps@,
                    key_index(old(state).apps@, name@),
                )
                &&& {
                    let o = value_of(old(state).apps@, name@);
                    let n = final(state).apps@[key_index(old(state).apps@, name@)].1;
                    &&& n.installed == o.installed
                    &&& n.target_binary == o.target_binary
                    &&& n.install_path == o.install_path
                    &&& n.extra@ == o.extra@
                    &&& if has_key(o.profiles@, profile@) {
                        n.profiles@ == o.profiles@
                    } else {
                        &&& n.profiles@.len() == o.profiles@.len() + 1
                        &&& forall|j: int| 0 <= j < o.profiles@.len() ==> n.profiles@[j]
                            == o.profiles@[j]
                        &&& n.profiles@.last().0@ == profile@
                        &&& n.profiles@.last().1.is_empty_profile()
                    }
                    &&& match o.active_profile {
                        Some(p) => n.active_profile == Some(p),
                        None => match n.active_profile {
                            Some(q) => q@ == profile@,
                            None => false,
                        },
                    }
                }
            },
            Err(e) => {
                &&& *final(state) == *old(state)
                &&& (if is_blank(profile@) {
                    e.code == ErrorCode::InvalidState
                } else {
                    e.code == ErrorCode::AppNotFound && !has_key(old(state).apps@, name@)
                })
            },
        },
{
    if blank(profile) {
        return Err(err_invalid("Profile name must be non-empty"));
    }
    let idx = match state.apps.index_of(name) {
        Some(i) => i,
        None => {
            return Err(err_app_not_found(name));
        },
    };
    let ghost pre = *state;
    let app = state.apps.value_at_mut(idx);
    if !app.profiles.contains_key(profile) {
        app.profiles.insert(profile.to_owned(), ProfileConfig::new());
    }
    if app.active_profile.is_none() {
        app.active_profile = Some(profile.to_owned());
    }
    proof {
        assert(all_profiles_wf(state.apps@[idx as int].1.profiles@));
        assert(state.apps@[idx as int].1.wf());
        lemma_wf_after_app_update(pre, *state, idx as int);
    }
    Ok(())
}

/// Remove profile `profile` from app `name`, keeping the order of the
/// remaining profiles.  If the removed profile was active, the first
/// remaining profile becomes active, or none when no profile remains.
/// Fails App-not-found or Profile-not-found, leaving the state untouched.
pub fn remove_profile(state: &mut State, name: &str, profile: &str) -> (r: Result<(), CoreError>)
    requires
        old(state).wf(),
    ensures
        final(state).wf(),
        match r {
            Ok(()) => {
                &&& has_key(old(state).apps@, name@)
                &&& has_key(value_of(old(state).apps@, name@).profiles@, profile@)
                &&& final(state).extra@ == old(state).extra@
                &&& apps_updated_at(
                    old(state).apps@,
                    final(state).apps@,
                    key_index(old(state).apps@, name@),
                )
                &&& {
                    let o = value_of(old(state).apps@, name@);
                    let n = final(state).apps@[key_index(old(state).apps@, name@)].1;
                    &&& n.installed == o.installed
                    &&& n.target_binary == o.target_binary
                    &&& n.install_path == o.install_path
                    &&& n.extra@ == o.extra@
                    &&& n.profiles@ == crate::omap::remove_key(o.profiles@, profile@)
                    &&& match o.active_profile {
                        Some(p) => if p@ == profile@ {
                            if n.profiles@.len() > 0 {
                                match n.active_profile {
                                    Some(q) => q == n.profiles@[0].0,
                                    None => false,
                                }
                            } else {
                                n.active_profile is None
                            }
                        } else {
                            n.active_profile == Some(p)
                        },
                        None => n.active_profile is None,
                    }
                }
            },
            Err(e) => {
                &&& *final(state) == *old(state)
                &&& (if !has_key(old(state).apps@, name@) {
                    e.code == ErrorCode::AppNotFound
                } else {
                    e.code == ErrorCode::ProfileNotFound && !has_key(
                        value_of(old(state).apps@, name@).profiles@,
                        profile@,
                    )
                })
            },
        },
{
    let idx = match state.apps.index_of(name) {
        Some(i) => i,
        None => {
            return Err(err_app_not_found(name));
        },
    };
    if !state.apps.value_at(idx).profiles.contains_key(profile) {
        return Err(err_profile_not_found(profile, name));
    }
    let ghost pre = *state;
    let app = state.apps.value_at_mut(idx);
    let ghost oprofiles = app.profiles@;
    let removed = app.profiles.shift_remove(profile);
    proof {
        assert(removed is Some);
    }
    let was_active = match &app.active_profile {
        Some(p) => {
            let pr: String = profile.to_owned();
            *p == pr
        },
        None => false,
    };
    if was_active {
        app.active_profile = app.profiles.first_key();
    }
    proof {
        assert(all_profiles_wf(state.apps@[idx as int].1.profiles@)) by {
            assert forall|p: int|
                0 <= p < state.apps@[idx as int].1.profiles@.len() implies (
            #[trigger] state.apps@[idx as int].1.profiles@[p]).1.wf() by {
                let k = key_index(oprofiles, profile@);
                if p < k {
                    assert(oprofiles[p].1.wf());
                } else {
                    assert(oprofiles[p + 1].1.wf());
                }
            }
        }
        assert(state.apps@[idx as int].1.wf());
        lemma_wf_after_app_update(pre, *state, idx as int);
    }
    Ok(())
}

/// Deep-copy profile `from_profile` of app `name` to a new profile named
/// `to_profile`, appended last; an unset active profile becomes the copy.
/// Fails Invalid-state on a blank or already-existing target name,
/// App-not-found or Profile-not-found otherwise, leaving the state (and in
/// particular every existing profile) untouched.
pub fn clone_profile(state: &mut State, name: &str, from_profile: &str, to_profile: &str) -> (r:
    Result<(), CoreError>)
    requires
        old(state).wf(),
    ensures
        final(state).wf(),
        match r {
            Ok(()) => {
                &&& !is_blank(to_profile@)
                &&& has_key(old(state).apps@, name@)
                &&& has_key(value_of(old(state).apps@, name@).profiles@, from_profile@)
                &&& !has_key(value_of(old(state).apps@, name@).profiles@, to_profile@)
                &&& final(state).extra@ == old(state).extra@
                &&& apps_updated_at(
                    old(state).apps@,
                    final(state).apps@,
                    key_index(old(state).apps@, name@),
                )
                &&& {
                    let o = value_of(old(state).apps@, name@);
                    let n = final(state).apps@[key_index(old(state).apps@, name@)].1;
                    &&& n.installed == o.installed
                    &&& n.target_binary == o.target_binary
                    &&& n.install_path == o.install_path
                    &&& n.extra@ == o.extra@
                    &&& n.profiles@.len() == o.profiles@.len() + 1
                    &&& forall|j: int| 0 <= j < o.profiles@.len() ==> n.profiles@[j]
                        == o.profiles@[j]
                    &&& n.profiles@.last().0@ == to_profile@
                    &&& n.profiles@.last().1.env@ == value_of(
                        o.profiles@,
                        from_profile@,
                    ).env@
                    &&& n.profiles@.last().1.command_args@ == value_of(
                        o.profiles@,
                        from_profile@,
                    ).command_args@
                    &&& match o.active_profile {
                        Some(p) => n.active_profile == Some(p),
                        None => match n.active_profile {
                            Some(q) => q@ == to_profile@,
                            None => false,
                        },
                    }
                }
            },
            Err(e) => {
                &&& *final(state) == *old(state)
                &&& (if is_blank(to_profile@) {
                    e.code == ErrorCode::InvalidState
                } else if !has_key(old(state).apps@, name@) {
                    e.code == ErrorCode::AppNotFound
                } else if !has_key(
                    value_of(old(state).apps@, name@).profiles@,
                    from_profile@,
                ) {
                    e.code == ErrorCode::ProfileNotFound
                } else {
                    e.code == ErrorCode::InvalidState && has_key(
                        value_of(old(state).apps@, name@).profiles@,
                        to_profile@,
                    )
                })
            },
        },
{
    if blank(to_profile) {
        return Err(err_invalid("Target profile name must be non-empty"));
    }
    let idx = match state.apps.index_of(name) {
        Some(i) => i,
        None => {
            return Err(err_app_not_found(name));
        },
    };
    let from_idx = match state.apps.value_at(idx).profiles.index_of(from_profile) {
        Some(j) => j,
        None => {
            let mut m: String = "Source profile \"".to_owned();
            m.append(from_profile);
            m.append("\" not found for app \"");
            m.append(name);
            m.append("\"");
            return Err(CoreError::new(ErrorCode::ProfileNotFound, m));
        },
    };
    if state.apps.value_at(idx).profiles.contains_key(to_profile) {
        let mut m: String = "Target profile \"".to_owned();
        m.append(to_profile);
        m.append("\" already exists");
        return Err(CoreError::new(ErrorCode::InvalidState, m));
    }
    let ghost pre = *state;
    let app = state.apps.value_at_mut(idx);
    let copied = app.profiles.value_at(from_idx).duplicate();
    app.profiles.insert(to_profile.to_owned(), copied);
    if app.active_profile.is_none() {
        app.active_profile = Some(to_profile.to_owned());
    }
    proof {
        assert(all_profiles_wf(state.apps@[idx as int].1.profiles@));
        assert(state.apps@[idx as int].1.wf());
        lemma_wf_after_app_update(pre, *state, idx as int);
    }
    Ok(())
}

// ---------------------------------------------------------------------------
// Environment bindings
// ---------------------------------------------------------------------------

/// Bind `key` to `value` in profile `profile` of app `name`: an existing
/// binding is overwritten in place, a new one is appended.  Fails
/// Invalid-state on a blank key, App-not-found or Profile-not-found
/// otherwise, leaving the state untouched.
pub fn set_profile_env(state: &mut State, name: &str, profile: &str, key: &str, value: &str) -> (r:
    Result<(), CoreError>)
    requires
        old(state).wf(),
    ensures
        final(state).wf(),
        match r {
            Ok(()) => {
                &&& !is_blank(key@)
                &&& has_key(old(state).apps@, name@)
                &&& has_key(value_of(old(state).apps@, name@).profiles@, profile@)
                &&& final(state).extra@ == old(state).extra@
                &&& apps_updated_at(
                    old(state).apps@,
                    final(state).apps@,
                    key_index(old(state).apps@, name@),
                )
                &&& {
                    let o = value_of(old(state).apps@, name@);
                    let n = final(state).apps@[key_index(old(state).apps@, name@)].1;
                    &&& n.installed == o.installed
                    &&& n.target_binary == o.target_binary
                    &&& n.install_path == o.install_path
                    &&& n.extra@ == o.extra@
                    &&& n.active_profile == o.active_profile
                    &&& profiles_updated_at(
                        o.profiles@,
                        n.profiles@,
                        key_index(o.profiles@, profile@),
                    )
                    &&& {
                        let op = value_of(o.profiles@, profile@);
                        let np = n.profiles@[key_index(o.profiles@, profile@)].1;
                        &&& np.command_args@ == op.command_args@
                        &&& if has_key(op.env@, key@) {
                            &&& np.env@.len() == op.env@.len()
                            &&& forall|j: int|
                                0 <= j < op.env@.len() && j != key_index(op.env@, key@)
                                    ==> np.env@[j] == op.env@[j]
                            &&& np.env@[key_index(op.env@, key@)].0 == op.env@[key_index(
                                op.env@,
                                key@,
                            )].0
                            &&& np.env@[key_index(op.env@, key@)].1@ == value@
                        } else {
                            &&& np.env@.len() == op.env@.len() + 1
                            &&& forall|j: int| 0 <= j < op.env@.len() ==> np.env@[j] == op.env@[j]
                            &&& np.env@.last().0@ == key@
                            &&& np.env@.last().1@ == value@
                        }
                    }
                }
            },
            Err(e) => {
                &&& *final(state) == *old(state)
                &&& (if is_blank(key@) {
                    e.code == ErrorCode::InvalidState
                } else if !has_key(old(state).apps@, name@) {
                    e.code == ErrorCode::AppNotFound
                } else {
                    e.code == ErrorCode::ProfileNotFound && !has_key(
                        value_of(old(state).apps@, name@).profiles@,
                        profile@,
                    )
                })
            },
        },
{
    if blank(key) {
        return Err(err_invalid("Environment key must be non-empty"));
    }
    let idx = match state.apps.index_of(name) {
        Some(i) => i,
        None => {
            return Err(err_app_not_found(name));
        },
    };
    let pidx = match state.apps.value_at(idx).profiles.index_of(profile) {
        Some(j) => j,
        None => {
            return Err(err_profile_not_found(profile, name));
        },
    };
    let ghost pre = *state;
    let app = state.apps.value_at_mut(idx);
    let ghost papp = *app;
    let prof = app.profiles.value_at_mut(pidx);
    prof.env.insert(key.to_owned(), value.to_owned());
    proof {
        assert(state.apps@[idx as int].1.profiles@[pidx as int].1.wf());
        lemma_app_wf_after_profile_update(papp, state.apps@[idx as int].1, pidx as int);
        lemma_wf_after_app_update(pre, *state, idx as int);
    }
    Ok(())
}

/// Remove the binding of `key` from profile `profile` of app `name`,
/// keeping the order of the remaining bindings.  Fails App-not-found,
/// Profile-not-found, or Invalid-state when the key is not bound, leaving
/// the state untouched.
pub fn remove_profile_env(state: &mut State, name: &str, profile: &str, key: &str) -> (r: Result<
    (),
    CoreError,
>)
    requires
        old(state).wf(),
    ensures
        final(state).wf(),
        match r {
            Ok(()) => {
                &&& has_key(old(state).apps@, name@)
                &&& has_key(value_of(old(state).apps@, name@).profiles@, profile@)
                &&& has_key(
                    value_of(value_of(old(state).apps@, name@).profiles@, profile@).env@,
                    key@,
                )
                &&& final(state).extra@ == old(state).extra@
                &&& apps_updated_at(
                    old(state).apps@,
                    final(state).apps@,
                    key_index(old(state).apps@, name@),
                )
                &&& {
                    let o = value_of(old(state).apps@, name@);
                    let n = final(state).apps@[key_index(old(state).apps@, name@)].1;
                    &&& n.installed == o.installed
                    &&& n.target_binary == o.target_binary
                    &&& n.install_path == o.install_path
                    &&& n.extra@ == o.extra@
                    &&& n.active_profile == o.active_profile
                    &&& profiles_updated_at(
                        o.profiles@,
                        n.profiles@,
                        key_index(o.profiles@, profile@),
                    )
                    &&& {
                        let op = value_of(o.profiles@, profile@);
                        let np = n.profiles@[key_index(o.profiles@, profile@)].1;
                        &&& np.command_args@ == op.command_args@
                        &&& np.env@ == crate::omap::remove_key(op.env@, key@)
                    }
                }
            },
            Err(e) => {
                &&& *final(state) == *old(state)
                &&& (if !has_key(old(state).apps@, name@) {
                    e.code == ErrorCode::AppNotFound
                } else if !has_key(
                    value_of(old(state).apps@, name@).profiles@,
                    profile@,
                ) {
                    e.code == ErrorCode::ProfileNotFound
                } else {
                    e.code == ErrorCode::InvalidState && !has_key(
                        value_of(value_of(old(state).apps@, name@).profiles@, profile@).env@,
                        key@,
                    )
                })
            },
        },
{
    let idx = match state.apps.index_of(name) {
        Some(i) => i,
        None => {
            return Err(err_app_not_found(name));
        },
    };
    let pidx = match state.apps.value_at(idx).profiles.index_of(profile) {
        Some(j) => j,
        None => {
            return Err(err_profile_not_found(profile, name));
        },
    };
    if !state.apps.value_at(idx).profiles.value_at(pidx).env.contains_key(key) {
        let mut m: String = "Environment key \"".to_owned();
        m.append(key);
        m.append("\" not found in profile \"");
        m.append(profile);
        m.append("\"");
        return Err(CoreError::new(ErrorCode::InvalidState, m));
    }
    let ghost pre = *state;
    let app = state.apps.value_at_mut(idx);
    let ghost papp = *app;
    let prof = app.profiles.value_at_mut(pidx);
    let removed = prof.env.shift_remove(key);
    proof {
        assert(removed is Some);
        assert(state.apps@[idx as int].1.profiles@[pidx as int].1.wf());
        lemma_app_wf_after_profile_update(papp, state.apps@[idx as int].1, pidx as int);
        lemma_wf_after_app_update(pre, *state, idx as int);
    }
    Ok(())
}

} // verus!
