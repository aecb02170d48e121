//! The launch resolution engine: alias discovery from the invoked name,
//! configuration lookup, profile selection, tiered target resolution with a
//! self-reference guard, environment merging and argument assembly.
//!
//! The engine never touches the filesystem or the process environment
//! itself: callers hand in the invoked name, the state, the `PATH` entries
//! and, per candidate path, the facts a filesystem probe returned
//! ([`CandidateInfo`]).  Every decision over those inputs is verified.

use vstd::prelude::*;
use crate::error::{CoreError, ErrorCode};
use crate::omap::{OrderedMap, has_key, key_index, value_of, distinct_keys, upsert};
use crate::state::{AppConfig, ProfileConfig, State};
use crate::text::{blank, is_blank};

verus! {

// ---------------------------------------------------------------------------
// Alias discovery
// ---------------------------------------------------------------------------

/// Whether `c` separates path components on the given platform.
pub open spec fn is_sep(c: char, is_windows: bool) -> bool {
    c == '/' || (is_windows && c == '\\')
}

/// The part of `s` after its last path separator (all of `s` when it has
/// none; empty when `s` ends in a separator).
pub open spec fn after_last_sep(s: Seq<char>, is_windows: bool) -> Seq<char>
    decreases s.len(),
{
    if s.len() == 0 {
        s
    } else if is_sep(s.last(), is_windows) {
        Seq::empty()
    } else {
        after_last_sep(s.drop_last(), is_windows).push(s.last())
    }
}

/// Whether `s` ends in the four characters `.exe`.
pub open spec fn ends_in_exe(s: Seq<char>) -> bool {
    s.len() >= 4 && s[s.len() - 4] == '.' && s[s.len() - 3] == 'e' && s[s.len() - 2] == 'x' && s[
        s.len() - 1
    ] == 'e'
}

/// `s` with every trailing `.exe` removed.
pub open spec fn strip_exe(s: Seq<char>) -> Seq<char>
    decreases s.len(),
{
    if ends_in_exe(s) {
        strip_exe(s.take(s.len() - 4))
    } else {
        s
    }
}

/// The alias an invoked name reads as: its file name, with the executable
/// suffix stripped where the platform uses one.
pub open spec fn alias_of(argv0: Seq<char>, is_windows: bool) -> Seq<char> {
    if is_windows {
        strip_exe(after_last_sep(argv0, is_windows))
    } else {
        after_last_sep(argv0, is_windows)
    }
}

/// `after_last_sep` is the suffix that follows the last separator.
proof fn lemma_after_last_sep(s: Seq<char>, is_windows: bool, k: int)
    requires
        -1 <= k < s.len(),
        k >= 0 ==> is_sep(s[k], is_windows),
        forall|j: int| k < j < s.len() ==> !is_sep(s[j], is_windows),
    ensures
        after_last_sep(s, is_windows) == s.subrange(k + 1, s.len() as int),
    decreases s.len(),
{
    if s.len() == 0 {
        assert(after_last_sep(s, is_windows) =~= s.subrange(k + 1, s.len() as int));
    } else if k == s.len() - 1 {
        assert(after_last_sep(s, is_windows) =~= s.subrange(k + 1, s.len() as int));
    } else {
        lemma_after_last_sep(s.drop_last(), is_windows, k);
        assert(after_last_sep(s.drop_last(), is_windows).push(s.last()) =~= s.subrange(
            k + 1,
            s.len() as int,
        ));
    }
}

/// Whether the character at `i` of `s` is a path separator.
fn sep_at(s: &str, i: usize, is_windows: bool) -> (r: bool)
    requires
        i < s@.len(),
    ensures
        r == is_sep(s@[i as int], is_windows),
{
    let c = s.get_char(i);
    c == '/' || (is_windows && c == '\\')
}

/// The file-name part of `argv0`: what follows the last separator.
fn file_name_part(argv0: &str, is_windows: bool) -> (r: String)
    ensures
        r@ == after_last_sep(argv0@, is_windows),
{
    let n = argv0.unicode_len();
    let mut k: usize = n;
    while k > 0 && !sep_at(argv0, k - 1, is_windows)
        invariant
            n == argv0@.len(),
            k <= n,
            forall|j: int| k <= j < n ==> !is_sep(argv0@[j], is_windows),
        decreases k,
    {
        k -= 1;
    }
    proof {
        if k > 0 {
            lemma_after_last_sep(argv0@, is_windows, k - 1);
        } else {
            lemma_after_last_sep(argv0@, is_windows, -1);
        }
    }
    argv0.substring_char(k, n).to_owned()
}

/// The invoked alias: the file name of `argv0`, with trailing `.exe`
/// suffixes stripped on platforms that use them.  `None` exactly when
/// `argv0` has no file-name part.
pub fn app_name_from_argv0(argv0: &str, is_windows: bool) -> (r: Option<String>)
    ensures
        match r {
            Some(n) => after_last_sep(argv0@, is_windows).len() > 0 && n@ == alias_of(
                argv0@,
                is_windows,
            ),
            None => after_last_sep(argv0@, is_windows).len() == 0,
        },
{
    let mut name = file_name_part(argv0, is_windows);
    if name.as_str().unicode_len() == 0 {
        return None;
    }
    if !is_windows {
        return Some(name);
    }
    loop
        invariant
            is_windows,
            after_last_sep(argv0@, is_windows).len() > 0,
            strip_exe(name@) == alias_of(argv0@, is_windows),
        decreases name@.len(),
    {
        let len = name.as_str().unicode_len();
        let s = name.as_str();
        if len >= 4 && s.get_char(len - 4) == '.' && s.get_char(len - 3) == 'e' && s.get_char(
            len - 2,
        ) == 'x' && s.get_char(len - 1) == 'e' {
            name = s.substring_char(0, len - 4).to_owned();
        } else {
            return Some(name);
        }
    }
}

// ---------------------------------------------------------------------------
// Configuration lookup and profile selection
// ---------------------------------------------------------------------------

/// The profile an app launches with: the active profile when it still
/// exists, else the first profile in insertion order (meaningful only when
/// the app has profiles).
pub open spec fn selected_profile_spec(a: AppConfig) -> ProfileConfig {
    match a.active_profile {
        Some(nm) => if has_key(a.profiles@, nm@) {
            value_of(a.profiles@, nm@)
        } else {
            a.profiles@[0].1
        },
        None => a.profiles@[0].1,
    }
}

/// The environment bindings and extra arguments of the profile the app
/// launches with; empty when the app has no profiles.
pub fn select_profile_config(app: &AppConfig) -> (r: (OrderedMap<String>, Vec<String>))
    requires
        app.wf(),
    ensures
        r.0.wf(),
        app.profiles@.len() == 0 ==> r.0@.len() == 0 && r.1@.len() == 0,
        app.profiles@.len() > 0 ==> r.0@ == selected_profile_spec(*app).env@ && r.1@
            == selected_profile_spec(*app).command_args@,
{
    if app.profiles.is_empty() {
        return (OrderedMap::new(), Vec::new());
    }
    let chosen: &ProfileConfig = match &app.active_profile {
        Some(nm) => {
            match app.profiles.get(nm.as_str()) {
                Some(p) => p,
                None => app.profiles.value_at(0),
            }
        },
        None => app.profiles.value_at(0),
    };
    let copy = chosen.duplicate();
    (copy.env, copy.command_args)
}

/// What one invocation will run: the target binary named by the state (or
/// the alias itself for an unregistered alias), the selected profile's
/// bindings, and its extra arguments.
#[derive(Debug)]
pub struct LaunchPlan {
    pub target: String,
    pub env: OrderedMap<String>,
    pub args: Vec<String>,
}

/// Look up `alias` in the state and select its profile.  An unregistered
/// alias passes through as its own target with no injection.  Fails
/// Invalid-state exactly when the alias is registered with a blank target
/// binary; it never falls back to pass-through then.
pub fn plan_launch(state: &State, alias: &str) -> (r: Result<LaunchPlan, CoreError>)
    requires
        state.wf(),
    ensures
        match r {
            Ok(p) => {
                &&& p.env.wf()
                &&& if has_key(state.apps@, alias@) {
                    let a = value_of(state.apps@, alias@);
                    &&& !is_blank(a.target_binary@)
                    &&& p.target == a.target_binary
                    &&& (a.profiles@.len() == 0 ==> p.env@.len() == 0 && p.args@.len() == 0)
                    &&& (a.profiles@.len() > 0 ==> p.env@ == selected_profile_spec(a).env@
                        && p.args@ == selected_profile_spec(a).command_args@)
                } else {
                    &&& p.target@ == alias@
                    &&& p.env@.len() == 0
                    &&& p.args@.len() == 0
                }
            },
            Err(e) => {
                &&& e.code == ErrorCode::InvalidState
                &&& has_key(state.apps@, alias@)
                &&& is_blank(value_of(state.apps@, alias@).target_binary@)
            },
        },
{
    match state.apps.get(alias) {
        Some(app) => {
            if blank(app.target_binary.as_str()) {
                let mut m: String = "App \"".to_owned();
                m.append(alias);
                m.append("\" is missing target_binary");
                return Err(CoreError::new(ErrorCode::InvalidState, m));
            }
            let target = app.target_binary.clone();
            let (env, args) = select_profile_config(app);
            Ok(LaunchPlan { target, env, args })
        },
        None => Ok(
            LaunchPlan { target: alias.to_owned(), env: OrderedMap::new(), args: Vec::new() },
        ),
    }
}

// ---------------------------------------------------------------------------
// Environment merge and argument assembly
// ---------------------------------------------------------------------------

/// The value of the last entry of `s` whose key reads `k` (how repeated
/// inherited keys collapse).
pub open spec fn last_val(s: Seq<(String, String)>, k: Seq<char>) -> Seq<char>
    decreases s.len(),
{
    if s.len() == 0 {
        Seq::empty()
    } else if s.last().0@ == k {
        s.last().1@
    } else {
        last_val(s.drop_last(), k)
    }
}

/// What merging means, pointwise: a key is present exactly when the
/// inherited environment or the overrides bind it; an overridden key reads
/// the override's value; any other inherited key keeps its (last) inherited
/// value.
pub open spec fn merged_env(
    base: Seq<(String, String)>,
    over: Seq<(String, String)>,
    r: Seq<(String, String)>,
) -> bool {
    &&& forall|k: Seq<char>| #[trigger] has_key(r, k) == (has_key(base, k) || has_key(over, k))
    &&& forall|k: Seq<char>| has_key(over, k) ==> #[trigger] value_of(r, k)@ == value_of(
        over,
        k,
    )@
    &&& forall|k: Seq<char>| has_key(base, k) && !has_key(over, k) ==> #[trigger] value_of(
        r,
        k,
    )@ == last_val(base, k)
}

/// How one upsert changes presence and values, pointwise.
proof fn lemma_upsert_pointwise(s: Seq<(String, String)>, e: (String, String), k: Seq<char>)
    requires
        distinct_keys(s),
    ensures
        has_key(upsert(s, e), k) == (has_key(s, k) || e.0@ == k),
        e.0@ == k ==> value_of(upsert(s, e), k) == e.1,
        e.0@ != k && has_key(s, k) ==> value_of(upsert(s, e), k) == value_of(s, k),
{
    let t = upsert(s, e);
    if has_key(s, e.0@) {
        let i0 = key_index(s, e.0@);
        assert(0 <= i0 < s.len() && s[i0].0@ == e.0@);
        assert(t =~= s.update(i0, (s[i0].0, e.1)));
        assert(forall|j: int| 0 <= j < t.len() ==> (#[trigger] t[j]).0 == s[j].0);
        if has_key(t, k) {
            let i = key_index(t, k);
            assert(0 <= i < t.len() && t[i].0@ == k);
            assert(s[i].0@ == k);
            assert(has_key(s, k));
        }
        if has_key(s, k) {
            let i = key_index(s, k);
            assert(t[i].0@ == k);
            assert(has_key(t, k));
            let i2 = key_index(t, k);
            if i2 != i {
                assert(s[i2].0@ == t[i2].0@);
                assert(s[i2].0@ != s[i].0@);
            }
            assert(i2 == i);
            if e.0@ == k {
                assert(i == i0);
            } else {
                assert(i != i0);
            }
        }
    } else {
        assert(t =~= s.push(e));
        if has_key(t, k) && !(e.0@ == k) {
            let i = key_index(t, k);
            assert(0 <= i < t.len() && t[i].0@ == k);
            assert(i < s.len());
            assert(has_key(s, k));
        }
        if has_key(s, k) {
            let i = key_index(s, k);
            assert(t[i].0@ == k);
            assert(has_key(t, k));
            let i2 = key_index(t, k);
            assert(0 <= i2 < t.len() && t[i2].0@ == k);
            if i2 == s.len() as int {
                assert(e.0@ == k);
            }
        }
        if e.0@ == k {
            assert(t[s.len() as int].0@ == k);
            assert(has_key(t, k));
            let i2 = key_index(t, k);
            if i2 < s.len() {
                assert(s[i2].0@ == k);
                assert(has_key(s, k));
            }
            assert(i2 == s.len() as int);
        }
    }
}

/// Merge the inherited environment with a profile's bindings: the profile
/// wins on key collisions, and inherited keys the profile does not mention
/// are kept untouched.
pub fn merge_env(base: &Vec<(String, String)>, overrides: &OrderedMap<String>) -> (r: OrderedMap<
    String,
>)
    requires
        overrides.wf(),
    ensures
        r.wf(),
        merged_env(base@, overrides@, r@),
{
    let mut out: OrderedMap<String> = OrderedMap::new();
    let nb = base.len();
    let mut i: usize = 0;
    while i < nb
        invariant
            nb == base@.len(),
            i <= nb,
            out.wf(),
            forall|k: Seq<char>| #[trigger] has_key(out@, k) == has_key(base@.take(i as int), k),
            forall|k: Seq<char>| has_key(base@.take(i as int), k) ==> #[trigger] value_of(
                out@,
                k,
            )@ == last_val(base@.take(i as int), k),
        decreases nb - i,
    {
        let ghost pre = out@;
        let e = (base[i].0.clone(), base[i].1.clone());
        let ghost eg = e;
        out.insert(e.0, e.1);
        proof {
            assert(eg == base@[i as int]);
            assert(base@.take(i + 1).drop_last() =~= base@.take(i as int));
            assert forall|k: Seq<char>| #[trigger] has_key(out@, k) == has_key(
                base@.take(i + 1),
                k,
            ) by {
                lemma_upsert_pointwise(pre, eg, k);
                if has_key(base@.take(i + 1), k) {
                    let j = key_index(base@.take(i + 1), k);
                    if j < i {
                        assert(base@.take(i as int)[j].0@ == k);
                        assert(has_key(base@.take(i as int), k));
                    } else {
                        assert(eg.0@ == k);
                    }
                }
                if has_key(base@.take(i as int), k) {
                    let j = key_index(base@.take(i as int), k);
                    assert(base@.take(i + 1)[j].0@ == k);
                    assert(has_key(base@.take(i + 1), k));
                }
                if eg.0@ == k {
                    assert(base@.take(i + 1)[i as int].0@ == k);
                    assert(has_key(base@.take(i + 1), k));
                }
            }
            assert forall|k: Seq<char>|
                has_key(base@.take(i + 1), k) implies #[trigger] value_of(out@, k)@ == last_val(
                base@.take(i + 1),
                k,
            ) by {
                lemma_upsert_pointwise(pre, eg, k);
                if eg.0@ == k {
                    assert(last_val(base@.take(i + 1), k) == eg.1@);
                } else {
                    assert(last_val(base@.take(i + 1), k) == last_val(base@.take(i as int), k));
                    assert(has_key(base@.take(i as int), k));
                }
            }
        }
        i += 1;
    }
    proof {
        assert(base@.take(nb as int) =~= base@);
    }
    let ghost merged_base = out@;
    let no = overrides.len();
    let mut i: usize = 0;
    while i < no
        invariant
            no == overrides@.len(),
            i <= no,
            out.wf(),
            overrides.wf(),
            forall|k: Seq<char>| #[trigger] has_key(out@, k) == (has_key(merged_base, k)
                || has_key(overrides@.take(i as int), k)),
            forall|k: Seq<char>| has_key(overrides@.take(i as int), k) ==> #[trigger] value_of(
                out@,
                k,
            )@ == value_of(overrides@, k)@,
            forall|k: Seq<char>|
                has_key(merged_base, k) && !has_key(overrides@.take(i as int), k)
                    ==> #[trigger] value_of(out@, k)@ == value_of(merged_base, k)@,
            forall|k: Seq<char>| #[trigger] has_key(merged_base, k) == has_key(base@, k),
            forall|k: Seq<char>| has_key(base@, k) ==> #[trigger] value_of(merged_base, k)@
                == last_val(base@, k),
        decreases no - i,
    {
        let ghost pre = out@;
        let e = (overrides.key_at(i).clone(), overrides.value_at(i).clone());
        let ghost eg = e;
        out.insert(e.0, e.1);
        proof {
            assert(eg.0@ == overrides@[i as int].0@ && eg.1@ == overrides@[i as int].1@);
            crate::omap::lemma_key_index_of_entry(overrides@, i as int);
            assert(value_of(overrides@, eg.0@)@ == eg.1@);
            assert forall|k: Seq<char>| #[trigger] has_key(out@, k) == (has_key(merged_base, k)
                || has_key(overrides@.take(i + 1), k)) by {
                lemma_upsert_pointwise(pre, eg, k);
                if has_key(overrides@.take(i + 1), k) {
                    let j = key_index(overrides@.take(i + 1), k);
                    if j < i {
                        assert(overrides@.take(i as int)[j].0@ == k);
                        assert(has_key(overrides@.take(i as int), k));
                    } else {
                        assert(eg.0@ == k);
                    }
                }
                if has_key(overrides@.take(i as int), k) {
                    let j = key_index(overrides@.take(i as int), k);
                    assert(overrides@.take(i + 1)[j].0@ == k);
                    assert(has_key(overrides@.take(i + 1), k));
                }
                if eg.0@ == k {
                    assert(overrides@.take(i + 1)[i as int].0@ == k);
                    assert(has_key(overrides@.take(i + 1), k));
                }
            }
            assert forall|k: Seq<char>|
                has_key(overrides@.take(i + 1), k) implies #[trigger] value_of(out@, k)@
                == value_of(overrides@, k)@ by {
                lemma_upsert_pointwise(pre, eg, k);
                if eg.0@ == k {
                } else {
                    let j = key_index(overrides@.take(i + 1), k);
                    if j == i {
                        assert(overrides@.take(i + 1)[j].0@ == k);
                        assert(eg.0@ == k);
                    }
                    assert(overrides@.take(i as int)[j].0@ == k);
                    assert(has_key(overrides@.take(i as int), k));
                }
            }
            assert forall|k: Seq<char>|
                has_key(merged_base, k) && !has_key(overrides@.take(i + 1), k) implies #[trigger]
            value_of(out@, k)@ == value_of(merged_base, k)@ by {
                lemma_upsert_pointwise(pre, eg, k);
                assert(!has_key(overrides@.take(i as int), k)) by {
                    if has_key(overrides@.take(i as int), k) {
                        let j = key_index(overrides@.take(i as int), k);
                        assert(overrides@.take(i + 1)[j].0@ == k);
                        assert(has_key(overrides@.take(i + 1), k));
                    }
                }
                assert(eg.0@ != k) by {
                    if eg.0@ == k {
                        assert(overrides@.take(i + 1)[i as int].0@ == k);
                        assert(has_key(overrides@.take(i + 1), k));
                    }
                }
            }
        }
        i += 1;
    }
    proof {
        assert(overrides@.take(no as int) =~= overrides@);
    }
    out
}

/// Profile arguments first, then the caller's arguments, both in their
/// original order, unmodified.
pub fn assemble_args(profile_args: &Vec<String>, user_args: &Vec<String>) -> (r: Vec<String>)
    ensures
        r@.len() == profile_args@.len() + user_args@.len(),
        forall|i: int| 0 <= i < profile_args@.len() ==> r@[i] == profile_args@[i],
        forall|i: int| 0 <= i < user_args@.len() ==> r@[profile_args@.len() + i] == user_args@[i],
{
    let mut out: Vec<String> = Vec::new();
    let np = profile_args.len();
    let mut i: usize = 0;
    while i < np
        invariant
            np == profile_args@.len(),
            i <= np,
            out@.len() == i,
            forall|j: int| 0 <= j < i ==> out@[j] == profile_args@[j],
        decreases np - i,
    {
        out.push(profile_args[i].clone());
        i += 1;
    }
    let nu = user_args.len();
    let mut i: usize = 0;
    while i < nu
        invariant
            nu == user_args@.len(),
            i <= nu,
            out@.len() == np + i,
            np == profile_args@.len(),
            forall|j: int| 0 <= j < np ==> out@[j] == profile_args@[j],
            forall|j: int| 0 <= j < i ==> out@[np + j] == user_args@[j],
        decreases nu - i,
    {
        out.push(user_args[i].clone());
        i += 1;
    }
    out
}

// ---------------------------------------------------------------------------
// Target resolution
// ---------------------------------------------------------------------------

/// The three tiers of target resolution.
#[derive(Debug, Clone, Copy, PartialEq, Eq, Structural)]
pub enum TargetKind {
    /// An absolute path: used as given.
    AbsolutePath,
    /// A path with a separator: resolved against the working directory.
    RelativePath,
    /// A bare name: searched for along `PATH`.
    BareName,
}

/// Whether `s` spells an absolute path on the given platform.
pub open spec fn is_absolute(s: Seq<char>, is_windows: bool) -> bool {
    ||| s.len() > 0 && s[0] == '/'
    ||| is_windows && s.len() >= 3 && s[1] == ':' && is_sep(s[2], is_windows)
}

/// Whether `s` contains a path separator anywhere.
pub open spec fn has_separator(s: Seq<char>, is_windows: bool) -> bool {
    exists|i: int| 0 <= i < s.len() && is_sep(s[i], is_windows)
}

/// The resolution tier a target string falls under.
pub open spec fn classify_spec(s: Seq<char>, is_windows: bool) -> TargetKind {
    if is_absolute(s, is_windows) {
        TargetKind::AbsolutePath
    } else if has_separator(s, is_windows) {
        TargetKind::RelativePath
    } else {
        TargetKind::BareName
    }
}

/// Classify a target string into its resolution tier.
pub fn classify_target(target: &str, is_windows: bool) -> (r: TargetKind)
    ensures
        r == classify_spec(target@, is_windows),
{
    let n = target.unicode_len();
    if n > 0 {
        let c0 = target.get_char(0);
        if c0 == '/' {
            return TargetKind::AbsolutePath;
        }
        if is_windows && n >= 3 {
            let c1 = target.get_char(1);
            let c2 = target.get_char(2);
            if c1 == ':' && (c2 == '/' || c2 == '\\') {
                return TargetKind::AbsolutePath;
            }
        }
    }
    let mut i: usize = 0;
    while i < n
        invariant
            n == target@.len(),
            i <= n,
            !is_absolute(target@, is_windows),
            forall|j: int| 0 <= j < i ==> !is_sep(target@[j], is_windows),
        decreases n - i,
    {
        let c = target.get_char(i);
        if c == '/' || (is_windows && c == '\\') {
            return TargetKind::RelativePath;
        }
        i += 1;
    }
    TargetKind::BareName
}

/// What a filesystem probe of one candidate path reported: whether the path
/// exists, whether it is executable, and whether its canonical identity is
/// the launcher's own binary.
#[derive(Debug, Clone, Copy, PartialEq, Eq, Structural)]
pub struct CandidateInfo {
    pub exists: bool,
    pub executable: bool,
    pub is_self: bool,
}

/// Whether a probed candidate is accepted under a resolution tier: an
/// absolute path is taken as is; a relative path must exist; a bare-name
/// candidate must be executable (or merely exist, where the platform has no
/// execute bit).  A candidate that is the launcher itself is never accepted.
pub open spec fn admits(kind: TargetKind, is_windows: bool, info: CandidateInfo) -> bool {
    &&& !info.is_self
    &&& match kind {
        TargetKind::AbsolutePath => true,
        TargetKind::RelativePath => info.exists,
        TargetKind::BareName => if is_windows {
            info.exists
        } else {
            info.executable
        },
    }
}

/// The self-reference guard holds by construction: a candidate that is the
/// launcher's own binary is never admitted, under any tier, on any
/// platform.
pub proof fn lemma_self_is_never_admitted(kind: TargetKind, is_windows: bool, info: CandidateInfo)
    requires
        info.is_self,
    ensures
        !admits(kind, is_windows, info),
{
}

/// Resolve an absolute or relative target from its probe facts.  The path
/// is returned as given; a missing relative target or a target that is the
/// launcher itself fails with Target-not-found.
pub fn resolve_path_target(target: &str, is_windows: bool, info: &CandidateInfo) -> (r: Result<
    String,
    CoreError,
>)
    requires
        classify_spec(target@, is_windows) != TargetKind::BareName,
    ensures
        match r {
            Ok(p) => p@ == target@ && admits(classify_spec(target@, is_windows), is_windows, *info),
            Err(e) => e.code == ErrorCode::TargetNotFound && !admits(
                classify_spec(target@, is_windows),
                is_windows,
                *info,
            ),
        },
{
    let kind = classify_target(target, is_windows);
    let missing = match kind {
        TargetKind::AbsolutePath => false,
        _ => !info.exists,
    };
    if missing {
        let mut m: String = "Target \"".to_owned();
        m.append(target);
        m.append("\" not found");
        return Err(CoreError::new(ErrorCode::TargetNotFound, m));
    }
    if info.is_self {
        return Err(
            CoreError::new(
                ErrorCode::TargetNotFound,
                "Target binary resolves to the launcher itself".to_owned(),
            ),
        );
    }
    Ok(target.to_owned())
}

/// The path-joining separator of the platform.
pub open spec fn sep_char(is_windows: bool) -> char {
    if is_windows {
        '\\'
    } else {
        '/'
    }
}

/// `dir/name` (or `dir\name` where the platform joins with backslashes).
pub open spec fn joined(dir: Seq<char>, name: Seq<char>, is_windows: bool) -> Seq<char> {
    dir + seq![sep_char(is_windows)] + name
}

/// The candidate paths tried inside one `PATH` directory, in order: the
/// bare join first, then one per extension of the extension list (used only
/// where the platform resolves by extensions).
pub open spec fn dir_candidates(
    dir: Seq<char>,
    target: Seq<char>,
    exts: Seq<String>,
    is_windows: bool,
) -> Seq<Seq<char>> {
    if is_windows {
        Seq::new(
            (exts.len() + 1) as nat,
            |i: int|
                if i == 0 {
                    joined(dir, target, is_windows)
                } else {
                    joined(dir, target, is_windows) + exts[i - 1]@
                },
        )
    } else {
        seq![joined(dir, target, is_windows)]
    }
}

/// All candidate paths of a `PATH` search, directory by directory.
pub open spec fn candidates_spec(
    dirs: Seq<String>,
    target: Seq<char>,
    exts: Seq<String>,
    is_windows: bool,
) -> Seq<Seq<char>>
    decreases dirs.len(),
{
    if dirs.len() == 0 {
        Seq::empty()
    } else {
        dir_candidates(dirs[0]@, target, exts, is_windows) + candidates_spec(
            dirs.skip(1),
            target,
            exts,
            is_windows,
        )
    }
}

proof fn lemma_candidates_snoc(
    dirs: Seq<String>,
    d: String,
    target: Seq<char>,
    exts: Seq<String>,
    is_windows: bool,
)
    ensures
        candidates_spec(dirs.push(d), target, exts, is_windows) == candidates_spec(
            dirs,
            target,
            exts,
            is_windows,
        ) + dir_candidates(d@, target, exts, is_windows),
    decreases dirs.len(),
{
    let block = dir_candidates(d@, target, exts, is_windows);
    if dirs.len() == 0 {
        assert(dirs.push(d)[0] == d);
        assert(dirs.push(d).skip(1) =~= Seq::<String>::empty());
        assert(candidates_spec(dirs.push(d), target, exts, is_windows) == block + candidates_spec(
            Seq::<String>::empty(),
            target,
            exts,
            is_windows,
        ));
        assert(candidates_spec(dirs.push(d), target, exts, is_windows) =~~= candidates_spec(
            dirs,
            target,
            exts,
            is_windows,
        ) + block);
    } else {
        let head = dir_candidates(dirs[0]@, target, exts, is_windows);
        let tail = candidates_spec(dirs.skip(1), target, exts, is_windows);
        assert(dirs.push(d)[0] == dirs[0]);
        assert(dirs.push(d).skip(1) =~= dirs.skip(1).push(d));
        lemma_candidates_snoc(dirs.skip(1), d, target, exts, is_windows);
        assert(candidates_spec(dirs.push(d), target, exts, is_windows) == head + (tail + block));
        assert(candidates_spec(dirs, target, exts, is_windows) == head + tail);
        assert(head + (tail + block) =~~= (head + tail) + block);
    }
}

/// Join `dir` and `name` with the platform's separator.
fn join_path(dir: &str, name: &str, is_windows: bool) -> (r: String)
    ensures
        r@ == joined(dir@, name@, is_windows),
{
    let mut out: String = dir.to_owned();
    if is_windows {
        out.append("\\");
        proof {
            reveal_strlit("\\");
            assert(out@ =~= dir@ + seq![sep_char(is_windows)]);
        }
    } else {
        out.append("/");
        proof {
            reveal_strlit("/");
            assert(out@ =~= dir@ + seq![sep_char(is_windows)]);
        }
    }
    out.append(name);
    out
}

/// The ordered candidate paths a `PATH` search probes for `target`: for
/// each directory, the plain join, then (on platforms that use extension
/// lists) one candidate per extension.
pub fn plan_candidates(
    target: &str,
    path_dirs: &Vec<String>,
    exts: &Vec<String>,
    is_windows: bool,
) -> (r: Vec<String>)
    ensures
        r@.len() == candidates_spec(path_dirs@, target@, exts@, is_windows).len(),
        forall|i: int| 0 <= i < r@.len() ==> r@[i]@ == candidates_spec(
            path_dirs@,
            target@,
            exts@,
            is_windows,
        )[i],
{
    let mut out: Vec<String> = Vec::new();
    let nd = path_dirs.len();
    let mut i: usize = 0;
    proof {
        assert(path_dirs@.take(0) =~= Seq::<String>::empty());
    }
    while i < nd
        invariant
            nd == path_dirs@.len(),
            i <= nd,
            out@.len() == candidates_spec(path_dirs@.take(i as int), target@, exts@, is_windows).len(),
            forall|j: int| 0 <= j < out@.len() ==> out@[j]@ == candidates_spec(
                path_dirs@.take(i as int),
                target@,
                exts@,
                is_windows,
            )[j],
        decreases nd - i,
    {
        let ghost pre = out@;
        let dir = &path_dirs[i];
        let base = join_path(dir.as_str(), target, is_windows);
        if is_windows {
            out.push(base.clone());
            let ne = exts.len();
            let mut j: usize = 0;
            while j < ne
                invariant
                    ne == exts@.len(),
                    j <= ne,
                    base@ == joined(path_dirs@[i as int]@, target@, is_windows),
                    i < path_dirs@.len(),
                    out@.len() == pre.len() + 1 + j,
                    forall|q: int| 0 <= q < pre.len() ==> out@[q] == pre[q],
                    out@[pre.len() as int]@ == base@,
                    forall|q: int| 0 <= q < j ==> out@[pre.len() + 1 + q]@ == base@ + exts@[q]@,
                decreases ne - j,
            {
                let mut cand = base.clone();
                cand.append(exts[j].as_str());
                out.push(cand);
                j += 1;
            }
        } else {
            out.push(base);
        }
        proof {
            lemma_candidates_snoc(
                path_dirs@.take(i as int),
                path_dirs@[i as int],
                target@,
                exts@,
                is_windows,
            );
            assert(path_dirs@.take(i as int).push(path_dirs@[i as int]) =~= path_dirs@.take(i + 1));
            let block = dir_candidates(path_dirs@[i as int]@, target@, exts@, is_windows);
            let whole = candidates_spec(path_dirs@.take(i + 1), target@, exts@, is_windows);
            assert(whole == candidates_spec(path_dirs@.take(i as int), target@, exts@, is_windows)
                + block);
            assert forall|q: int| 0 <= q < out@.len() implies out@[q]@ == whole[q] by {
                if q < pre.len() {
                    assert(out@[q] == pre[q]);
                } else {
                    assert(whole[q] == block[q - pre.len()]);
                }
            }
        }
        i += 1;
    }
    proof {
        assert(path_dirs@.take(nd as int) =~= path_dirs@);
    }
    out
}

/// Whether the candidate at `i` is accepted by a bare-name search.
pub open spec fn admitted_at(facts: Seq<CandidateInfo>, is_windows: bool, i: int) -> bool {
    0 <= i < facts.len() && admits(TargetKind::BareName, is_windows, facts[i])
}

/// No candidate before `i` is accepted.
pub open spec fn no_hit_before(facts: Seq<CandidateInfo>, is_windows: bool, i: int) -> bool {
    forall|j: int| 0 <= j < i ==> !admitted_at(facts, is_windows, j)
}

/// A `PATH` search never picks a candidate that is the launcher itself: any
/// accepted index holds a candidate that is not the launcher's own binary.
pub proof fn lemma_search_never_picks_self(facts: Seq<CandidateInfo>, is_windows: bool, i: int)
    requires
        admitted_at(facts, is_windows, i),
    ensures
        !facts[i].is_self,
{
}

/// Walk the probed candidates in order and return the first accepted one,
/// or `None` when no candidate anywhere is accepted.
pub fn search_path(candidates: &Vec<String>, facts: &Vec<CandidateInfo>, is_windows: bool) -> (r:
    Option<String>)
    requires
        candidates@.len() == facts@.len(),
    ensures
        match r {
            Some(p) => exists|i: int|
                #![auto]
                admitted_at(facts@, is_windows, i) && no_hit_before(facts@, is_windows, i) && p
                    == candidates@[i],
            None => no_hit_before(facts@, is_windows, facts@.len() as int),
        },
{
    let n = candidates.len();
    let mut i: usize = 0;
    while i < n
        invariant
            n == candidates@.len(),
            n == facts@.len(),
            i <= n,
            no_hit_before(facts@, is_windows, i as int),
        decreases n - i,
    {
        let info = facts[i];
        let hit = !info.is_self && (if is_windows {
            info.exists
        } else {
            info.executable
        });
        if hit {
            return Some(candidates[i].clone());
        }
        i += 1;
    }
    None
}

} // verus!
