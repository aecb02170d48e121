//! The pure state of the interactive front end: what is selected, which
//! page and pane has focus, the in-progress input, and the display entries
//! derived from the persistent state.
//!
//! Event reading, rendering and every registry call are the front end's
//! job; the selection arithmetic, the derivation of display entries from a
//! [`State`] and the clamping rules live here.

use vstd::prelude::*;
use crate::omap::{has_key, value_of};
use crate::state::State;
use crate::text::{lex_le, sort_strings, sorted_strings};

verus! {

/// Which pane has focus.
#[derive(Debug, Clone, Copy, PartialEq, Eq, Structural)]
pub enum Focus {
    Apps,
    Profiles,
    EnvVars,
}

/// Which page is shown.
#[derive(Debug, Clone, Copy, PartialEq, Eq, Structural)]
pub enum Page {
    AppsList,
    AppDetail,
}

/// What kind of input is being collected.
#[derive(Debug, Clone, Copy, PartialEq, Eq, Structural)]
pub enum InputMode {
    Normal,
    AddApp,
    AddProfile,
    SetEnv,
}

/// Which step of a two-step input is active.
#[derive(Debug, Clone, Copy, PartialEq, Eq, Structural)]
pub enum InputStep {
    First,
    Second,
}

/// An in-progress input: its kind, its step, the text being typed, the
/// values already committed, and a selection index for pick-lists.
#[derive(Debug, Clone)]
pub struct InputState {
    pub mode: InputMode,
    pub step: InputStep,
    pub buf: String,
    pub first: String,
    pub second: String,
    pub selection_index: usize,
}

/// Whether an input state is the idle one: normal mode, first step,
/// everything empty.
pub open spec fn input_idle(s: InputState) -> bool {
    &&& s.mode == InputMode::Normal
    &&& s.step == InputStep::First
    &&& s.buf@.len() == 0
    &&& s.first@.len() == 0
    &&& s.second@.len() == 0
    &&& s.selection_index == 0
}

impl InputState {
    pub fn new() -> (r: Self)
        ensures
            input_idle(r),
    {
        InputState {
            mode: InputMode::Normal,
            step: InputStep::First,
            buf: String::new(),
            first: String::new(),
            second: String::new(),
            selection_index: 0,
        }
    }

    pub fn reset(&mut self)
        ensures
            input_idle(*final(self)),
    {
        self.mode = InputMode::Normal;
        self.step = InputStep::First;
        self.buf = String::new();
        self.first = String::new();
        self.second = String::new();
        self.selection_index = 0;
    }
}

/// One row of the apps list: the alias, its active profile, its profile
/// names sorted for display, and a best-effort installed flag.
#[derive(Debug, Clone)]
pub struct AppEntry {
    pub name: String,
    pub active_profile: Option<String>,
    pub profiles: Vec<String>,
    pub is_installed: bool,
}

/// The front end's whole state.
#[derive(Debug)]
pub struct App {
    pub entries: Vec<AppEntry>,
    pub selected_app: usize,
    pub selected_profile: usize,
    pub selected_env_var: usize,
    pub page: Page,
    pub focus: Focus,
    pub status: String,
    pub input: InputState,
    pub state: State,
    pub is_launcher_installed: bool,
    pub is_path_configured: bool,
}

/// A selection index fits its list: zero for an empty list, in range
/// otherwise.
pub open spec fn sel_ok(sel: int, len: int) -> bool {
    if len == 0 {
        sel == 0
    } else {
        0 <= sel < len
    }
}

/// Wrap-around selection movement: stay at zero in an empty list, wrap
/// from either end otherwise.
pub open spec fn next_index_spec(current: int, len: int, delta: int) -> int {
    if len == 0 {
        0
    } else if current + delta < 0 {
        len - 1
    } else if current + delta >= len {
        0
    } else {
        current + delta
    }
}

/// Move a selection index by `delta` in a list of `len` entries, wrapping
/// around at both ends; an empty list pins the index to zero.
pub fn next_index(current: usize, len: usize, delta: isize) -> (r: usize)
    requires
        len == 0 || current < len,
        -(isize::MAX as int) <= delta as int,
    ensures
        r == next_index_spec(current as int, len as int, delta as int),
        sel_ok(r as int, len as int),
{
    if len == 0 {
        return 0;
    }
    if delta >= 0 {
        let d = delta as usize;
        if d >= len - current {
            0
        } else {
            current + d
        }
    } else {
        let d = (-delta) as usize;
        if d > current {
            len - 1
        } else {
            current - d
        }
    }
}

/// Whether some string of `v` reads `x`.
pub open spec fn has_name(v: Seq<String>, x: Seq<char>) -> bool {
    exists|i: int| 0 <= i < v.len() && v[i]@ == x
}

/// The first index of `v` whose string reads `x`.
pub open spec fn index_of_name(v: Seq<String>, x: Seq<char>) -> int {
    choose|i: int|
        0 <= i < v.len() && v[i]@ == x && forall|q: int| 0 <= q < i ==> v[q]@ != x
}

/// Where the selection snaps for an entry: the first profile reading the
/// active profile's name, else the top of the list.
pub open spec fn snap_spec(e: AppEntry) -> int {
    match e.active_profile {
        Some(a) => if has_name(e.profiles@, a@) {
            index_of_name(e.profiles@, a@)
        } else {
            0
        },
        None => 0,
    }
}

/// How the display entries correspond to a state: one entry per app,
/// sorted by alias; each entry carries the app's active profile, its
/// profile names sorted, and a cleared installed flag (presence probes are
/// the caller's, filesystem truth being re-derived, never trusted from the
/// state).
pub open spec fn entries_correspond(state: State, entries: Seq<AppEntry>) -> bool {
    &&& entries.len() == state.apps@.len()
    &&& (forall|i: int, j: int|
        0 <= i < j < entries.len() ==> lex_le(entries[i].name@, entries[j].name@))
    &&& entries.map_values(|e: AppEntry| e.name).to_multiset() == state.apps@.map_values(
        |p: (String, crate::state::AppConfig)| p.0,
    ).to_multiset()
    &&& forall|i: int| 0 <= i < entries.len() ==> {
        let e = #[trigger] entries[i];
        &&& has_key(state.apps@, e.name@)
        &&& e.active_profile == value_of(state.apps@, e.name@).active_profile
        &&& e.is_installed == false
        &&& sorted_strings(e.profiles@)
        &&& e.profiles@.to_multiset() == value_of(state.apps@, e.name@).profiles@.map_values(
            |p: (String, crate::state::ProfileConfig)| p.0,
        ).to_multiset()
    }
}

/// Build the display entries for a state: apps sorted by alias, their
/// profile names sorted, installed flags cleared.
fn build_entries(state: &State) -> (r: Vec<AppEntry>)
    requires
        state.wf(),
    ensures
        entries_correspond(*state, r@),
{
    let keys = state.apps.keys();
    let names = sort_strings(&keys);
    let mut out: Vec<AppEntry> = Vec::new();
    let n = names.len();
    let mut i: usize = 0;
    proof {
        broadcast use vstd::seq_lib::group_to_multiset_ensures;

        assert(keys@ =~= state.apps@.map_values(|p: (String, crate::state::AppConfig)| p.0));
        assert(out@.map_values(|e: AppEntry| e.name) =~= Seq::<String>::empty());
    }
    while i < n
        invariant
            state.wf(),
            n == names@.len(),
            i <= n,
            names@.to_multiset() == state.apps@.map_values(
                |p: (String, crate::state::AppConfig)| p.0,
            ).to_multiset(),
            sorted_strings(names@),
            out@.len() == i,
            forall|j: int| 0 <= j < i ==> (#[trigger] out@[j]).name == names@[j],
            forall|j: int| 0 <= j < i ==> {
                let e = #[trigger] out@[j];
                &&& has_key(state.apps@, e.name@)
                &&& e.active_profile == value_of(state.apps@, e.name@).active_profile
                &&& e.is_installed == false
                &&& sorted_strings(e.profiles@)
                &&& e.profiles@.to_multiset() == value_of(
                    state.apps@,
                    e.name@,
                ).profiles@.map_values(|p: (String, crate::state::ProfileConfig)| p.0).to_multiset()
            },
        decreases n - i,
    {
        proof {
            broadcast use vstd::seq_lib::group_to_multiset_ensures;

            assert(names@.to_multiset().contains(names@[i as int]));
            let keys = state.apps@.map_values(|p: (String, crate::state::AppConfig)| p.0);
            assert(keys.to_multiset().contains(names@[i as int]));
            assert(keys.contains(names@[i as int]));
            let w = choose|w: int| 0 <= w < keys.len() && keys[w] == names@[i as int];
            assert(state.apps@[w].0@ == names@[i as int]@);
            assert(has_key(state.apps@, names@[i as int]@));
        }
        let name = names[i].clone();
        let idx = match state.apps.index_of(name.as_str()) {
            Some(j) => j,
            None => {
                proof {
                    assert(false);
                }
                0
            },
        };
        let app = state.apps.value_at(idx);
        proof {
            assert(*app == value_of(state.apps@, name@));
            assert(crate::state::all_apps_wf(state.apps@));
            assert(state.apps@[idx as int].1.wf());
        }
        let pkeys = app.profiles.keys();
        let profiles = sort_strings(&pkeys);
        let active = match &app.active_profile {
            Some(a) => Some(a.clone()),
            None => None,
        };
        proof {
            broadcast use vstd::seq_lib::group_to_multiset_ensures;

            assert(pkeys@ =~= app.profiles@.map_values(
                |p: (String, crate::state::ProfileConfig)| p.0,
            ));
        }
        out.push(AppEntry { name, active_profile: active, profiles, is_installed: false });
        i += 1;
    }
    proof {
        broadcast use vstd::seq_lib::group_to_multiset_ensures;

        assert(out@.map_values(|e: AppEntry| e.name) =~= names@);
        assert(names@.len() == names@.to_multiset().len());
        assert(names@.to_multiset().len() == state.apps@.map_values(
            |p: (String, crate::state::AppConfig)| p.0,
        ).to_multiset().len());
        assert(state.apps@.map_values(|p: (String, crate::state::AppConfig)| p.0).to_multiset().len()
            == state.apps@.map_values(|p: (String, crate::state::AppConfig)| p.0).len());
        assert(names@.len() == state.apps@.len());
        assert forall|p: int, q: int| 0 <= p < q < out@.len() implies lex_le(
            out@[p].name@,
            out@[q].name@,
        ) by {
            assert(out@[p].name == names@[p]);
            assert(out@[q].name == names@[q]);
            assert(lex_le(names@[p]@, names@[q]@));
        }
    }
    out
}

impl App {
    /// The selection indices fit the lists they index.
    pub open spec fn selections_ok(&self) -> bool {
        &&& sel_ok(self.selected_app as int, self.entries@.len() as int)
        &&& sel_ok(
            self.selected_profile as int,
            if self.selected_app < self.entries@.len() {
                self.entries@[self.selected_app as int].profiles@.len() as int
            } else {
                0
            },
        )
    }

    /// A fresh front-end state for a loaded persistent state: display
    /// entries derived and sorted, everything selected from the top, idle
    /// input, the apps list page, and probe flags cleared for the caller
    /// to fill in.
    pub fn from_state(state: State) -> (r: App)
        requires
            state.wf(),
        ensures
            entries_correspond(r.state, r.entries@),
            r.state == state,
            r.selected_app == 0,
            r.selected_profile == snap_spec_at(r.entries@, 0),
            r.selected_env_var == 0,
            r.page == Page::AppsList,
            r.focus == Focus::Apps,
            r.status@ == "Ready"@,
            input_idle(r.input),
            r.is_launcher_installed == false,
            r.is_path_configured == false,
            r.selections_ok(),
    {
        let entries = build_entries(&state);
        let mut app = App {
            entries,
            selected_app: 0,
            selected_profile: 0,
            selected_env_var: 0,
            page: Page::AppsList,
            focus: Focus::Apps,
            status: "Ready".to_owned(),
            input: InputState::new(),
            state,
            is_launcher_installed: false,
            is_path_configured: false,
        };
        app.snap_to_active_profile();
        app
    }

    /// Replace the backing state and rebuild the display entries, keeping
    /// the page, focus, status and input as they are; selections are
    /// clamped to the new lists and the profile selection snaps to the
    /// active profile.
    pub fn update_from_state(&mut self, state: State)
        requires
            state.wf(),
        ensures
            entries_correspond(final(self).state, final(self).entries@),
            final(self).state == state,
            final(self).page == old(self).page,
            final(self).focus == old(self).focus,
            final(self).status == old(self).status,
            final(self).input == old(self).input,
            final(self).is_launcher_installed == old(self).is_launcher_installed,
            final(self).is_path_configured == old(self).is_path_configured,
            final(self).selected_app == (if old(self).selected_app < final(self).entries@.len() {
                old(self).selected_app as int
            } else if final(self).entries@.len() == 0 {
                0
            } else {
                final(self).entries@.len() - 1
            }),
            final(self).selected_profile == snap_spec_at(
                final(self).entries@,
                final(self).selected_app as int,
            ),
            final(self).selected_env_var == (if old(self).selected_env_var < current_env_spec(
                *final(self),
            ).len() {
                old(self).selected_env_var as int
            } else if current_env_spec(*final(self)).len() == 0 {
                0
            } else {
                current_env_spec(*final(self)).len() - 1
            }),
            final(self).selections_ok(),
    {
        let entries = build_entries(&state);
        self.state = state;
        self.entries = entries;
        let len = self.entries.len();
        if self.selected_app >= len {
            self.selected_app = if len == 0 {
                0
            } else {
                len - 1
            };
            self.selected_profile = 0;
        }
        self.snap_to_active_profile();
        let env_len = self.current_env_list().len();
        if self.selected_env_var >= env_len {
            self.selected_env_var = if env_len == 0 {
                0
            } else {
                env_len - 1
            };
        }
    }

    /// The alias of the selected entry, if any entry is selected.
    pub fn current_app_name(&self) -> (r: Option<String>)
        ensures
            match r {
                Some(n) => self.selected_app < self.entries@.len() && n
                    == self.entries@[self.selected_app as int].name,
                None => self.selected_app >= self.entries@.len(),
            },
    {
        if self.selected_app < self.entries.len() {
            Some(self.entries[self.selected_app].name.clone())
        } else {
            None
        }
    }

    /// The selected profile name of the selected entry, if both exist.
    pub fn current_profile_name(&self) -> (r: Option<String>)
        ensures
            match r {
                Some(p) => self.selected_app < self.entries@.len() && self.selected_profile
                    < self.entries@[self.selected_app as int].profiles@.len() && p
                    == self.entries@[self.selected_app as int].profiles@[self.selected_profile as int],
                None => self.selected_app >= self.entries@.len() || self.selected_profile
                    >= self.entries@[self.selected_app as int].profiles@.len(),
            },
    {
        if self.selected_app < self.entries.len() {
            let entry = &self.entries[self.selected_app];
            if self.selected_profile < entry.profiles.len() {
                return Some(entry.profiles[self.selected_profile].clone());
            }
        }
        None
    }

    /// The sorted profile names of the selected entry; empty when no entry
    /// is selected.
    pub fn current_profiles(&self) -> (r: Vec<String>)
        ensures
            self.selected_app < self.entries@.len() ==> r@
                == self.entries@[self.selected_app as int].profiles@,
            self.selected_app >= self.entries@.len() ==> r@.len() == 0,
    {
        if self.selected_app < self.entries.len() {
            let src = &self.entries[self.selected_app].profiles;
            let mut out: Vec<String> = Vec::new();
            let n = src.len();
            let mut i: usize = 0;
            while i < n
                invariant
                    n == src@.len(),
                    i <= n,
                    out@.len() == i,
                    forall|j: int| 0 <= j < i ==> out@[j] == src@[j],
                decreases n - i,
            {
                out.push(src[i].clone());
                i += 1;
            }
            proof {
                assert(out@ =~= src@);
            }
            out
        } else {
            Vec::new()
        }
    }

    /// The selected profile's bindings, as key/value pairs in binding
    /// order, looked up in the backing state; empty when the selection or
    /// the lookup comes up short.
    pub fn current_env_list(&self) -> (r: Vec<(String, String)>)
        requires
            self.state.wf(),
        ensures
            r@ == current_env_spec(*self),
    {
        let name = match self.current_app_name() {
            Some(n) => n,
            None => {
                proof {
                    assert(current_env_spec(*self) =~= Seq::<(String, String)>::empty());
                }
                return Vec::new();
            },
        };
        let profile = match self.current_profile_name() {
            Some(p) => p,
            None => {
                proof {
                    assert(current_env_spec(*self) =~= Seq::<(String, String)>::empty());
                }
                return Vec::new();
            },
        };
        match self.state.apps.get(name.as_str()) {
            Some(app) => {
                proof {
                    assert(app.wf());
                }
                match app.profiles.get(profile.as_str()) {
                    Some(p) => {
                        let d = p.env.duplicate();
                        d.entries
                    },
                    None => {
                        proof {
                            assert(current_env_spec(*self) =~= Seq::<(String, String)>::empty());
                        }
                        Vec::new()
                    },
                }
            },
            None => {
                proof {
                    assert(current_env_spec(*self) =~= Seq::<(String, String)>::empty());
                }
                Vec::new()
            },
        }
    }

    /// The selected binding of the selected profile, if the selection is
    /// in range.
    pub fn current_env_pair(&self) -> (r: Option<(String, String)>)
        requires
            self.state.wf(),
        ensures
            match r {
                Some(p) => self.selected_env_var < current_env_spec(*self).len() && p
                    == current_env_spec(*self)[self.selected_env_var as int],
                None => self.selected_env_var >= current_env_spec(*self).len(),
            },
    {
        let list = self.current_env_list();
        if self.selected_env_var < list.len() {
            Some((list[self.selected_env_var].0.clone(), list[self.selected_env_var].1.clone()))
        } else {
            None
        }
    }

    /// Move the selection of whichever pane has focus by `delta`, wrapping
    /// at the ends.  Moving in the apps list snaps the profile selection to
    /// the newly selected entry's active profile; moving between profiles
    /// resets the binding selection.
    pub fn move_selection(&mut self, delta: isize)
        requires
            old(self).state.wf(),
            old(self).selections_ok(),
            -(isize::MAX as int) <= delta as int,
        ensures
            final(self).state == old(self).state,
            final(self).entries == old(self).entries,
            final(self).page == old(self).page,
            final(self).focus == old(self).focus,
            final(self).status == old(self).status,
            final(self).input == old(self).input,
            final(self).is_launcher_installed == old(self).is_launcher_installed,
            final(self).is_path_configured == old(self).is_path_configured,
            final(self).selections_ok(),
            match old(self).page {
                Page::AppsList => {
                    &&& final(self).selected_app == next_index_spec(
                        old(self).selected_app as int,
                        old(self).entries@.len() as int,
                        delta as int,
                    )
                    &&& final(self).selected_profile == snap_spec_at(
                        final(self).entries@,
                        final(self).selected_app as int,
                    )
                    &&& final(self).selected_env_var == old(self).selected_env_var
                },
                Page::AppDetail => {
                    &&& final(self).selected_app == old(self).selected_app
                    &&& match old(self).focus {
                        Focus::Profiles => final(self).selected_profile == next_index_spec(
                            old(self).selected_profile as int,
                            if old(self).selected_app < old(self).entries@.len() {
                                old(self).entries@[old(self).selected_app as int].profiles@.len() as int
                            } else {
                                0
                            },
                            delta as int,
                        ) && final(self).selected_env_var == 0,
                        Focus::EnvVars => final(self).selected_profile == old(
                            self,
                        ).selected_profile && final(self).selected_env_var == (if old(
                            self,
                        ).selected_env_var < current_env_spec(*old(self)).len() || current_env_spec(
                            *old(self),
                        ).len() == 0 {
                            next_index_spec(
                                old(self).selected_env_var as int,
                                current_env_spec(*old(self)).len() as int,
                                delta as int,
                            )
                        } else {
                            0
                        }),
                        Focus::Apps => final(self).selected_profile == old(self).selected_profile
                            && final(self).selected_env_var == old(self).selected_env_var,
                    }
                },
            },
    {
        match self.page {
            Page::AppsList => {
                let len = self.entries.len();
                self.selected_app = next_index(self.selected_app, len, delta);
                self.snap_to_active_profile();
            },
            Page::AppDetail => {
                match self.focus {
                    Focus::Profiles => {
                        let len = self.current_profiles().len();
                        self.selected_profile = next_index(self.selected_profile, len, delta);
                        self.selected_env_var = 0;
                    },
                    Focus::EnvVars => {
                        let len = self.current_env_list().len();
                        if self.selected_env_var < len || len == 0 {
                            self.selected_env_var = next_index(self.selected_env_var, len, delta);
                        } else {
                            self.selected_env_var = 0;
                        }
                    },
                    Focus::Apps => {},
                }
            },
        }
    }

    /// Snap the profile selection to the selected entry's active profile,
    /// or to the top of its list; entries and every other field stay put.
    pub fn snap_to_active_profile(&mut self)
        ensures
            *final(self) == (App { selected_profile: final(self).selected_profile, ..*old(self) }),
            final(self).selected_profile == (if old(self).selected_app < old(self).entries@.len() {
                snap_spec(old(self).entries@[old(self).selected_app as int])
            } else {
                old(self).selected_profile as int
            }),
            old(self).selected_app < old(self).entries@.len() ==> sel_ok(
                final(self).selected_profile as int,
                old(self).entries@[old(self).selected_app as int].profiles@.len() as int,
            ),
    {
        if self.selected_app >= self.entries.len() {
            return ;
        }
        let entry = &self.entries[self.selected_app];
        let mut snapped: usize = 0;
        match &entry.active_profile {
            Some(active) => {
                let n = entry.profiles.len();
                let mut i: usize = 0;
                let mut found = false;
                while i < n && !found
                    invariant
                        n == entry.profiles@.len(),
                        i <= n,
                        !found ==> forall|q: int| 0 <= q < i ==> entry.profiles@[q]@ != active@,
                        found ==> i < n && entry.profiles@[i as int]@ == active@ && forall|q: int|
                            0 <= q < i ==> entry.profiles@[q]@ != active@,
                    decreases n - i + (if found {
                        0int
                    } else {
                        1int
                    }),
                {
                    if entry.profiles[i] == *active {
                        found = true;
                    } else {
                        i += 1;
                    }
                }
                if found {
                    snapped = i;
                    proof {
                        assert(has_name(entry.profiles@, active@));
                        let w = index_of_name(entry.profiles@, active@);
                        assert(0 <= w < entry.profiles@.len() && entry.profiles@[w]@ == active@
                            && forall|q: int| 0 <= q < w ==> entry.profiles@[q]@ != active@);
                        if w < i {
                            assert(entry.profiles@[w]@ != active@);
                        }
                        if (i as int) < w {
                            assert(entry.profiles@[i as int]@ != active@);
                        }
                        assert(w == i as int);
                    }
                } else {
                    proof {
                        if has_name(entry.profiles@, active@) {
                            let w = choose|w: int|
                                0 <= w < entry.profiles@.len() && entry.profiles@[w]@ == active@;
                            assert(entry.profiles@[w]@ != active@);
                        }
                    }
                }
            },
            None => {},
        }
        self.selected_profile = snapped;
    }
}

/// Where the selection snaps for the entry at `i`, or zero when there is
/// no such entry.
pub open spec fn snap_spec_at(entries: Seq<AppEntry>, i: int) -> int {
    if 0 <= i < entries.len() {
        snap_spec(entries[i])
    } else {
        0
    }
}

/// The selected profile's bindings as the backing state holds them, or
/// empty when the selection does not reach a profile of the state.
pub open spec fn current_env_spec(a: App) -> Seq<(String, String)> {
    if a.selected_app < a.entries@.len() {
        let e = a.entries@[a.selected_app as int];
        if a.selected_profile < e.profiles@.len() {
            let p = e.profiles@[a.selected_profile as int];
            if has_key(a.state.apps@, e.name@) {
                let conf = value_of(a.state.apps@, e.name@);
                if has_key(conf.profiles@, p@) {
                    value_of(conf.profiles@, p@).env@
                } else {
                    Seq::empty()
                }
            } else {
                Seq::empty()
            }
        } else {
            Seq::empty()
        }
    } else {
        Seq::empty()
    }
}

} // verus!
