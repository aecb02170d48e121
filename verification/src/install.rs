//! Install-path computation for the launcher and its per-alias shim stubs.
//!
//! Placement itself (copying or symlinking the launcher binary) is
//! filesystem work left to the caller; everything that decides *where* a
//! stub belongs and what it is called is computed and verified here.

use vstd::prelude::*;
use crate::error::{CoreError, ErrorCode};
use crate::launch::{joined, sep_char};
use crate::state::AppConfig;
use crate::text::{blank, is_blank};

verus! {

/// Where the launcher and its shims are installed.
#[derive(Debug, Clone, Copy, PartialEq, Eq, Structural)]
pub enum InstallMode {
    /// A machine-wide location.
    Global,
    /// A per-user location.
    User,
}

/// The platform facts the installer works from: whether executables carry a
/// suffix (and stubs are copies rather than symlinks), and the install
/// directory.
#[derive(Debug, Clone)]
pub struct PlatformInfo {
    pub is_windows: bool,
    pub install_dir: String,
}

/// The install directory for a mode, from the platform's base directory:
/// the local application-data directory where the platform has one, else
/// `/usr/local/bin` for machine-wide installs or `<home>/.envhub/bin` for
/// per-user installs.  Fails Install-path when the needed base directory is
/// unknown.
pub fn resolve_platform(mode: InstallMode, is_windows: bool, base_dir: Option<&str>) -> (r: Result<
    PlatformInfo,
    CoreError,
>)
    ensures
        match r {
            Ok(p) => {
                &&& p.is_windows == is_windows
                &&& if is_windows {
                    match base_dir {
                        Some(b) => p.install_dir@ == b@ + "\\EnvHub\\bin"@,
                        None => false,
                    }
                } else if mode == InstallMode::Global {
                    p.install_dir@ == "/usr/local/bin"@
                } else {
                    match base_dir {
                        Some(b) => p.install_dir@ == b@ + "/.envhub/bin"@,
                        None => false,
                    }
                }
            },
            Err(e) => e.code == ErrorCode::InstallPath && base_dir is None && (is_windows || mode
                == InstallMode::User),
        },
{
    if is_windows {
        match base_dir {
            Some(b) => {
                let mut d: String = b.to_owned();
                d.append("\\EnvHub\\bin");
                Ok(PlatformInfo { is_windows, install_dir: d })
            },
            None => Err(
                CoreError::new(ErrorCode::InstallPath, "LOCALAPPDATA is not set".to_owned()),
            ),
        }
    } else {
        match mode {
            InstallMode::Global => Ok(
                PlatformInfo { is_windows, install_dir: "/usr/local/bin".to_owned() },
            ),
            InstallMode::User => {
                match base_dir {
                    Some(b) => {
                        let mut d: String = b.to_owned();
                        d.append("/.envhub/bin");
                        Ok(PlatformInfo { is_windows, install_dir: d })
                    },
                    None => Err(
                        CoreError::new(
                            ErrorCode::InstallPath,
                            "Failed to resolve home directory".to_owned(),
                        ),
                    ),
                }
            },
        }
    }
}

/// The file name an installed shim carries: the alias, with the platform's
/// executable suffix where one is used.
pub open spec fn shim_file_name_spec(name: Seq<char>, is_windows: bool) -> Seq<char> {
    if is_windows {
        name + ".exe"@
    } else {
        name
    }
}

/// The file name an installed shim of `name` carries.
pub fn shim_file_name(name: &str, is_windows: bool) -> (r: String)
    ensures
        r@ == shim_file_name_spec(name@, is_windows),
{
    let mut f: String = name.to_owned();
    if is_windows {
        f.append(".exe");
    }
    f
}

/// Whether the shim of `name` is present, judged purely from a listing of
/// the install directory.  A blank alias is never installed.
pub fn is_shim_installed(name: &str, platform: &PlatformInfo, dir_entries: &Vec<String>) -> (r:
    bool)
    ensures
        r == (!is_blank(name@) && exists|i: int|
            0 <= i < dir_entries@.len() && dir_entries@[i]@ == shim_file_name_spec(
                name@,
                platform.is_windows,
            )),
{
    if blank(name) {
        return false;
    }
    let expected = shim_file_name(name, platform.is_windows);
    let n = dir_entries.len();
    let mut i: usize = 0;
    while i < n
        invariant
            n == dir_entries@.len(),
            i <= n,
            !is_blank(name@),
            expected@ == shim_file_name_spec(name@, platform.is_windows),
            forall|j: int| 0 <= j < i ==> dir_entries@[j]@ != expected@,
        decreases n - i,
    {
        if dir_entries[i] == expected {
            return true;
        }
        i += 1;
    }
    false
}

/// The destination path where the shim stub of `name` goes inside the
/// platform's install directory.  The caller places a symlink or copy of
/// the launcher there, replacing any existing stub.  Fails Invalid-state on
/// a blank alias.
pub fn install_shim(name: &str, platform: &PlatformInfo) -> (r: Result<String, CoreError>)
    ensures
        match r {
            Ok(p) => !is_blank(name@) && p@ == joined(
                platform.install_dir@,
                shim_file_name_spec(name@, platform.is_windows),
                platform.is_windows,
            ),
            Err(e) => e.code == ErrorCode::InvalidState && is_blank(name@),
        },
{
    if blank(name) {
        return Err(CoreError::new(ErrorCode::InvalidState, "App name must be non-empty".to_owned()));
    }
    let file = shim_file_name(name, platform.is_windows);
    let mut p: String = platform.install_dir.clone();
    if platform.is_windows {
        p.append("\\");
        proof {
            reveal_strlit("\\");
            assert(p@ =~= platform.install_dir@ + seq![sep_char(platform.is_windows)]);
        }
    } else {
        p.append("/");
        proof {
            reveal_strlit("/");
            assert(p@ =~= platform.install_dir@ + seq![sep_char(platform.is_windows)]);
        }
    }
    p.append(file.as_str());
    Ok(p)
}

/// The install directory a shim of this app goes to: the app's configured
/// override when it has one, else the platform's directory.
pub fn effective_install_dir(app: &AppConfig, platform: &PlatformInfo) -> (r: String)
    ensures
        match app.install_path {
            Some(p) => r@ == p@,
            None => r@ == platform.install_dir@,
        },
{
    match &app.install_path {
        Some(p) => p.clone(),
        None => platform.install_dir.clone(),
    }
}

/// Whether `[a, b)` is one separator-delimited segment of `s`: it abuts a
/// separator (or an end) on both sides and holds none itself.
pub open spec fn is_path_segment(s: Seq<char>, sep: char, a: int, b: int) -> bool {
    &&& 0 <= a <= b <= s.len()
    &&& (a == 0 || s[a - 1] == sep)
    &&& (b == s.len() || s[b] == sep)
    &&& forall|j: int| a <= j < b ==> s[j] != sep
}

/// Whether some separator-delimited segment of `s` reads `dir`.
pub open spec fn has_path_entry(s: Seq<char>, sep: char, dir: Seq<char>) -> bool {
    exists|a: int, b: int| is_path_segment(s, sep, a, b) && s.subrange(a, b) == dir
}

/// A segment is determined by where it ends.
proof fn lemma_segment_start_unique(s: Seq<char>, sep: char, a: int, b: int, a2: int)
    requires
        is_path_segment(s, sep, a, b),
        is_path_segment(s, sep, a2, b),
    ensures
        a == a2,
{
    if a < a2 {
        assert(s[a2 - 1] == sep);
        assert(s[a2 - 1] != sep);
    } else if a2 < a {
        assert(s[a - 1] == sep);
        assert(s[a - 1] != sep);
    }
}

/// Whether the directory list `path_var`, split at `sep`, holds an entry
/// that reads exactly `dir` (the check a front end uses to tell whether
/// the install directory is on `PATH`).
pub fn path_contains_dir(path_var: &str, dir: &str, sep: char) -> (r: bool)
    ensures
        r == has_path_entry(path_var@, sep, dir@),
{
    let n = path_var.unicode_len();
    let mut start: usize = 0;
    let mut i: usize = 0;
    while i < n
        invariant
            n == path_var@.len(),
            start <= i <= n,
            start == 0 || path_var@[start - 1] == sep,
            forall|j: int| start <= j < i ==> path_var@[j] != sep,
            forall|a: int, b: int|
                is_path_segment(path_var@, sep, a, b) && b < i ==> path_var@.subrange(a, b)
                    != dir@,
        decreases n - i,
    {
        let c = path_var.get_char(i);
        if c == sep {
            let seg = path_var.substring_char(start, i);
            if crate::text::str_eq(seg, dir) {
                proof {
                    assert(is_path_segment(path_var@, sep, start as int, i as int));
                }
                return true;
            }
            proof {
                assert(is_path_segment(path_var@, sep, start as int, i as int));
                assert forall|a: int, b: int|
                    is_path_segment(path_var@, sep, a, b) && b < i + 1 implies path_var@.subrange(
                    a,
                    b,
                ) != dir@ by {
                    if b == i {
                        lemma_segment_start_unique(path_var@, sep, a, b, start as int);
                    }
                }
            }
            start = i + 1;
        } else {
            proof {
                assert forall|a: int, b: int|
                    is_path_segment(path_var@, sep, a, b) && b < i + 1 implies path_var@.subrange(
                    a,
                    b,
                ) != dir@ by {
                    if b == i {
                        assert(path_var@[b] == sep);
                    }
                }
            }
        }
        i += 1;
    }
    let seg = path_var.substring_char(start, n);
    if crate::text::str_eq(seg, dir) {
        proof {
            assert(is_path_segment(path_var@, sep, start as int, n as int));
        }
        return true;
    }
    proof {
        assert(is_path_segment(path_var@, sep, start as int, n as int));
        assert forall|a: int, b: int|
            is_path_segment(path_var@, sep, a, b) implies path_var@.subrange(a, b) != dir@ by {
            if b == n {
                lemma_segment_start_unique(path_var@, sep, a, b, start as int);
            }
        }
    }
    false
}

} // verus!
