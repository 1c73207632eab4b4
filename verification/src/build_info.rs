//! What a build is: its version, commit, compiled features and backend
//! names, and the identifier that a server and its clients must share.
use crate::backend::{Backend, CPU_BACKEND_COMPILED, GPU_BACKEND_COMPILED, LIGATURES_COMPILED};
use crate::color::trim;
use crate::font_cache::trimmed_bounds;
use crate::input::{decimal, push_decimal};
use crate::text::{chars_of, string_of_chars};
use vstd::prelude::*;
use vstd::string::StringExecFns;

verus! {

/// The package version.
pub open spec fn version_text() -> Seq<char> {
    "0.1.0"@
}

/// The commit a build names: the one given to the build, else the one found
/// in its repository (white space around it removed, and only where some is
/// left), else `unknown`.
pub open spec fn commit_text(given: Option<Seq<char>>, detected: Option<Seq<char>>) -> Seq<char> {
    match given {
        Some(c) => c,
        None => match detected {
            Some(d) => if trim(d).len() > 0 {
                trim(d)
            } else {
                "unknown"@
            },
            None => "unknown"@,
        },
    }
}

pub fn version() -> (s: &'static str)
    ensures
        s@ == version_text(),
{
    "0.1.0"
}

/// The commit a build names, from the commit given to the build (the
/// `HANDTERM_GIT_COMMIT` variable) and what `git rev-parse` printed in its
/// repository.
pub fn git_commit(given: Option<&str>, detected: Option<&str>) -> (s: String)
    ensures
        s@ == commit_text(
            match given {
                Some(c) => Some(c@),
                None => None,
            },
            match detected {
                Some(d) => Some(d@),
                None => None,
            },
        ),
{
    match given {
        Some(c) => String::from_str(c),
        None => match detected {
            Some(d) => {
                let v = chars_of(d);
                let (i, j) = trimmed_bounds(&v, 0, v.len());
                assert(v@.subrange(0, v@.len() as int) =~= v@);
                if i < j {
                    string_of_chars(&v, i, j)
                } else {
                    String::from_str("unknown")
                }
            },
            None => String::from_str("unknown"),
        },
    }
}

/// The compiled optional features, comma-separated, or `none`.
pub open spec fn features_text() -> Seq<char> {
    if CPU_BACKEND_COMPILED && GPU_BACKEND_COMPILED && LIGATURES_COMPILED {
        "cpu,gpu,ligatures"@
    } else if CPU_BACKEND_COMPILED && GPU_BACKEND_COMPILED {
        "cpu,gpu"@
    } else if CPU_BACKEND_COMPILED && LIGATURES_COMPILED {
        "cpu,ligatures"@
    } else if CPU_BACKEND_COMPILED {
        "cpu"@
    } else if GPU_BACKEND_COMPILED && LIGATURES_COMPILED {
        "gpu,ligatures"@
    } else if GPU_BACKEND_COMPILED {
        "gpu"@
    } else if LIGATURES_COMPILED {
        "ligatures"@
    } else {
        "none"@
    }
}

pub fn compiled_features() -> (s: &'static str)
    ensures
        s@ == features_text(),
{
    if CPU_BACKEND_COMPILED && GPU_BACKEND_COMPILED && LIGATURES_COMPILED {
        "cpu,gpu,ligatures"
    } else if CPU_BACKEND_COMPILED && GPU_BACKEND_COMPILED {
        "cpu,gpu"
    } else if CPU_BACKEND_COMPILED && LIGATURES_COMPILED {
        "cpu,ligatures"
    } else if CPU_BACKEND_COMPILED {
        "cpu"
    } else if GPU_BACKEND_COMPILED && LIGATURES_COMPILED {
        "gpu,ligatures"
    } else if GPU_BACKEND_COMPILED {
        "gpu"
    } else if LIGATURES_COMPILED {
        "ligatures"
    } else {
        "none"
    }
}

/// The identifier a server and its clients compare: `version-commit-features`,
/// with the commit the build names (see `git_commit`).
pub fn protocol_build_id(commit: &str) -> (s: String)
    ensures
        s@ == version_text() + "-"@ + commit@ + "-"@ + features_text(),
{
    let mut s = String::from_str(version());
    s.append("-");
    s.append(commit);
    s.append("-");
    s.append(compiled_features());
    s
}

pub fn backend_name(backend: Backend) -> (s: &'static str)
    ensures
        s@ == (match backend {
            Backend::Cpu => "cpu"@,
            Backend::Gpu => "gpu"@,
        }),
{
    match backend {
        Backend::Cpu => "cpu",
        Backend::Gpu => "gpu",
    }
}

/// The build profile of this library. It is built with optimizations, so
/// it reports `release`.
pub fn profile_name() -> (s: &'static str)
    ensures
        s@ == "release"@,
{
    "release"
}

/// The line a process logs when it starts: version and commit, backend,
/// build profile, features, process id, executable and control socket.
pub open spec fn banner_text(
    commit: Seq<char>,
    backend: Backend,
    profile: Seq<char>,
    pid: u32,
    exe: Seq<char>,
    socket: Seq<char>,
) -> Seq<char> {
    "handterm "@ + version_text() + " ("@ + commit + ") backend="@ + (match backend {
        Backend::Cpu => "cpu"@,
        Backend::Gpu => "gpu"@,
    }) + " profile="@ + profile + " features="@ + features_text() + " pid="@ + decimal(
        pid as nat,
    ) + " exe="@ + exe + " socket="@ + socket
}

/// The startup banner, naming the commit the build names (see
/// `git_commit`). The caller supplies what the process environment holds: the `PROFILE` variable, the process id and the executable's path;
/// a missing profile reads as this build's, a missing executable as
/// `<unknown>` and a missing socket as `<none>`.
pub fn startup_banner(
    commit: &str,
    backend: Backend,
    socket_path: Option<&str>,
    exe: Option<&str>,
    pid: u32,
    profile: Option<&str>,
) -> (s: String)
    ensures
        s@ == banner_text(
            commit@,
            backend,
            match profile {
                Some(p) => p@,
                None => "release"@,
            },
            pid,
            match exe {
                Some(e) => e@,
                None => "<unknown>"@,
            },
            match socket_path {
                Some(p) => p@,
                None => "<none>"@,
            },
        ),
{
    let mut s = String::from_str("handterm ");
    s.append(version());
    s.append(" (");
    s.append(commit);
    s.append(") backend=");
    s.append(backend_name(backend));
    s.append(" profile=");
    match profile {
        Some(p) => s.append(p),
        None => s.append(profile_name()),
    }
    s.append(" features=");
    s.append(compiled_features());
    s.append(" pid=");
    push_decimal(&mut s, pid);
    s.append(" exe=");
    match exe {
        Some(e) => s.append(e),
        None => s.append("<unknown>"),
    }
    s.append(" socket=");
    match socket_path {
        Some(p) => s.append(p),
        None => s.append("<none>"),
    }
    s
}

} // verus!
