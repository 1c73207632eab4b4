//! The rendering backends and the choice between them.
use vstd::prelude::*;
use vstd::string::StringExecFns;

verus! {

/// A renderer: software (CPU) or GPU.
#[derive(Debug, Clone, Copy, PartialEq, Eq, Structural)]
pub enum Backend {
    Cpu,
    Gpu,
}

/// Whether this build includes the CPU renderer.
pub const CPU_BACKEND_COMPILED: bool = true;

/// Whether this build includes the GPU renderer.
pub const GPU_BACKEND_COMPILED: bool = true;

/// Whether this build includes ligature shaping.
pub const LIGATURES_COMPILED: bool = false;

/// Why no backend could be chosen.
pub open spec fn backend_error(requested: Option<Backend>) -> Option<Seq<char>> {
    if !GPU_BACKEND_COMPILED && !CPU_BACKEND_COMPILED {
        Some("handterm was built without a CPU or GPU backend"@)
    } else {
        let selected = match requested {
            Some(b) => b,
            None => if GPU_BACKEND_COMPILED {
                Backend::Gpu
            } else {
                Backend::Cpu
            },
        };
        match selected {
            Backend::Cpu => if CPU_BACKEND_COMPILED {
                None
            } else {
                Some("CPU backend is not compiled into this build"@)
            },
            Backend::Gpu => if GPU_BACKEND_COMPILED {
                None
            } else {
                Some("GPU backend is not compiled into this build"@)
            },
        }
    }
}

/// The backend to use: the requested one, or by default the GPU when it is
/// compiled in and the CPU otherwise; an error when it is not compiled in.
pub fn resolve_backend(requested: Option<Backend>) -> (r: Result<Backend, String>)
    ensures
        match r {
            Ok(b) => backend_error(requested) is None && b == (match requested {
                Some(b) => b,
                None => if GPU_BACKEND_COMPILED {
                    Backend::Gpu
                } else {
                    Backend::Cpu
                },
            }),
            Err(m) => backend_error(requested) == Some(m@),
        },
{
    proof {
        reveal_strlit("handterm was built without a CPU or GPU backend");
        reveal_strlit("CPU backend is not compiled into this build");
        reveal_strlit("GPU backend is not compiled into this build");
    }
    let default = if GPU_BACKEND_COMPILED {
        Backend::Gpu
    } else if CPU_BACKEND_COMPILED {
        Backend::Cpu
    } else {
        return Err(String::from_str("handterm was built without a CPU or GPU backend"));
    };
    let selected = match requested {
        Some(b) => b,
        None => default,
    };
    match selected {
        Backend::Cpu => if CPU_BACKEND_COMPILED {
            Ok(Backend::Cpu)
        } else {
            Err(String::from_str("CPU backend is not compiled into this build"))
        },
        Backend::Gpu => if GPU_BACKEND_COMPILED {
            Ok(Backend::Gpu)
        } else {
            Err(String::from_str("GPU backend is not compiled into this build"))
        },
    }
}

/// The warning shown when a translucent background is configured (an
/// opacity below one) but the CPU backend draws: it can only draw opaque
/// windows.
pub fn background_opacity_warning(selected: Backend, translucent: bool) -> (w: Option<&'static str>)
    ensures
        match w {
            Some(m) => selected == Backend::Cpu && translucent && m@
                == "handterm: background_opacity requires the GPU backend on Wayland; CPU rendering via softbuffer is opaque because its Wayland buffer format is Xrgb8888"@,
            None => !(selected == Backend::Cpu && translucent),
        },
{
    if selected == Backend::Cpu && translucent {
        Some(
            "handterm: background_opacity requires the GPU backend on Wayland; CPU rendering via softbuffer is opaque because its Wayland buffer format is Xrgb8888",
        )
    } else {
        None
    }
}

} // verus!
