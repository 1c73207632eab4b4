use handterm::backend::{background_opacity_warning, resolve_backend, Backend, CPU_BACKEND_COMPILED, GPU_BACKEND_COMPILED};
use handterm::build_info::{
    startup_banner,
    backend_name, compiled_features, git_commit, profile_name, protocol_build_id, version,
};

#[test]
fn default_backend_prefers_gpu_when_available() {
    let backend = resolve_backend(None).expect("default backend should resolve");
    if GPU_BACKEND_COMPILED {
        assert_eq!(backend, Backend::Gpu);
    } else {
        assert_eq!(backend, Backend::Cpu);
    }
}

#[test]
fn explicit_cpu_request_requires_cpu_feature() {
    let resolved = resolve_backend(Some(Backend::Cpu));
    if CPU_BACKEND_COMPILED {
        assert_eq!(resolved.expect("cpu backend should exist"), Backend::Cpu);
    } else {
        assert!(resolved.is_err());
    }
}

#[test]
fn explicit_gpu_request_requires_gpu_feature() {
    let resolved = resolve_backend(Some(Backend::Gpu));
    if GPU_BACKEND_COMPILED {
        assert_eq!(resolved.expect("gpu backend should exist"), Backend::Gpu);
    } else {
        assert!(resolved.is_err());
    }
}

#[test]
fn protocol_build_id_includes_version_and_commit() {
    let commit = git_commit(None, Some("3f9c2e1a7b4d\n"));
    let build_id = protocol_build_id(&commit);
    assert!(build_id.contains(version()));
    assert!(build_id.contains(commit.as_str()));
}

#[test]
fn build_commit_prefers_given_then_detected_then_unknown() {
    assert_eq!(git_commit(Some("0123456789ab"), Some("ffffffffffff\n")), "0123456789ab");
    assert_eq!(git_commit(None, Some("  abcdef012345\n")), "abcdef012345");
    assert_eq!(git_commit(None, Some(" \n")), "unknown");
    assert_eq!(git_commit(None, None), "unknown");
    assert_eq!(protocol_build_id("abcdef012345"), "0.1.0-abcdef012345-cpu,gpu");
    assert_ne!(protocol_build_id("abcdef012345"), protocol_build_id("unknown"));
}

#[test]
fn build_names() {
    assert_eq!(protocol_build_id("unknown"), "0.1.0-unknown-cpu,gpu");
    assert_eq!(compiled_features(), "cpu,gpu");
    assert_eq!(backend_name(Backend::Cpu), "cpu");
    assert_eq!(backend_name(Backend::Gpu), "gpu");
    assert_eq!(profile_name(), "release");
}

#[test]
fn startup_banner_includes_core_build_fields() {
    let banner = startup_banner("unknown", Backend::Cpu, Some("/tmp/handterm-cpu.sock"), None, 42, None);
    assert!(banner.contains("handterm "));
    assert!(banner.contains("backend=cpu"));
    assert!(banner.contains("features="));
    assert!(banner.contains("socket=/tmp/handterm-cpu.sock"));
}

#[test]
fn startup_banner_fills_in_missing_environment() {
    let banner = startup_banner("4f2a9c0d11e3", Backend::Gpu, None, Some("/usr/bin/handterm"), 7, Some("debug"));
    assert_eq!(
        banner,
        format!(
            "handterm 0.1.0 (4f2a9c0d11e3) backend=gpu profile=debug features={} pid=7 exe=/usr/bin/handterm socket=<none>",
            handterm::build_info::compiled_features()
        )
    );
    let banner = startup_banner("unknown", Backend::Cpu, None, None, 0, None);
    assert!(banner.contains("profile=release"));
    assert!(banner.contains("exe=<unknown>"));
}

#[test]
fn warns_when_transparency_is_requested_on_cpu_backend() {
    // The caller compares the configured opacity with one.
    let translucent = |opacity: f64| opacity < 1.0;
    assert!(background_opacity_warning(Backend::Cpu, translucent(0.9)).is_some());
    assert!(background_opacity_warning(Backend::Cpu, translucent(1.0)).is_none());
    assert!(background_opacity_warning(Backend::Gpu, translucent(0.9)).is_none());
}
