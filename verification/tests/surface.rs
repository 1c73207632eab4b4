use handterm::surface::{
    build_surface_config, select_alpha_mode, select_present_mode, select_surface_format,
    CompositeAlphaMode, GpuSurfaceDefaults, PresentMode, SurfaceCapabilities, TextureFormat,
};

fn caps(
    formats: Vec<TextureFormat>,
    present_modes: Vec<PresentMode>,
    alpha_modes: Vec<CompositeAlphaMode>,
) -> SurfaceCapabilities {
    SurfaceCapabilities {
        formats,
        present_modes,
        alpha_modes,
    }
}

#[test]
fn prefers_non_srgb_surface_format_when_available() {
    let capabilities = caps(
        vec![TextureFormat::Bgra8UnormSrgb, TextureFormat::Bgra8Unorm],
        vec![PresentMode::Fifo],
        vec![CompositeAlphaMode::Opaque],
    );

    assert_eq!(
        select_surface_format(&capabilities, TextureFormat::Bgra8UnormSrgb),
        TextureFormat::Bgra8Unorm
    );
}

#[test]
fn prefers_premultiplied_alpha_when_transparency_is_requested() {
    let capabilities = caps(
        vec![TextureFormat::Bgra8Unorm],
        vec![PresentMode::Fifo],
        vec![CompositeAlphaMode::Opaque, CompositeAlphaMode::PreMultiplied],
    );

    assert_eq!(
        select_alpha_mode(&capabilities, true),
        CompositeAlphaMode::PreMultiplied
    );
    assert_eq!(
        select_alpha_mode(&capabilities, false),
        CompositeAlphaMode::Opaque
    );
}

#[test]
fn falls_back_to_auto_alpha_when_thats_all_the_compositor_offers() {
    let capabilities = caps(
        vec![TextureFormat::Bgra8Unorm],
        vec![PresentMode::Fifo],
        vec![CompositeAlphaMode::Auto],
    );

    assert_eq!(
        select_alpha_mode(&capabilities, true),
        CompositeAlphaMode::Auto
    );
}

#[test]
fn falls_back_to_opaque_alpha_when_compositor_has_no_transparent_mode() {
    let capabilities = caps(
        vec![TextureFormat::Bgra8Unorm],
        vec![PresentMode::Fifo],
        vec![CompositeAlphaMode::Opaque],
    );

    assert_eq!(
        select_alpha_mode(&capabilities, true),
        CompositeAlphaMode::Opaque
    );
}

#[test]
fn build_surface_config_reuses_preferred_defaults_without_capabilities() {
    let defaults = GpuSurfaceDefaults {
        format: TextureFormat::Bgra8Unorm,
        present_mode: PresentMode::Mailbox,
        alpha_mode: CompositeAlphaMode::PreMultiplied,
    };

    let (config, reused) = build_surface_config(800, 600, true, Some(defaults), None)
        .expect("preferred defaults should build a surface config");

    assert!(reused);
    assert_eq!(config.width, 800);
    assert_eq!(config.height, 600);
    assert_eq!(config.format, defaults.format);
    assert_eq!(config.present_mode, defaults.present_mode);
    assert_eq!(config.alpha_mode, defaults.alpha_mode);
}

#[test]
fn build_surface_config_uses_capabilities_when_defaults_absent() {
    let capabilities = caps(
        vec![TextureFormat::Bgra8UnormSrgb, TextureFormat::Bgra8Unorm],
        vec![PresentMode::Fifo, PresentMode::AutoVsync],
        vec![CompositeAlphaMode::Opaque, CompositeAlphaMode::PostMultiplied],
    );

    let (config, reused) = build_surface_config(640, 480, true, None, Some(&capabilities))
        .expect("capabilities should build a surface config");

    assert!(!reused);
    assert_eq!(config.width, 640);
    assert_eq!(config.height, 480);
    assert_eq!(config.format, TextureFormat::Bgra8Unorm);
    assert_eq!(config.present_mode, PresentMode::Fifo);
    assert_eq!(config.alpha_mode, CompositeAlphaMode::PostMultiplied);
}

#[test]
fn surface_format_falls_back_when_every_format_is_srgb() {
    let capabilities = caps(
        vec![TextureFormat::Bgra8UnormSrgb, TextureFormat::Rgba8UnormSrgb],
        vec![],
        vec![],
    );
    assert_eq!(
        select_surface_format(&capabilities, TextureFormat::Rgba8UnormSrgb),
        TextureFormat::Rgba8UnormSrgb
    );
}

#[test]
fn present_mode_prefers_mailbox_then_first_offered_then_fifo() {
    let with_mailbox = caps(vec![], vec![PresentMode::Fifo, PresentMode::Mailbox], vec![]);
    assert_eq!(select_present_mode(&with_mailbox), PresentMode::Mailbox);
    let immediate_only = caps(vec![], vec![PresentMode::Immediate], vec![]);
    assert_eq!(select_present_mode(&immediate_only), PresentMode::Immediate);
    let none = caps(vec![], vec![], vec![]);
    assert_eq!(select_present_mode(&none), PresentMode::Fifo);
}

#[test]
fn surface_config_needs_capabilities_with_a_format() {
    let empty = caps(vec![], vec![PresentMode::Fifo], vec![]);
    assert_eq!(
        build_surface_config(10, 10, false, None, Some(&empty)),
        Err("surface should be compatible".to_string())
    );
    assert_eq!(
        build_surface_config(10, 10, false, None, None),
        Err("surface should be compatible".to_string())
    );
}

#[test]
fn surface_config_size_is_at_least_one_pixel() {
    let with_format = caps(vec![TextureFormat::Rgba8Unorm], vec![], vec![]);
    let (config, _) = build_surface_config(0, 0, false, None, Some(&with_format)).unwrap();
    assert_eq!((config.width, config.height), (1, 1));
    assert_eq!(config.alpha_mode, CompositeAlphaMode::Opaque);
}
