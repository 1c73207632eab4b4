//! Choosing how a window's GPU surface is configured from what the compositor
//! offers: a linear (non-sRGB) texture format, a low-latency present mode and,
//! for translucent windows, an alpha mode that lets the desktop show through.
use vstd::prelude::*;
use vstd::string::StringExecFns;

verus! {

/// The texture formats a window surface can offer.
#[derive(PartialEq, Eq, Structural, Clone, Copy, Debug)]
pub enum TextureFormat {
    Bgra8Unorm,
    Bgra8UnormSrgb,
    Rgba8Unorm,
    Rgba8UnormSrgb,
    Rgba16Float,
    Rgb10a2Unorm,
}

impl TextureFormat {
    /// Whether shaders see this format's values sRGB-decoded.
    pub open spec fn srgb(self) -> bool {
        self is Bgra8UnormSrgb || self is Rgba8UnormSrgb
    }

    pub fn is_srgb(&self) -> (r: bool)
        ensures
            r == self.srgb(),
    {
        match self {
            TextureFormat::Bgra8UnormSrgb => true,
            TextureFormat::Rgba8UnormSrgb => true,
            _ => false,
        }
    }
}

/// How frames are handed to the display.
#[derive(PartialEq, Eq, Structural, Clone, Copy, Debug)]
pub enum PresentMode {
    AutoVsync,
    AutoNoVsync,
    Fifo,
    FifoRelaxed,
    Immediate,
    Mailbox,
}

/// How the compositor treats the alpha channel of presented frames.
#[derive(PartialEq, Eq, Structural, Clone, Copy, Debug)]
pub enum CompositeAlphaMode {
    Auto,
    Opaque,
    PreMultiplied,
    PostMultiplied,
    Inherit,
}

/// What a surface supports, in the compositor's order of preference.
#[derive(Clone, Debug)]
pub struct SurfaceCapabilities {
    pub formats: Vec<TextureFormat>,
    pub present_modes: Vec<PresentMode>,
    pub alpha_modes: Vec<CompositeAlphaMode>,
}

/// A configuration chosen for an earlier window, reused for the next one.
#[derive(PartialEq, Eq, Structural, Clone, Copy, Debug)]
pub struct GpuSurfaceDefaults {
    pub format: TextureFormat,
    pub present_mode: PresentMode,
    pub alpha_mode: CompositeAlphaMode,
}

/// The configuration a surface is created with (always a render attachment
/// with no extra view formats).
#[derive(PartialEq, Eq, Structural, Clone, Copy, Debug)]
pub struct SurfaceConfiguration {
    pub format: TextureFormat,
    pub width: u32,
    pub height: u32,
    pub present_mode: PresentMode,
    pub desired_maximum_frame_latency: u32,
    pub alpha_mode: CompositeAlphaMode,
}

/// The first format of `formats` that is not sRGB, or `fallback` when all are.
pub open spec fn first_linear_format(formats: Seq<TextureFormat>, fallback: TextureFormat) -> TextureFormat
    decreases formats.len(),
{
    if formats.len() == 0 {
        fallback
    } else if !formats[0].srgb() {
        formats[0]
    } else {
        first_linear_format(formats.drop_first(), fallback)
    }
}

/// Mailbox, then FIFO, then automatic vsync, whichever is offered first in
/// that order; else the first offered mode; else FIFO.
pub open spec fn preferred_present_mode(modes: Seq<PresentMode>) -> PresentMode {
    if modes.contains(PresentMode::Mailbox) {
        PresentMode::Mailbox
    } else if modes.contains(PresentMode::Fifo) {
        PresentMode::Fifo
    } else if modes.contains(PresentMode::AutoVsync) {
        PresentMode::AutoVsync
    } else if modes.len() > 0 {
        modes[0]
    } else {
        PresentMode::Fifo
    }
}

/// Opaque unless transparency is wanted; then premultiplied, postmultiplied,
/// inherited or automatic alpha, the first of these that is offered, and
/// opaque when none is.
pub open spec fn preferred_alpha_mode(modes: Seq<CompositeAlphaMode>, transparency: bool) -> CompositeAlphaMode {
    if !transparency {
        CompositeAlphaMode::Opaque
    } else if modes.contains(CompositeAlphaMode::PreMultiplied) {
        CompositeAlphaMode::PreMultiplied
    } else if modes.contains(CompositeAlphaMode::PostMultiplied) {
        CompositeAlphaMode::PostMultiplied
    } else if modes.contains(CompositeAlphaMode::Inherit) {
        CompositeAlphaMode::Inherit
    } else if modes.contains(CompositeAlphaMode::Auto) {
        CompositeAlphaMode::Auto
    } else {
        CompositeAlphaMode::Opaque
    }
}

pub open spec fn at_least_one(v: u32) -> u32 {
    if v == 0 {
        1
    } else {
        v
    }
}

proof fn lemma_first_linear_format_skip(formats: Seq<TextureFormat>, fallback: TextureFormat, i: int)
    requires
        0 <= i <= formats.len(),
        forall|j: int| 0 <= j < i ==> #[trigger] formats[j].srgb(),
    ensures
        first_linear_format(formats, fallback) == first_linear_format(formats.subrange(i, formats.len() as int), fallback),
    decreases i,
{
    if i == 0 {
        assert(formats.subrange(0, formats.len() as int) =~= formats);
    } else {
        let rest = formats.drop_first();
        assert(formats[0].srgb());
        assert forall|j: int| 0 <= j < i - 1 implies #[trigger] rest[j].srgb() by {
            assert(rest[j] == formats[j + 1]);
        }
        lemma_first_linear_format_skip(rest, fallback, i - 1);
        assert(rest.subrange(i - 1, rest.len() as int) =~= formats.subrange(i, formats.len() as int));
    }
}

/// The surface's first offered format that is not sRGB (colours are blended
/// in the renderer's own space), or `fallback` when every format is sRGB.
pub fn select_surface_format(capabilities: &SurfaceCapabilities, fallback: TextureFormat) -> (r: TextureFormat)
    ensures
        r == first_linear_format(capabilities.formats@, fallback),
{
    let formats = &capabilities.formats;
    let mut i: usize = 0;
    while i < formats.len()
        invariant
            0 <= i <= formats.len(),
            formats@ == capabilities.formats@,
            forall|j: int| 0 <= j < i ==> #[trigger] formats@[j].srgb(),
        decreases formats.len() - i,
    {
        let f = formats[i];
        if !f.is_srgb() {
            proof {
                lemma_first_linear_format_skip(formats@, fallback, i as int);
                let rest = formats@.subrange(i as int, formats@.len() as int);
                assert(rest.len() > 0 && rest[0] == formats@[i as int]);
                assert(first_linear_format(rest, fallback) == rest[0]);
            }
            return f;
        }
        i = i + 1;
    }
    proof {
        lemma_first_linear_format_skip(formats@, fallback, i as int);
        assert(formats@.subrange(i as int, formats@.len() as int).len() == 0);
    }
    fallback
}

fn offers_present_mode(modes: &Vec<PresentMode>, mode: PresentMode) -> (r: bool)
    ensures
        r == modes@.contains(mode),
{
    let mut i: usize = 0;
    while i < modes.len()
        invariant
            0 <= i <= modes.len(),
            forall|j: int| 0 <= j < i ==> modes@[j] != mode,
        decreases modes.len() - i,
    {
        if modes[i] == mode {
            return true;
        }
        i = i + 1;
    }
    false
}

fn offers_alpha_mode(modes: &Vec<CompositeAlphaMode>, mode: CompositeAlphaMode) -> (r: bool)
    ensures
        r == modes@.contains(mode),
{
    let mut i: usize = 0;
    while i < modes.len()
        invariant
            0 <= i <= modes.len(),
            forall|j: int| 0 <= j < i ==> modes@[j] != mode,
        decreases modes.len() - i,
    {
        if modes[i] == mode {
            return true;
        }
        i = i + 1;
    }
    false
}

/// The present mode with the least latency that keeps tearing away: see
/// `preferred_present_mode`.
pub fn select_present_mode(capabilities: &SurfaceCapabilities) -> (r: PresentMode)
    ensures
        r == preferred_present_mode(capabilities.present_modes@),
{
    let modes = &capabilities.present_modes;
    if offers_present_mode(modes, PresentMode::Mailbox) {
        PresentMode::Mailbox
    } else if offers_present_mode(modes, PresentMode::Fifo) {
        PresentMode::Fifo
    } else if offers_present_mode(modes, PresentMode::AutoVsync) {
        PresentMode::AutoVsync
    } else if modes.len() > 0 {
        modes[0]
    } else {
        PresentMode::Fifo
    }
}

/// The alpha mode for a window that does or does not want its background to
/// show the desktop through: see `preferred_alpha_mode`.
pub fn select_alpha_mode(capabilities: &SurfaceCapabilities, transparency_requested: bool) -> (r: CompositeAlphaMode)
    ensures
        r == preferred_alpha_mode(capabilities.alpha_modes@, transparency_requested),
{
    if !transparency_requested {
        return CompositeAlphaMode::Opaque;
    }
    let modes = &capabilities.alpha_modes;
    if offers_alpha_mode(modes, CompositeAlphaMode::PreMultiplied) {
        CompositeAlphaMode::PreMultiplied
    } else if offers_alpha_mode(modes, CompositeAlphaMode::PostMultiplied) {
        CompositeAlphaMode::PostMultiplied
    } else if offers_alpha_mode(modes, CompositeAlphaMode::Inherit) {
        CompositeAlphaMode::Inherit
    } else if offers_alpha_mode(modes, CompositeAlphaMode::Auto) {
        CompositeAlphaMode::Auto
    } else {
        CompositeAlphaMode::Opaque
    }
}

/// The configuration for a surface of `width` x `height` pixels (each at
/// least one). Defaults kept from an earlier window are reused as they are,
/// and the second value of the pair says so; otherwise the choice is made
/// from the surface's capabilities, which must be known and offer a format.
pub fn build_surface_config(
    width: u32,
    height: u32,
    transparency: bool,
    preferred_defaults: Option<GpuSurfaceDefaults>,
    surface_caps: Option<&SurfaceCapabilities>,
) -> (r: Result<(SurfaceConfiguration, bool), String>)
    ensures
        match preferred_defaults {
            Some(d) => r == Ok::<(SurfaceConfiguration, bool), String>((SurfaceConfiguration {
                format: d.format,
                width: at_least_one(width),
                height: at_least_one(height),
                present_mode: d.present_mode,
                desired_maximum_frame_latency: 1,
                alpha_mode: d.alpha_mode,
            }, true)),
            None => match surface_caps {
                Some(caps) if caps.formats@.len() > 0 => r == Ok::<(SurfaceConfiguration, bool), String>((SurfaceConfiguration {
                    format: first_linear_format(caps.formats@, caps.formats@[0]),
                    width: at_least_one(width),
                    height: at_least_one(height),
                    present_mode: preferred_present_mode(caps.present_modes@),
                    desired_maximum_frame_latency: 1,
                    alpha_mode: preferred_alpha_mode(caps.alpha_modes@, transparency),
                }, false)),
                _ => r is Err && r->Err_0@ == "surface should be compatible"@,
            },
        },
{
    let w = if width == 0 { 1 } else { width };
    let h = if height == 0 { 1 } else { height };
    if let Some(defaults) = preferred_defaults {
        return Ok((SurfaceConfiguration {
            format: defaults.format,
            width: w,
            height: h,
            present_mode: defaults.present_mode,
            desired_maximum_frame_latency: 1,
            alpha_mode: defaults.alpha_mode,
        }, true));
    }
    match surface_caps {
        Some(caps) => {
            if caps.formats.len() == 0 {
                return Err(String::from_str("surface should be compatible"));
            }
            let format = select_surface_format(caps, caps.formats[0]);
            Ok((SurfaceConfiguration {
                format,
                width: w,
                height: h,
                present_mode: select_present_mode(caps),
                desired_maximum_frame_latency: 1,
                alpha_mode: select_alpha_mode(caps, transparency),
            }, false))
        },
        None => Err(String::from_str("surface should be compatible")),
    }
}

} // verus!
