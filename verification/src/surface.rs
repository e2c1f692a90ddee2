//! Which Vulkan instance extensions a window system needs for presenting,
//! and which surface a (display, window) handle pair is created as.
use vstd::prelude::*;

verus! {

/// The kind of a window system's display handle.
#[derive(Clone, Copy, Debug, PartialEq, Eq, Structural)]
pub enum DisplayKind {
    Windows,
    Wayland,
    Xlib,
    Xcb,
    Android,
    AppKit,
    UiKit,
    Other,
}

/// The kind of a window handle.
#[derive(Clone, Copy, Debug, PartialEq, Eq, Structural)]
pub enum WindowKind {
    Win32,
    Wayland,
    Xlib,
    Xcb,
    AndroidNdk,
    Other,
}

/// Vulkan instance extensions for presenting to a window.
#[derive(Clone, Copy, Debug, PartialEq, Eq, Structural)]
pub enum SurfaceExtension {
    /// `VK_KHR_surface`
    Surface,
    /// `VK_KHR_win32_surface`
    Win32Surface,
    /// `VK_KHR_wayland_surface`
    WaylandSurface,
    /// `VK_KHR_xlib_surface`
    XlibSurface,
    /// `VK_KHR_xcb_surface`
    XcbSurface,
    /// `VK_KHR_android_surface`
    AndroidSurface,
    /// `VK_EXT_metal_surface`
    MetalSurface,
}

/// The kinds of surface that can be created from window handles.
#[derive(Clone, Copy, Debug, PartialEq, Eq, Structural)]
pub enum SurfacePlatform {
    Win32,
    Wayland,
    Xlib,
    Xcb,
    Android,
}

/// The window system is not supported (`VK_ERROR_EXTENSION_NOT_PRESENT`).
#[derive(Clone, Copy, Debug, PartialEq, Eq, Structural)]
pub enum SurfaceError {
    ExtensionNotPresent,
}

/// The platform-specific surface extension a display needs, if supported.
pub open spec fn display_extension(display: DisplayKind) -> Option<SurfaceExtension> {
    match display {
        DisplayKind::Windows => Some(SurfaceExtension::Win32Surface),
        DisplayKind::Wayland => Some(SurfaceExtension::WaylandSurface),
        DisplayKind::Xlib => Some(SurfaceExtension::XlibSurface),
        DisplayKind::Xcb => Some(SurfaceExtension::XcbSurface),
        DisplayKind::Android => Some(SurfaceExtension::AndroidSurface),
        DisplayKind::AppKit => Some(SurfaceExtension::MetalSurface),
        DisplayKind::UiKit => Some(SurfaceExtension::MetalSurface),
        DisplayKind::Other => None,
    }
}

/// The surface a pair of handles is created as, if the pair is supported.
pub open spec fn handle_platform(display: DisplayKind, window: WindowKind) -> Option<
    SurfacePlatform,
> {
    match (display, window) {
        (DisplayKind::Windows, WindowKind::Win32) => Some(SurfacePlatform::Win32),
        (DisplayKind::Wayland, WindowKind::Wayland) => Some(SurfacePlatform::Wayland),
        (DisplayKind::Xlib, WindowKind::Xlib) => Some(SurfacePlatform::Xlib),
        (DisplayKind::Xcb, WindowKind::Xcb) => Some(SurfacePlatform::Xcb),
        (DisplayKind::Android, WindowKind::AndroidNdk) => Some(SurfacePlatform::Android),
        _ => None,
    }
}

/// The extension that creates surfaces of a platform.
pub open spec fn platform_extension(platform: SurfacePlatform) -> SurfaceExtension {
    match platform {
        SurfacePlatform::Win32 => SurfaceExtension::Win32Surface,
        SurfacePlatform::Wayland => SurfaceExtension::WaylandSurface,
        SurfacePlatform::Xlib => SurfaceExtension::XlibSurface,
        SurfacePlatform::Xcb => SurfaceExtension::XcbSurface,
        SurfacePlatform::Android => SurfaceExtension::AndroidSurface,
    }
}

/// The instance extensions needed to later create a surface for `display`:
/// `VK_KHR_surface` and the display's platform extension; an error for an
/// unsupported window system.
pub fn enumerate_required_extensions(display: DisplayKind) -> (result: Result<
    (SurfaceExtension, SurfaceExtension),
    SurfaceError,
>)
    ensures
        match display_extension(display) {
            Some(e) => result == Ok::<(SurfaceExtension, SurfaceExtension), SurfaceError>(
                (SurfaceExtension::Surface, e),
            ),
            None => result == Err::<(SurfaceExtension, SurfaceExtension), SurfaceError>(
                SurfaceError::ExtensionNotPresent,
            ),
        },
{
    let platform = match display {
        DisplayKind::Windows => SurfaceExtension::Win32Surface,
        DisplayKind::Wayland => SurfaceExtension::WaylandSurface,
        DisplayKind::Xlib => SurfaceExtension::XlibSurface,
        DisplayKind::Xcb => SurfaceExtension::XcbSurface,
        DisplayKind::Android => SurfaceExtension::AndroidSurface,
        DisplayKind::AppKit | DisplayKind::UiKit => SurfaceExtension::MetalSurface,
        DisplayKind::Other => {
            return Err(SurfaceError::ExtensionNotPresent);
        },
    };
    Ok((SurfaceExtension::Surface, platform))
}

/// The kind of surface to create for a display and window handle pair;
/// an error when the two handles do not belong to one supported platform.
pub fn surface_platform(display: DisplayKind, window: WindowKind) -> (result: Result<
    SurfacePlatform,
    SurfaceError,
>)
    ensures
        match handle_platform(display, window) {
            Some(p) => result == Ok::<SurfacePlatform, SurfaceError>(p),
            None => result == Err::<SurfacePlatform, SurfaceError>(
                SurfaceError::ExtensionNotPresent,
            ),
        },
{
    match (display, window) {
        (DisplayKind::Windows, WindowKind::Win32) => Ok(SurfacePlatform::Win32),
        (DisplayKind::Wayland, WindowKind::Wayland) => Ok(SurfacePlatform::Wayland),
        (DisplayKind::Xlib, WindowKind::Xlib) => Ok(SurfacePlatform::Xlib),
        (DisplayKind::Xcb, WindowKind::Xcb) => Ok(SurfacePlatform::Xcb),
        (DisplayKind::Android, WindowKind::AndroidNdk) => Ok(SurfacePlatform::Android),
        _ => Err(SurfaceError::ExtensionNotPresent),
    }
}

/// Every surface that can be created for a display is backed by the
/// extensions that display requires: the platform's surface extension is
/// the one `enumerate_required_extensions` lists for the display.
pub proof fn lemma_surface_extension_enabled(display: DisplayKind, window: WindowKind)
    requires
        handle_platform(display, window) is Some,
    ensures
        display_extension(display) == Some(
            platform_extension(handle_platform(display, window)->0),
        ),
{
}

} // verus!
