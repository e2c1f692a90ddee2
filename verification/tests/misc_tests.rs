use sunray::frame::{
    scene_event_action, swapchain_extent_changed, SceneEventAction,
    frame_error_action, FrameErrorAction, FramePacing,
    frame_slot, invalidate_stale_fences, is_drawable, next_frame_index, resize_needed,
    transform_push_needed, NULL_FENCE,
};
use sunray::shader::{shader_code_words, shader_words_from_cast, ShaderCodeError};
use sunray::surface::{
    enumerate_required_extensions, surface_platform, DisplayKind, SurfaceError, SurfaceExtension,
    SurfacePlatform, WindowKind,
};

#[test]
fn required_extensions_per_display() {
    assert_eq!(enumerate_required_extensions(DisplayKind::Windows), Ok((SurfaceExtension::Surface, SurfaceExtension::Win32Surface)));
    assert_eq!(enumerate_required_extensions(DisplayKind::Wayland), Ok((SurfaceExtension::Surface, SurfaceExtension::WaylandSurface)));
    assert_eq!(enumerate_required_extensions(DisplayKind::Xlib), Ok((SurfaceExtension::Surface, SurfaceExtension::XlibSurface)));
    assert_eq!(enumerate_required_extensions(DisplayKind::Xcb), Ok((SurfaceExtension::Surface, SurfaceExtension::XcbSurface)));
    assert_eq!(enumerate_required_extensions(DisplayKind::Android), Ok((SurfaceExtension::Surface, SurfaceExtension::AndroidSurface)));
    assert_eq!(enumerate_required_extensions(DisplayKind::AppKit), Ok((SurfaceExtension::Surface, SurfaceExtension::MetalSurface)));
    assert_eq!(enumerate_required_extensions(DisplayKind::UiKit), Ok((SurfaceExtension::Surface, SurfaceExtension::MetalSurface)));
    assert_eq!(enumerate_required_extensions(DisplayKind::Other), Err(SurfaceError::ExtensionNotPresent));
}

#[test]
fn surface_platform_pairs() {
    assert_eq!(surface_platform(DisplayKind::Windows, WindowKind::Win32), Ok(SurfacePlatform::Win32));
    assert_eq!(surface_platform(DisplayKind::Wayland, WindowKind::Wayland), Ok(SurfacePlatform::Wayland));
    assert_eq!(surface_platform(DisplayKind::Xlib, WindowKind::Xlib), Ok(SurfacePlatform::Xlib));
    assert_eq!(surface_platform(DisplayKind::Xcb, WindowKind::Xcb), Ok(SurfacePlatform::Xcb));
    assert_eq!(surface_platform(DisplayKind::Android, WindowKind::AndroidNdk), Ok(SurfacePlatform::Android));
    assert_eq!(surface_platform(DisplayKind::Xlib, WindowKind::Xcb), Err(SurfaceError::ExtensionNotPresent));
    assert_eq!(surface_platform(DisplayKind::AppKit, WindowKind::Other), Err(SurfaceError::ExtensionNotPresent));
}

#[test]
fn created_surface_extension_is_required() {
    let pairs = [
        (DisplayKind::Windows, WindowKind::Win32, SurfaceExtension::Win32Surface),
        (DisplayKind::Wayland, WindowKind::Wayland, SurfaceExtension::WaylandSurface),
        (DisplayKind::Xlib, WindowKind::Xlib, SurfaceExtension::XlibSurface),
        (DisplayKind::Xcb, WindowKind::Xcb, SurfaceExtension::XcbSurface),
        (DisplayKind::Android, WindowKind::AndroidNdk, SurfaceExtension::AndroidSurface),
    ];
    for (d, w, ext) in pairs {
        assert!(surface_platform(d, w).is_ok());
        assert_eq!(enumerate_required_extensions(d).unwrap().1, ext);
    }
}

#[test]
fn frame_decisions() {
    assert!(is_drawable((800, 600)));
    assert!(!is_drawable((0, 600)));
    assert!(!is_drawable((800, 0)));
    assert!(resize_needed((1024, 768), (800, 600)));
    assert!(!resize_needed((800, 600), (800, 600)));
    assert!(!resize_needed((0, 768), (800, 600)));
    assert_eq!(frame_slot(0, 2), 0);
    assert_eq!(frame_slot(5, 2), 1);
    assert_eq!(frame_slot(7, 3), 1);
    assert_eq!(next_frame_index(4), 5);
    assert_eq!(next_frame_index(usize::MAX), 0);
    assert!(transform_push_needed(true, false));
    assert!(!transform_push_needed(true, true));
    assert!(!transform_push_needed(false, false));
}

#[test]
fn fences_invalidated() {
    let mut fences = vec![3u64, 9, 12];
    invalidate_stale_fences(&mut fences);
    assert_eq!(fences, vec![NULL_FENCE; 3]);
    let mut none: Vec<u64> = vec![];
    invalidate_stale_fences(&mut none);
    assert!(none.is_empty());
}

#[test]
fn shader_words_from_bytes() {
    let words: Vec<u32> = vec![0x0723_0203, 0x0001_0000, 0xdead_beef];
    let view: &[u8] = word_bytes(&words);
    assert_eq!(view.len(), 12);
    let out = shader_code_words(view).unwrap();
    assert_eq!(out, words);
    assert_eq!(shader_code_words(&view[..5]), Err(ShaderCodeError::NotWordAligned));
}

fn word_bytes(words: &[u32]) -> &[u8] {
    bytemuck::cast_slice(words)
}

#[test]
fn shader_words_from_cast_outcomes() {
    assert_eq!(shader_words_from_cast(Some(vec![1, 2, 3])), Ok(vec![1, 2, 3]));
    assert_eq!(shader_words_from_cast(Some(vec![])), Ok(vec![]));
    assert_eq!(shader_words_from_cast(None), Err(ShaderCodeError::NotWordAligned));
}

#[test]
fn fallback_texture_checkerboard_bytes() {
    let data = sunray::fallback::fallback_texture_data();
    let black = [0u8, 0, 0, 255];
    let magenta = [255u8, 0, 255, 255];
    assert_eq!(data.len(), 64 * 64 * 4);
    assert_eq!(&data[0..4], &black);
    assert_eq!(&data[4..8], &magenta);
    assert_eq!(&data[0..4], &0xff000000u32.to_le_bytes());
    assert_eq!(&data[4..8], &0xffff00ffu32.to_le_bytes());
    // first texel of the second row is odd
    assert_eq!(&data[256..260], &magenta);
    assert_eq!(&data[260..264], &black);
    assert_eq!(&data[data.len() - 4..], &black);
}

#[test]
fn frame_error_actions() {
    assert_eq!(frame_error_action(false, Some((800, 600))), FrameErrorAction::Report);
    assert_eq!(frame_error_action(true, Some((800, 600))), FrameErrorAction::RebuildSwapchain(800, 600));
    assert_eq!(frame_error_action(true, Some((0, 600))), FrameErrorAction::Skip);
    assert_eq!(frame_error_action(true, None), FrameErrorAction::Skip);
}

#[test]
fn frame_pacing_cycles_slots() {
    let mut pacing = FramePacing::new(2);
    assert_eq!(pacing.begin_frame(), (0, NULL_FENCE));
    pacing.rendered(11);
    pacing.presented();
    assert_eq!(pacing.begin_frame(), (1, NULL_FENCE));
    pacing.rendered(12);
    pacing.presented();
    assert_eq!(pacing.begin_frame(), (0, 11));
    pacing.invalidate_fences();
    assert_eq!(pacing.begin_frame(), (0, NULL_FENCE));
    pacing.presented();
    assert_eq!(pacing.begin_frame(), (1, NULL_FENCE));
}

#[test]
fn resize_and_event_decisions() {
    assert!(!swapchain_extent_changed((800, 600), (800, 600)));
    assert!(swapchain_extent_changed((800, 601), (800, 600)));
    assert!(swapchain_extent_changed((1024, 600), (800, 600)));
    assert_eq!(scene_event_action(true), SceneEventAction::Process);
    assert_eq!(scene_event_action(false), SceneEventAction::Drain);
}
