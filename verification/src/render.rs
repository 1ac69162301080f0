use vstd::prelude::*;

verus! {

/// Vulkan's `VK_FORMAT_B8G8R8A8_UNORM`.
pub const FORMAT_B8G8R8A8_UNORM: i32 = 44;

/// Vulkan's `VK_COLOR_SPACE_SRGB_NONLINEAR_KHR`.
pub const COLOR_SPACE_SRGB_NONLINEAR: i32 = 0;

/// Vulkan's `VK_PRESENT_MODE_MAILBOX_KHR`.
pub const PRESENT_MODE_MAILBOX: i32 = 1;

/// Vulkan's `VK_PRESENT_MODE_FIFO_KHR`.
pub const PRESENT_MODE_FIFO: i32 = 2;

/// A surface format the device offers, as raw Vulkan enum values.
#[derive(Clone, Copy, Debug, PartialEq, Eq, Structural)]
pub struct SurfaceFormat {
    pub format: i32,
    pub color_space: i32,
}

/// A width and height in pixels.
#[derive(Clone, Copy, Debug, PartialEq, Eq, Structural)]
pub struct Extent2D {
    pub width: u32,
    pub height: u32,
}

/// Why a swapchain cannot be set up yet.
#[derive(Clone, Copy, Debug, PartialEq, Eq, Structural)]
pub enum SwapchainError {
    /// The surface has a zero-sized extent: the compositor has not mapped the window yet.
    SurfaceUnmapped,
}

/// The preferred surface format: 8-bit BGRA in the sRGB color space.
pub open spec fn preferred_format() -> SurfaceFormat {
    SurfaceFormat { format: FORMAT_B8G8R8A8_UNORM, color_space: COLOR_SPACE_SRGB_NONLINEAR }
}

/// The image format of the swapchain: 8-bit BGRA in the sRGB color space when offered,
/// otherwise the first format offered.
pub fn choose_surface_format(formats: &Vec<SurfaceFormat>) -> (r: i32)
    requires
        formats@.len() > 0,
    ensures
        (exists|k: int|
            0 <= k < formats@.len() && #[trigger] formats@[k] == preferred_format()) ==> r == FORMAT_B8G8R8A8_UNORM,
        !(exists|k: int|
            0 <= k < formats@.len() && #[trigger] formats@[k] == preferred_format()) ==> r == formats@[0].format,
{
    let mut k: usize = 0;
    while k < formats.len()
        invariant
            k <= formats@.len(),
            forall|j: int|
                0 <= j < k ==> #[trigger] formats@[j] != preferred_format(),
        decreases formats@.len() - k,
    {
        let f = formats[k];
        if f.format == FORMAT_B8G8R8A8_UNORM && f.color_space == COLOR_SPACE_SRGB_NONLINEAR {
            return f.format;
        }
        k = k + 1;
    }
    formats[0].format
}

/// The clamp of `v` into `lo..=hi`.
pub open spec fn spec_clamp(v: u32, lo: u32, hi: u32) -> u32 {
    if v < lo {
        lo
    } else if v > hi {
        hi
    } else {
        v
    }
}

fn clamp_u32(v: u32, lo: u32, hi: u32) -> (r: u32)
    requires
        lo <= hi,
    ensures
        r == spec_clamp(v, lo, hi),
{
    if v < lo {
        lo
    } else if v > hi {
        hi
    } else {
        v
    }
}

/// The swapchain extent: the surface's current extent when it sets one; when it leaves the
/// choice to the application (a width of `u32::MAX`), the window's physical size clamped to
/// the surface's limits. A zero-sized surface cannot take a swapchain yet.
pub fn choose_extent(
    current: Extent2D,
    min_extent: Extent2D,
    max_extent: Extent2D,
    window_width: u32,
    window_height: u32,
) -> (r: Result<Extent2D, SwapchainError>)
    requires
        current.width == u32::MAX && current.height != 0 ==> min_extent.width <= max_extent.width
            && min_extent.height <= max_extent.height,
    ensures
        current.width == 0 || current.height == 0 ==> r == Err::<Extent2D, SwapchainError>(
            SwapchainError::SurfaceUnmapped,
        ),
        current.width != 0 && current.height != 0 && current.width != u32::MAX ==> r == Ok::<
            Extent2D,
            SwapchainError,
        >(current),
        current.width == u32::MAX && current.height != 0 ==> r == Ok::<Extent2D, SwapchainError>(
            Extent2D {
                width: spec_clamp(window_width, min_extent.width, max_extent.width),
                height: spec_clamp(window_height, min_extent.height, max_extent.height),
            },
        ),
{
    if current.width == 0 || current.height == 0 {
        return Err(SwapchainError::SurfaceUnmapped);
    }
    if current.width != u32::MAX {
        Ok(current)
    } else {
        Ok(
            Extent2D {
                width: clamp_u32(window_width, min_extent.width, max_extent.width),
                height: clamp_u32(window_height, min_extent.height, max_extent.height),
            },
        )
    }
}

/// The present mode: mailbox when offered, otherwise FIFO (which every device supports).
pub fn choose_present_mode(present_modes: &Vec<i32>) -> (r: i32)
    ensures
        present_modes@.contains(PRESENT_MODE_MAILBOX) ==> r == PRESENT_MODE_MAILBOX,
        !present_modes@.contains(PRESENT_MODE_MAILBOX) ==> r == PRESENT_MODE_FIFO,
{
    let mut k: usize = 0;
    while k < present_modes.len()
        invariant
            k <= present_modes@.len(),
            forall|j: int| 0 <= j < k ==> present_modes@[j] != PRESENT_MODE_MAILBOX,
        decreases present_modes@.len() - k,
    {
        if present_modes[k] == PRESENT_MODE_MAILBOX {
            return PRESENT_MODE_MAILBOX;
        }
        k = k + 1;
    }
    PRESENT_MODE_FIFO
}

/// The number of swapchain images: one more than the minimum, but no more than the maximum
/// when the surface sets one (a maximum of 0 means no limit).
pub fn choose_image_count(min_image_count: u32, max_image_count: u32) -> (r: u32)
    requires
        min_image_count < u32::MAX,
    ensures
        max_image_count > 0 && min_image_count + 1 > max_image_count ==> r == max_image_count,
        !(max_image_count > 0 && min_image_count + 1 > max_image_count) ==> r == min_image_count + 1,
{
    let mut image_count = min_image_count + 1;
    if max_image_count > 0 && image_count > max_image_count {
        image_count = max_image_count;
    }
    image_count
}

/// Whether queue family `family` of device `device` can both draw and present.
pub open spec fn family_fits(devices: Seq<Vec<(bool, bool)>>, device: int, family: int) -> bool {
    devices[device]@[family].0 && devices[device]@[family].1
}

/// The device and queue family to render with: the first device, in order, that has a
/// family supporting both graphics and presentation to the surface, and its first such
/// family. `devices[d][f]` says whether family `f` of device `d` supports graphics and
/// presentation.
pub fn select_queue_family(devices: &Vec<Vec<(bool, bool)>>) -> (r: Option<(usize, u32)>)
    requires
        forall|d: int| 0 <= d < devices@.len() ==> (#[trigger] devices@[d])@.len() <= u32::MAX,
    ensures
        match r {
            Some((d, f)) => {
                &&& d < devices@.len()
                &&& f < devices@[d as int]@.len()
                &&& family_fits(devices@, d as int, f as int)
                &&& forall|e: int, g: int|
                    0 <= e < devices@.len() && 0 <= g < devices@[e]@.len() && (e < d || (e == d && g
                        < f)) ==> !#[trigger] family_fits(
                        devices@,
                        e,
                        g,
                    )
            },
            None => forall|e: int, g: int|
                0 <= e < devices@.len() && 0 <= g < devices@[e]@.len() ==> !#[trigger] family_fits(
                    devices@,
                    e,
                    g,
                ),
        },
{
    let mut d: usize = 0;
    while d < devices.len()
        invariant
            d <= devices@.len(),
            forall|dd: int| 0 <= dd < devices@.len() ==> (#[trigger] devices@[dd])@.len() <= u32::MAX,
            forall|e: int, g: int|
                0 <= e < d && 0 <= g < devices@[e]@.len() ==> !#[trigger] family_fits(devices@, e, g),
        decreases devices@.len() - d,
    {
        let families = &devices[d];
        let mut f: usize = 0;
        while f < families.len()
            invariant
                d < devices@.len(),
                f <= families@.len(),
                families == &devices@[d as int],
                    families@.len() <= u32::MAX,
                forall|e: int, g: int|
                    0 <= e < devices@.len() && 0 <= g < devices@[e]@.len() && (e < d || (e == d && g < f))
                        ==> !#[trigger] family_fits(devices@, e, g),
            decreases families@.len() - f,
        {
            let (supports_graphics, supports_surface) = families[f];
            if supports_graphics && supports_surface {
                return Some((d, f as u32));
            }
            f = f + 1;
        }
        d = d + 1;
    }
    None
}

/// The window's display mode.
#[derive(Clone, Copy, Debug, PartialEq, Eq, Structural)]
pub enum WindowModeKind {
    Windowed,
    BorderlessFullscreen,
    Fullscreen,
}

/// How the cursor is held by the window.
#[derive(Clone, Copy, Debug, PartialEq, Eq, Structural)]
pub enum CursorGrab {
    Free,
    Confined,
    Locked,
}

/// The window state that the window controls change.
#[derive(Clone, Copy, Debug, PartialEq, Eq, Structural)]
pub struct WindowControls {
    pub mode: WindowModeKind,
    pub grab: CursorGrab,
    pub cursor_visible: bool,
}

/// The window state after one frame's input: toggling fullscreen switches a windowed
/// window to borderless fullscreen and any other mode back to windowed; releasing the
/// mouse frees and shows the cursor; interacting confines and hides it (and wins when both
/// are pressed).
pub fn next_window_controls(
    state: WindowControls,
    toggle_fullscreen: bool,
    release_mouse: bool,
    interact: bool,
) -> (r: WindowControls)
    ensures
        r.mode == if toggle_fullscreen {
            if state.mode == WindowModeKind::Windowed {
                WindowModeKind::BorderlessFullscreen
            } else {
                WindowModeKind::Windowed
            }
        } else {
            state.mode
        },
        r.grab == if interact {
            CursorGrab::Confined
        } else if release_mouse {
            CursorGrab::Free
        } else {
            state.grab
        },
        r.cursor_visible == if interact {
            false
        } else if release_mouse {
            true
        } else {
            state.cursor_visible
        },
{
    let mut next = state;
    if toggle_fullscreen {
        next.mode = match state.mode {
            WindowModeKind::Windowed => WindowModeKind::BorderlessFullscreen,
            _ => WindowModeKind::Windowed,
        };
    }
    if release_mouse {
        next.grab = CursorGrab::Free;
        next.cursor_visible = true;
    }
    if interact {
        next.grab = CursorGrab::Confined;
        next.cursor_visible = false;
    }
    next
}

} // verus!

verus! {

/// Clamping keeps a value that already lies in the range, and otherwise gives the nearest
/// end: the result always lies in `lo..=hi`, and differs from `v` only when `v` lies below
/// `lo` (giving `lo`) or above `hi` (giving `hi`).
pub proof fn law_clamp_keeps_values_in_range(v: u32, lo: u32, hi: u32)
    requires
        lo <= hi,
    ensures
        lo <= spec_clamp(v, lo, hi) <= hi,
        lo <= v <= hi ==> spec_clamp(v, lo, hi) == v,
        v < lo ==> spec_clamp(v, lo, hi) == lo,
        v > hi ==> spec_clamp(v, lo, hi) == hi,
        spec_clamp(v, lo, hi) != v ==> (v < lo && spec_clamp(v, lo, hi) == lo) || (v > hi
            && spec_clamp(v, lo, hi) == hi),
{
}

/// When the surface leaves the size to the application, a window that already fits the
/// surface's limits gets a swapchain of exactly its own size, and any other window gets the
/// nearest size within the limits.
pub proof fn law_window_size_within_limits_is_kept(
    min_extent: Extent2D,
    max_extent: Extent2D,
    window_width: u32,
    window_height: u32,
)
    requires
        min_extent.width <= max_extent.width,
        min_extent.height <= max_extent.height,
    ensures
        min_extent.width <= window_width <= max_extent.width ==> spec_clamp(
            window_width,
            min_extent.width,
            max_extent.width,
        ) == window_width,
        min_extent.height <= window_height <= max_extent.height ==> spec_clamp(
            window_height,
            min_extent.height,
            max_extent.height,
        ) == window_height,
        min_extent.width <= spec_clamp(window_width, min_extent.width, max_extent.width)
            <= max_extent.width,
        min_extent.height <= spec_clamp(window_height, min_extent.height, max_extent.height)
            <= max_extent.height,
{
    law_clamp_keeps_values_in_range(window_width, min_extent.width, max_extent.width);
    law_clamp_keeps_values_in_range(window_height, min_extent.height, max_extent.height);
}

} // verus!

verus! {

/// The Vulkan values the choices use: `VK_FORMAT_B8G8R8A8_UNORM` is 44,
/// `VK_COLOR_SPACE_SRGB_NONLINEAR_KHR` 0, `VK_PRESENT_MODE_MAILBOX_KHR` 1 and
/// `VK_PRESENT_MODE_FIFO_KHR` 2; the preferred surface format pairs the first two.
pub proof fn law_vulkan_values()
    ensures
        FORMAT_B8G8R8A8_UNORM == 44,
        COLOR_SPACE_SRGB_NONLINEAR == 0,
        PRESENT_MODE_MAILBOX == 1,
        PRESENT_MODE_FIFO == 2,
        preferred_format() == (SurfaceFormat { format: 44, color_space: 0 }),
{
}

} // verus!
