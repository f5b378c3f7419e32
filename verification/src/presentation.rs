//! The choices made when a presentation surface is set up: which device
//! and queue families to use, and the format, present mode, extent and
//! image count of the swapchain.
//!
//! The functions here decide on plain values. Asking the graphics driver
//! what it offers, and creating what was chosen, is the caller's part.

use vstd::prelude::*;

verus! {

/// The raw value of the 8-bit BGRA unsigned normalized format.
pub const FORMAT_B8G8R8A8_UNORM: i32 = 44;

/// The raw value of the non-linear sRGB color space.
pub const COLOR_SPACE_SRGB_NONLINEAR: i32 = 0;

/// The raw value of the mailbox present mode.
pub const PRESENT_MODE_MAILBOX: i32 = 1;

/// The raw value of the first-in-first-out present mode, which every
/// surface supports.
pub const PRESENT_MODE_FIFO: i32 = 2;

/// What one queue family of a device can do.
#[derive(Copy, Clone, Debug, PartialEq, Eq, Structural)]
pub struct QueueFamily {
    /// The family runs graphics commands.
    pub graphics: bool,
    /// The family can present to the surface.
    pub present: bool,
}

/// The queue families chosen for a device, by index.
#[derive(Copy, Clone, Debug, PartialEq, Eq, Structural)]
pub struct QueueSelection {
    pub graphics: u32,
    pub present: u32,
}

/// A pixel format and color space that a surface offers, by raw value.
#[derive(Copy, Clone, Debug, PartialEq, Eq, Structural)]
pub struct SurfaceFormat {
    pub format: i32,
    pub color_space: i32,
}

/// A size in pixels.
#[derive(Copy, Clone, Debug, PartialEq, Eq, Structural)]
pub struct Extent {
    pub width: u32,
    pub height: u32,
}

/// `i` is the first family that runs graphics commands.
pub open spec fn first_graphics(families: Seq<QueueFamily>, i: int) -> bool {
    &&& 0 <= i < families.len()
    &&& families[i].graphics
    &&& forall|j: int| 0 <= j < i ==> !(#[trigger] families[j]).graphics
}

/// `i` is the first family that can present.
pub open spec fn first_present(families: Seq<QueueFamily>, i: int) -> bool {
    &&& 0 <= i < families.len()
    &&& families[i].present
    &&& forall|j: int| 0 <= j < i ==> !(#[trigger] families[j]).present
}

/// A device is suitable if one of its families runs graphics commands and
/// one, the same or another, can present.
pub open spec fn suitable(families: Seq<QueueFamily>) -> bool {
    &&& exists|i: int| 0 <= i < families.len() && (#[trigger] families[i]).graphics
    &&& exists|i: int| 0 <= i < families.len() && (#[trigger] families[i]).present
}

/// The format that is taken wherever a surface offers it.
pub open spec fn preferred(format: SurfaceFormat) -> bool {
    format.format == FORMAT_B8G8R8A8_UNORM && format.color_space == COLOR_SPACE_SRGB_NONLINEAR
}

/// `x` held between `low` and `high`; `low` where the two cross.
pub open spec fn clamp(x: u32, low: u32, high: u32) -> int {
    vstd::math::max(low as int, vstd::math::min(high as int, x as int))
}

/// The first graphics family and the first present family of a device, or
/// `None` if it lacks either.
pub fn pick_queue_families(families: &Vec<QueueFamily>) -> (selection: Option<QueueSelection>)
    requires
        families@.len() <= u32::MAX,
    ensures
        match selection {
            Some(picked) => first_graphics(families@, picked.graphics as int) && first_present(
                families@,
                picked.present as int,
            ),
            None => !suitable(families@),
        },
{
    let mut graphics: Option<u32> = None;
    let mut present: Option<u32> = None;
    let mut i: usize = 0;
    while i < families.len()
        invariant
            i <= families@.len() <= u32::MAX,
            match graphics {
                Some(g) => first_graphics(families@, g as int),
                None => forall|j: int| 0 <= j < i ==> !(#[trigger] families@[j]).graphics,
            },
            match present {
                Some(p) => first_present(families@, p as int),
                None => forall|j: int| 0 <= j < i ==> !(#[trigger] families@[j]).present,
            },
        decreases families@.len() - i,
    {
        if families[i].graphics && graphics.is_none() {
            graphics = Some(i as u32);
        }
        if families[i].present && present.is_none() {
            present = Some(i as u32);
        }
        i += 1;
    }
    match (graphics, present) {
        (Some(g), Some(p)) => Some(QueueSelection { graphics: g, present: p }),
        _ => None,
    }
}

/// Whether a device with these queue families is suitable.
pub fn is_suitable(families: &Vec<QueueFamily>) -> (fits: bool)
    ensures
        fits == suitable(families@),
{
    let mut graphics = false;
    let mut present = false;
    let mut i: usize = 0;
    while i < families.len()
        invariant
            i <= families@.len(),
            graphics == exists|j: int| 0 <= j < i && (#[trigger] families@[j]).graphics,
            present == exists|j: int| 0 <= j < i && (#[trigger] families@[j]).present,
        decreases families@.len() - i,
    {
        graphics = graphics || families[i].graphics;
        present = present || families[i].present;
        i += 1;
    }
    graphics && present
}

/// The first suitable device, by its place in `devices`, each given by its
/// queue families.
pub fn pick_physical_device(devices: &Vec<Vec<QueueFamily>>) -> (device: Option<usize>)
    ensures
        match device {
            Some(picked) => {
                &&& picked < devices@.len()
                &&& suitable(devices@[picked as int]@)
                &&& forall|d: int| 0 <= d < picked ==> !suitable((#[trigger] devices@[d])@)
            },
            None => forall|d: int| 0 <= d < devices@.len() ==> !suitable((#[trigger] devices@[d])@),
        },
{
    let mut d: usize = 0;
    while d < devices.len()
        invariant
            d <= devices@.len(),
            forall|k: int| 0 <= k < d ==> !suitable((#[trigger] devices@[k])@),
        decreases devices@.len() - d,
    {
        if is_suitable(&devices[d]) {
            return Some(d);
        }
        d += 1;
    }
    None
}

/// The queue families to create queues for: both where they differ, the
/// one where they are the same.
pub fn queue_indices(selection: QueueSelection) -> (indices: Vec<u32>)
    ensures
        indices@ == (if selection.graphics != selection.present {
            seq![selection.graphics, selection.present]
        } else {
            seq![selection.graphics]
        }),
{
    let mut indices: Vec<u32> = Vec::new();
    indices.push(selection.graphics);
    if selection.graphics != selection.present {
        indices.push(selection.present);
    }
    indices
}

/// The place of the format to use: the first preferred one, or the first
/// of all where none is preferred.
pub fn pick_surface_format(formats: &Vec<SurfaceFormat>) -> (place: usize)
    requires
        formats@.len() > 0,
    ensures
        place < formats@.len(),
        forall|j: int| 0 <= j < place ==> !preferred(#[trigger] formats@[j]),
        preferred(formats@[place as int]) || (place == 0 && forall|j: int|
            0 <= j < formats@.len() ==> !preferred(#[trigger] formats@[j])),
{
    let mut i: usize = 0;
    while i < formats.len()
        invariant
            i <= formats@.len(),
            forall|j: int| 0 <= j < i ==> !preferred(#[trigger] formats@[j]),
        decreases formats@.len() - i,
    {
        if formats[i].format == FORMAT_B8G8R8A8_UNORM && formats[i].color_space
            == COLOR_SPACE_SRGB_NONLINEAR {
            return i;
        }
        i += 1;
    }
    0
}

/// The present mode to use, by raw value: mailbox where the surface offers
/// it, first-in-first-out otherwise.
pub fn pick_present_mode(modes: &Vec<i32>) -> (mode: i32)
    ensures
        mode == (if modes@.contains(PRESENT_MODE_MAILBOX) {
            PRESENT_MODE_MAILBOX
        } else {
            PRESENT_MODE_FIFO
        }),
{
    let mut i: usize = 0;
    while i < modes.len()
        invariant
            i <= modes@.len(),
            forall|j: int| 0 <= j < i ==> modes@[j] != PRESENT_MODE_MAILBOX,
        decreases modes@.len() - i,
    {
        if modes[i] == PRESENT_MODE_MAILBOX {
            return PRESENT_MODE_MAILBOX;
        }
        i += 1;
    }
    PRESENT_MODE_FIFO
}

/// `x` held between `low` and `high`; `low` where the two cross.
fn clamp_to(x: u32, low: u32, high: u32) -> (held: u32)
    ensures
        held == clamp(x, low, high),
{
    let capped = if x > high {
        high
    } else {
        x
    };
    if capped > low {
        capped
    } else {
        low
    }
}

/// The extent of the swapchain images. A surface that fixes its extent
/// gives it as `current`; one that leaves the choice open gives a width
/// of `u32::MAX`, and the window's size is taken, held within the limits
/// of the surface.
pub fn pick_extent(current: Extent, smallest: Extent, largest: Extent, window: Extent) -> (extent:
    Extent)
    ensures
        current.width != u32::MAX ==> extent == current,
        current.width == u32::MAX ==> {
            &&& extent.width == clamp(window.width, smallest.width, largest.width)
            &&& extent.height == clamp(window.height, smallest.height, largest.height)
        },
{
    if current.width == u32::MAX {
        Extent {
            width: clamp_to(window.width, smallest.width, largest.width),
            height: clamp_to(window.height, smallest.height, largest.height),
        }
    } else {
        current
    }
}

/// The number of swapchain images to ask for: one more than the least the
/// surface needs, but no more than its limit; a limit of 0 means there is
/// none.
pub fn pick_image_count(min_count: u32, max_count: u32) -> (count: u32)
    requires
        min_count < u32::MAX,
    ensures
        count == (if max_count > 0 && max_count < min_count + 1 {
            max_count
        } else {
            (min_count + 1) as u32
        }),
{
    let count = min_count + 1;
    if max_count > 0 && max_count < count {
        max_count
    } else {
        count
    }
}

} // verus!
