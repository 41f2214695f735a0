use vstd::prelude::*;

verus! {

/// The raw value of `VK_PRESENT_MODE_FIFO_KHR`, the one mode every surface
/// supports.
pub const PRESENT_MODE_FIFO: i32 = 2;

/// A surface format as the driver reports it: the raw `VkFormat` and
/// `VkColorSpaceKHR` values.
#[derive(Clone, Copy, Debug, PartialEq, Eq, Structural)]
pub struct SurfaceFormat {
    pub format: i32,
    pub color_space: i32,
}

/// A width and a height in pixels.
#[derive(Clone, Copy, Debug, PartialEq, Eq, Structural)]
pub struct Extent2D {
    pub width: u32,
    pub height: u32,
}

/// The extents and image counts that a surface accepts for its swapchain.
/// A current width of `u32::MAX` means that the swapchain decides the
/// extent; a maximum image count of 0 means that there is no maximum.
#[derive(Clone, Copy, Debug, PartialEq, Eq, Structural)]
pub struct SurfaceCapabilities {
    pub current_extent: Extent2D,
    pub min_image_extent: Extent2D,
    pub max_image_extent: Extent2D,
    pub min_image_count: u32,
    pub max_image_count: u32,
}

/// What a surface supports: its extents, formats and presentation modes
/// (raw `VkPresentModeKHR` values).
#[derive(Debug)]
pub struct SwapchainSupportDetails {
    pub capabilities: SurfaceCapabilities,
    pub formats: Vec<SurfaceFormat>,
    pub present_modes: Vec<i32>,
}

/// The first place in `avail` that has format `f`, or `avail.len()`.
pub open spec fn first_with_format(avail: Seq<SurfaceFormat>, f: i32) -> int
    decreases avail.len(),
{
    if avail.len() == 0 {
        0
    } else if avail[0].format == f {
        0
    } else {
        1 + first_with_format(avail.drop_first(), f)
    }
}

/// The format chosen from `avail`: the first available entry of the first
/// preferred format that is available at all, else the first available entry.
pub open spec fn chosen_format(preferred: Seq<i32>, avail: Seq<SurfaceFormat>) -> SurfaceFormat
    decreases preferred.len(),
{
    if preferred.len() == 0 {
        avail[0]
    } else if first_with_format(avail, preferred[0]) < avail.len() {
        avail[first_with_format(avail, preferred[0])]
    } else {
        chosen_format(preferred.drop_first(), avail)
    }
}

/// The first preferred mode that is available, else FIFO.
pub open spec fn chosen_present_mode(preferred: Seq<i32>, avail: Seq<i32>) -> i32
    decreases preferred.len(),
{
    if preferred.len() == 0 {
        PRESENT_MODE_FIFO
    } else if avail.contains(preferred[0]) {
        preferred[0]
    } else {
        chosen_present_mode(preferred.drop_first(), avail)
    }
}

pub open spec fn clamped(v: u32, lo: u32, hi: u32) -> u32 {
    if v < lo {
        lo
    } else if v > hi {
        hi
    } else {
        v
    }
}

/// The surface's own extent when it has one, else the window size clamped
/// to the accepted range.
pub open spec fn chosen_extent(caps: SurfaceCapabilities, window: Extent2D) -> Extent2D {
    if caps.current_extent.width != u32::MAX {
        caps.current_extent
    } else {
        Extent2D {
            width: clamped(window.width, caps.min_image_extent.width, caps.max_image_extent.width),
            height: clamped(
                window.height,
                caps.min_image_extent.height,
                caps.max_image_extent.height,
            ),
        }
    }
}

/// Three images more than the minimum, within the maximum when there is one.
pub open spec fn chosen_image_count(caps: SurfaceCapabilities) -> u32 {
    let wanted = if caps.min_image_count + 3 > u32::MAX {
        u32::MAX
    } else {
        (caps.min_image_count + 3) as u32
    };
    if caps.max_image_count != 0 && wanted > caps.max_image_count {
        caps.max_image_count
    } else {
        wanted
    }
}

proof fn lemma_first_with_format(avail: Seq<SurfaceFormat>, f: i32)
    ensures
        0 <= first_with_format(avail, f) <= avail.len(),
        first_with_format(avail, f) < avail.len() ==> avail[first_with_format(avail, f)].format
            == f,
        forall|i: int| 0 <= i < first_with_format(avail, f) ==> #[trigger] avail[i].format != f,
    decreases avail.len(),
{
    if avail.len() > 0 && avail[0].format != f {
        lemma_first_with_format(avail.drop_first(), f);
        assert forall|i: int| 0 <= i < first_with_format(avail, f) implies #[trigger] avail[i].format
            != f by {
            if i > 0 {
                assert(avail[i] == avail.drop_first()[i - 1]);
            }
        }
    }
}

fn clamp_u32(v: u32, lo: u32, hi: u32) -> (r: u32)
    requires
        lo <= hi,
    ensures
        r == clamped(v, lo, hi),
{
    if v < lo {
        lo
    } else if v > hi {
        hi
    } else {
        v
    }
}

impl SwapchainSupportDetails {
    /// Picks the surface format: the first preferred format that the surface
    /// offers, else the first format it offers.
    #[verifier::loop_isolation(false)]
    pub fn choose_format(&self, preferred_formats: &[i32]) -> (r: SurfaceFormat)
        requires
            self.formats.len() > 0,
        ensures
            r == chosen_format(preferred_formats@, self.formats@),
    {
        let mut p: usize = 0;
        assert(preferred_formats@.skip(0) =~= preferred_formats@);
        while p < preferred_formats.len()
            invariant
                0 <= p <= preferred_formats@.len(),
                self.formats.len() > 0,
                chosen_format(preferred_formats@.skip(p as int), self.formats@) == chosen_format(
                    preferred_formats@,
                    self.formats@,
                ),
            decreases preferred_formats.len() - p,
        {
            let want: i32 = preferred_formats[p];
            let ghost rest = preferred_formats@.skip(p as int);
            proof {
                lemma_first_with_format(self.formats@, want);
                assert(rest[0] == want);
                assert(rest.drop_first() == preferred_formats@.skip(p + 1));
            }
            let mut a: usize = 0;
            while a < self.formats.len()
                invariant
                    0 <= a <= self.formats@.len(),
                    forall|i: int| 0 <= i < a ==> #[trigger] self.formats@[i].format != want,
                decreases self.formats.len() - a,
            {
                if self.formats[a].format == want {
                    proof {
                        lemma_first_with_format(self.formats@, want);
                        assert(first_with_format(self.formats@, want) == a);
                    }
                    return self.formats[a];
                }
                a = a + 1;
            }
            proof {
                assert(first_with_format(self.formats@, want) == self.formats@.len()) by {
                    if first_with_format(self.formats@, want) < self.formats@.len() {
                        let i: int = first_with_format(self.formats@, want);
                        assert(self.formats@[i].format != want);
                    }
                }
            }
            p = p + 1;
        }
        proof {
            assert(preferred_formats@.skip(p as int).len() == 0);
        }
        self.formats[0]
    }

    /// Picks the presentation mode: the first preferred mode that the surface
    /// offers, else FIFO.
    #[verifier::loop_isolation(false)]
    pub fn choose_presentation_mode(&self, preferred_present_modes: &[i32]) -> (r: i32)
        ensures
            r == chosen_present_mode(preferred_present_modes@, self.present_modes@),
    {
        let mut p: usize = 0;
        assert(preferred_present_modes@.skip(0) =~= preferred_present_modes@);
        while p < preferred_present_modes.len()
            invariant
                0 <= p <= preferred_present_modes@.len(),
                chosen_present_mode(preferred_present_modes@.skip(p as int), self.present_modes@)
                    == chosen_present_mode(preferred_present_modes@, self.present_modes@),
            decreases preferred_present_modes.len() - p,
        {
            let want: i32 = preferred_present_modes[p];
            let ghost rest = preferred_present_modes@.skip(p as int);
            proof {
                assert(rest[0] == want);
                assert(rest.drop_first() == preferred_present_modes@.skip(p + 1));
            }
            let mut a: usize = 0;
            while a < self.present_modes.len()
                invariant
                    0 <= a <= self.present_modes@.len(),
                    forall|i: int| 0 <= i < a ==> #[trigger] self.present_modes@[i] != want,
                decreases self.present_modes.len() - a,
            {
                if self.present_modes[a] == want {
                    proof {
                        assert(self.present_modes@.contains(want));
                    }
                    return want;
                }
                a = a + 1;
            }
            p = p + 1;
        }
        proof {
            assert(preferred_present_modes@.skip(p as int).len() == 0);
        }
        PRESENT_MODE_FIFO
    }

    /// Picks how many images the swapchain asks for.
    pub fn choose_image_count(&self) -> (r: u32)
        ensures
            r == chosen_image_count(self.capabilities),
    {
        let caps = self.capabilities;
        let wanted: u32 = caps.min_image_count.saturating_add(3);
        if caps.max_image_count != 0 && wanted > caps.max_image_count {
            caps.max_image_count
        } else {
            wanted
        }
    }

    /// Picks the swapchain extent for a window of `window_size`.
    pub fn choose_extent(&self, window_size: Extent2D) -> (r: Extent2D)
        requires
            self.capabilities.current_extent.width == u32::MAX ==> {
                &&& self.capabilities.min_image_extent.width
                    <= self.capabilities.max_image_extent.width
                &&& self.capabilities.min_image_extent.height
                    <= self.capabilities.max_image_extent.height
            },
        ensures
            r == chosen_extent(self.capabilities, window_size),
    {
        let caps = self.capabilities;
        if caps.current_extent.width != u32::MAX {
            return caps.current_extent;
        }
        Extent2D {
            width: clamp_u32(
                window_size.width,
                caps.min_image_extent.width,
                caps.max_image_extent.width,
            ),
            height: clamp_u32(
                window_size.height,
                caps.min_image_extent.height,
                caps.max_image_extent.height,
            ),
        }
    }
}

} // verus!
