//! Decisions of the render loop: how the swapchain is configured from the
//! surface's capabilities, and what a frame does when the swapchain is
//! suboptimal, cannot give an image or has to be recreated.
//!
//! Creating the swapchain, recording and presenting frames stay with the
//! caller, which reports what happened and performs what is decided here.

use vstd::prelude::*;
use vulkano::swapchain::{CapabilitiesError, SwapchainCreationError};

verus! {

#[verifier::external_type_specification]
#[verifier::external_body]
pub struct ExCapabilitiesError(CapabilitiesError);

#[verifier::external_type_specification]
#[verifier::external_body]
pub struct ExSwapchainCreationError(SwapchainCreationError);

/// All possible errors that can happen while the renderer state is created.
#[derive(Debug)]
pub enum RendererStateError {
    CapabilitiesError(CapabilitiesError),
    CannotFindFormat,
    CannotCreateSwapchain(SwapchainCreationError),
}

/// Vulkan's number of the format the swapchain asks for: 8-bit BGRA with sRGB
/// encoding, so that colors are rendered correctly and computed in linear space.
pub const SRGB_BGRA_FORMAT: u32 = 50;

/// How the swapchain presents its images.
#[derive(Clone, Copy, Debug, PartialEq, Eq, Structural)]
pub enum SwapchainPresentMode {
    /// A new image replaces the one waiting for the vertical blank: less latency.
    Mailbox,
    /// Images queue up for the vertical blank; supported everywhere.
    Fifo,
}

/// How the swapchain is to be created.
#[derive(Clone, Copy, Debug)]
pub struct SwapchainPlan {
    pub dimensions: [u32; 2],
    /// Vulkan's number of the image format.
    pub format: u32,
    pub present_mode: SwapchainPresentMode,
}

/// The image size of the swapchain: the surface's current extent where it has
/// one, else the largest extent it allows.
pub open spec fn planned_dimensions(current_extent: Option<[u32; 2]>, max_image_extent: [u32; 2]) -> [u32; 2] {
    match current_extent {
        Some(e) => e,
        None => max_image_extent,
    }
}

/// The present mode of the swapchain: mailbox where the surface supports it,
/// else FIFO.
pub open spec fn planned_present_mode(mailbox_supported: bool) -> SwapchainPresentMode {
    if mailbox_supported {
        SwapchainPresentMode::Mailbox
    } else {
        SwapchainPresentMode::Fifo
    }
}

/// Configures the swapchain from the surface's capabilities: its current extent
/// (or its largest one), the formats it supports by their Vulkan numbers, and
/// whether it supports mailbox presentation. Fails with `CannotFindFormat`
/// exactly when the sRGB BGRA format is not among the supported ones.
pub fn plan_swapchain(
    current_extent: Option<[u32; 2]>,
    max_image_extent: [u32; 2],
    formats: &[u32],
    mailbox_supported: bool,
) -> (r: Result<SwapchainPlan, RendererStateError>)
    ensures
        r is Ok <==> formats@.contains(SRGB_BGRA_FORMAT),
        !formats@.contains(SRGB_BGRA_FORMAT) ==> r matches Err(RendererStateError::CannotFindFormat),
        r matches Ok(p) ==> p.dimensions == planned_dimensions(current_extent, max_image_extent)
            && p.format == SRGB_BGRA_FORMAT && p.present_mode == planned_present_mode(
            mailbox_supported,
        ),
{
    let dimensions = match current_extent {
        Some(e) => e,
        None => max_image_extent,
    };
    let present_mode = if mailbox_supported {
        SwapchainPresentMode::Mailbox
    } else {
        SwapchainPresentMode::Fifo
    };
    let mut i: usize = 0;
    while i < formats.len()
        invariant
            i <= formats@.len(),
            dimensions == planned_dimensions(current_extent, max_image_extent),
            present_mode == planned_present_mode(mailbox_supported),
            forall|j: int| 0 <= j < i ==> formats@[j] != SRGB_BGRA_FORMAT,
        decreases formats@.len() - i,
    {
        if formats[i] == SRGB_BGRA_FORMAT {
            assert(formats@[i as int] == SRGB_BGRA_FORMAT);
            return Ok(SwapchainPlan { dimensions, format: SRGB_BGRA_FORMAT, present_mode });
        }
        i = i + 1;
    }
    Err(RendererStateError::CannotFindFormat)
}

/// What acquiring the next swapchain image gave.
#[derive(Clone, Copy, Debug, PartialEq, Eq, Structural)]
pub enum AcquireOutcome {
    /// An image to render into; `suboptimal` when the swapchain no longer
    /// matches the surface exactly but can still be presented to.
    Acquired { image: usize, suboptimal: bool },
    /// No image could be acquired, as when the window was resized.
    Failed,
}

/// What a frame does once an image was asked for.
#[derive(Clone, Copy, Debug, PartialEq, Eq, Structural)]
pub enum FramePlan {
    /// Skip rendering this frame and recreate the swapchain right away.
    RecreateSwapchain,
    /// Render into `image` and present it; once the work is submitted,
    /// recreate the swapchain when `then_recreate_swapchain` holds.
    Render { image: usize, then_recreate_swapchain: bool },
}

/// How a recreation of the swapchain ended, where it did not fail for good.
#[derive(Clone, Copy, Debug, PartialEq, Eq, Structural)]
pub enum SwapchainRecreation {
    /// The new swapchain and its images are in place.
    Recreated,
    /// The surface's dimensions are not supported at the moment, as happens
    /// while the user resizes the window; the old swapchain stays.
    UnsupportedDimensions,
}

/// The plan of a frame, given what acquiring an image gave: a failure skips the
/// frame and recreates the swapchain; an image is rendered into, and a
/// suboptimal one asks for a recreation after the frame was submitted.
pub open spec fn frame_plan(acquired: AcquireOutcome) -> FramePlan {
    match acquired {
        AcquireOutcome::Acquired { image, suboptimal } => FramePlan::Render {
            image,
            then_recreate_swapchain: suboptimal,
        },
        AcquireOutcome::Failed => FramePlan::RecreateSwapchain,
    }
}

/// Chooses what a frame does with the result of acquiring an image.
pub fn plan_frame(acquired: AcquireOutcome) -> (p: FramePlan)
    ensures
        p == frame_plan(acquired),
{
    match acquired {
        AcquireOutcome::Acquired { image, suboptimal } => FramePlan::Render {
            image,
            then_recreate_swapchain: suboptimal,
        },
        AcquireOutcome::Failed => FramePlan::RecreateSwapchain,
    }
}

/// Start of a frame, over whether the framebuffers are out of date: whether
/// they are recreated now, and whether they are out of date afterwards.
pub open spec fn frame_start(out_of_date: bool) -> (bool, bool) {
    (out_of_date, false)
}

/// End of a swapchain recreation, over whether the framebuffers are out of
/// date: whether they are out of date afterwards, and whether the render path
/// rebuilds its buffers for the new dimensions.
pub open spec fn recreation_end(out_of_date: bool, outcome: SwapchainRecreation) -> (bool, bool) {
    match outcome {
        SwapchainRecreation::Recreated => (true, true),
        SwapchainRecreation::UnsupportedDimensions => (out_of_date, false),
    }
}

/// Bookkeeping of the render loop between frames: whether the framebuffers
/// have to be recreated before rendering can go on. They become out of date
/// when the swapchain is recreated, and are out of date when the loop starts.
pub struct FrameLoop {
    framebuffers_out_of_date: bool,
}

impl View for FrameLoop {
    type V = bool;

    /// Whether the framebuffers are out of date.
    closed spec fn view(&self) -> bool {
        self.framebuffers_out_of_date
    }
}

impl FrameLoop {
    /// A loop that has not rendered yet: there are no framebuffers, so they
    /// count as out of date.
    pub fn new() -> (l: Self)
        ensures
            l@,
    {
        FrameLoop { framebuffers_out_of_date: true }
    }

    /// Start of a frame: returns whether the framebuffers must be recreated
    /// before rendering; once that is done they are current.
    pub fn begin_frame(&mut self) -> (recreate_framebuffers: bool)
        ensures
            (recreate_framebuffers, final(self)@) == frame_start(old(self)@),
    {
        let r = self.framebuffers_out_of_date;
        self.framebuffers_out_of_date = false;
        r
    }

    /// Records how a recreation of the swapchain ended, and returns whether the
    /// render path rebuilds its buffers for the new dimensions.
    pub fn swapchain_recreated(&mut self, outcome: SwapchainRecreation) -> (rebuild_buffers: bool)
        ensures
            (final(self)@, rebuild_buffers) == recreation_end(old(self)@, outcome),
    {
        match outcome {
            SwapchainRecreation::Recreated => {
                self.framebuffers_out_of_date = true;
                true
            },
            SwapchainRecreation::UnsupportedDimensions => false,
        }
    }
}

/// After the swapchain was recreated, the next frame recreates the framebuffers
/// before it renders, whatever their state was; a recreation refused for the
/// surface's dimensions leaves the next frame as it would have been.
pub proof fn lemma_recreation_refreshes_framebuffers(out_of_date: bool)
    ensures
        frame_start(recreation_end(out_of_date, SwapchainRecreation::Recreated).0).0,
        frame_start(recreation_end(out_of_date, SwapchainRecreation::UnsupportedDimensions).0)
            == frame_start(out_of_date),
{
}

/// Framebuffers are recreated at most once for each time they went out of date:
/// a frame that starts right after another one recreates nothing.
pub proof fn lemma_framebuffers_recreated_once(out_of_date: bool)
    ensures
        !frame_start(frame_start(out_of_date).1).0,
{
}

} // verus!
