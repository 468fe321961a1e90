use renderer::render::renderer::{
    plan_frame, plan_swapchain, AcquireOutcome, FrameLoop, FramePlan, RendererStateError,
    SwapchainPresentMode, SwapchainRecreation, SRGB_BGRA_FORMAT,
};
use renderer::render::vulkan::{
    select_queue_families, split_queues, QueueFamilyCaps, QueueFamilySelection, VulkanStateError,
};

fn family(graphics: bool, surface: bool, transfers: bool) -> QueueFamilyCaps {
    QueueFamilyCaps {
        supports_graphics: graphics,
        surface_supported: surface,
        explicitly_supports_transfers: transfers,
    }
}

#[test]
fn queue_families_take_first_match_of_each_kind() {
    let families = vec![
        family(false, false, true),
        family(true, false, true),
        family(true, true, false),
        family(true, true, true),
    ];
    let selection = select_queue_families(&families).unwrap();
    assert_eq!(
        selection,
        QueueFamilySelection {
            graphical: 2,
            transfer: 0
        }
    );
}

#[test]
fn one_family_can_carry_both_queues() {
    let families = vec![family(true, true, true)];
    let selection = select_queue_families(&families).unwrap();
    assert_eq!(selection.graphical, 0);
    assert_eq!(selection.transfer, 0);
}

#[test]
fn graphics_without_surface_support_is_no_graphical_family() {
    let families = vec![family(true, false, true), family(false, true, true)];
    assert!(matches!(
        select_queue_families(&families),
        Err(VulkanStateError::GraphicalQueueFamilyNotAvailable)
    ));
    assert!(matches!(
        select_queue_families(&[]),
        Err(VulkanStateError::GraphicalQueueFamilyNotAvailable)
    ));
}

#[test]
fn missing_transfer_family_is_reported() {
    let families = vec![family(true, true, false), family(false, false, false)];
    assert!(matches!(
        select_queue_families(&families),
        Err(VulkanStateError::TransferQueueFamilyNotAvailable)
    ));
}

#[test]
fn queues_split_in_request_order() {
    assert_eq!(split_queues(vec!["graphics", "transfer", "extra"]).unwrap(), ("graphics", "transfer"));
    assert_eq!(split_queues(vec![7u8, 9u8]).unwrap(), (7, 9));
    assert!(matches!(
        split_queues::<u8>(vec![]),
        Err(VulkanStateError::GraphicalQueueNotCreated)
    ));
    assert!(matches!(
        split_queues(vec![1u8]),
        Err(VulkanStateError::TransferQueueNotCreated)
    ));
}

#[test]
fn swapchain_uses_current_extent_and_mailbox() {
    let plan = plan_swapchain(Some([1600, 900]), [4096, 4096], &[44, 37, 50], true).unwrap();
    assert_eq!(plan.dimensions, [1600, 900]);
    assert_eq!(plan.format, 50);
    assert_eq!(plan.format, SRGB_BGRA_FORMAT);
    assert_eq!(plan.present_mode, SwapchainPresentMode::Mailbox);
}

#[test]
fn swapchain_falls_back_to_max_extent_and_fifo() {
    let plan = plan_swapchain(None, [2560, 1440], &[50], false).unwrap();
    assert_eq!(plan.dimensions, [2560, 1440]);
    assert_eq!(plan.present_mode, SwapchainPresentMode::Fifo);
}

#[test]
fn swapchain_without_srgb_format_fails() {
    assert!(matches!(
        plan_swapchain(Some([800, 600]), [800, 600], &[44, 37, 51], true),
        Err(RendererStateError::CannotFindFormat)
    ));
    assert!(matches!(
        plan_swapchain(None, [800, 600], &[], false),
        Err(RendererStateError::CannotFindFormat)
    ));
}

#[test]
fn frame_plan_follows_acquired_image() {
    assert_eq!(
        plan_frame(AcquireOutcome::Acquired {
            image: 2,
            suboptimal: false
        }),
        FramePlan::Render {
            image: 2,
            then_recreate_swapchain: false
        }
    );
    assert_eq!(
        plan_frame(AcquireOutcome::Acquired {
            image: 0,
            suboptimal: true
        }),
        FramePlan::Render {
            image: 0,
            then_recreate_swapchain: true
        }
    );
    assert_eq!(plan_frame(AcquireOutcome::Failed), FramePlan::RecreateSwapchain);
}

#[test]
fn framebuffers_rebuilt_on_first_frame_only() {
    let mut frames = FrameLoop::new();
    assert!(frames.begin_frame());
    assert!(!frames.begin_frame());
    assert!(!frames.begin_frame());
}

#[test]
fn swapchain_recreation_refreshes_framebuffers() {
    let mut frames = FrameLoop::new();
    assert!(frames.begin_frame());
    assert!(frames.swapchain_recreated(SwapchainRecreation::Recreated));
    assert!(frames.begin_frame());
    assert!(!frames.begin_frame());
}

#[test]
fn unsupported_dimensions_leave_loop_unchanged() {
    let mut frames = FrameLoop::new();
    assert!(!frames.swapchain_recreated(SwapchainRecreation::UnsupportedDimensions));
    assert!(frames.begin_frame());
    assert!(!frames.swapchain_recreated(SwapchainRecreation::UnsupportedDimensions));
    assert!(!frames.begin_frame());
}
