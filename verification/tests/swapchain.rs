use xettacast::{AcquireFailure, FrameStep, Swapchain};

#[test]
fn the_first_srgb_format_is_chosen() {
    let chain = Swapchain::new(&vec![false, true, true], &vec![false, false, true]).unwrap();
    assert_eq!(chain.format(), 1);
    assert_eq!(chain.present_mode(), 2);
    assert_eq!((chain.width(), chain.height()), (800, 600));
    assert_eq!(chain.min_size(), (800, 600));
    assert_eq!(chain.max_size(), (8000, 8000));
}

#[test]
fn the_first_of_all_is_chosen_where_none_is_preferred() {
    let chain = Swapchain::new(&vec![false, false], &vec![false]).unwrap();
    assert_eq!(chain.format(), 0);
    assert_eq!(chain.present_mode(), 0);
    assert_eq!(Swapchain::first_set(&vec![true]), 0);
    assert_eq!(Swapchain::first_set(&Vec::new()), 0);
}

#[test]
fn resize_holds_the_size_within_the_bounds() {
    let mut chain = Swapchain::new(&vec![true], &vec![true]).unwrap();
    chain.resize(0, 0);
    assert_eq!((chain.width(), chain.height()), (800, 600));
    chain.resize(u32::MAX, u32::MAX);
    assert_eq!((chain.width(), chain.height()), (8000, 8000));
    chain.resize(1920, 1080);
    assert_eq!((chain.width(), chain.height()), (1920, 1080));
    chain.resize(799, 8001);
    assert_eq!((chain.width(), chain.height()), (800, 8000));
    chain.resize(800, 8000);
    assert_eq!((chain.width(), chain.height()), (800, 8000));
    chain.resize(8000, 600);
    assert_eq!((chain.width(), chain.height()), (8000, 600));
}

#[test]
fn a_lost_surface_is_configured_anew() {
    assert_eq!(Swapchain::after_failure(AcquireFailure::Lost), FrameStep::Reconfigure);
    assert_eq!(Swapchain::after_failure(AcquireFailure::Outdated), FrameStep::Skip);
    assert_eq!(Swapchain::after_failure(AcquireFailure::Timeout), FrameStep::Skip);
    assert_eq!(Swapchain::after_failure(AcquireFailure::Other), FrameStep::Abort);
}
