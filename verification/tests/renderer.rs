use xettacast::{DrawItem, FrameSize, PenState, Quad, RenderError, Renderer, MAX_ITEMS};

fn recorder() -> Renderer<f32, u8> {
    Renderer::new(0.0, 1.0).unwrap()
}

#[test]
fn a_frame_without_rectangles_draws_no_instance() {
    let mut renderer = recorder();
    assert!(renderer.begin().is_ok());
    renderer.set_target_view(7);
    let plan = renderer.end().unwrap();
    assert!(plan.items.is_empty());
    assert_eq!(plan.instance_count, 0);
    assert_eq!(plan.vertex_count, 6);
    assert!(!renderer.frame_open());
    assert_eq!(renderer.target_view(), Some(&7));
}

#[test]
fn a_frame_without_target_fails() {
    let mut renderer = recorder();
    renderer.begin().unwrap();
    renderer.set_color(0.5, 0.5, 0.5, 1.0);
    renderer.rect(0.0, 0.0, 1.0, 1.0);
    let pen = renderer.frame_config();
    assert_eq!(renderer.end().unwrap_err(), RenderError::NoTargetView);
    assert!(!renderer.frame_open());
    assert_eq!(renderer.item_count(), 1);
    assert_eq!(renderer.frame_config(), pen);
    assert_eq!(renderer.target_view(), None);
    renderer.begin().unwrap();
    assert_eq!(renderer.item_count(), 0);
    assert_eq!(RenderError::NoTargetView.message(), "No target view!");
}

#[test]
fn begin_resets_the_pen() {
    let mut renderer = recorder();
    renderer.begin().unwrap();
    let pen: PenState<f32> = renderer.frame_config();
    assert_eq!(pen.color, Quad(0.0, 0.0, 0.0, 1.0));
    assert_eq!(pen.mask, Quad(0.0, 0.0, 1.0, 1.0));
    assert_eq!(pen.depth, 0.0);
    assert_eq!(pen.border_radius, Quad(0.0, 0.0, 0.0, 0.0));
    assert_eq!(pen.border_radius_mask, Quad(0.0, 0.0, 0.0, 0.0));
    assert_eq!(pen.frame_res, FrameSize(800, 600));
    assert_eq!(pen.texture, None);
    renderer.set_color(0.5, 0.25, 0.125, 1.0);
    renderer.set_depth(3.0);
    renderer.set_target_view(1);
    renderer.rect(0.0, 0.0, 1.0, 1.0);
    renderer.begin().unwrap();
    assert_eq!(renderer.item_count(), 0);
    assert_eq!(renderer.target_view(), None);
    assert_eq!(renderer.frame_config().color, Quad(0.0, 0.0, 0.0, 1.0));
    assert_eq!(renderer.frame_config().depth, 0.0);
}

#[test]
fn a_rectangle_keeps_the_pen_it_was_emitted_with() {
    let mut renderer = recorder();
    renderer.begin().unwrap();
    renderer.set_target_view(1);
    renderer.set_frame_res((1920, 1080));
    renderer.set_color(1.0, 0.5, 0.0, 1.0);
    renderer.set_mask(0.1, 0.2, 0.3, 0.4);
    renderer.set_border_radius(0.01, 0.02, 0.03, 0.04);
    renderer.set_mask_border_radius(0.05, 0.06, 0.07, 0.08);
    renderer.set_depth(2.0);
    renderer.rect(0.1, 0.1, 0.7, 0.9);
    renderer.set_color(0.0, 0.0, 1.0, 1.0);
    renderer.set_depth(5.0);
    renderer.rect(0.2, 0.3, 0.4, 0.5);
    assert_eq!(renderer.frame_config().frame_res, FrameSize(1920, 1080));
    let plan = renderer.end().unwrap();
    assert_eq!(plan.instance_count, 2);
    assert_eq!(
        plan.items[0],
        DrawItem {
            offset_scale: Quad(0.1, 0.1, 0.7, 0.9),
            texture_transform: Quad(1.0, 0.5, 0.0, 1.0),
            mask: Quad(0.1, 0.2, 0.3, 0.4),
            border_radius: Quad(0.01, 0.02, 0.03, 0.04),
            border_radius_mask: Quad(0.05, 0.06, 0.07, 0.08),
            data0: Quad(2.0, 0.0, 0.0, 0.0),
            meta0: Quad(0.0, 0.0, 0.0, 0.0),
        }
    );
    assert_eq!(plan.items[1].offset_scale, Quad(0.2, 0.3, 0.4, 0.5));
    assert_eq!(plan.items[1].texture_transform, Quad(0.0, 0.0, 1.0, 1.0));
    assert_eq!(plan.items[1].data0, Quad(5.0, 0.0, 0.0, 0.0));
    assert_eq!(plan.items[1].mask, Quad(0.1, 0.2, 0.3, 0.4));
}

#[test]
fn more_rectangles_than_the_buffer_holds_are_refused() {
    let mut renderer = recorder();
    renderer.begin().unwrap();
    renderer.set_target_view(1);
    for _ in 0..MAX_ITEMS {
        renderer.rect(0.0, 0.0, 1.0, 1.0);
    }
    let plan = renderer.end().unwrap();
    assert_eq!(plan.instance_count as usize, MAX_ITEMS);
    renderer.begin().unwrap();
    renderer.set_target_view(1);
    for _ in 0..MAX_ITEMS + 1 {
        renderer.rect(0.0, 0.0, 1.0, 1.0);
    }
    assert_eq!(renderer.flush().unwrap_err(), RenderError::TooManyItems);
    assert_eq!(renderer.item_count(), MAX_ITEMS + 1);
    assert!(!renderer.frame_open());
    assert_eq!(RenderError::TooManyItems.message(), "Too many items!");
}

#[test]
fn the_missing_target_is_reported_before_the_full_buffer() {
    let mut renderer = recorder();
    renderer.begin().unwrap();
    for _ in 0..MAX_ITEMS + 1 {
        renderer.rect(0.0, 0.0, 1.0, 1.0);
    }
    assert_eq!(renderer.end().unwrap_err(), RenderError::NoTargetView);
}
