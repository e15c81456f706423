use splat_renderer::renderer::{is_drawable_size, MockRenderer, REPORT_INTERVAL};
use winit::window::WindowId;

#[test]
fn new_renderer_starts_at_frame_zero() {
    let r = MockRenderer::new(WindowId::from(7u64), 1024, 768);
    assert_eq!(r.width(), 1024);
    assert_eq!(r.height(), 768);
    assert_eq!(r.frame_count(), 0);
    assert_eq!(u64::from(r.window_id()), 7);
}

#[test]
fn resize_keeps_frame_count() {
    let mut r = MockRenderer::new(WindowId::from(1u64), 800, 600);
    r.update();
    r.update();
    r.resize(1920, 1080);
    assert_eq!(r.width(), 1920);
    assert_eq!(r.height(), 1080);
    assert_eq!(r.frame_count(), 2);
    assert_eq!(u64::from(r.window_id()), 1);
}

#[test]
fn update_reports_every_sixtieth_frame() {
    assert_eq!(REPORT_INTERVAL, 60);
    let mut r = MockRenderer::new(WindowId::from(3u64), 10, 20);
    let mut reported = Vec::new();
    for _ in 0..180 {
        if r.update() {
            reported.push(r.frame_count());
        }
    }
    assert_eq!(reported, vec![60, 120, 180]);
    assert_eq!(r.frame_count(), 180);
    assert_eq!(r.width(), 10);
    assert_eq!(r.height(), 20);
}

#[test]
fn drawable_sizes() {
    assert!(is_drawable_size(1, 1));
    assert!(is_drawable_size(1024, 768));
    assert!(!is_drawable_size(0, 768));
    assert!(!is_drawable_size(1024, 0));
    assert!(!is_drawable_size(0, 0));
}
