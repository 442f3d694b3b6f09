use lira::camera::CameraResource;
use lira::camera::CanvasAdjust;
use lira::camera::fit_canvas;
use lira::camera::follow;
use lira::camera::pixel_dim;
use lira::camera::setup_cameras;
use lira::units::Vec2M;

#[test]
fn pixel_dimension_is_window_over_pixel_size() {
    assert_eq!(pixel_dim(1280, 2500), 512);
    assert_eq!(pixel_dim(720, 2500), 288);
    // 1283 / 2.5 = 513.2, rounded down.
    assert_eq!(pixel_dim(1283, 2500), 513);
    assert_eq!(pixel_dim(0, 2500), 0);
    assert_eq!(pixel_dim(4, 2500), 1);
    // Other pixel sizes divide the same way.
    assert_eq!(pixel_dim(1000, 2000), 500);
    assert_eq!(pixel_dim(1000, 1000), 1000);
}

#[test]
fn setup_records_handles_and_sizes() {
    let c = setup_cameras(1280, 720, 11, 22, 33, 44);
    assert_eq!(c.pixel_camera, 11);
    assert_eq!(c.outer_camera, 22);
    assert_eq!(c.canvas, 33);
    assert_eq!(c.canvas_image, 44);
    assert_eq!(c.pixel_size, 2_500);
    assert_eq!(c.followed_entity, None);
    assert_eq!(c.pixel_w, 512);
    assert_eq!(c.pixel_h, 288);
}

#[test]
fn camera_follows_the_followed_entity() {
    let here = Vec2M { x: 5, y: 6 };
    assert_eq!(follow(Some(Vec2M { x: 70_000, y: -80_000 }), here), Vec2M {
        x: 70_000,
        y: -80_000
    });
    assert_eq!(follow(None, here), here);
}

#[test]
fn no_resize_changes_nothing() {
    let mut c = setup_cameras(1280, 720, 1, 2, 3, 4);
    let before = c;
    let r = fit_canvas(&mut c, &vec![]);
    assert_eq!(r, None);
    assert_eq!(c, before);
}

#[test]
fn last_resize_event_wins() {
    let mut c = setup_cameras(1280, 720, 1, 2, 3, 4);
    let r = fit_canvas(&mut c, &vec![(1000, 500), (2000, 1000)]);
    assert_eq!(c.pixel_w, 800);
    assert_eq!(c.pixel_h, 400);
    assert_eq!(
        r,
        Some(CanvasAdjust { canvas_scale: 2_500, area_w: 800, area_h: 400 })
    );
    // Everything but the pixel dimensions is untouched.
    assert_eq!(c.pixel_camera, 1);
    assert_eq!(c.pixel_size, 2_500);
    assert_eq!(c.followed_entity, None);
}

#[test]
fn resize_divides_by_the_resource_pixel_size() {
    let mut c = CameraResource {
        pixel_camera: 1,
        outer_camera: 2,
        canvas: 3,
        canvas_image: 4,
        pixel_size: 5_000,
        followed_entity: None,
        pixel_w: 0,
        pixel_h: 0,
    };
    let r = fit_canvas(&mut c, &vec![(1000, 500)]);
    assert_eq!(c.pixel_w, 200);
    assert_eq!(c.pixel_h, 100);
    assert_eq!(r, Some(CanvasAdjust { canvas_scale: 5_000, area_w: 200, area_h: 100 }));
}

#[test]
fn resource_can_follow_an_entity() {
    let mut c = setup_cameras(100, 100, 1, 2, 3, 4);
    c.followed_entity = Some(99);
    let r = fit_canvas(&mut c, &vec![(50, 50)]);
    assert_eq!(c.followed_entity, Some(99));
    assert_eq!(r, Some(CanvasAdjust { canvas_scale: 2_500, area_w: 20, area_h: 20 }));
    let _ = CameraResource { ..c };
}
