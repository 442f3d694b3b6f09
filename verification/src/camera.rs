//! The dual-camera pixel-perfect presentation pipeline.
//!
//! World content is rendered by an in-game camera into an offscreen image
//! whose dimensions are the window's divided by the camera resource's
//! pixel size; an outer camera presents that image scaled back up.  This
//! module computes the sizing and follow behavior; entity and image
//! handles are opaque identifiers the engine shell assigns.

use crate::units::Vec2M;
use vstd::prelude::*;

verus! {

/// World pixels per display pixel, in milli-units (2.5).
pub const PIXEL_SIZE_MILLI: i64 = 2_500;

/// The camera pipeline's shared state: the handles of the two cameras, the
/// canvas sprite and the offscreen image, the pixel scale, the offscreen
/// dimensions, and the entity the in-game camera follows.
#[derive(Clone, Copy, PartialEq, Eq, Structural, Debug)]
pub struct CameraResource {
    pub pixel_camera: u64,
    pub outer_camera: u64,
    pub canvas: u64,
    pub canvas_image: u64,
    /// World pixels per display pixel, milli-units; at least 1000, so the
    /// offscreen image never outgrows the window.
    pub pixel_size: i64,
    pub followed_entity: Option<u64>,
    pub pixel_w: u32,
    pub pixel_h: u32,
}

/// The offscreen dimension a window dimension maps to under a pixel size
/// (milli-units): the window size divided by the pixel size, rounded down.
pub open spec fn spec_pixel_dim(window_dim: int, pixel_size: int) -> int {
    window_dim * 1000 / pixel_size
}

/// Computes one offscreen dimension from a window dimension.  The pixel
/// size is at least one window pixel per world pixel, so the result fits
/// the window.
pub fn pixel_dim(window_dim: u32, pixel_size: i64) -> (r: u32)
    requires
        1000 <= pixel_size,
    ensures
        r == spec_pixel_dim(window_dim as int, pixel_size as int),
{
    let wide: u64 = (window_dim as u64) * 1000 / (pixel_size as u64);
    proof {
        vstd::arithmetic::div_mod::lemma_div_is_ordered_by_denominator(
            window_dim as int * 1000,
            1000,
            pixel_size as int,
        );
        vstd::arithmetic::div_mod::lemma_div_multiples_vanish(window_dim as int, 1000);
        assert(window_dim as int * 1000 == 1000 * window_dim as int) by (nonlinear_arith);
        assert(wide <= window_dim);
    }
    wide as u32
}

/// Builds the camera pipeline's state at startup: the offscreen image is
/// sized to the window over the fixed 2.5 pixel size, nothing is followed
/// yet, and the handles the engine shell created are recorded.
pub fn setup_cameras(
    window_w: u32,
    window_h: u32,
    pixel_camera: u64,
    outer_camera: u64,
    canvas: u64,
    canvas_image: u64,
) -> (r: CameraResource)
    ensures
        r.pixel_w == spec_pixel_dim(window_w as int, PIXEL_SIZE_MILLI as int),
        r.pixel_h == spec_pixel_dim(window_h as int, PIXEL_SIZE_MILLI as int),
        r.pixel_size == PIXEL_SIZE_MILLI,
        r.followed_entity is None,
        r.pixel_camera == pixel_camera,
        r.outer_camera == outer_camera,
        r.canvas == canvas,
        r.canvas_image == canvas_image,
{
    CameraResource {
        pixel_camera,
        outer_camera,
        canvas,
        canvas_image,
        pixel_size: PIXEL_SIZE_MILLI,
        followed_entity: None,
        pixel_w: pixel_dim(window_w, PIXEL_SIZE_MILLI),
        pixel_h: pixel_dim(window_h, PIXEL_SIZE_MILLI),
    }
}

/// The in-game camera's translation after the follow pass: the followed
/// entity's position when one is set and resolvable, else unchanged.
pub fn follow(followed_position: Option<Vec2M>, camera_translation: Vec2M) -> (r: Vec2M)
    ensures
        followed_position matches Some(p) ==> r == p,
        followed_position is None ==> r == camera_translation,
{
    match followed_position {
        Some(p) => p,
        None => camera_translation,
    }
}

/// What one window resize applies besides the stored dimensions: the
/// canvas sprite's uniform scale and the in-game camera's orthographic
/// viewing area, centered on the origin.
#[derive(Clone, Copy, PartialEq, Eq, Structural, Debug)]
pub struct CanvasAdjust {
    /// The canvas scale in milli-units: the pixel size, so one offscreen
    /// pixel covers that many window pixels.
    pub canvas_scale: i64,
    /// The orthographic area's width: the new offscreen width.
    pub area_w: u32,
    /// The orthographic area's height: the new offscreen height.
    pub area_h: u32,
}

/// Applies a frame's window-resize events in order: each recomputes the
/// offscreen dimensions from the new window size and the resource's own
/// pixel size; the canvas scale and camera area of the last one are
/// returned to be applied, or nothing when no resize happened.
pub fn fit_canvas(camera: &mut CameraResource, resize_events: &Vec<(u32, u32)>) -> (r: Option<
    CanvasAdjust,
>)
    requires
        1000 <= old(camera).pixel_size,
    ensures
        resize_events@.len() == 0 ==> *final(camera) == *old(camera) && r is None,
        resize_events@.len() > 0 ==> ({
            let last = resize_events@[resize_events@.len() - 1];
            &&& final(camera).pixel_w == spec_pixel_dim(
                last.0 as int,
                old(camera).pixel_size as int,
            )
            &&& final(camera).pixel_h == spec_pixel_dim(
                last.1 as int,
                old(camera).pixel_size as int,
            )
            &&& *final(camera) == (CameraResource {
                pixel_w: final(camera).pixel_w,
                pixel_h: final(camera).pixel_h,
                ..*old(camera)
            })
            &&& r == Some(
                CanvasAdjust {
                    canvas_scale: old(camera).pixel_size,
                    area_w: final(camera).pixel_w,
                    area_h: final(camera).pixel_h,
                },
            )
        }),
{
    let mut r: Option<CanvasAdjust> = None;
    let mut idx: usize = 0;
    while idx < resize_events.len()
        invariant
            idx <= resize_events@.len(),
            camera.pixel_size == old(camera).pixel_size,
            1000 <= camera.pixel_size,
            idx == 0 ==> *camera == *old(camera) && r is None,
            idx > 0 ==> ({
                let last = resize_events@[idx - 1];
                &&& camera.pixel_w == spec_pixel_dim(last.0 as int, old(camera).pixel_size as int)
                &&& camera.pixel_h == spec_pixel_dim(last.1 as int, old(camera).pixel_size as int)
                &&& *camera == (CameraResource {
                    pixel_w: camera.pixel_w,
                    pixel_h: camera.pixel_h,
                    ..*old(camera)
                })
                &&& r == Some(
                    CanvasAdjust {
                        canvas_scale: old(camera).pixel_size,
                        area_w: camera.pixel_w,
                        area_h: camera.pixel_h,
                    },
                )
            }),
        decreases resize_events@.len() - idx,
    {
        let (w, h): (u32, u32) = resize_events[idx];
        let new_w: u32 = pixel_dim(w, camera.pixel_size);
        let new_h: u32 = pixel_dim(h, camera.pixel_size);
        camera.pixel_w = new_w;
        camera.pixel_h = new_h;
        r = Some(CanvasAdjust { canvas_scale: camera.pixel_size, area_w: new_w, area_h: new_h });
        idx = idx + 1;
    }
    r
}

} // verus!
