use kaboom::camera::pixel_center_offset;
use kaboom::march::{march, Probe, MAX_STEPS};

#[test]
fn center_pixel_is_half_a_pixel_off_center() {
    assert_eq!(pixel_center_offset(320, 240, 640, 480), (1, -1));
    assert_eq!(pixel_center_offset(319, 239, 640, 480), (-1, 1));
}

#[test]
fn corner_pixels() {
    assert_eq!(pixel_center_offset(0, 0, 640, 480), (-639, 479));
    assert_eq!(pixel_center_offset(639, 479, 640, 480), (639, -479));
}

#[test]
fn odd_sized_image_has_a_center_pixel() {
    assert_eq!(pixel_center_offset(1, 1, 3, 3), (0, 0));
}

type V3 = (f32, f32, f32);

const RADIUS: f32 = 1.5;

fn dot(a: V3, b: V3) -> f32 {
    a.0 * b.0 + a.1 * b.1 + a.2 * b.2
}

fn length(a: V3) -> f32 {
    dot(a, a).sqrt()
}

fn primary_ray(i: usize, j: usize, width: usize, height: usize, fov: f32) -> V3 {
    let (x, y) = pixel_center_offset(i, j, width, height);
    let d = (x as f32 / 2.0, y as f32 / 2.0, -(height as f32) / (2.0 * (fov / 2.0).tan()));
    let n = length(d);
    (d.0 / n, d.1 / n, d.2 / n)
}

// A sphere of radius 1.5 at the origin without displacement, traced with
// steps of a tenth of the distance, at least 0.01.
fn trace_plain_sphere(orig: V3, dir: V3) -> Option<V3> {
    if dot(orig, orig) - dot(orig, dir).powi(2) > RADIUS * RADIUS {
        return None;
    }
    march(orig, MAX_STEPS, |p: V3| {
        let d = length(p) - RADIUS;
        if d < 0.0 {
            Probe::Inside
        } else {
            let s = (d * 0.1).max(0.01);
            Probe::Advance((p.0 + dir.0 * s, p.1 + dir.1 * s, p.2 + dir.2 * s))
        }
    })
}

#[test]
fn rendered_center_hits_and_corner_misses() {
    let fov = std::f32::consts::PI / 2.0;
    let camera = (0.0, 0.0, 3.0);
    let center = trace_plain_sphere(camera, primary_ray(320, 240, 640, 480, fov));
    assert!(center.is_some());
    assert!(length(center.unwrap()) < RADIUS);
    let corner = trace_plain_sphere(camera, primary_ray(0, 0, 640, 480, fov));
    assert!(corner.is_none());
}

#[test]
fn ray_from_inside_hits_at_its_origin() {
    let orig = (0.3, -0.2, 0.5);
    assert_eq!(trace_plain_sphere(orig, (0.0, 0.0, 1.0)), Some(orig));
}
