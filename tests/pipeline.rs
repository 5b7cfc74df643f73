use fcg::camera::image_plane_point;
use fcg::hit::{nearest_hit, Hit};
use fcg::image::{rgba, ImageBuffer};
use fcg::render::render;
use fcg::shading::{classify_pixel, light_occluded, PixelKind};

fn keys(ts: &[f32]) -> Vec<u32> {
    ts.iter().map(|t| t.to_bits()).collect()
}

#[test]
fn camera_flips_rows() {
    assert_eq!(image_plane_point(1080, 0, 0), (0, 1079));
    assert_eq!(image_plane_point(1080, 5, 1079), (5, 0));
    assert_eq!(image_plane_point(1, 3, 0), (3, 0));
}

#[test]
fn nearest_of_two_overlapping_spheres() {
    // the first sphere is crossed at 4 and 6, the second at 3.5 and 7
    let per_sphere = vec![keys(&[4.0, 6.0]), keys(&[3.5, 7.0])];
    let h = nearest_hit(&per_sphere).unwrap();
    assert_eq!(h.sphere, 1);
    assert_eq!(f32::from_bits(h.distance), 3.5);

    let per_sphere = vec![keys(&[3.5, 7.0]), keys(&[4.0, 6.0])];
    let h = nearest_hit(&per_sphere).unwrap();
    assert_eq!(h, Hit { distance: 3.5f32.to_bits(), sphere: 0 });
}

#[test]
fn nearest_takes_second_root_when_it_is_smaller() {
    let per_sphere = vec![keys(&[6.0, 4.0])];
    assert_eq!(nearest_hit(&per_sphere), Some(Hit { distance: 4.0f32.to_bits(), sphere: 0 }));
}

#[test]
fn nearest_tie_goes_to_first_sphere() {
    let per_sphere = vec![vec![], keys(&[2.0]), keys(&[2.0, 1.5]), keys(&[1.5])];
    let h = nearest_hit(&per_sphere).unwrap();
    assert_eq!(h, Hit { distance: 1.5f32.to_bits(), sphere: 2 });
}

#[test]
fn nearest_of_nothing() {
    assert_eq!(nearest_hit(&vec![]), None);
    assert_eq!(nearest_hit(&vec![vec![], vec![]]), None);
}

#[test]
fn pixel_outside_every_sphere_is_background() {
    let per_sphere = vec![vec![]];
    assert_eq!(classify_pixel(&per_sphere, &vec![None]), PixelKind::Background);
}

#[test]
fn pixel_through_a_sphere_is_its_surface() {
    let per_sphere = vec![keys(&[4.0, 6.0])];
    assert_eq!(
        classify_pixel(&per_sphere, &vec![None]),
        PixelKind::Surface { hit: Hit { distance: 4.0f32.to_bits(), sphere: 0 } }
    );
}

#[test]
fn pixel_on_a_light_marker_shows_the_light() {
    let per_sphere = vec![keys(&[10.0]), keys(&[3.0, 3.2])];
    let marker_of = vec![None, Some(2)];
    assert_eq!(classify_pixel(&per_sphere, &marker_of), PixelKind::LightMarker { light: 2 });
}

#[test]
fn marker_behind_a_sphere_is_hidden() {
    let per_sphere = vec![keys(&[1.0, 2.0]), keys(&[3.0, 3.2])];
    let marker_of = vec![None, Some(0)];
    assert_eq!(
        classify_pixel(&per_sphere, &marker_of),
        PixelKind::Surface { hit: Hit { distance: 1.0f32.to_bits(), sphere: 0 } }
    );
}

#[test]
fn occluder_hides_the_light_and_removing_it_restores_it() {
    let marker_of = vec![None, None, Some(0)];
    let blocked = vec![vec![], keys(&[0.5, 0.9]), vec![]];
    assert!(light_occluded(&blocked, &marker_of));
    let clear = vec![vec![], vec![], vec![]];
    assert!(!light_occluded(&clear, &marker_of));
}

#[test]
fn light_markers_cast_no_shadow() {
    let marker_of = vec![None, Some(1)];
    let shadow_hits = vec![vec![], keys(&[2.0])];
    assert!(!light_occluded(&shadow_hits, &marker_of));
    assert!(!light_occluded(&vec![], &vec![]));
}

#[test]
fn render_fills_every_pixel() {
    let mut ib = ImageBuffer::new(3, 2);
    render(&mut ib, |x, y| rgba(x as u8, y as u8, 0, 255));
    for y in 0..2u32 {
        for x in 0..3u32 {
            assert_eq!(ib.pixel(x, y), rgba(x as u8, y as u8, 0, 255));
        }
    }
    assert_eq!(ib.data()[4], rgba(1, 1, 0, 255));
}
