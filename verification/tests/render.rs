use raytracer::color::Color;
use raytracer::ray::Ray;
use raytracer::scene::{RenderError, Scene};
use raytracer::shapes::Panel;
use raytracer::vector::{Vec3, UNIT};

fn straight_down_z() -> Ray {
    Ray {
        pos: Vec3 { x: 0, y: 0, z: 0 },
        dir: Vec3 { x: 0, y: 0, z: -UNIT },
    }
}

fn front_panel(color: Color) -> Panel {
    Panel {
        z: -5 * UNIT,
        faces_positive_z: true,
        color,
    }
}

fn back_panel(color: Color) -> Panel {
    Panel {
        z: 5 * UNIT,
        faces_positive_z: false,
        color,
    }
}

fn empty_scene() -> Scene<Panel> {
    Scene {
        objects: vec![],
        lights: vec![],
    }
}

#[test]
fn depth_zero_yields_none_even_on_a_sure_hit() {
    let scene = Scene {
        objects: vec![front_panel(Color::new(10, 20, 30))],
        lights: vec![],
    };
    assert_eq!(scene.cast_ray(straight_down_z(), 0), None);
}

#[test]
fn escaped_ray_yields_none_at_any_depth() {
    let scene = empty_scene();
    assert_eq!(scene.cast_ray(straight_down_z(), 1), None);
    assert_eq!(scene.cast_ray(straight_down_z(), 5), None);
    assert_eq!(scene.cast_ray(straight_down_z(), 1000), None);
}

#[test]
fn miss_by_direction_yields_none() {
    // The panel faces positive z but the ray travels away from it.
    let scene = Scene {
        objects: vec![front_panel(Color::new(10, 20, 30))],
        lights: vec![],
    };
    let away = Ray {
        pos: Vec3 { x: 0, y: 0, z: 0 },
        dir: Vec3 { x: 0, y: 0, z: UNIT },
    };
    assert_eq!(scene.cast_ray(away, 4), None);
}

#[test]
fn single_hit_at_depth_one_returns_surface_color() {
    let c = Color::new(200, 100, 50);
    let scene = Scene {
        objects: vec![front_panel(c)],
        lights: vec![],
    };
    assert_eq!(scene.cast_ray(straight_down_z(), 1), Some(c));
}

#[test]
fn nearest_hit_wins() {
    let far = front_panel(Color::new(1, 1, 1));
    let near = Panel {
        z: -2 * UNIT,
        faces_positive_z: true,
        color: Color::new(9, 9, 9),
    };
    let scene = Scene {
        objects: vec![far, near],
        lights: vec![],
    };
    let (idx, hit) = scene.hit(straight_down_z()).unwrap();
    assert_eq!(idx, 1);
    assert_eq!(hit.dist, 2 * UNIT as u64);
    assert_eq!(scene.cast_ray(straight_down_z(), 1), Some(Color::new(9, 9, 9)));
}

#[test]
fn equal_distances_keep_the_first_object() {
    let a = front_panel(Color::new(11, 22, 33));
    let b = front_panel(Color::new(44, 55, 66));
    let scene = Scene {
        objects: vec![a, b],
        lights: vec![],
    };
    let (idx, _) = scene.hit(straight_down_z()).unwrap();
    assert_eq!(idx, 0);
    assert_eq!(scene.cast_ray(straight_down_z(), 1), Some(Color::new(11, 22, 33)));
}

#[test]
fn two_bounces_blend_surface_over_bounced() {
    let ca = Color::new(200, 100, 50);
    let cb = Color::new(40, 60, 80);
    let scene = Scene {
        objects: vec![front_panel(ca), back_panel(cb)],
        lights: vec![],
    };
    // blend(ca, 4/5, cb) per channel: (4 * a + b) / 5.
    assert_eq!(
        scene.cast_ray(straight_down_z(), 2),
        Some(Color::new(168, 92, 56))
    );
}

#[test]
fn three_bounces_blend_outward_in_order() {
    let ca = Color::new(200, 100, 50);
    let cb = Color::new(40, 60, 80);
    let scene = Scene {
        objects: vec![front_panel(ca), back_panel(cb)],
        lights: vec![],
    };
    // Innermost first: blend(cb, blend target ca) = (72, 68, 74);
    // then blend(ca, that) = (174, 93, 54).
    assert_eq!(
        scene.cast_ray(straight_down_z(), 3),
        Some(Color::new(174, 93, 54))
    );
}

#[test]
fn blend_formula_exact_values() {
    let a = Color::new(200, 100, 50);
    let b = Color::new(40, 60, 80);
    assert_eq!(Color::blend(a, 4, 5, b), Color::new(168, 92, 56));
    // Full weight on either side returns that side.
    assert_eq!(Color::blend(a, 5, 5, b), a);
    assert_eq!(Color::blend(a, 0, 5, b), b);
}

#[test]
fn empty_scene_renders_background_gray() {
    let scene = empty_scene();
    let offsets = vec![(0, 0), (12345, 54321), (65535, 1)];
    let img = scene
        .render_with_offsets((1, 1), 3, 4, &offsets)
        .unwrap();
    assert_eq!(img.width, 1);
    assert_eq!(img.height, 1);
    assert_eq!(img.pixels, vec![Color::new(127, 127, 127)]);
}

#[test]
fn empty_scene_renders_background_for_any_sample_count() {
    let scene = empty_scene();
    for samples in [1u32, 2, 9] {
        let offsets = vec![(7, 11); samples as usize];
        let img = scene
            .render_with_offsets((1, 1), samples, 2, &offsets)
            .unwrap();
        assert_eq!(img.pixels, vec![Color::new(127, 127, 127)]);
    }
}

#[test]
fn zero_samples_fail_deterministically() {
    let scene = empty_scene();
    assert!(matches!(
        scene.render((4, 4), 0, 3),
        Err(RenderError::ZeroSamples)
    ));
    let no_offsets: Vec<(i64, i64)> = vec![];
    assert!(matches!(
        scene.render_with_offsets((4, 4), 0, 3, &no_offsets),
        Err(RenderError::ZeroSamples)
    ));
}

#[test]
fn repeated_renders_over_fixed_offsets_are_identical() {
    let scene = Scene {
        objects: vec![
            front_panel(Color::new(200, 100, 50)),
            back_panel(Color::new(40, 60, 80)),
        ],
        lights: vec![],
    };
    let mut offsets = Vec::new();
    for k in 0..(2 * 2 * 3) {
        offsets.push(((k * 5003) % 65536, (k * 271 + 9) % 65536));
    }
    let img1 = scene.render_with_offsets((2, 2), 3, 2, &offsets).unwrap();
    let img2 = scene.render_with_offsets((2, 2), 3, 2, &offsets).unwrap();
    assert_eq!(img1.width, img2.width);
    assert_eq!(img1.height, img2.height);
    assert_eq!(img1.pixels, img2.pixels);
}

#[test]
fn wide_accumulator_takes_ten_thousand_samples() {
    let scene = empty_scene();
    let offsets = vec![(32768, 32768); 10000];
    let img = scene
        .render_with_offsets((1, 1), 10000, 8, &offsets)
        .unwrap();
    assert_eq!(img.pixels, vec![Color::new(127, 127, 127)]);
}

#[test]
fn zero_sized_image_renders_empty() {
    let scene = empty_scene();
    let no_offsets: Vec<(i64, i64)> = vec![];
    let img = scene.render_with_offsets((0, 0), 5, 2, &no_offsets).unwrap();
    assert_eq!(img.width, 0);
    assert_eq!(img.height, 0);
    assert_eq!(img.pixels.len(), 0);
    let img2 = scene.render((0, 3), 2, 2).unwrap();
    assert_eq!(img2.pixels.len(), 0);
}

#[test]
fn random_render_of_empty_scene_is_background() {
    let scene = empty_scene();
    let img = scene.render((2, 2), 7, 3).unwrap();
    assert_eq!(img.width, 2);
    assert_eq!(img.height, 2);
    assert_eq!(img.pixels, vec![Color::new(127, 127, 127); 4]);
}

#[test]
fn random_render_fills_every_pixel_with_the_panel_color() {
    // Every camera ray points down negative z, so every sample strikes the
    // front panel and the average is exactly its color.
    let c = Color::new(90, 140, 210);
    let scene = Scene {
        objects: vec![front_panel(c)],
        lights: vec![],
    };
    let img = scene.render((3, 2), 4, 1).unwrap();
    assert_eq!(img.width, 3);
    assert_eq!(img.height, 2);
    assert_eq!(img.pixels.len(), 6);
    assert_eq!(img.pixels, vec![c; 6]);
    assert_eq!(img.pixel(2, 1), c);
}
