use raytracer::color::Color;
use raytracer::ray::Ray;
use raytracer::shapes::{Hitable, Panel};
use raytracer::vector::{Vec3, UNIT};

#[test]
fn unit_keeps_an_axis_vector() {
    let v = Vec3::new(0, 0, -UNIT);
    assert_eq!(v.unit(), Vec3::new(0, 0, -UNIT));
}

#[test]
fn unit_scales_a_three_four_five_triangle() {
    // Length is 5 units; 3/5 and 4/5 in 16.16 fixed point, rounded toward
    // zero: 39321.6 and 52428.8.
    let v = Vec3::new(3 * UNIT, 4 * UNIT, 0);
    assert_eq!(v.unit(), Vec3::new(39321, 52428, 0));
}

#[test]
fn bounce_mirrors_across_a_z_normal() {
    let incoming = Vec3::new(UNIT, 0, -UNIT);
    let normal = Vec3::new(0, 0, UNIT);
    assert_eq!(incoming.bounce_with_normal(normal), Vec3::new(UNIT, 0, UNIT));
}

#[test]
fn bounce_reverses_a_head_on_ray() {
    let incoming = Vec3::new(0, 0, -UNIT);
    let normal = Vec3::new(0, 0, UNIT);
    assert_eq!(incoming.bounce_with_normal(normal), Vec3::new(0, 0, UNIT));
}

#[test]
fn panel_reports_distance_point_and_normal() {
    let panel = Panel {
        z: -5 * UNIT,
        faces_positive_z: true,
        color: Color::new(1, 2, 3),
    };
    let ray = Ray {
        pos: Vec3 { x: 0, y: 0, z: 0 },
        dir: Vec3 { x: 0, y: 0, z: -UNIT },
    };
    let hit = panel.hit(ray).unwrap();
    assert_eq!(hit.dist, 5 * UNIT as u64);
    assert_eq!(hit.hit_point, Vec3::new(0, 0, -5 * UNIT));
    assert_eq!(hit.normal, Vec3::new(0, 0, UNIT));
}

#[test]
fn panel_ignores_a_ray_from_its_back_side() {
    let panel = Panel {
        z: -5 * UNIT,
        faces_positive_z: true,
        color: Color::new(1, 2, 3),
    };
    let behind = Ray {
        pos: Vec3 { x: 0, y: 0, z: -10 * UNIT },
        dir: Vec3 { x: 0, y: 0, z: UNIT },
    };
    assert_eq!(panel.hit(behind), None);
}

#[test]
fn panel_color_is_constant_everywhere() {
    let panel = Panel {
        z: 0,
        faces_positive_z: false,
        color: Color::new(7, 8, 9),
    };
    assert_eq!(panel.color(Vec3::new(1, 2, 3)), Color::new(7, 8, 9));
    assert_eq!(panel.color(Vec3::new(-100, 0, 55)), Color::new(7, 8, 9));
}
