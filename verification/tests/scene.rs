use raytrace::material::surface_type::Surface;
use raytrace::ray::Record;
use raytrace::scalar::Scalar;
use raytrace::scene::{Scene, CAPACITY, FIXED, PEBBLE_RADIUS_BITS, ROW};
use raytrace::vector::Vector3;

fn f(v: Scalar) -> f32 {
    f32::from_bits(v.to_bits())
}

fn triple(v: Vector3) -> [f32; 3] {
    [f(v.x), f(v.y), f(v.z)]
}

fn v3(a: [f32; 3]) -> Vector3 {
    Vector3::from_bits(a[0].to_bits(), a[1].to_bits(), a[2].to_bits())
}

#[test]
fn the_scene_starts_with_four_spheres() {
    let scene = Scene::new(&Vec::new());
    assert_eq!(scene.spheres.len(), FIXED);
    let ground = &scene.spheres[0];
    assert_eq!(ground.material.surface, Surface::Lambertian);
    assert_eq!(triple(ground.material.albedo), [0.5, 0.5, 0.5]);
    assert_eq!(triple(ground.center), [0.0, -1000.0, 0.0]);
    assert_eq!(f(ground.radius), 1000.0);
    let mirror = &scene.spheres[1];
    assert_eq!(mirror.material.surface, Surface::Metallic);
    assert_eq!(triple(mirror.material.albedo), [0.4, 0.2, 0.6]);
    assert_eq!(triple(mirror.center), [0.0, 1.0, 0.0]);
    assert_eq!(f(mirror.radius), 1.0);
    let glass = &scene.spheres[2];
    assert_eq!(glass.material.surface, Surface::Dielectric);
    assert_eq!(triple(glass.material.albedo), [1.0, 1.0, 1.0]);
    assert_eq!(triple(glass.center), [-0.5, 1.0, 6.5]);
    assert_eq!(f(glass.radius), 1.0);
    let matte = &scene.spheres[3];
    assert_eq!(matte.material.surface, Surface::Lambertian);
    assert_eq!(triple(matte.material.albedo), [0.8, 0.4, 0.2]);
    assert_eq!(triple(matte.center), [3.5, 1.0, 8.5]);
    assert_eq!(f(matte.radius), 1.0);
}

#[test]
fn pebbles_follow_in_their_order() {
    let mut pebbles = Vec::new();
    for i in FIXED..CAPACITY {
        let (gx, gy) = Scene::grid_cell(i);
        let center = v3([gx as f32 + 0.25, 0.2, gy as f32 + 0.75]);
        let albedo = v3([i as f32 / 30.0, 0.5, 1.0 - i as f32 / 30.0]);
        pebbles.push((center, albedo));
    }
    let scene = Scene::new(&pebbles);
    assert_eq!(scene.spheres.len(), 30);
    assert_eq!(Scene::new(&Vec::new()).spheres[..], scene.spheres[..4]);
    for (k, (center, albedo)) in pebbles.iter().enumerate() {
        let sphere = &scene.spheres[FIXED + k];
        assert_eq!(sphere.material.surface, Surface::Lambertian);
        assert_eq!(sphere.material.albedo, *albedo);
        assert_eq!(sphere.center, *center);
        assert_eq!(f(sphere.radius), 0.2);
        assert_eq!(sphere.radius.to_bits(), PEBBLE_RADIUS_BITS);
    }
    assert_eq!(triple(scene.spheres[4].center), [0.25, 0.2, 4.75]);
    assert_eq!(triple(scene.spheres[29].center), [2.25, 0.2, 9.75]);
}

#[test]
fn grid_cells_are_numbered_along_rows_of_ten() {
    assert_eq!(ROW, 10);
    assert_eq!(Scene::grid_cell(0), (0, 0));
    assert_eq!(Scene::grid_cell(4), (0, 4));
    assert_eq!(Scene::grid_cell(9), (0, 9));
    assert_eq!(Scene::grid_cell(10), (1, 0));
    assert_eq!(Scene::grid_cell(17), (1, 7));
    assert_eq!(Scene::grid_cell(29), (2, 9));
    assert_eq!(Scene::grid_cell(usize::MAX), (usize::MAX / 10, usize::MAX % 10));
}

#[test]
fn a_path_starts_from_a_zero_record() {
    let hr = Record::new();
    assert_eq!(f(hr.t), 0.0);
    assert_eq!(triple(hr.p), [0.0, 0.0, 0.0]);
    assert_eq!(triple(hr.n), [0.0, 0.0, 0.0]);
}
