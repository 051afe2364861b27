use rtw::aabb::AABB;
use rtw::aarect::{Missing, Rect2D};
use rtw::cube::Cube;
use rtw::hittable::{bounding_box, Closest};
use rtw::moving_sphere::nearest_root;

fn b(x: f32) -> u32 {
    x.to_bits()
}

fn bits(p: [f32; 3]) -> [u32; 3] {
    [b(p[0]), b(p[1]), b(p[2])]
}

fn numbers(p: [u32; 3]) -> [f32; 3] {
    [f32::from_bits(p[0]), f32::from_bits(p[1]), f32::from_bits(p[2])]
}

fn aabb(min: [f32; 3], max: [f32; 3]) -> AABB {
    AABB::new(bits(min), bits(max))
}

#[test]
fn cube_has_six_faces_in_pairs() {
    let cube = Cube::new(bits([130.0, 0.0, 65.0]), bits([295.0, 165.0, 230.0]));
    assert_eq!(cube.min, bits([130.0, 0.0, 65.0]));
    assert_eq!(cube.max, bits([295.0, 165.0, 230.0]));
    assert_eq!(
        cube.sides,
        [
            Rect2D::new_xy(b(130.0), b(295.0), b(0.0), b(165.0), b(230.0)),
            Rect2D::new_xy(b(130.0), b(295.0), b(0.0), b(165.0), b(65.0)),
            Rect2D::new_xz(b(130.0), b(295.0), b(65.0), b(230.0), b(165.0)),
            Rect2D::new_xz(b(130.0), b(295.0), b(65.0), b(230.0), b(0.0)),
            Rect2D::new_yz(b(0.0), b(165.0), b(65.0), b(230.0), b(295.0)),
            Rect2D::new_yz(b(0.0), b(165.0), b(65.0), b(230.0), b(130.0)),
        ]
    );
}

#[test]
fn cube_faces_lie_across_each_axis_twice() {
    let cube = Cube::new(bits([0.0, 0.0, 0.0]), bits([1.0, 2.0, 3.0]));
    let across: Vec<Missing> = cube.sides.iter().map(|s| s.missing).collect();
    assert_eq!(
        across,
        vec![Missing::Z, Missing::Z, Missing::Y, Missing::Y, Missing::X, Missing::X]
    );
    let at: Vec<f32> = cube.sides.iter().map(|s| f32::from_bits(s.k)).collect();
    assert_eq!(at, vec![3.0, 0.0, 2.0, 0.0, 1.0, 0.0]);
}

#[test]
fn cube_is_its_own_bounding_box() {
    let cube = Cube::new(bits([265.0, 0.0, 295.0]), bits([430.0, 330.0, 460.0]));
    assert_eq!(
        cube.bounding_box(),
        Some(aabb([265.0, 0.0, 295.0], [430.0, 330.0, 460.0]))
    );
}

#[test]
fn an_empty_list_has_no_bounding_box() {
    assert_eq!(bounding_box(&Vec::new()), None);
}

#[test]
fn a_list_of_one_has_the_box_of_its_object() {
    let only = aabb([1.0, 2.0, 3.0], [4.0, 5.0, 6.0]);
    assert_eq!(bounding_box(&vec![Some(only)]), Some(only));
}

#[test]
fn a_list_has_the_box_around_all_its_objects() {
    let boxes = vec![
        Some(aabb([0.0, -10.0, 0.0], [1.0, 1.0, 1.0])),
        Some(aabb([-1.0, 0.5, 2.0], [0.5, 3.0, 4.0])),
        Some(aabb([0.0, 0.0, -7.5], [9.0, 0.0, 0.0])),
    ];
    let all = bounding_box(&boxes).unwrap();
    assert_eq!(numbers(all.min), [-1.0, -10.0, -7.5]);
    assert_eq!(numbers(all.max), [9.0, 3.0, 4.0]);
}

#[test]
fn a_list_with_an_object_without_a_box_has_none() {
    let some = Some(aabb([0.0, 0.0, 0.0], [1.0, 1.0, 1.0]));
    assert_eq!(bounding_box(&vec![None]), None);
    assert_eq!(bounding_box(&vec![some, None]), None);
    assert_eq!(bounding_box(&vec![None, some]), None);
    assert_eq!(bounding_box(&vec![some, some, None, some]), None);
}

#[test]
fn the_nearest_hit_on_a_sphere_is_the_smaller_root() {
    // A sphere of radius r about the origin, met from (2r, 0, 0) along -x:
    // the ray crosses it at t = r and t = 3r.
    let r = 2.5f32;
    let root = nearest_root(b(r), b(3.0 * r), b(0.001), b(f32::INFINITY));
    assert_eq!(root, Some(b(r)));
}

#[test]
fn the_larger_root_is_taken_from_inside_the_sphere() {
    let root = nearest_root(b(-1.0), b(1.0), b(0.001), b(f32::INFINITY));
    assert_eq!(root, Some(b(1.0)));
}

#[test]
fn roots_outside_the_interval_are_rejected() {
    assert_eq!(nearest_root(b(-3.0), b(-1.0), b(0.001), b(f32::INFINITY)), None);
    assert_eq!(nearest_root(b(2.0), b(4.0), b(0.001), b(1.5)), None);
    assert_eq!(nearest_root(b(2.0), b(4.0), b(2.5), b(3.5)), None);
    assert_eq!(nearest_root(b(2.0), b(4.0), b(2.5), b(4.0)), Some(b(4.0)));
    assert_eq!(nearest_root(b(2.0), b(4.0), b(2.0), b(4.0)), Some(b(2.0)));
}

#[test]
fn a_search_begins_with_nothing_found() {
    let c: Closest<char> = Closest::new(b(f32::INFINITY));
    assert_eq!(c.closest_so_far, b(f32::INFINITY));
    assert_eq!(c.rec, None);
}

#[test]
fn a_hit_closes_the_interval_and_a_miss_does_not() {
    let c = Closest::new(b(f32::INFINITY));
    let c = c.narrow(None::<(u32, char)>);
    assert_eq!((c.closest_so_far, c.rec), (b(f32::INFINITY), None));
    let c = c.narrow(Some((b(4.0), 'a')));
    assert_eq!((c.closest_so_far, c.rec), (b(4.0), Some('a')));
    let c = c.narrow(None);
    assert_eq!((c.closest_so_far, c.rec), (b(4.0), Some('a')));
    let c = c.narrow(Some((b(2.5), 'b')));
    assert_eq!((c.closest_so_far, c.rec), (b(2.5), Some('b')));
}

#[test]
fn a_search_among_objects_ends_with_the_closest() {
    // Each object is hit at one parameter and reports it if it lies in the
    // interval that is still open.
    let objects = [7.0f32, 3.0, 9.0, 5.0, 1.5, 1.5, 2.0];
    let t_min = 1.0f32;
    let mut c = Closest::new(b(8.0));
    for (i, t) in objects.iter().enumerate() {
        let open = f32::from_bits(c.closest_so_far);
        let report = if t_min <= *t && *t <= open { Some((b(*t), i)) } else { None };
        c = c.narrow(report);
    }
    assert_eq!(c.closest_so_far, b(1.5));
    assert_eq!(c.rec, Some(5));
}
