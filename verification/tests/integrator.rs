use rtw::integrator::{exhausted, ray_color, Event, Radiance};

#[test]
fn depth_zero_is_black_whatever_happens() {
    for event in [Event::Miss, Event::Absorbed, Event::Scattered] {
        assert_eq!(ray_color(0, event), Radiance::Black);
    }
}

#[test]
fn negative_depth_is_black_whatever_happens() {
    for event in [Event::Miss, Event::Absorbed, Event::Scattered] {
        assert_eq!(ray_color(-1, event), Radiance::Black);
        assert_eq!(ray_color(i32::MIN, event), Radiance::Black);
    }
}

#[test]
fn a_miss_gives_the_background() {
    assert_eq!(ray_color(1, Event::Miss), Radiance::Background);
    assert_eq!(ray_color(25, Event::Miss), Radiance::Background);
}

#[test]
fn a_hit_without_scattering_gives_the_emission_alone() {
    assert_eq!(ray_color(1, Event::Absorbed), Radiance::Emitted);
    assert_eq!(ray_color(25, Event::Absorbed), Radiance::Emitted);
}

#[test]
fn a_scattering_hit_recurses_with_one_bounce_less() {
    assert_eq!(
        ray_color(25, Event::Scattered),
        Radiance::EmittedPlusScattered { depth: 24 }
    );
    assert_eq!(
        ray_color(1, Event::Scattered),
        Radiance::EmittedPlusScattered { depth: 0 }
    );
    assert_eq!(
        ray_color(i32::MAX, Event::Scattered),
        Radiance::EmittedPlusScattered { depth: i32::MAX - 1 }
    );
}

#[test]
fn exhausted_is_true_without_bounces_left() {
    assert!(exhausted(0));
    assert!(exhausted(-5));
    assert!(!exhausted(1));
    assert!(!exhausted(25));
}

#[test]
fn a_path_of_scattering_hits_ends_after_depth_rays() {
    let mut depth = 25;
    let mut rays = 0;
    loop {
        match ray_color(depth, Event::Scattered) {
            Radiance::EmittedPlusScattered { depth: left } => {
                rays += 1;
                depth = left;
            }
            Radiance::Black => break,
            other => panic!("unexpected {:?}", other),
        }
    }
    assert_eq!(rays, 25);
}
