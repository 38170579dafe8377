use particle_life::boundary::{wrap_coordinate, wrap_particles};
use particle_life::particle::Particle;
use particle_life::vector::Vec2;

const EXTENT: i64 = 800_000_000;

#[test]
fn wrap_maps_examples_onto_the_axis() {
    assert_eq!(wrap_coordinate(450_000_000, EXTENT), -350_000_000);
    assert_eq!(wrap_coordinate(-400_000_001, EXTENT), 399_999_999);
    assert_eq!(wrap_coordinate(400_000_000, EXTENT), -400_000_000);
    assert_eq!(wrap_coordinate(-400_000_000, EXTENT), -400_000_000);
    assert_eq!(wrap_coordinate(399_999_999, EXTENT), 399_999_999);
    assert_eq!(wrap_coordinate(0, EXTENT), 0);
    assert_eq!(wrap_coordinate(2_000_000_000, EXTENT), -400_000_000);
    assert_eq!(wrap_coordinate(-2_000_000_001, EXTENT), 399_999_999);
}

#[test]
fn wrap_handles_an_odd_extent() {
    assert_eq!(wrap_coordinate(5, 7), -2);
    assert_eq!(wrap_coordinate(-4, 7), 3);
    assert_eq!(wrap_coordinate(3, 7), 3);
    assert_eq!(wrap_coordinate(4, 7), -3);
    assert_eq!(wrap_coordinate(-3, 7), -3);
}

#[test]
fn wrap_result_lies_on_the_axis() {
    for extent in [1i64, 2, 7, 1000, EXTENT, i64::MAX] {
        for value in [i64::MIN, i64::MIN + 1, -EXTENT, -1001, -4, -1, 0, 1, 3, 999, EXTENT, i64::MAX] {
            let wrapped = wrap_coordinate(value, extent);
            assert!(-(extent / 2) <= wrapped);
            assert!(wrapped < extent - extent / 2);
        }
    }
}

#[test]
fn wrap_is_a_no_op_on_the_axis_and_idempotent() {
    let mut value = -400_000_000i64;
    while value < 400_000_000 {
        assert_eq!(wrap_coordinate(value, EXTENT), value);
        value += 7_777_777;
    }
    for value in [i64::MIN, -1_234_567_890_123, -400_000_001, 400_000_000, 987_654_321_000, i64::MAX] {
        let once = wrap_coordinate(value, EXTENT);
        assert_eq!(wrap_coordinate(once, EXTENT), once);
    }
}

#[test]
fn wrap_particles_wraps_each_axis_and_nothing_else() {
    let mut particles = vec![
        Particle {
            ty: 3,
            position: Vec2 { x: 450_000_000, y: -100 },
            velocity: Vec2 { x: 5, y: -6 },
        },
        Particle {
            ty: 1,
            position: Vec2 { x: -401_000_000, y: 301_000_000 },
            velocity: Vec2 { x: 0, y: 9 },
        },
    ];
    wrap_particles(&mut particles, 800_000_000, 600_000_000);
    assert_eq!(
        particles,
        vec![
            Particle {
                ty: 3,
                position: Vec2 { x: -350_000_000, y: -100 },
                velocity: Vec2 { x: 5, y: -6 },
            },
            Particle {
                ty: 1,
                position: Vec2 { x: 399_000_000, y: -299_000_000 },
                velocity: Vec2 { x: 0, y: 9 },
            },
        ]
    );
}
