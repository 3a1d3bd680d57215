use topdown_car::car::{CarControls, CarPhysicsConfig, TrackTransform, DEAD_ZONE, TAU_FX};
use topdown_car::fixed::{Vector2, FX_ONE};
use topdown_car::track::TrackConfig;

const DT: i64 = 16_667;

fn heading(rotation: i64) -> Vector2 {
    let a = rotation as f64 / FX_ONE as f64;
    Vector2::new((a.cos() * FX_ONE as f64) as i64, (a.sin() * FX_ONE as f64) as i64)
}

fn tick(t: &mut TrackTransform, c: &CarControls, cfg: &CarPhysicsConfig) {
    t.steer(c, cfg, DT);
    let h = heading(t.rotation);
    t.drive(c, h, cfg, DT);
}

fn speed_sq(v: Vector2) -> i128 {
    (v.x as i128) * (v.x as i128) + (v.y as i128) * (v.y as i128)
}

#[test]
fn default_config_values() {
    let c = CarPhysicsConfig::default();
    assert_eq!(c.rotational_acceleration, 50 * FX_ONE);
    assert_eq!(c.max_rotational_velocity, TAU_FX);
    assert_eq!(c.forward_acceleration, 200 * FX_ONE);
    assert_eq!(c.friction, 970_000);
    assert_eq!(c.drift_factor, 990_000);
    assert_eq!(c.max_forward_velocity, 150 * FX_ONE);
}

#[test]
fn default_state_is_at_rest() {
    let t = TrackTransform::default();
    assert_eq!(t.position, Vector2::zero());
    assert_eq!(t.velocity, Vector2::zero());
    assert_eq!(t.rotation, 0);
    assert_eq!(t.rotational_velocity, 0);
    let c = CarControls::default();
    assert_eq!(c.turn, Vector2::zero());
    assert_eq!(c.accel, Vector2::zero());
}

#[test]
fn keys_map_to_unit_inputs() {
    let c = CarControls::from_keys(true, false, false, true);
    assert_eq!(c.accel, Vector2::new(FX_ONE, 0));
    assert_eq!(c.turn, Vector2::new(0, FX_ONE));
    assert_eq!(c.accel_control(), FX_ONE);
    assert_eq!(c.turn_control(), -FX_ONE);
}

#[test]
fn controls_are_clamped() {
    let c = CarControls { turn: Vector2::new(3 * FX_ONE, -FX_ONE), accel: Vector2::new(-2 * FX_ONE, 5 * FX_ONE) };
    assert_eq!(c.turn_control(), FX_ONE);
    assert_eq!(c.accel_control(), -FX_ONE);
    let c = CarControls { turn: Vector2::new(400_000, 100_000), accel: Vector2::new(250_000, 750_000) };
    assert_eq!(c.turn_control(), 300_000);
    assert_eq!(c.accel_control(), -500_000);
}

#[test]
fn turn_dead_zone_snaps_to_zero() {
    let c = CarControls { turn: Vector2::new(DEAD_ZONE - 1, 0), accel: Vector2::zero() };
    assert_eq!(c.turn_control(), 0);
    let c = CarControls { turn: Vector2::new(0, DEAD_ZONE - 1), accel: Vector2::zero() };
    assert_eq!(c.turn_control(), 0);
    let c = CarControls { turn: Vector2::new(DEAD_ZONE, 0), accel: Vector2::zero() };
    assert_eq!(c.turn_control(), DEAD_ZONE);
}

#[test]
fn forward_for_sixty_ticks() {
    let cfg = CarPhysicsConfig::default();
    let c = CarControls::from_keys(true, false, false, false);
    let mut t = TrackTransform::default();
    for _ in 0..60 {
        t.steer(&c, &cfg, DT);
        t.drive(&c, Vector2::new(FX_ONE, 0), &cfg, DT);
    }
    assert_eq!(t.position, Vector2::new(59_039_546, 0));
    assert_eq!(t.velocity, Vector2::new(90_448_187, 0));
    assert_eq!(t.rotation, 0);
    assert_eq!(t.rotational_velocity, 0);
}

#[test]
fn turn_left_ten_ticks_then_release() {
    let cfg = CarPhysicsConfig::default();
    let left = CarControls::from_keys(false, false, true, false);
    let mut t = TrackTransform::default();
    let expected = [
        (833_350, 13_889),
        (1_666_700, 41_667),
        (2_500_050, 83_335),
        (3_333_400, 138_892),
        (4_166_750, 208_339),
        (5_000_100, 291_675),
        (5_833_450, 388_901),
        (6_283_185, 493_622),
        (6_283_185, 598_343),
        (6_283_185, 703_064),
    ];
    for (rv, rot) in expected {
        tick(&mut t, &left, &cfg);
        assert_eq!(t.rotational_velocity, rv);
        assert_eq!(t.rotation, rot);
    }
    tick(&mut t, &CarControls::default(), &cfg);
    assert_eq!(t.rotational_velocity, 0);
    assert_eq!(t.rotation, 703_064);
}

#[test]
fn turning_right_wraps_heading() {
    let cfg = CarPhysicsConfig::default();
    let right = CarControls::from_keys(false, false, false, true);
    let mut t = TrackTransform::default();
    t.steer(&right, &cfg, DT);
    assert_eq!(t.rotational_velocity, -833_350);
    assert_eq!(t.rotation, 6_269_296);
}

#[test]
fn heading_stays_normalized() {
    let cfg = CarPhysicsConfig::default();
    let mut t = TrackTransform::default();
    let inputs = [
        CarControls::from_keys(true, false, true, false),
        CarControls::from_keys(false, true, false, true),
        CarControls::from_keys(true, false, false, true),
    ];
    for i in 0..600 {
        tick(&mut t, &inputs[(i / 37) % 3], &cfg);
        assert!(0 <= t.rotation && t.rotation < TAU_FX);
        assert!(t.rotational_velocity.abs() <= cfg.max_rotational_velocity);
    }
}

#[test]
fn speed_never_exceeds_limit() {
    let cfg = CarPhysicsConfig::default();
    let mut t = TrackTransform::default();
    let c = CarControls::from_keys(true, false, true, false);
    let max = cfg.max_forward_velocity as i128;
    for _ in 0..2000 {
        tick(&mut t, &c, &cfg);
        assert!(speed_sq(t.velocity) <= max * max);
    }
}

#[test]
fn speed_limit_scales_velocity_down() {
    let cfg = CarPhysicsConfig::default();
    let mut t = TrackTransform { velocity: Vector2::new(150 * FX_ONE, 0), ..TrackTransform::default() };
    let c = CarControls::from_keys(true, false, false, false);
    t.steer(&c, &cfg, DT);
    t.drive(&c, Vector2::new(FX_ONE, 0), &cfg, DT);
    assert_eq!(t.velocity, Vector2::new(148_733_398, 0));
    assert_eq!(t.position, Vector2::new(2_478_939, 0));
}

#[test]
fn speed_limit_applies_above_limit() {
    let cfg = CarPhysicsConfig { friction: FX_ONE, drift_factor: FX_ONE, ..CarPhysicsConfig::default() };
    let mut t = TrackTransform { velocity: Vector2::new(150 * FX_ONE, 0), ..TrackTransform::default() };
    let c = CarControls::from_keys(true, false, false, false);
    t.drive(&c, Vector2::new(FX_ONE, 0), &cfg, DT);
    assert_eq!(t.velocity, Vector2::new(150 * FX_ONE, 0));
}

#[test]
fn zero_input_decays_speed() {
    let cfg = CarPhysicsConfig::default();
    let mut t = TrackTransform { velocity: Vector2::new(3 * FX_ONE, -4 * FX_ONE), ..TrackTransform::default() };
    let idle = CarControls::default();
    let h = Vector2::new(707_106, 707_106);
    let expected = [(2_876_050, -3_846_049), (2_757_165, -3_698_064), (2_643_142, -3_555_814)];
    for (x, y) in expected {
        let before = speed_sq(t.velocity);
        t.steer(&idle, &cfg, DT);
        t.drive(&idle, h, &cfg, DT);
        assert_eq!(t.velocity, Vector2::new(x, y));
        assert!(speed_sq(t.velocity) <= before);
    }
    for _ in 0..2000 {
        let before = speed_sq(t.velocity);
        tick(&mut t, &idle, &cfg);
        assert!(speed_sq(t.velocity) <= before);
    }
    assert!(speed_sq(t.velocity) < 1_000_000);
}

#[test]
fn zero_drift_removes_sideways_velocity() {
    let cfg = CarPhysicsConfig { friction: FX_ONE, drift_factor: 0, ..CarPhysicsConfig::default() };
    let mut t = TrackTransform { velocity: Vector2::new(5 * FX_ONE, 7 * FX_ONE), ..TrackTransform::default() };
    t.drive(&CarControls::default(), Vector2::new(FX_ONE, 0), &cfg, DT);
    assert_eq!(t.velocity, Vector2::new(5 * FX_ONE, 0));
}

#[test]
fn full_drift_keeps_velocity() {
    let cfg = CarPhysicsConfig { friction: FX_ONE, drift_factor: FX_ONE, ..CarPhysicsConfig::default() };
    let mut t = TrackTransform { velocity: Vector2::new(5 * FX_ONE, 7 * FX_ONE), ..TrackTransform::default() };
    t.drive(&CarControls::default(), Vector2::new(FX_ONE, 0), &cfg, DT);
    assert_eq!(t.velocity, Vector2::new(5 * FX_ONE, 7 * FX_ONE));
    assert_eq!(t.position, Vector2::new(83_335, 116_669));
}

#[test]
fn render_transform_follows_track() {
    let track = TrackConfig { logical_size: Vector2::new(100 * FX_ONE, 100 * FX_ONE), scale: 3 * FX_ONE };
    let t = TrackTransform {
        position: Vector2::new(60 * FX_ONE, 40 * FX_ONE),
        rotation: 1_234_567,
        ..TrackTransform::default()
    };
    let r = t.render_transform(&track);
    assert_eq!(r.translation, Vector2::new(30 * FX_ONE, -30 * FX_ONE));
    assert_eq!(r.rotation, 1_234_567);
    assert_eq!(r.scale, 3 * FX_ONE);
}
