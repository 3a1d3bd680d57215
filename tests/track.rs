use topdown_car::fixed::{Vector2, FX_ONE};
use topdown_car::track::TrackConfig;

#[test]
fn default_track_is_square_at_unit_scale() {
    let t = TrackConfig::default();
    assert_eq!(t.logical_size, Vector2::new(100 * FX_ONE, 100 * FX_ONE));
    assert_eq!(t.scale, FX_ONE);
}

#[test]
fn track_center_maps_to_world_origin() {
    let t = TrackConfig::default();
    assert_eq!(t.track_to_world(Vector2::new(50 * FX_ONE, 50 * FX_ONE)), Vector2::zero());
    assert_eq!(t.track_to_world(Vector2::zero()), Vector2::new(-50 * FX_ONE, -50 * FX_ONE));
}

#[test]
fn track_to_world_scales_uniformly() {
    let t = TrackConfig { logical_size: Vector2::new(100 * FX_ONE, 100 * FX_ONE), scale: 2 * FX_ONE };
    assert_eq!(t.track_to_world(Vector2::new(60 * FX_ONE, 45 * FX_ONE)), Vector2::new(20 * FX_ONE, -10 * FX_ONE));
}

#[test]
fn world_to_track_inverts_exactly_on_grid() {
    let t = TrackConfig { logical_size: Vector2::new(100 * FX_ONE, 100 * FX_ONE), scale: 2 * FX_ONE };
    assert_eq!(t.world_to_track(Vector2::new(20 * FX_ONE, -10 * FX_ONE)), Vector2::new(60 * FX_ONE, 45 * FX_ONE));
    assert_eq!(t.world_to_track(Vector2::zero()), Vector2::new(50 * FX_ONE, 50 * FX_ONE));
}

#[test]
fn round_trip_within_tolerance() {
    let points = [
        Vector2::new(12_345_678, -3_000_001),
        Vector2::new(-987_654_321, 77),
        Vector2::new(1, 99_999_999),
    ];
    for scale in [FX_ONE / 100, 333_333, FX_ONE, 1_700_001, 25 * FX_ONE] {
        let t = TrackConfig { logical_size: Vector2::new(100 * FX_ONE, 60 * FX_ONE), scale };
        for p in points {
            let back = t.world_to_track(t.track_to_world(p));
            assert!((back.x - p.x).abs() <= 100, "x at scale {}", scale);
            assert!((back.y - p.y).abs() <= 100, "y at scale {}", scale);
        }
    }
}

#[test]
fn compute_scale_fits_square_track() {
    let mut t = TrackConfig::default();
    t.compute_scale(Vector2::new(800 * FX_ONE, 600 * FX_ONE));
    assert_eq!(t.scale, 6 * FX_ONE);
    assert_eq!(t.logical_size, Vector2::new(100 * FX_ONE, 100 * FX_ONE));
}

#[test]
fn compute_scale_picks_binding_axis() {
    let mut t = TrackConfig { logical_size: Vector2::new(200 * FX_ONE, 100 * FX_ONE), scale: FX_ONE };
    t.compute_scale(Vector2::new(1000 * FX_ONE, 300 * FX_ONE));
    assert_eq!(t.scale, 3 * FX_ONE);
    t.compute_scale(Vector2::new(300 * FX_ONE, 1000 * FX_ONE));
    assert_eq!(t.scale, 1_500_000);
}

#[test]
fn compute_scale_is_tight_and_fits() {
    let mut t = TrackConfig { logical_size: Vector2::new(70 * FX_ONE, 30 * FX_ONE), scale: FX_ONE };
    let w = Vector2::new(1234 * FX_ONE + 567, 777 * FX_ONE);
    t.compute_scale(w);
    let (lx, ly) = (t.logical_size.x as i128, t.logical_size.y as i128);
    let (wx, wy) = (w.x as i128 * FX_ONE as i128, w.y as i128 * FX_ONE as i128);
    let s = t.scale as i128;
    assert!(lx * s <= wx && ly * s <= wy);
    assert!(lx * (s + 1) > wx || ly * (s + 1) > wy);
}

#[test]
fn compute_scale_of_empty_window_is_zero() {
    let mut t = TrackConfig::default();
    t.compute_scale(Vector2::new(0, 500 * FX_ONE));
    assert_eq!(t.scale, 0);
}
