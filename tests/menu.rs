use topdown_car::fixed::{Vector2, FX_ONE};
use topdown_car::menu::{AppState, ButtonName, Canvas, CanvasText};

#[test]
fn default_canvas_layout() {
    let c = Canvas::default();
    assert_eq!(c.half_extents, Vector2::new(800 * FX_ONE, 450 * FX_ONE));
    assert_eq!(c.button_width, 150 * FX_ONE);
    assert_eq!(c.scale, FX_ONE);
    assert_eq!(c.buttons, vec!["Play", "Create Track", "Finish Track"]);
    assert_eq!(c.size(), Vector2::new(1750 * FX_ONE, 900 * FX_ONE));
}

#[test]
fn default_app_state_is_player_control() {
    assert_eq!(AppState::default(), AppState::PlayerControl);
    assert_ne!(AppState::TrackCreation, AppState::TrackRendering);
    assert_eq!(ButtonName("Play").0, "Play");
}

#[test]
fn canvas_scale_fits_window() {
    let mut c = Canvas::default();
    c.compute_scale(Vector2::new(1750 * FX_ONE, 900 * FX_ONE));
    assert_eq!(c.scale, FX_ONE);
    c.compute_scale(Vector2::new(875 * FX_ONE, 900 * FX_ONE));
    assert_eq!(c.scale, FX_ONE / 2);
    c.compute_scale(Vector2::new(3500 * FX_ONE, 450 * FX_ONE));
    assert_eq!(c.scale, FX_ONE / 2);
    c.compute_scale(Vector2::new(1000 * FX_ONE, 1000 * FX_ONE));
    assert_eq!(c.scale, 571_428);
}

#[test]
fn canvas_resolution_and_fonts_scale() {
    let mut c = Canvas::default();
    c.scale = 2 * FX_ONE;
    assert_eq!(c.resolution(), Vector2::new(3500 * FX_ONE, 1800 * FX_ONE));
    c.scale = 1_500_000;
    assert_eq!(c.font_size(CanvasText(20 * FX_ONE)), 30 * FX_ONE);
}
