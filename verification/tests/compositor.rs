use todo_wallpaper::compose::{brighten_amount, panel_for, text_color, text_x, text_y};
use todo_wallpaper::{Theme, WallError};

#[test]
fn panel_splits_narrow_image_at_half() {
    let p = panel_for(400, 300).unwrap();
    assert_eq!(p.x_offset, 200);
    assert_eq!(p.width, 200);
    assert_eq!(p.height, 300);
}

#[test]
fn panel_splits_wide_image_at_two_thirds() {
    let p = panel_for(1200, 800).unwrap();
    assert_eq!(p.x_offset, 800);
    assert_eq!(p.width, 400);
    assert_eq!(p.height, 800);
}

#[test]
fn panel_split_boundary() {
    assert_eq!(panel_for(499, 300).unwrap().x_offset, 249);
    assert_eq!(panel_for(500, 300).unwrap().x_offset, 333);
}

#[test]
fn too_small_image_is_rejected() {
    assert_eq!(panel_for(150, 150).unwrap_err(), WallError::ImageTooSmall);
    assert_eq!(panel_for(199, 300).unwrap_err(), WallError::ImageTooSmall);
    assert_eq!(panel_for(300, 199).unwrap_err(), WallError::ImageTooSmall);
    assert!(panel_for(200, 200).is_ok());
}

#[test]
fn text_color_by_theme() {
    assert_eq!(text_color(Theme::Dark), (255, 255, 255, 255));
    assert_eq!(text_color(Theme::Light), (0, 0, 0, 255));
}

#[test]
fn brighten_direction_by_theme() {
    assert_eq!(brighten_amount(Theme::Dark), 30);
    assert_eq!(brighten_amount(Theme::Light), -30);
}

#[test]
fn text_starts_at_panel_plus_two_percent() {
    assert_eq!(text_x(200, 400), 208);
    assert_eq!(text_x(800, 1200), 824);
}

#[test]
fn line_positions_spread_by_line_height() {
    // First line at a tenth of the height; each further line 1.15 line
    // heights (23/20 in whole pixels) below the last.
    assert_eq!(text_y(300, 20, 0), 30);
    assert_eq!(text_y(300, 20, 1), 53);
    assert_eq!(text_y(1000, 40, 3), 238);
}
