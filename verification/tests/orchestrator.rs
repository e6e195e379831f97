use todo_wallpaper::orchestrate::{
    after_render, build_text_block, desktop_kind, picture_key, strip_wallpaper_uri,
    theme_from_setting, wallpaper_uri_for, AfterRender, DesktopKind,
};
use todo_wallpaper::{Theme, WallError};

fn s(v: &[&str]) -> Vec<String> {
    v.iter().map(|x| x.to_string()).collect()
}

#[test]
fn empty_lists_are_a_no_op() {
    // With nothing to show the run must not touch the filesystem or the
    // wallpaper; the block builder signals that with `None`.
    assert!(build_text_block(&Vec::new(), &Vec::new()).is_none());
}

#[test]
fn todos_only_block() {
    let block = build_text_block(&s(&["alpha", "beta"]), &Vec::new()).unwrap();
    assert_eq!(block, "TODOS:\n\n1. alpha\n2. beta");
}

#[test]
fn dones_only_block_keeps_leading_blank() {
    let block = build_text_block(&Vec::new(), &s(&["done thing"])).unwrap();
    assert_eq!(block, "\nDONES:\n\n1. done thing");
}

#[test]
fn both_sections_in_order() {
    let block = build_text_block(&s(&["a"]), &s(&["b"])).unwrap();
    assert_eq!(block, "TODOS:\n\n1. a\n\nDONES:\n\n1. b");
}

#[test]
fn numbering_reaches_two_digits() {
    let items: Vec<String> = (1..=10).map(|i| format!("t{}", i)).collect();
    let block = build_text_block(&items, &Vec::new()).unwrap();
    let lines: Vec<&str> = block.split('\n').collect();
    assert_eq!(lines[2], "1. t1");
    assert_eq!(lines[11], "10. t10");
}

#[test]
fn desktop_classification() {
    assert_eq!(desktop_kind("GNOME"), DesktopKind::Gnome);
    assert_eq!(desktop_kind("KDE"), DesktopKind::Unknown);
    assert_eq!(desktop_kind("gnome"), DesktopKind::Unknown);
    assert_eq!(desktop_kind(""), DesktopKind::Unknown);
}

#[test]
fn theme_classification() {
    assert_eq!(theme_from_setting("'prefer-dark'"), Theme::Dark);
    assert_eq!(theme_from_setting("'default'"), Theme::Light);
    assert_eq!(theme_from_setting("darkness"), Theme::Dark);
    assert_eq!(theme_from_setting(""), Theme::Light);
}

#[test]
fn picture_key_by_theme() {
    assert_eq!(picture_key(Theme::Dark), "picture-uri-dark");
    assert_eq!(picture_key(Theme::Light), "picture-uri");
}

#[test]
fn uri_stripping() {
    let raw = "'file:///home/u/p.png'\n";
    assert_eq!(strip_wallpaper_uri(raw).unwrap(), "/home/u/p.png");
    assert!(strip_wallpaper_uri("short").is_none());
}

#[test]
fn render_outcome_routing() {
    assert_eq!(after_render(&Ok(())), AfterRender::Activate);
    // A too-small image is fatal: no fallback copy, no activation.
    assert_eq!(
        after_render(&Err(WallError::ImageTooSmall)),
        AfterRender::Abort
    );
    // Any other render failure falls back to the original, then activates.
    assert_eq!(
        after_render(&Err(WallError::ImageDecodeOrEncodeFailed)),
        AfterRender::FallBackThenActivate
    );
}

#[test]
fn uri_building() {
    assert_eq!(
        wallpaper_uri_for("/home/u/.todo-wallpaper/p-todo-rs.png"),
        "file:///home/u/.todo-wallpaper/p-todo-rs.png"
    );
}
