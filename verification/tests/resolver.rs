use todo_wallpaper::paths::{
    backup_dir_for, is_annotated_path, resolve_paths, resolve_plan, ResolvePlan,
};
use todo_wallpaper::WallError;

const DIR: &str = "/home/u/.todo-wallpaper/";

#[test]
fn resolve_plain_path() {
    let pair = resolve_paths(DIR, "/home/u/Pictures/pic.png").unwrap();
    assert_eq!(pair.original, "/home/u/.todo-wallpaper/pic.png");
    assert_eq!(pair.annotated, "/home/u/.todo-wallpaper/pic-todo-rs.png");
}

#[test]
fn resolve_annotated_input_yields_same_pair() {
    let first = resolve_paths(DIR, "/home/u/Pictures/pic.png").unwrap();
    let second = resolve_paths(DIR, first.annotated.as_str()).unwrap();
    assert_eq!(second.original, first.original);
    assert_eq!(second.annotated, first.annotated);
    let third = resolve_paths(DIR, first.original.as_str()).unwrap();
    assert_eq!(third.original, first.original);
    assert_eq!(third.annotated, first.annotated);
}

#[test]
fn resolve_without_extension_is_rejected() {
    assert!(resolve_paths(DIR, "/home/u/picture").is_none());
}

#[test]
fn resolve_keeps_extra_dots_in_stem() {
    let pair = resolve_paths(DIR, "/home/u/a.b.png").unwrap();
    assert_eq!(pair.original, "/home/u/.todo-wallpaper/a.b.png");
    assert_eq!(pair.annotated, "/home/u/.todo-wallpaper/a.b-todo-rs.png");
}

#[test]
fn resolve_bare_filename() {
    let pair = resolve_paths(DIR, "pic.jpg").unwrap();
    assert_eq!(pair.original, "/home/u/.todo-wallpaper/pic.jpg");
    assert_eq!(pair.annotated, "/home/u/.todo-wallpaper/pic-todo-rs.jpg");
}

#[test]
fn plan_first_run_creates_and_copies() {
    assert_eq!(
        resolve_plan(false, false, false).unwrap(),
        ResolvePlan::CreateDirAndCopy
    );
}

#[test]
fn plan_annotated_without_backup_is_original_missing() {
    assert_eq!(
        resolve_plan(true, false, false).unwrap_err(),
        WallError::OriginalMissing
    );
}

#[test]
fn plan_self_heals_missing_original() {
    assert_eq!(resolve_plan(false, true, false).unwrap(), ResolvePlan::CopyOnly);
    assert_eq!(resolve_plan(true, true, false).unwrap(), ResolvePlan::CopyOnly);
}

#[test]
fn plan_steady_state_copies_nothing() {
    assert_eq!(resolve_plan(false, true, true).unwrap(), ResolvePlan::NoCopy);
    assert_eq!(resolve_plan(true, true, true).unwrap(), ResolvePlan::NoCopy);
}

#[test]
fn second_run_resolves_identically_and_copies_nothing() {
    // First run: nothing exists yet, so the original is captured once.
    let pair1 = resolve_paths(DIR, "/home/u/w.png").unwrap();
    let plan1 = resolve_plan(false, false, false).unwrap();
    assert_eq!(plan1, ResolvePlan::CreateDirAndCopy);
    // Second run with the same active path: the directory and original now
    // exist, the pair is identical and no copy is performed.
    let pair2 = resolve_paths(DIR, "/home/u/w.png").unwrap();
    assert_eq!(pair1.original, pair2.original);
    assert_eq!(pair1.annotated, pair2.annotated);
    assert_eq!(resolve_plan(false, true, true).unwrap(), ResolvePlan::NoCopy);
}

#[test]
fn annotated_detection() {
    assert!(is_annotated_path("/home/u/pic-todo-rs.png"));
    assert!(!is_annotated_path("/home/u/pic.png"));
    assert!(!is_annotated_path("/home/u/pic-todo-rs"));
    assert!(is_annotated_path("pic-todo-rs.jpg"));
}

#[test]
fn backup_dir_appends_hidden_folder() {
    assert_eq!(backup_dir_for("/home/u"), "/home/u/.todo-wallpaper/");
}
