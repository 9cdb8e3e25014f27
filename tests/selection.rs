use wallpaper_controller::lister::{has_allowed_extension, image_set, is_image, ListedEntry};
use wallpaper_controller::selector::{find_current, select_next, NextImageError};

fn set(paths: &[&str]) -> Vec<String> {
    paths.iter().map(|p| p.to_string()).collect()
}

fn listing(entries: &[(&str, bool)]) -> Vec<ListedEntry> {
    entries.iter().map(|(p, f)| ListedEntry::new(p.to_string(), *f)).collect()
}

#[test]
fn unlisted_current_selects_first() {
    let images = set(&["/w/a.jpg", "/w/b.png", "/w/c.jpeg"]);
    let current = Some("/w/gone.jpg".to_string());
    assert_eq!(select_next(&images, &current), Ok("/w/a.jpg".to_string()));
    assert_eq!(select_next(&images, &None), Ok("/w/a.jpg".to_string()));
}

#[test]
fn listed_current_advances_and_wraps() {
    let images = set(&["/w/a.jpg", "/w/b.png", "/w/c.jpeg"]);
    let a = Some("/w/a.jpg".to_string());
    let b = Some("/w/b.png".to_string());
    let c = Some("/w/c.jpeg".to_string());
    assert_eq!(select_next(&images, &a), Ok("/w/b.png".to_string()));
    assert_eq!(select_next(&images, &b), Ok("/w/c.jpeg".to_string()));
    assert_eq!(select_next(&images, &c), Ok("/w/a.jpg".to_string()));
}

#[test]
fn single_image_wraps_to_itself() {
    let images = set(&["/w/only.png"]);
    let cur = Some("/w/only.png".to_string());
    assert_eq!(select_next(&images, &cur), Ok("/w/only.png".to_string()));
}

#[test]
fn empty_set_is_not_found() {
    let images: Vec<String> = Vec::new();
    assert_eq!(select_next(&images, &None), Err(NextImageError::NotFound));
    let cur = Some("/w/a.jpg".to_string());
    assert_eq!(select_next(&images, &cur), Err(NextImageError::NotFound));
    assert_eq!(NextImageError::NotFound.message(), "No next image file found");
}

#[test]
fn match_is_exact_and_first() {
    let images = set(&["/w/a.jpg", "/w/b.png", "/w/a.jpg", "/w/d.png"]);
    assert_eq!(find_current(&images, &Some("/w/a.jpg".to_string())), Some(0));
    assert_eq!(find_current(&images, &Some("/w/A.jpg".to_string())), None);
    assert_eq!(find_current(&images, &Some("/w/a.jpg\n".to_string())), None);
    assert_eq!(find_current(&images, &Some("/w/d.png".to_string())), Some(3));
    assert_eq!(find_current(&images, &None), None);
    assert_eq!(select_next(&images, &Some("/w/a.jpg".to_string())), Ok("/w/b.png".to_string()));
}

#[test]
fn recorded_choice_advances_one_more() {
    let images = set(&["/w/a.jpg", "/w/b.png", "/w/c.jpeg", "/w/d.jpg"]);
    let mut record: Option<String> = Some("/w/b.png".to_string());
    let expected = ["/w/c.jpeg", "/w/d.jpg", "/w/a.jpg", "/w/b.png", "/w/c.jpeg"];
    for e in expected.iter() {
        let next = select_next(&images, &record).unwrap();
        assert_eq!(next, *e);
        record = Some(next);
    }
}

#[test]
fn extensions_are_matched_exactly() {
    assert!(has_allowed_extension("/w/a.jpg"));
    assert!(has_allowed_extension("/w/a.png"));
    assert!(has_allowed_extension("/w/a.jpeg"));
    assert!(has_allowed_extension("a.b.jpeg"));
    assert!(has_allowed_extension("/w/.hidden.png"));
    assert!(!has_allowed_extension("/w/a.JPG"));
    assert!(!has_allowed_extension("/w/a.gif"));
    assert!(!has_allowed_extension("/w/a.txt"));
    assert!(!has_allowed_extension("/w/a.jpg.txt"));
    assert!(!has_allowed_extension("/w/jpg"));
    assert!(!has_allowed_extension("/w/.jpg"));
    assert!(!has_allowed_extension(".png"));
    assert!(!has_allowed_extension("/w.jpg/a"));
    assert!(!has_allowed_extension("/w/a."));
    assert!(!has_allowed_extension(""));
}

#[test]
fn lister_skips_other_files_and_directories() {
    let entries = listing(&[
        ("/w/a.jpg", true),
        ("/w/notes.txt", true),
        ("/w/anim.gif", true),
        ("/w/folder.png", false),
        ("/w/b.png", true),
        ("/w/sub", false),
        ("/w/c.jpeg", true),
    ]);
    assert_eq!(image_set(&entries), set(&["/w/a.jpg", "/w/b.png", "/w/c.jpeg"]));
    assert!(!is_image(&entries[3]));
    assert!(is_image(&entries[0]));
    assert_eq!(image_set(&Vec::new()), Vec::<String>::new());
}

#[test]
fn end_to_end_rotation() {
    let entries = listing(&[("/w/a.jpg", true), ("/w/b.png", true), ("/w/c.jpeg", true)]);
    let images = image_set(&entries);
    assert_eq!(select_next(&images, &None), Ok("/w/a.jpg".to_string()));
    let b = Some("/w/b.png".to_string());
    assert_eq!(select_next(&images, &b), Ok("/w/c.jpeg".to_string()));
    let c = Some("/w/c.jpeg".to_string());
    assert_eq!(select_next(&images, &c), Ok("/w/a.jpg".to_string()));
    let deleted = Some("/w/deleted.jpg".to_string());
    assert_eq!(select_next(&images, &deleted), Ok("/w/a.jpg".to_string()));
}
