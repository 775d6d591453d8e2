//! Requests for pictures, and paths.

use nai_gallery::paths::{content_type, is_png_name, is_png_path, reads_backslash};
use nai_gallery::scanner::thumb_name;
use nai_gallery::serve::{image_id, thumb_id};

#[test]
fn thumb_names_lead_back() {
    for id in [0, 7, -12, 1_234_567, i64::MAX, i64::MIN] {
        let path = format!("/{}", thumb_name(id));
        assert_eq!(thumb_id(&path), Some(id));
    }
    assert_eq!(thumb_name(42), "42.jpg");
    assert_eq!(thumb_name(i64::MIN), "-9223372036854775808.jpg");
}

#[test]
fn picture_numbers_are_read() {
    assert_eq!(thumb_id("//15"), Some(15));
    assert_eq!(thumb_id("15.jpg.jpg"), Some(15));
    assert_eq!(thumb_id("/+8.jpg"), Some(8));
    assert_eq!(thumb_id("/.jpg"), None);
    assert_eq!(thumb_id("/15.jpeg"), None);
    assert_eq!(thumb_id(""), None);
    assert_eq!(image_id("/99"), Some(99));
    assert_eq!(image_id("/99.jpg"), None);
    assert_eq!(image_id("/9/9"), None);
    assert_eq!(image_id("/-"), None);
    assert_eq!(image_id("/ 1"), None);
    assert_eq!(image_id("9223372036854775808"), None);
    assert_eq!(image_id("-9223372036854775808"), Some(i64::MIN));
}

#[test]
fn png_files_are_told_by_their_extension() {
    assert!(is_png_path("a.png"));
    assert!(is_png_path("pics/2026/a b.PnG"));
    assert!(!is_png_path("pics/a.jpg"));
    assert!(!is_png_path(".png"));
    assert!(!is_png_path("png"));
    assert!(!is_png_path("pics.png/a"));
    assert!(!is_png_path(".."));
    // whether or not a backslash separates
    assert!(is_png_path("D:\\g\\1.png"));
    assert!(is_png_path("D:1.PNG"));
    assert!(!is_png_path("D:\\g\\1.jpg"));
    assert!(!is_png_path("D:\\g.png\\1"));
    assert_eq!(is_png_path("g\\.png"), !reads_backslash());
    assert!(!is_png_name(&None));
    assert!(is_png_name(&Some("..png".to_string())));
    assert!(!is_png_name(&Some("a.png.tmp".to_string())));
    assert_eq!(content_type(is_png_path("x.PNG")), "image/png");
    assert_eq!(content_type(is_png_path("7.jpg")), "image/jpeg");
}

#[test]
fn backslashes_separate_where_std_says_so() {
    assert_eq!(reads_backslash(), std::path::is_separator('\\'));
}
