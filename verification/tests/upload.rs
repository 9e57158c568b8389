use thumb_queue::upload::{accept_upload, fresh_file_name, is_allowed_extension, is_image_content_type};

#[test]
fn allowed_extensions_ignore_ascii_case() {
    for good in ["jpg", "JPG", "jpeg", "png", "PnG", "gif", "bmp", "WebP"] {
        assert!(is_allowed_extension(good), "{good} should be allowed");
    }
    for bad in ["txt", "bin", "exe", "", "jpg ", "svg", "jp"] {
        assert!(!is_allowed_extension(bad), "{bad} should be refused");
    }
}

#[test]
fn content_type_must_name_an_image() {
    assert!(is_image_content_type("image/png"));
    assert!(is_image_content_type("image/"));
    assert!(!is_image_content_type("application/octet-stream"));
    assert!(!is_image_content_type("imag"));
    assert!(!is_image_content_type("text/image"));
}

#[test]
fn upload_acceptance_needs_both_checks() {
    assert!(accept_upload("image/png", "png"));
    assert!(!accept_upload("image/png", "txt"));
    assert!(!accept_upload("text/plain", "png"));
}

#[test]
fn fresh_names_carry_the_extension_after_a_random_tag() {
    let name = fresh_file_name("png");
    assert_eq!(name.len(), 20);
    assert!(name.ends_with(".png"));
    let tag = &name[..16];
    assert!(tag.chars().all(|c| c.is_ascii_alphanumeric()));
}

#[test]
fn fresh_names_resist_collisions() {
    let a = fresh_file_name("jpg");
    let b = fresh_file_name("jpg");
    assert_ne!(a, b);
}
