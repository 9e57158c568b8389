use thumb_queue::ImagePostUploadJob;

fn job(file_name: &str) -> ImagePostUploadJob {
    ImagePostUploadJob {
        id: 1,
        file_name: file_name.to_string(),
        dir: "uploads".to_string(),
    }
}

#[test]
fn thumbnail_name_inserts_the_suffix_before_the_extension() {
    assert_eq!(job("abc.png").thumbnail_file_name(), "abc_thumb.png");
    assert_eq!(job("def.jpg").thumbnail_file_name(), "def_thumb.jpg");
}

#[test]
fn thumbnail_name_uses_the_last_extension() {
    assert_eq!(job("archive.tar.gz").thumbnail_file_name(), "archive.tar_thumb.gz");
}

#[test]
fn thumbnail_name_defaults_without_an_extension() {
    assert_eq!(job("noext").thumbnail_file_name(), "noext_thumb.jpg");
    assert_eq!(job(".bashrc").thumbnail_file_name(), ".bashrc_thumb.jpg");
    assert_eq!(job("").thumbnail_file_name(), "thumb_thumb.jpg");
}

#[test]
fn extension_is_read_after_the_last_dot() {
    assert_eq!(thumb_queue::job::extension_of("photo.jpeg"), Some("jpeg".to_string()));
    assert_eq!(thumb_queue::job::extension_of("archive.tar.gz"), Some("gz".to_string()));
    assert_eq!(thumb_queue::job::extension_of("noext"), None);
    assert_eq!(thumb_queue::job::extension_of(".bashrc"), None);
    assert_eq!(thumb_queue::job::extension_of("a."), Some("".to_string()));
}

#[test]
fn thumbnail_computation_fits_the_bounding_box() {
    // the collaborator the worker invokes: a 200x200 bound, aspect preserved
    let img = image::DynamicImage::new_rgb8(400, 300);
    let thumb = img.thumbnail(200, 200);
    assert!(thumb.width() <= 200 && thumb.height() <= 200);
    assert_eq!((thumb.width(), thumb.height()), (200, 150));
}

#[test]
fn paths_sit_under_the_storage_dir() {
    let j = job("abc.png");
    assert_eq!(j.source_path(), "uploads/abc.png");
    assert_eq!(j.thumbnail_dir(), "uploads/thumbnails");
    assert_eq!(j.thumbnail_path(), "uploads/thumbnails/abc_thumb.png");
}
