use moot::media::{plan_upload, upload_plan, UploadRejection, MAX_UPLOAD_BYTES};

const ABC: &str = "ba7816bf8f01cfea414140de5dae2223b00361a396177a9cb410ff61f20015ad";

#[test]
fn upload_named_by_content_hash() {
    let (name, url) = plan_upload(b"abc", "photo.png").unwrap();
    assert_eq!(name, format!("{}.png", ABC));
    assert_eq!(url, format!("/static/uploads/{}.png", ABC));
}

#[test]
fn upload_extension_rules() {
    assert_eq!(plan_upload(b"abc", "image").unwrap().0, format!("{}.bin", ABC));
    assert_eq!(plan_upload(b"abc", ".hidden").unwrap().0, format!("{}.bin", ABC));
    assert_eq!(plan_upload(b"abc", "a.tar.gz").unwrap().0, format!("{}.gz", ABC));
}

#[test]
fn upload_size_limit() {
    let at_limit = vec![0u8; MAX_UPLOAD_BYTES];
    assert!(plan_upload(&at_limit, "x.bin").is_ok());
    let over = vec![0u8; MAX_UPLOAD_BYTES + 1];
    assert_eq!(plan_upload(&over, "x.bin"), Err(UploadRejection::TooLarge));
    assert_eq!(UploadRejection::TooLarge.message(), "File too large (max 10MB)");
}

#[test]
fn upload_plan_from_extension() {
    let (name, url) = upload_plan(b"abc", Some("jpg".to_string())).unwrap();
    assert_eq!(name, format!("{}.jpg", ABC));
    assert_eq!(url, format!("/static/uploads/{}.jpg", ABC));
    assert_eq!(upload_plan(b"abc", None).unwrap().0, format!("{}.bin", ABC));
    let over = vec![1u8; MAX_UPLOAD_BYTES + 1];
    assert_eq!(upload_plan(&over, None), Err(UploadRejection::TooLarge));
}
