use rubber_duck::images::{image_bytes, image_content_type, image_request_path};

#[test]
fn data_url_prefix_is_stripped() {
    assert_eq!(image_bytes("data:image/png;base64,aGVsbG8=").unwrap(), b"hello".to_vec());
    assert_eq!(image_bytes("aGVsbG8=").unwrap(), b"hello".to_vec());
}

#[test]
fn invalid_base64_is_reported() {
    let e = image_bytes("data:image/png;base64,@@@").unwrap_err();
    assert!(e.starts_with("Invalid base64: "));
}

#[test]
fn request_path_is_decoded_without_leading_slash() {
    assert_eq!(image_request_path("/home/u/images/s%201/a.png"), "home/u/images/s 1/a.png");
    assert_eq!(image_request_path("x%2"), "x%2");
    assert_eq!(image_request_path("%41%62"), "Ab");
}

#[test]
fn content_type_by_extension() {
    assert_eq!(image_content_type("/a/b.png"), "image/png");
    assert_eq!(image_content_type("/a/b.jpg"), "image/jpeg");
    assert_eq!(image_content_type("/a/b.jpeg"), "image/jpeg");
    assert_eq!(image_content_type("/a/b.gif"), "image/gif");
    assert_eq!(image_content_type("/a/b.webp"), "image/webp");
    assert_eq!(image_content_type("/a/b.PNG"), "application/octet-stream");
    assert_eq!(image_content_type("/a/b"), "application/octet-stream");
}
