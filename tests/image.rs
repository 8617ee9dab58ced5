use image_viewer::image::{check_type, data_uri, get_image_base64, is_supported_mime, ImageError};

const PNG_SIGNATURE: [u8; 8] = [0x89, 0x50, 0x4E, 0x47, 0x0D, 0x0A, 0x1A, 0x0A];

#[test]
fn png_content_loads_as_data_uri() {
    let r = get_image_base64(Ok(PNG_SIGNATURE.to_vec()));
    assert_eq!(r, Ok("data:image/png;base64,iVBORw0KGgo=".to_string()));
}

#[test]
fn jpeg_content_loads_as_data_uri() {
    let r = get_image_base64(Ok(vec![0xFF, 0xD8, 0xFF, 0xE0]));
    assert_eq!(r, Ok("data:image/jpeg;base64,/9j/4A==".to_string()));
}

#[test]
fn gif_content_loads_as_data_uri() {
    let r = get_image_base64(Ok(b"GIF89a".to_vec()));
    assert_eq!(r, Ok("data:image/gif;base64,R0lGODlh".to_string()));
}

#[test]
fn text_content_is_unsupported() {
    let r = get_image_base64(Ok(b"hello world\n".to_vec()));
    assert_eq!(r, Err(ImageError::UnsupportedFormat(None)));
}

#[test]
fn recognised_but_unsupported_type_is_named() {
    let mut bmp = b"BM".to_vec();
    bmp.extend_from_slice(&[0u8; 30]);
    let r = get_image_base64(Ok(bmp));
    assert_eq!(r, Err(ImageError::UnsupportedFormat(Some("image/bmp".to_string()))));
}

#[test]
fn failed_read_is_a_read_error() {
    let r = get_image_base64(Err("No such file or directory (os error 2)".to_string()));
    assert_eq!(r, Err(ImageError::Read("No such file or directory (os error 2)".to_string())));
}

#[test]
fn empty_content_is_unsupported() {
    assert_eq!(get_image_base64(Ok(Vec::new())), Err(ImageError::UnsupportedFormat(None)));
}

#[test]
fn supported_types() {
    for m in ["image/jpeg", "image/png", "image/gif", "image/webp"] {
        assert!(is_supported_mime(m));
    }
    for m in ["image/bmp", "image/PNG", "", "text/plain"] {
        assert!(!is_supported_mime(m));
    }
}

#[test]
fn check_type_outcomes() {
    assert_eq!(check_type(Some("image/webp".to_string())), Ok("image/webp".to_string()));
    assert_eq!(
        check_type(Some("image/tiff".to_string())),
        Err(ImageError::UnsupportedFormat(Some("image/tiff".to_string())))
    );
    assert_eq!(check_type(None), Err(ImageError::UnsupportedFormat(None)));
}

#[test]
fn data_uri_layout() {
    assert_eq!(data_uri("image/png", "AAAA"), "data:image/png;base64,AAAA");
    assert_eq!(data_uri("image/gif", ""), "data:image/gif;base64,");
}
