use bouedig::images::{image_extension, make_thumbnail, plan_image_storage, serve_image_check, thumbnail_of, THUMBNAIL_WIDTH};

fn encoded(width: u32, height: u32, format: image::ImageFormat) -> Vec<u8> {
    let img = image::DynamicImage::new_rgb8(width, height);
    let mut out = Vec::new();
    img.write_to(&mut std::io::Cursor::new(&mut out), format).unwrap();
    out
}

fn is_uuid(s: &str) -> bool {
    s.len() == 36 && s.chars().all(|c| c.is_ascii_digit() || ('a'..='f').contains(&c) || c == '-')
}

#[test]
fn png_upload_is_stored_under_a_fresh_name() {
    let png = encoded(8, 8, image::ImageFormat::Png);
    let p = plan_image_storage(&png).ok().unwrap();
    let id = p.image.strip_prefix("images/").unwrap().strip_suffix(".png").unwrap();
    assert!(is_uuid(id), "{id}");
    assert_eq!(p.thumb, format!("images/thumbs/{id}.jpg"));
    assert_eq!(serve_image_check(&p.image).ok().unwrap(), "image/png");
    assert_eq!(serve_image_check(&p.thumb).ok().unwrap(), "image/jpeg");
    let q = plan_image_storage(&png).ok().unwrap();
    assert_ne!(p.image, q.image);
}

#[test]
fn jpeg_upload_keeps_jpg_extension() {
    let jpeg = encoded(4, 4, image::ImageFormat::Jpeg);
    let p = plan_image_storage(&jpeg).ok().unwrap();
    assert!(p.image.starts_with("images/") && p.image.ends_with(".jpg"));
    assert!(p.thumb.starts_with("images/thumbs/") && p.thumb.ends_with(".jpg"));
}

#[test]
fn unknown_and_unsupported_formats_are_refused() {
    let e = plan_image_storage(b"hello world").err().unwrap();
    assert_eq!(e.status, 500);
    assert_eq!(e.message, "unknown image format (use JPEG, PNG or WebP)");
    assert!(e.json);
    let e = plan_image_storage(b"GIF89a\x01\x00\x01\x00").err().unwrap();
    assert_eq!(e.status, 500);
    assert_eq!(e.message, "unsupported image format: Gif");
}

#[test]
fn extension_by_format_name() {
    assert_eq!(image_extension(Some("Jpeg".to_owned())).ok().unwrap(), "jpg");
    assert_eq!(image_extension(Some("Png".to_owned())).ok().unwrap(), "png");
    assert_eq!(image_extension(Some("WebP".to_owned())).ok().unwrap(), "webp");
    let e = image_extension(Some("Bmp".to_owned())).err().unwrap();
    assert_eq!((e.status, e.message.as_str()), (500, "unsupported image format: Bmp"));
    let e = image_extension(None).err().unwrap();
    assert_eq!(e.message, "unknown image format (use JPEG, PNG or WebP)");
}

#[test]
fn serving_checks_paths_and_content_types() {
    assert_eq!(serve_image_check("images/a.jpeg").ok().unwrap(), "image/jpeg");
    assert_eq!(serve_image_check("images/a.webp").ok().unwrap(), "image/webp");
    assert_eq!(serve_image_check("images/a.avif").ok().unwrap(), "image/avif");
    assert_eq!(serve_image_check("images/readme").ok().unwrap(), "application/octet-stream");
    for bad in ["", "/etc/passwd", "images/../secret.png", ".."] {
        let e = serve_image_check(bad).err().unwrap();
        assert_eq!((e.status, e.message.as_str(), e.json), (404, "not found", false), "{bad}");
    }
    assert_eq!(serve_image_check("images/a.b.png").ok().unwrap(), "image/png");
}

#[test]
fn thumbnail_fits_the_width() {
    let png = encoded(960, 100, image::ImageFormat::Png);
    let thumb = make_thumbnail(&png).ok().unwrap();
    assert!(thumb.width <= THUMBNAIL_WIDTH);
    assert_eq!((thumb.width, thumb.height), (480, 50));
    assert_eq!((thumb.image.width(), thumb.image.height()), (480, 50));
    let small = make_thumbnail(&encoded(8, 8, image::ImageFormat::Png)).ok().unwrap();
    assert!(small.width <= 480);
    assert_eq!(small.width, small.image.width());
    let e = make_thumbnail(b"not an image").err().unwrap();
    assert_eq!((e.status, e.message.as_str()), (500, "failed to decode image"));
}

#[test]
fn thumbnail_of_each_decoding_outcome() {
    let t = thumbnail_of(Ok(image::DynamicImage::new_rgb8(1000, 500))).ok().unwrap();
    assert_eq!((t.width, t.height), (480, 240));
    let e = thumbnail_of(Err("bad".to_owned())).err().unwrap();
    assert_eq!((e.status, e.message.as_str(), e.json), (500, "failed to decode image", true));
}
