use hive::batch::{target_format, TargetFormat};
use hive::indexing::{index_plan, is_supported_media, normalize_exif_date};

#[test]
fn images_and_videos_are_told_apart_by_extension() {
    assert_eq!(is_supported_media("/p/a.jpg"), Some("image"));
    assert_eq!(is_supported_media("/p/a.JPEG"), Some("image"));
    assert_eq!(is_supported_media("/p/a.tif"), Some("image"));
    assert_eq!(is_supported_media("/p/clip.MOV"), Some("video"));
    assert_eq!(is_supported_media("/p/clip.webm"), Some("video"));
}

#[test]
fn anything_else_is_not_indexed() {
    assert_eq!(is_supported_media("/p/notes.txt"), None);
    assert_eq!(is_supported_media("/p/README"), None);
    assert_eq!(is_supported_media("/p/.jpg"), None);
    assert_eq!(is_supported_media("/p/.."), None);
}

#[test]
fn lowercasing_is_unicode_aware() {
    assert_eq!(target_format("JPG"), Ok(TargetFormat::Jpeg));
    assert_eq!(target_format("ÉTÉ"), Err("Unsupported target format: été".to_string()));
}

#[test]
fn exif_dates_become_iso_like() {
    assert_eq!(normalize_exif_date("2024:06:15 10:30:00"), "2024-06-15 10:30:00");
    assert_eq!(normalize_exif_date("2024"), "2024");
}


const ABC_SHA256: &str = "ba7816bf8f01cfea414140de5dae2223b00361a396177a9cb410ff61f20015ad";

fn png_bytes() -> Vec<u8> {
    let img = image::RgbImage::from_fn(16, 16, |x, y| image::Rgb([(x * 16) as u8, (y * 16) as u8, 128]));
    let mut out = std::io::Cursor::new(Vec::new());
    img.write_to(&mut out, image::ImageFormat::Png).unwrap();
    out.into_inner()
}

#[test]
fn a_new_photo_is_planned_with_its_hash_and_type() {
    let bytes = png_bytes();
    let plan = index_plan("/p/a.png", &bytes, None).unwrap();
    assert_eq!(plan.media_type, "image");
    assert_eq!(plan.hash.len(), 64);
    assert_eq!(plan.mime_type, "image/png");
    assert_eq!(plan.taken_at, None);
    assert!(plan.phash.is_some());
}

#[test]
fn the_hash_is_sha256_in_hex() {
    let plan = index_plan("/p/clip.mp4", b"abc", None).unwrap();
    assert_eq!(plan.hash, ABC_SHA256);
    assert_eq!(plan.media_type, "video");
    assert_eq!(plan.mime_type, "video/mp4");
    assert_eq!((plan.taken_at, plan.phash), (None, None));
}

#[test]
fn an_unchanged_file_is_skipped_and_a_changed_one_is_not() {
    assert!(index_plan("/p/clip.mp4", b"abc", Some(ABC_SHA256)).is_none());
    assert!(index_plan("/p/clip.mp4", b"abd", Some(ABC_SHA256)).is_some());
}

#[test]
fn other_files_are_not_indexed() {
    assert!(index_plan("/p/notes.txt", b"abc", None).is_none());
}

#[test]
fn bytes_that_are_not_an_image_get_no_perceptual_hash() {
    let plan = index_plan("/p/a.jpg", b"not a picture", None).unwrap();
    assert_eq!(plan.mime_type, "image/jpeg");
    assert_eq!(plan.phash, None);
    assert_eq!(plan.taken_at, None);
}

/// A TIFF holding only a camera make and a capture date.
fn tiff_with_exif() -> Vec<u8> {
    let mut bytes = vec![0x49, 0x49, 0x2A, 0x00, 0x08, 0x00, 0x00, 0x00, 0x02, 0x00];
    bytes.extend([0x0F, 0x01, 0x02, 0x00, 0x04, 0x00, 0x00, 0x00, b'A', b'b', b'c', 0x00]);
    bytes.extend([0x32, 0x01, 0x02, 0x00, 0x14, 0x00, 0x00, 0x00, 0x26, 0x00, 0x00, 0x00]);
    bytes.extend([0x00, 0x00, 0x00, 0x00]);
    bytes.extend(b"2024:06:15 10:30:00\0");
    bytes
}

#[test]
fn a_photo_carries_what_its_exif_block_says() {
    let plan = index_plan("/p/scan.tif", &tiff_with_exif(), None).unwrap();
    assert_eq!(plan.taken_at.as_deref(), Some("2024-06-15 10:30:00"));
    let exif = plan.exif.unwrap();
    assert!(exif.camera_make.unwrap().contains("Abc"));
    assert_eq!(exif.camera_model, None);
    // A video is not read for EXIF, whatever its bytes hold.
    let video = index_plan("/p/scan.mp4", &tiff_with_exif(), None).unwrap();
    assert!(video.exif.is_none() && video.taken_at.is_none());
}

#[test]
fn the_capture_date_falls_back_to_the_file_date() {
    let exif = |original: Option<&[u8]>, changed: Option<&[u8]>| hive::indexing::ExifText {
        camera_make: None,
        camera_model: None,
        lens: None,
        exposure_time: None,
        iso: None,
        date_original: original.map(|b| b.to_vec()),
        date_time: changed.map(|b| b.to_vec()),
    };
    let both = exif(Some(b"2024:06:15 10:30:00"), Some(b"2025:01:02 03:04:05"));
    assert_eq!(hive::indexing::capture_date_of(&both).as_deref(), Some("2024-06-15 10:30:00"));
    let only_changed = exif(None, Some(b"2025:01:02 03:04:05"));
    assert_eq!(hive::indexing::capture_date_of(&only_changed).as_deref(), Some("2025-01-02 03:04:05"));
    assert_eq!(hive::indexing::capture_date_of(&exif(None, None)), None);
}
