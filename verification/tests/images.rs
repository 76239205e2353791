use hive::batch::TargetFormat;
use hive::images::{compressed_copy, converted_copy, ImageCopy};
use hive::thumbnails::{frame_attempts, thumbnails_for, ThumbnailSet};

fn png_bytes(width: u32, height: u32) -> Vec<u8> {
    let img = image::RgbaImage::from_fn(width, height, |x, y| image::Rgba([(x % 256) as u8, (y % 256) as u8, 90, 128]));
    let mut out = std::io::Cursor::new(Vec::new());
    img.write_to(&mut out, image::ImageFormat::Png).unwrap();
    out.into_inner()
}

fn decoded(bytes: &[u8], format: image::ImageFormat) -> image::DynamicImage {
    image::load_from_memory_with_format(bytes, format).unwrap()
}

#[test]
fn a_compressed_copy_is_a_jpeg_shrunk_to_the_limit() {
    let ImageCopy::Written(jpeg) = compressed_copy(&png_bytes(400, 200), "PNG", 80, Some(100)) else {
        panic!("no copy")
    };
    let copy = decoded(&jpeg, image::ImageFormat::Jpeg);
    assert_eq!((copy.width(), copy.height()), (100, 50));
}

#[test]
fn a_photo_inside_the_limit_keeps_its_size() {
    let ImageCopy::Written(jpeg) = compressed_copy(&png_bytes(40, 20), "png", 0, Some(100)) else { panic!("no copy") };
    let copy = decoded(&jpeg, image::ImageFormat::Jpeg);
    assert_eq!((copy.width(), copy.height()), (40, 20));
}

#[test]
fn bytes_that_do_not_decode_are_skipped() {
    assert!(matches!(compressed_copy(b"not an image", "png", 80, None), ImageCopy::Unreadable));
    assert!(matches!(compressed_copy(&png_bytes(4, 4), "txt", 80, None), ImageCopy::Unreadable));
    assert!(matches!(converted_copy(b"not an image", "jpg", TargetFormat::Png), ImageCopy::Unreadable));
}

#[test]
fn a_transparent_photo_is_flattened_for_jpeg_and_kept_for_png() {
    let source = png_bytes(8, 6);
    let ImageCopy::Written(jpeg) = converted_copy(&source, "png", TargetFormat::Jpeg) else { panic!("no jpeg") };
    let as_jpeg = decoded(&jpeg, image::ImageFormat::Jpeg);
    assert_eq!((as_jpeg.width(), as_jpeg.height()), (8, 6));
    assert!(!as_jpeg.color().has_alpha());
    let ImageCopy::Written(png) = converted_copy(&source, "png", TargetFormat::Png) else { panic!("no png") };
    assert!(decoded(&png, image::ImageFormat::Png).color().has_alpha());
}

#[test]
fn a_photo_gets_a_small_and_a_medium_thumbnail() {
    let ThumbnailSet::Made(thumbnails) = thumbnails_for("m1", &png_bytes(1600, 1000), "png") else {
        panic!("no thumbnails")
    };
    assert_eq!(thumbnails.len(), 2);
    assert_eq!((thumbnails[0].label, thumbnails[0].file_name.as_str()), ("sm", "m1_sm.jpg"));
    assert_eq!((thumbnails[1].label, thumbnails[1].file_name.as_str()), ("md", "m1_md.jpg"));
    let small = decoded(&thumbnails[0].jpeg, image::ImageFormat::Jpeg);
    let medium = decoded(&thumbnails[1].jpeg, image::ImageFormat::Jpeg);
    assert_eq!((small.width(), small.height()), (240, 150));
    assert_eq!((medium.width(), medium.height()), (800, 500));
    assert!(matches!(thumbnails_for("m2", b"garbage", "jpg"), ThumbnailSet::Unreadable));
}

#[test]
fn a_video_frame_is_tried_one_second_in_then_at_the_start() {
    let attempts = frame_attempts("/v/clip.mp4", "/tmp/frame.jpg");
    assert_eq!(
        attempts[0],
        ["-y", "-ss", "00:00:01", "-i", "/v/clip.mp4", "-frames:v", "1", "-q:v", "3", "/tmp/frame.jpg"]
    );
    assert_eq!(attempts[1], ["-y", "-i", "/v/clip.mp4", "-frames:v", "1", "-q:v", "3", "/tmp/frame.jpg"]);
}
