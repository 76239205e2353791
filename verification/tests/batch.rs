use hive::batch::{
    build_previews, expand_pattern, flag_conflicts, jpeg_quality, new_file_name, output_stem, sanitize, shrink_to,
    split_file_name, target_format, video_args, with_extension, TargetFormat,
};

#[test]
fn pattern_expands_every_token() {
    let name = expand_pattern("{date}-{name}-{n}", "IMG_2847", 7, Some("2024-06-15T10:00:00Z"));
    assert_eq!(name, "2024-06-15-IMG_2847-007");
}

#[test]
fn pattern_drops_illegal_characters() {
    assert_eq!(expand_pattern("hol/i:day", "x", 1, None), "holiday");
}

#[test]
fn pattern_never_yields_an_empty_name() {
    assert_eq!(expand_pattern("///", "IMG_1", 4, None), "IMG_1-004");
}

#[test]
fn undated_photos_get_a_placeholder_date() {
    assert_eq!(expand_pattern("{date}", "x", 1, None), "undated");
}

#[test]
fn previews_flag_duplicate_targets_inside_the_batch() {
    let rows: Vec<(String, String, String, Option<String>)> = vec![
        ("a".into(), "C:\\p\\one.jpg".into(), "one.jpg".into(), None),
        ("b".into(), "C:\\p\\two.jpg".into(), "two.jpg".into(), None),
    ];
    // A constant pattern maps both files onto the same name.
    let previews = build_previews(&rows, "same", 1, |path: &str| std::path::Path::new(path).exists());
    assert!(!previews[0].conflict);
    assert!(previews[1].conflict, "the second collision must be flagged");
}

#[test]
fn sanitizing_trims_spaces_then_dots() {
    assert_eq!(sanitize("  ..a<b>..  "), "ab");
    assert_eq!(sanitize(" . x . "), " x ");
    assert_eq!(sanitize("???"), "");
}

#[test]
fn a_short_or_split_capture_time_reads_as_undated() {
    assert_eq!(expand_pattern("{date}", "x", 1, Some("2024-06")), "undated");
    // Ten bytes would end inside the two-byte "é".
    assert_eq!(expand_pattern("{date}", "x", 1, Some("2024-06-1é")), "undated");
    assert_eq!(expand_pattern("{date}", "x", 1, Some("2024-06-15")), "2024-06-15");
}

#[test]
fn sequence_numbers_are_padded_to_three_digits() {
    assert_eq!(expand_pattern("{n}", "x", 0, None), "000");
    assert_eq!(expand_pattern("{n}", "x", 42, None), "042");
    assert_eq!(expand_pattern("{n}", "x", 1234, None), "1234");
    assert_eq!(expand_pattern("{n}", "x", -5, None), "-05");
}

#[test]
fn tokens_are_replaced_one_kind_after_another() {
    // `{name}` goes first, so a stem that spells a later token is expanded too.
    assert_eq!(expand_pattern("{name}", "{n}", 3, None), "003");
    assert_eq!(expand_pattern("a{name}b{name}", "x", 1, None), "axbx");
}

#[test]
fn file_names_split_at_the_last_dot() {
    assert_eq!(split_file_name("photo.final.jpg"), ("photo.final".to_string(), Some("jpg".to_string())));
    assert_eq!(split_file_name(".bashrc"), (".bashrc".to_string(), None));
    assert_eq!(split_file_name("README"), ("README".to_string(), None));
    assert_eq!(split_file_name("trailing."), ("trailing".to_string(), Some(String::new())));
}

#[test]
fn the_extension_is_carried_over() {
    let name = new_file_name("{name}-{n}", &Some("IMG_1.HEIC".to_string()), 2, None);
    assert_eq!(name, "IMG_1-002.HEIC");
    assert_eq!(new_file_name("x", &None, 1, None), "x");
}

#[test]
fn renaming_to_the_same_name_is_not_a_clash() {
    let rows: Vec<(String, String, String, Option<String>)> =
        vec![("a".into(), "/p/keep.jpg".into(), "keep.jpg".into(), None)];
    let previews = build_previews(&rows, "{name}", 1, |_: &str| true);
    assert_eq!(previews[0].to, "keep.jpg");
    assert!(!previews[0].conflict);
}

#[test]
fn a_target_already_on_disk_is_a_clash() {
    let rows: Vec<(String, String, String, Option<String>)> =
        vec![("a".into(), "/p/one.jpg".into(), "one.jpg".into(), Some("2024-01-02T00:00:00Z".into()))];
    let previews = build_previews(&rows, "{date}", 1, |path: &str| path == "/p/2024-01-02.jpg");
    assert_eq!(previews[0].media_id, "a");
    assert_eq!(previews[0].from, "one.jpg");
    assert_eq!(previews[0].to, "2024-01-02.jpg");
    assert!(previews[0].conflict);
}

#[test]
fn a_target_free_on_disk_is_claimed_once() {
    let changed = vec![true, true, false, true];
    let on_disk = vec![false, false, false, true];
    let targets = vec!["/x/a".to_string(), "/x/a".to_string(), "/x/a".to_string(), "/x/b".to_string()];
    assert_eq!(flag_conflicts(&changed, &on_disk, &targets), vec![false, true, false, true]);
}

#[test]
fn compression_settings_stay_in_range() {
    assert_eq!(jpeg_quality(0), 1);
    assert_eq!(jpeg_quality(85), 85);
    assert_eq!(jpeg_quality(200), 100);
    assert_eq!(shrink_to(Some(1000), 4000, 3000), Some(1000));
    assert_eq!(shrink_to(Some(5000), 4000, 3000), None);
    assert_eq!(shrink_to(Some(0), 4000, 3000), None);
    assert_eq!(shrink_to(None, 4000, 3000), None);
}

#[test]
fn copies_are_named_after_the_original_stem() {
    assert_eq!(output_stem("IMG_1.HEIC"), "IMG_1");
    assert_eq!(with_extension(&output_stem("holiday.png"), "jpg"), "holiday.jpg");
}

#[test]
fn conversion_targets_are_read_in_any_case() {
    assert_eq!(target_format("PNG"), Ok(TargetFormat::Png));
    assert_eq!(target_format("jpeg"), Ok(TargetFormat::Jpeg));
    assert_eq!(target_format("WebP").map(|f| f.extension()), Ok("webp"));
    assert_eq!(target_format("GIF"), Err("Unsupported target format: gif".to_string()));
}

#[test]
fn videos_are_reencoded_with_h264() {
    let args = video_args("in.mov", 10, Some(720), "out.mp4");
    assert_eq!(
        args,
        [
            "-y", "-i", "in.mov", "-c:v", "libx264", "-crf", "16", "-preset", "medium", "-c:a", "aac", "-b:a",
            "128k", "-vf", "scale=-2:min(720\\,ih)", "out.mp4"
        ]
    );
    assert_eq!(video_args("in.mov", 28, Some(0), "o.mp4").len(), 14);
    assert_eq!(video_args("in.mov", 99, None, "o.mp4")[6], "40");
}
