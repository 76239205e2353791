use hive::ai_editor::{
    background_step, editor_tool, generation_steps, next_steps, paint_label, preview_size, selection_key, EditorTool,
};
use hive::best_photo::placeholders;
use hive::db::{add_column_sql, column_missing, table_info_sql};
use hive::faces::crop_dir;
use hive::inpaint::feather_distance;
use hive::media::fts_query;
use hive::quality::laplacian_moments;
use hive::segment::used_size;

#[test]
fn editor_tools_are_named_plainly() {
    assert_eq!(editor_tool("cutout"), Ok(EditorTool::Cutout));
    assert_eq!(editor_tool("generate"), Ok(EditorTool::Generate));
    assert_eq!(editor_tool("blur"), Err("Unknown editor tool: blur".to_string()));
}

#[test]
fn steps_stack_only_on_the_same_photo() {
    let waiting = Some(("a".to_string(), vec!["Enlarged ×4".to_string()]));
    assert_eq!(next_steps(waiting.clone(), "a", "Object erased"), ["Enlarged ×4", "Object erased"]);
    assert_eq!(next_steps(waiting, "b", "Object erased"), ["Object erased"]);
    assert_eq!(next_steps(None, "a", "x"), ["x"]);
}

#[test]
fn a_selection_is_keyed_by_the_pixels_it_saw() {
    assert_eq!(selection_key("a", None), "a");
    assert_eq!(selection_key("a", Some(("a", 2))), "a#2");
    assert_eq!(selection_key("a", Some(("b", 2))), "a");
}

#[test]
fn generation_labels_and_settings() {
    assert_eq!(generation_steps(None), 25);
    assert_eq!(generation_steps(Some(1)), 4);
    assert_eq!(generation_steps(Some(99)), 50);
    assert_eq!(paint_label("  a red boat "), "Painted “a red boat”");
    assert_eq!(
        paint_label("a very long description of a scene by the sea"),
        "Painted “a very long description of a…”"
    );
    assert_eq!(background_step(true), "Background replaced");
    assert_eq!(background_step(false), "Background removed");
}

#[test]
fn previews_are_shrunk_to_sixteen_hundred() {
    assert_eq!(preview_size(7524, 3412), (1600, 726));
    assert_eq!(preview_size(800, 600), (800, 600));
    assert_eq!(preview_size(1000, 4000), (400, 1600));
}

#[test]
fn search_words_become_prefixes() {
    assert_eq!(fts_query("  beach  sunset "), Some("beach* sunset*".to_string()));
    assert_eq!(fts_query("\"paris\""), Some("paris*".to_string()));
    assert_eq!(fts_query("a \" b"), Some("a* * b*".to_string()));
    assert_eq!(fts_query("   "), None);
}

#[test]
fn a_flat_image_has_no_variance() {
    let (n, sum, squares) = laplacian_moments(&vec![128u8; 32 * 32], 32, 32);
    assert_eq!(n, 30 * 30);
    assert_eq!((sum, squares), (0, 0));
}

#[test]
fn images_too_small_to_have_a_neighbourhood_score_zero() {
    assert_eq!(laplacian_moments(&vec![200u8; 4], 2, 2), (0, 0, 0));
}

#[test]
fn a_single_bright_pixel_swings_the_laplacian() {
    let mut pixels = vec![0u8; 9];
    pixels[4] = 10;
    // Only the centre has a full neighbourhood: -4 × 10.
    assert_eq!(laplacian_moments(&pixels, 3, 3), (1, -40, 1600));
}

#[test]
fn sharp_edges_score_far_above_soft_ones() {
    let checkerboard: Vec<u8> =
        (0..64 * 64).map(|i| if ((i % 64) / 8 + (i / 64) / 8) % 2 == 0 { 255 } else { 0 }).collect();
    let soft: Vec<u8> = (0..64 * 64).map(|i| ((i % 64) * 4) as u8).collect();
    let variance = |(n, s, q): (i64, i64, i64)| {
        let (n, s, q) = (n as f64, s as f64, q as f64);
        q / n - (s / n) * (s / n)
    };
    let sharp = variance(laplacian_moments(&checkerboard, 64, 64));
    let blurred = variance(laplacian_moments(&soft, 64, 64));
    assert!(sharp > blurred * 5.0, "sharp {sharp} should dwarf soft {blurred}");
    assert!(sharp > 100.0);
}

#[test]
fn the_selection_square_is_filled_along_the_longest_edge() {
    assert_eq!(used_size(2000, 1000), (1024, 512));
    assert_eq!(used_size(1000, 2000), (512, 1024));
    assert_eq!(used_size(200, 100), (1024, 512));
    assert_eq!(used_size(0, 0), (1024, 1024));
}

#[test]
fn the_feather_reaches_exactly_as_far_as_it_claims() {
    let mut mask = vec![0u8; 20 * 20];
    for y in 8..12 {
        for x in 8..12 {
            mask[y * 20 + x] = 255;
        }
    }
    assert_eq!(feather_distance(&mask, 20, 20, 9, 9), 0);
    assert_eq!(feather_distance(&mask, 20, 20, 7, 9), 1);
    assert_eq!(feather_distance(&mask, 20, 20, 8 - 3, 9), 3);
    assert_eq!(feather_distance(&mask, 20, 20, 8 - 4, 9), 4);
    assert_eq!(feather_distance(&mask, 20, 20, 2, 2), 4);
}

#[test]
fn schema_upkeep_statements() {
    assert_eq!(table_info_sql("media_items"), "PRAGMA table_info(media_items)");
    assert_eq!(add_column_sql("media_items", "phash", "TEXT"), "ALTER TABLE media_items ADD COLUMN phash TEXT");
    let existing = vec!["id".to_string(), "path".to_string()];
    assert!(column_missing(&existing, "phash"));
    assert!(!column_missing(&existing, "path"));
}

#[test]
fn placeholder_lists_and_crop_folder() {
    assert_eq!(placeholders(3), "?,?,?");
    assert_eq!(placeholders(0), "");
    assert_eq!(crop_dir("/data"), std::path::Path::new("/data").join("face_crops").to_string_lossy());
}

#[test]
fn a_landscape_photo_is_scaled_by_its_longest_edge() {
    let (used_w, used_h) = used_size(2000, 1000);
    assert_eq!(used_w, hive::segment::SIDE);
    assert_eq!(used_h, hive::segment::SIDE / 2);
}

#[test]
fn a_portrait_photo_is_scaled_by_its_longest_edge_too() {
    let (used_w, used_h) = used_size(1000, 2000);
    assert_eq!(used_w, hive::segment::SIDE / 2);
    assert_eq!(used_h, hive::segment::SIDE);
}

#[test]
fn a_small_photo_is_scaled_up_rather_than_left_in_a_corner() {
    let (used_w, _) = used_size(200, 100);
    assert_eq!(used_w, hive::segment::SIDE);
    assert!(used_w > 200);
}

#[test]
fn the_edge_fades_rather_than_stepping() {
    let mut mask = vec![0u8; 20 * 20];
    for y in 8..12 {
        for x in 8..12 {
            mask[y * 20 + x] = 255;
        }
    }
    let weight = |x: u32, y: u32| {
        1.0 - feather_distance(&mask, 20, 20, x, y) as f32 / (hive::inpaint::FEATHER as f32 + 1.0)
    };
    let edge = weight(7, 9);
    assert!(edge > 0.0 && edge < 1.0, "got {edge}");
    assert_eq!(weight(2, 2), 0.0);
}

#[test]
fn a_sharp_photo_clears_the_default_threshold() {
    let checkerboard: Vec<u8> =
        (0..64 * 64).map(|i| if ((i % 64) / 8 + (i / 64) / 8) % 2 == 0 { 255 } else { 0 }).collect();
    let (n, s, q) = laplacian_moments(&checkerboard, 64, 64);
    let (n, s, q) = (n as f64, s as f64, q as f64);
    assert!(q / n - (s / n) * (s / n) > 100.0);
}

#[test]
fn labels_trim_exactly_what_std_calls_white_space() {
    for code in 0u32..0x4000 {
        let Some(c) = char::from_u32(code) else { continue };
        let label = paint_label(&format!("{c}x{c}"));
        if c.is_whitespace() {
            assert_eq!(label, "Painted “x”", "U+{code:04X}");
        } else {
            assert_ne!(label, "Painted “x”", "U+{code:04X}");
        }
    }
}

#[test]
fn an_erase_is_checked_before_any_model_runs() {
    let mut mask = vec![0u8; 3 * 2];
    assert_eq!(
        hive::inpaint::check_erase((3, 2), &mask, (2, 3)),
        Err("mask is (2, 3) but the photo is (3, 2)".to_string())
    );
    assert_eq!(hive::inpaint::check_erase((3, 2), &mask, (3, 2)), Err("nothing was marked for removal".to_string()));
    mask[4] = 127;
    assert_eq!(hive::inpaint::check_erase((3, 2), &mask, (3, 2)), Ok(()));
}

#[test]
fn a_selection_needs_a_point() {
    assert_eq!(hive::segment::check_points(0), Err("no point was given to select from".to_string()));
    assert_eq!(hive::segment::check_points(2), Ok(()));
}
