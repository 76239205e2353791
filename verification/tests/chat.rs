use hive::chat::{format_context, user_prompt, ContextRow};

fn row(filename: &str, taken_at: Option<&str>, camera: Option<&str>, ocr: Option<&str>) -> ContextRow {
    ContextRow {
        filename: filename.to_string(),
        taken_at: taken_at.map(str::to_string),
        camera_model: camera.map(str::to_string),
        ocr_text: ocr.map(str::to_string),
    }
}

#[test]
fn an_empty_result_says_so() {
    assert_eq!(format_context(&vec![]), "(no matching photos were found in the library)");
}

#[test]
fn each_photo_is_one_numbered_line() {
    let rows = vec![
        row("a.jpg", Some("2024-06-15"), Some("X100V"), None),
        row("b.jpg", None, None, Some("  OPEN 9-5  ")),
        row("c.jpg", None, None, Some("   ")),
    ];
    assert_eq!(
        format_context(&rows),
        "1. a.jpg (taken 2024-06-15, X100V)\n\
         2. b.jpg (taken unknown date, unknown camera) — visible text: \"OPEN 9-5\"\n\
         3. c.jpg (taken unknown date, unknown camera)"
    );
}

#[test]
fn long_text_is_cut_to_two_hundred_characters() {
    let text = "x".repeat(250);
    let out = format_context(&vec![row("a.jpg", None, None, Some(&text))]);
    assert!(out.ends_with(&format!("\"{}\"", "x".repeat(200))), "{out}");
}

#[test]
fn the_question_follows_the_photos() {
    assert_eq!(
        user_prompt("1. a.jpg", "where?"),
        "Photos found for this question:\n1. a.jpg\n\nQuestion: where?"
    );
}
