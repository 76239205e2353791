use hive::thumbnails::{thumbnail_dir, thumbnail_file_name, thumbnail_sizes};

#[test]
fn thumbnails_live_under_the_app_data() {
    let expected = std::path::Path::new("/data/hive").join("thumbnails");
    assert_eq!(thumbnail_dir("/data/hive"), expected.to_string_lossy());
}

#[test]
fn each_size_has_its_own_file() {
    assert_eq!(thumbnail_sizes(), vec![("sm", 240), ("md", 800)]);
    assert_eq!(thumbnail_file_name("abc", "sm"), "abc_sm.jpg");
}
