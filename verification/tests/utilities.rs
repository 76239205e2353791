use hive::utilities::unique_destination;
use std::path::Path;

fn at(dir: &str, name: &str) -> String {
    Path::new(dir).join(name).to_string_lossy().into_owned()
}

#[test]
fn a_free_name_is_used_as_is() {
    assert_eq!(unique_destination("/out", "a.jpg", |_: &str| false), Some(at("/out", "a.jpg")));
}

#[test]
fn a_taken_name_gets_a_number_before_the_extension() {
    let taken = [at("/out", "a.jpg"), at("/out", "a (2).jpg")];
    let chosen = unique_destination("/out", "a.jpg", |p: &str| taken.iter().any(|t| t == p));
    assert_eq!(chosen, Some(at("/out", "a (3).jpg")));

    let chosen = unique_destination("/out", "notes", |p: &str| p == at("/out", "notes"));
    assert_eq!(chosen, Some(at("/out", "notes (2)")));
}

#[test]
fn when_everything_is_taken_no_colliding_name_comes_back() {
    assert_eq!(unique_destination("/out", "a.jpg", |_: &str| true), None);
    let free = at("/out", "a (9999).jpg");
    assert_eq!(unique_destination("/out", "a.jpg", |p: &str| p != free), Some(free.clone()));
}
