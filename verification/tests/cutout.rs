use hive::cutout::Subject;

#[test]
fn a_face_in_the_frame_picks_the_portrait_model() {
    assert_eq!(Subject::for_face_count(1), Subject::Portrait);
    assert_eq!(Subject::for_face_count(0), Subject::General);
}

#[test]
fn any_number_of_faces_is_a_portrait_and_none_is_not() {
    assert_eq!(Subject::for_face_count(3), Subject::Portrait);
    assert_eq!(Subject::for_face_count(-1), Subject::General);
}

#[test]
fn an_enlarged_photo_is_refused_before_it_becomes_a_problem() {
    // Enlarging 1881×853 fourfold and then cutting out is two clicks away,
    // and lands on 25 megapixels.
    let error = hive::cutout::check_size(7524, 3412).unwrap_err();
    assert!(error.contains("7524×3412"), "{error}");
    assert!(error.contains("enlarge the result"), "{error}");

    // A normal 12-megapixel photo goes straight through.
    assert!(hive::cutout::check_size(4000, 3000).is_ok());
}

#[test]
fn a_matte_becomes_the_alpha_channel() {
    let source = vec![10, 20, 30, 40, 50, 60];
    let matte = vec![255, 0];

    let cut = hive::cutout::apply_matte(&source, &matte);
    assert_eq!(&cut[0..4], &[10, 20, 30, 255]);
    assert_eq!(&cut[4..8], &[40, 50, 60, 0]);
}

#[test]
fn each_subject_has_its_own_model() {
    assert_eq!(Subject::Portrait.file(), "portrait.onnx");
    assert_eq!(Subject::General.file(), "general.onnx");
    assert_eq!(Subject::Portrait.size(), 512);
    assert_eq!(Subject::General.size(), 1024);
}
