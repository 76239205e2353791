use hive::model_manager::{
    caption_dir, caption_files, caption_models_ready, clip_dir, clip_files, clip_models_ready, cutout_dir,
    cutout_files, cutout_models_ready, face_dir, face_files, face_models_ready, generate_dir, generate_files,
    generate_models_ready, inpaint_dir, inpaint_files, inpaint_models_ready, nsfw_dir, nsfw_files,
    nsfw_models_ready, ocr_dir, ocr_files, ocr_models_ready, segment_dir, segment_files, segment_models_ready,
    upscale_dir, upscale_files, upscale_models_ready,
};
use std::cell::RefCell;
use std::path::Path;

fn joined(base: &str, parts: &[&str]) -> String {
    let mut path = Path::new(base).to_path_buf();
    for part in parts {
        path = path.join(part);
    }
    path.to_string_lossy().into_owned()
}

#[test]
fn every_model_lives_in_its_own_directory_under_models() {
    let base = "/data/hive";
    assert_eq!(clip_dir(base), joined(base, &["models", "clip"]));
    assert_eq!(ocr_dir(base), joined(base, &["models", "ocr"]));
    assert_eq!(face_dir(base), joined(base, &["models", "faces"]));
    assert_eq!(nsfw_dir(base), joined(base, &["models", "nsfw"]));
    assert_eq!(caption_dir(base), joined(base, &["models", "caption"]));
    assert_eq!(upscale_dir(base), joined(base, &["models", "upscale"]));
    assert_eq!(cutout_dir(base), joined(base, &["models", "cutout"]));
    assert_eq!(segment_dir(base), joined(base, &["models", "segment"]));
    assert_eq!(inpaint_dir(base), joined(base, &["models", "inpaint"]));
    assert_eq!(generate_dir(base), joined(base, &["models", "generate"]));
}

#[test]
fn each_model_names_the_files_it_is_saved_as() {
    let names = |files: Vec<hive::model_manager::ModelFile>| files.iter().map(|f| f.filename).collect::<Vec<_>>();
    assert_eq!(names(clip_files()), ["vision_model.onnx", "text_model.onnx", "tokenizer.json"]);
    assert_eq!(names(ocr_files()), ["det.onnx", "rec.onnx", "dict.txt"]);
    assert_eq!(names(face_files()), ["detector.onnx", "embedder.onnx"]);
    assert_eq!(names(nsfw_files()), ["nsfw.onnx"]);
    assert_eq!(names(caption_files()), ["encoder.onnx", "decoder.onnx", "vocab.json"]);
    assert_eq!(names(upscale_files()), ["upscale.onnx"]);
    assert_eq!(names(cutout_files()), ["portrait.onnx", "general.onnx"]);
    assert_eq!(names(segment_files()), ["encoder.onnx", "decoder.onnx"]);
    assert_eq!(names(inpaint_files()), ["inpaint.onnx"]);
    assert_eq!(
        names(generate_files()),
        ["text_encoder.onnx", "vae_encoder.onnx", "vae_decoder.onnx", "unet.onnx"]
    );
    assert!(generate_files().last().unwrap().url.contains("/unet/"));
}

#[test]
fn a_model_is_ready_only_when_every_file_is_there() {
    let base = "/data/hive";
    let all = |_: &str| true;
    let none = |_: &str| false;
    assert!(clip_models_ready(base, all));
    assert!(!clip_models_ready(base, none));
    assert!(ocr_models_ready(base, all) && face_models_ready(base, all) && nsfw_models_ready(base, all));
    assert!(caption_models_ready(base, all) && upscale_models_ready(base, all));
    assert!(cutout_models_ready(base, all) && segment_models_ready(base, all) && inpaint_models_ready(base, all));
    assert!(!inpaint_models_ready(base, none));

    let missing = joined(base, &["models", "caption", "vocab.json"]);
    assert!(!caption_models_ready(base, |p: &str| p != missing));
}

#[test]
fn the_check_stops_at_the_first_missing_file() {
    let asked = RefCell::new(Vec::new());
    let ready = ocr_models_ready("/d", |p: &str| {
        asked.borrow_mut().push(p.to_string());
        !p.ends_with("det.onnx")
    });
    assert!(!ready);
    assert_eq!(asked.borrow().len(), 1);
}

#[test]
fn generation_also_needs_the_clip_tokenizer() {
    let base = "/data/hive";
    let tokenizer = joined(base, &["models", "clip", "tokenizer.json"]);
    assert!(generate_models_ready(base, |_: &str| true));
    assert!(!generate_models_ready(base, |p: &str| p != tokenizer));
}
