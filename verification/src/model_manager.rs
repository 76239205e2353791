//! Where each AI model lives on disk, which files make it up, and whether they
//! are all there.
use vstd::prelude::*;
use crate::paths::{answered, join_path, platform_join};

verus! {

/// One file of a model: where it is downloaded from, and the name it is saved under.
pub struct ModelFile {
    pub url: &'static str,
    pub filename: &'static str,
}

/// The names files are saved under, in order.
pub open spec fn file_names(files: Seq<ModelFile>) -> Seq<Seq<char>> {
    files.map_values(|f: ModelFile| f.filename@)
}

/// CLIP ViT-B/32 (Xenova ONNX export), uint8-quantized for a reasonable download
/// and CPU speed. The vision and text towers are separate graphs.
pub fn clip_files() -> (files: Vec<ModelFile>)
    ensures
        file_names(files@) == seq!["vision_model.onnx"@, "text_model.onnx"@, "tokenizer.json"@],
{
    let files = vec![
        ModelFile {
            url: "https://huggingface.co/Xenova/clip-vit-base-patch32/resolve/main/onnx/vision_model_uint8.onnx",
            filename: "vision_model.onnx",
        },
        ModelFile {
            url: "https://huggingface.co/Xenova/clip-vit-base-patch32/resolve/main/onnx/text_model_uint8.onnx",
            filename: "text_model.onnx",
        },
        ModelFile {
            url: "https://huggingface.co/Xenova/clip-vit-base-patch32/resolve/main/tokenizer.json",
            filename: "tokenizer.json",
        },
    ];
    proof {
        assert(file_names(files@) =~= seq!["vision_model.onnx"@, "text_model.onnx"@, "tokenizer.json"@]);
    }
    files
}

/// The directory of one model: `<app data>/models/<name>`.
pub open spec fn model_dir(app_data_dir: Seq<char>, name: Seq<char>) -> Seq<char> {
    platform_join(platform_join(app_data_dir, "models"@), name)
}

fn model_dir_of(app_data_dir: &str, name: &str) -> (r: String)
    ensures
        r@ == model_dir(app_data_dir@, name@),
{
    let models = join_path(app_data_dir, "models");
    join_path(models.as_str(), name)
}

pub fn clip_dir(app_data_dir: &str) -> (r: String)
    ensures
        r@ == model_dir(app_data_dir@, "clip"@),
{
    model_dir_of(app_data_dir, "clip")
}

/// PaddleOCR PP-OCRv5 detection (server, shared across languages) and English
/// recognition (mobile), plus the CTC character dictionary.
pub fn ocr_files() -> (files: Vec<ModelFile>)
    ensures
        file_names(files@) == seq!["det.onnx"@, "rec.onnx"@, "dict.txt"@],
{
    let files = vec![
        ModelFile {
            url: "https://huggingface.co/monkt/paddleocr-onnx/resolve/main/detection/v5/det.onnx",
            filename: "det.onnx",
        },
        ModelFile {
            url: "https://huggingface.co/monkt/paddleocr-onnx/resolve/main/languages/english/rec.onnx",
            filename: "rec.onnx",
        },
        ModelFile {
            url: "https://huggingface.co/monkt/paddleocr-onnx/resolve/main/languages/english/dict.txt",
            filename: "dict.txt",
        },
    ];
    proof {
        assert(file_names(files@) =~= seq!["det.onnx"@, "rec.onnx"@, "dict.txt"@]);
    }
    files
}

/// UltraFace RFB-320 for finding faces, ArcFace ResNet100 int8 for a 512-dimension
/// embedding of each.
pub fn face_files() -> (files: Vec<ModelFile>)
    ensures
        file_names(files@) == seq!["detector.onnx"@, "embedder.onnx"@],
{
    let files = vec![
        ModelFile {
            url: "https://media.githubusercontent.com/media/onnx/models/main/validated/vision/body_analysis/ultraface/models/version-RFB-320.onnx",
            filename: "detector.onnx",
        },
        ModelFile {
            url: "https://huggingface.co/onnxmodelzoo/arcfaceresnet100-11-int8/resolve/main/arcfaceresnet100-11-int8.onnx",
            filename: "embedder.onnx",
        },
    ];
    proof {
        assert(file_names(files@) =~= seq!["detector.onnx"@, "embedder.onnx"@]);
    }
    files
}

/// ViT classifier for sensitive content, fine-tuned on a safe/NSFW split; the
/// quantized export is a quarter of the size for the same verdict.
pub fn nsfw_files() -> (files: Vec<ModelFile>)
    ensures
        file_names(files@) == seq!["nsfw.onnx"@],
{
    let files = vec![
        ModelFile {
            url: "https://huggingface.co/AdamCodd/vit-base-nsfw-detector/resolve/main/onnx/model_quantized.onnx",
            filename: "nsfw.onnx",
        },
    ];
    proof {
        assert(file_names(files@) =~= seq!["nsfw.onnx"@]);
    }
    files
}

/// ViT-GPT2 image captioning: the ViT encoder turns the image into features, the
/// GPT-2 decoder (with and without past, merged) writes the sentence token by token.
pub fn caption_files() -> (files: Vec<ModelFile>)
    ensures
        file_names(files@) == seq!["encoder.onnx"@, "decoder.onnx"@, "vocab.json"@],
{
    let files = vec![
        ModelFile {
            url: "https://huggingface.co/Xenova/vit-gpt2-image-captioning/resolve/main/onnx/encoder_model_quantized.onnx",
            filename: "encoder.onnx",
        },
        ModelFile {
            url: "https://huggingface.co/Xenova/vit-gpt2-image-captioning/resolve/main/onnx/decoder_model_merged_quantized.onnx",
            filename: "decoder.onnx",
        },
        ModelFile {
            url: "https://huggingface.co/Xenova/vit-gpt2-image-captioning/resolve/main/vocab.json",
            filename: "vocab.json",
        },
    ];
    proof {
        assert(file_names(files@) =~= seq!["encoder.onnx"@, "decoder.onnx"@, "vocab.json"@]);
    }
    files
}

/// Real-ESRGAN general x4v3 (BSD-3), the compact variant built for real photographs.
pub fn upscale_files() -> (files: Vec<ModelFile>)
    ensures
        file_names(files@) == seq!["upscale.onnx"@],
{
    let files = vec![
        ModelFile {
            url: "https://huggingface.co/Heliosoph/realesrgan-onnx/resolve/main/realesr-general-x4v3.onnx",
            filename: "upscale.onnx",
        },
    ];
    proof {
        assert(file_names(files@) =~= seq!["upscale.onnx"@]);
    }
    files
}

/// Two cutout models: MODNet for people (hair strand by strand), ISNet for
/// everything else. Which runs depends on whether a face was found.
pub fn cutout_files() -> (files: Vec<ModelFile>)
    ensures
        file_names(files@) == seq!["portrait.onnx"@, "general.onnx"@],
{
    let files = vec![
        ModelFile {
            url: "https://huggingface.co/Xenova/modnet/resolve/main/onnx/model.onnx",
            filename: "portrait.onnx",
        },
        ModelFile {
            url: "https://huggingface.co/tomjackson2023/rembg/resolve/main/isnet-general-use.onnx",
            filename: "general.onnx",
        },
    ];
    proof {
        assert(file_names(files@) =~= seq!["portrait.onnx"@, "general.onnx"@]);
    }
    files
}

/// SlimSAM, split in two: the encoder runs once per photo, the decoder on every click.
pub fn segment_files() -> (files: Vec<ModelFile>)
    ensures
        file_names(files@) == seq!["encoder.onnx"@, "decoder.onnx"@],
{
    let files = vec![
        ModelFile {
            url: "https://huggingface.co/Xenova/slimsam-77-uniform/resolve/main/onnx/vision_encoder.onnx",
            filename: "encoder.onnx",
        },
        ModelFile {
            url: "https://huggingface.co/Xenova/slimsam-77-uniform/resolve/main/onnx/prompt_encoder_mask_decoder.onnx",
            filename: "decoder.onnx",
        },
    ];
    proof {
        assert(file_names(files@) =~= seq!["encoder.onnx"@, "decoder.onnx"@]);
    }
    files
}

/// LaMa (Apache 2.0), whose Fourier convolutions carry a wall or a horizon across
/// a large hole.
pub fn inpaint_files() -> (files: Vec<ModelFile>)
    ensures
        file_names(files@) == seq!["inpaint.onnx"@],
{
    let files = vec![
        ModelFile {
            url: "https://huggingface.co/Carve/LaMa-ONNX/resolve/main/lama_fp32.onnx",
            filename: "inpaint.onnx",
        },
    ];
    proof {
        assert(file_names(files@) =~= seq!["inpaint.onnx"@]);
    }
    files
}

/// Stable Diffusion 1.5 inpainting. Its tokenizer is CLIP's, already downloaded
/// for search; the UNet comes last because it is the big one, so an interrupted
/// download leaves the three small files in place.
pub fn generate_files() -> (files: Vec<ModelFile>)
    ensures
        file_names(files@) == seq!["text_encoder.onnx"@, "vae_encoder.onnx"@, "vae_decoder.onnx"@, "unet.onnx"@],
{
    let files = vec![
        ModelFile {
            url: "https://huggingface.co/RanaLLC/stable-diffusion-v1-5-inpainting-onnx-fp16/resolve/main/text_encoder/model.onnx",
            filename: "text_encoder.onnx",
        },
        ModelFile {
            url: "https://huggingface.co/RanaLLC/stable-diffusion-v1-5-inpainting-onnx-fp16/resolve/main/vae_encoder/model.onnx",
            filename: "vae_encoder.onnx",
        },
        ModelFile {
            url: "https://huggingface.co/RanaLLC/stable-diffusion-v1-5-inpainting-onnx-fp16/resolve/main/vae_decoder/model.onnx",
            filename: "vae_decoder.onnx",
        },
        ModelFile {
            url: "https://huggingface.co/RanaLLC/stable-diffusion-v1-5-inpainting-onnx-fp16/resolve/main/unet/model.onnx",
            filename: "unet.onnx",
        },
    ];
    proof {
        assert(file_names(files@) =~= seq!["text_encoder.onnx"@, "vae_encoder.onnx"@, "vae_decoder.onnx"@, "unet.onnx"@]);
    }
    files
}

pub fn ocr_dir(app_data_dir: &str) -> (r: String)
    ensures
        r@ == model_dir(app_data_dir@, "ocr"@),
{
    model_dir_of(app_data_dir, "ocr")
}

pub fn face_dir(app_data_dir: &str) -> (r: String)
    ensures
        r@ == model_dir(app_data_dir@, "faces"@),
{
    model_dir_of(app_data_dir, "faces")
}

pub fn nsfw_dir(app_data_dir: &str) -> (r: String)
    ensures
        r@ == model_dir(app_data_dir@, "nsfw"@),
{
    model_dir_of(app_data_dir, "nsfw")
}

pub fn caption_dir(app_data_dir: &str) -> (r: String)
    ensures
        r@ == model_dir(app_data_dir@, "caption"@),
{
    model_dir_of(app_data_dir, "caption")
}

pub fn upscale_dir(app_data_dir: &str) -> (r: String)
    ensures
        r@ == model_dir(app_data_dir@, "upscale"@),
{
    model_dir_of(app_data_dir, "upscale")
}

pub fn cutout_dir(app_data_dir: &str) -> (r: String)
    ensures
        r@ == model_dir(app_data_dir@, "cutout"@),
{
    model_dir_of(app_data_dir, "cutout")
}

pub fn segment_dir(app_data_dir: &str) -> (r: String)
    ensures
        r@ == model_dir(app_data_dir@, "segment"@),
{
    model_dir_of(app_data_dir, "segment")
}

pub fn inpaint_dir(app_data_dir: &str) -> (r: String)
    ensures
        r@ == model_dir(app_data_dir@, "inpaint"@),
{
    model_dir_of(app_data_dir, "inpaint")
}

pub fn generate_dir(app_data_dir: &str) -> (r: String)
    ensures
        r@ == model_dir(app_data_dir@, "generate"@),
{
    model_dir_of(app_data_dir, "generate")
}

/// The path of the `k`th of `names` in `dir`.
pub open spec fn file_path(dir: Seq<char>, names: Seq<Seq<char>>, k: int) -> Seq<char> {
    platform_join(dir, names[k])
}

/// What a readiness check found, asking about the files in order and stopping at
/// the first one missing: `true` when every file was reported present, `false`
/// when one was reported missing after all those before it were present.
pub open spec fn readiness<F: Fn(&str) -> bool>(is_file: F, dir: Seq<char>, names: Seq<Seq<char>>, ready: bool) -> bool {
    if ready {
        forall|k: int| 0 <= k < names.len() ==> answered(is_file, #[trigger] file_path(dir, names, k), true)
    } else {
        exists|k: int|
            0 <= k < names.len() && answered(is_file, #[trigger] file_path(dir, names, k), false) && forall|j: int|
                0 <= j < k ==> answered(is_file, #[trigger] file_path(dir, names, j), true)
    }
}

/// Whether every file of a model is in `dir`, asking `is_file` about each in turn.
fn models_ready<F: Fn(&str) -> bool>(dir: &str, files: &Vec<ModelFile>, is_file: &F) -> (r: bool)
    requires
        forall|t: &str| is_file.requires((t,)),
    ensures
        readiness(*is_file, dir@, file_names(files@), r),
{
    let mut k: usize = 0;
    while k < files.len()
        invariant
            k <= files@.len(),
            forall|t: &str| is_file.requires((t,)),
            forall|j: int| 0 <= j < k ==> answered(*is_file, #[trigger] file_path(dir@, file_names(files@), j), true),
        decreases files@.len() - k,
    {
        let path = join_path(dir, files[k].filename);
        let asked: &str = path.as_str();
        let present = is_file(asked);
        proof {
            assert(call_ensures(*is_file, (asked,), present));
        }
        if !present {
            proof {
                assert(answered(*is_file, file_path(dir@, file_names(files@), k as int), false));
            }
            return false;
        }
        proof {
            assert(answered(*is_file, file_path(dir@, file_names(files@), k as int), true));
        }
        k = k + 1;
    }
    true
}

/// Whether the CLIP model is downloaded. `is_file` tells whether a path is a file.
pub fn clip_models_ready<F: Fn(&str) -> bool>(app_data_dir: &str, is_file: F) -> (r: bool)
    requires
        forall|t: &str| is_file.requires((t,)),
    ensures
        readiness(is_file, model_dir(app_data_dir@, "clip"@), seq!["vision_model.onnx"@, "text_model.onnx"@, "tokenizer.json"@], r),
{
    let dir = clip_dir(app_data_dir);
    let files = clip_files();
    models_ready(dir.as_str(), &files, &is_file)
}

/// Whether the OCR model is downloaded. `is_file` tells whether a path is a file.
pub fn ocr_models_ready<F: Fn(&str) -> bool>(app_data_dir: &str, is_file: F) -> (r: bool)
    requires
        forall|t: &str| is_file.requires((t,)),
    ensures
        readiness(is_file, model_dir(app_data_dir@, "ocr"@), seq!["det.onnx"@, "rec.onnx"@, "dict.txt"@], r),
{
    let dir = ocr_dir(app_data_dir);
    let files = ocr_files();
    models_ready(dir.as_str(), &files, &is_file)
}

/// Whether the face model is downloaded. `is_file` tells whether a path is a file.
pub fn face_models_ready<F: Fn(&str) -> bool>(app_data_dir: &str, is_file: F) -> (r: bool)
    requires
        forall|t: &str| is_file.requires((t,)),
    ensures
        readiness(is_file, model_dir(app_data_dir@, "faces"@), seq!["detector.onnx"@, "embedder.onnx"@], r),
{
    let dir = face_dir(app_data_dir);
    let files = face_files();
    models_ready(dir.as_str(), &files, &is_file)
}

/// Whether the sensitive-content model is downloaded. `is_file` tells whether a path is a file.
pub fn nsfw_models_ready<F: Fn(&str) -> bool>(app_data_dir: &str, is_file: F) -> (r: bool)
    requires
        forall|t: &str| is_file.requires((t,)),
    ensures
        readiness(is_file, model_dir(app_data_dir@, "nsfw"@), seq!["nsfw.onnx"@], r),
{
    let dir = nsfw_dir(app_data_dir);
    let files = nsfw_files();
    models_ready(dir.as_str(), &files, &is_file)
}

/// Whether the captioning model is downloaded. `is_file` tells whether a path is a file.
pub fn caption_models_ready<F: Fn(&str) -> bool>(app_data_dir: &str, is_file: F) -> (r: bool)
    requires
        forall|t: &str| is_file.requires((t,)),
    ensures
        readiness(is_file, model_dir(app_data_dir@, "caption"@), seq!["encoder.onnx"@, "decoder.onnx"@, "vocab.json"@], r),
{
    let dir = caption_dir(app_data_dir);
    let files = caption_files();
    models_ready(dir.as_str(), &files, &is_file)
}

/// Whether the upscaling model is downloaded. `is_file` tells whether a path is a file.
pub fn upscale_models_ready<F: Fn(&str) -> bool>(app_data_dir: &str, is_file: F) -> (r: bool)
    requires
        forall|t: &str| is_file.requires((t,)),
    ensures
        readiness(is_file, model_dir(app_data_dir@, "upscale"@), seq!["upscale.onnx"@], r),
{
    let dir = upscale_dir(app_data_dir);
    let files = upscale_files();
    models_ready(dir.as_str(), &files, &is_file)
}

/// Whether the cutout model is downloaded. `is_file` tells whether a path is a file.
pub fn cutout_models_ready<F: Fn(&str) -> bool>(app_data_dir: &str, is_file: F) -> (r: bool)
    requires
        forall|t: &str| is_file.requires((t,)),
    ensures
        readiness(is_file, model_dir(app_data_dir@, "cutout"@), seq!["portrait.onnx"@, "general.onnx"@], r),
{
    let dir = cutout_dir(app_data_dir);
    let files = cutout_files();
    models_ready(dir.as_str(), &files, &is_file)
}

/// Whether the selection model is downloaded. `is_file` tells whether a path is a file.
pub fn segment_models_ready<F: Fn(&str) -> bool>(app_data_dir: &str, is_file: F) -> (r: bool)
    requires
        forall|t: &str| is_file.requires((t,)),
    ensures
        readiness(is_file, model_dir(app_data_dir@, "segment"@), seq!["encoder.onnx"@, "decoder.onnx"@], r),
{
    let dir = segment_dir(app_data_dir);
    let files = segment_files();
    models_ready(dir.as_str(), &files, &is_file)
}

/// Whether the erasing model is downloaded. `is_file` tells whether a path is a file.
pub fn inpaint_models_ready<F: Fn(&str) -> bool>(app_data_dir: &str, is_file: F) -> (r: bool)
    requires
        forall|t: &str| is_file.requires((t,)),
    ensures
        readiness(is_file, model_dir(app_data_dir@, "inpaint"@), seq!["inpaint.onnx"@], r),
{
    let dir = inpaint_dir(app_data_dir);
    let files = inpaint_files();
    models_ready(dir.as_str(), &files, &is_file)
}

/// Whether the generative model is downloaded. It also needs CLIP, whose
/// tokenizer it borrows.
pub fn generate_models_ready<F: Fn(&str) -> bool>(app_data_dir: &str, is_file: F) -> (r: bool)
    requires
        forall|t: &str| is_file.requires((t,)),
    ensures
        r ==> readiness(is_file, model_dir(app_data_dir@, "generate"@), seq!["text_encoder.onnx"@, "vae_encoder.onnx"@, "vae_decoder.onnx"@, "unet.onnx"@], true) && answered(
            is_file,
            platform_join(model_dir(app_data_dir@, "clip"@), "tokenizer.json"@),
            true,
        ),
        !r ==> readiness(is_file, model_dir(app_data_dir@, "generate"@), seq!["text_encoder.onnx"@, "vae_encoder.onnx"@, "vae_decoder.onnx"@, "unet.onnx"@], false) || (readiness(
            is_file,
            model_dir(app_data_dir@, "generate"@),
            seq!["text_encoder.onnx"@, "vae_encoder.onnx"@, "vae_decoder.onnx"@, "unet.onnx"@],
            true,
        ) && answered(is_file, platform_join(model_dir(app_data_dir@, "clip"@), "tokenizer.json"@), false)),
{
    let dir = generate_dir(app_data_dir);
    let files = generate_files();
    if !models_ready(dir.as_str(), &files, &is_file) {
        return false;
    }
    let clip = clip_dir(app_data_dir);
    let tokenizer = join_path(clip.as_str(), "tokenizer.json");
    let asked: &str = tokenizer.as_str();
    let present = is_file(asked);
    proof {
        assert(call_ensures(is_file, (asked,), present));
        assert(answered(is_file, tokenizer@, present));
    }
    present
}

} // verus!
