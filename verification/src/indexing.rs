//! Deciding which files the library indexes, and reading what EXIF says about
//! when a photo was taken.
use vstd::prelude::*;
use crate::batch::{extension_of, split_file_name};
use crate::paths::{file_name_of, platform_file_name};
use crate::captioning::{lossy_utf8, utf8_lossy};
use crate::text::{chars_eq_str, chars_of, same_text, string_from_chars};
use exif::{In, Reader, Tag};
use std::io::Cursor;

verus! {

/// What `str::to_lowercase` gives for `s`: Unicode's lowercase mapping.
pub uninterp spec fn lowercase_of(s: Seq<char>) -> Seq<char>;

/// Calls `str::to_lowercase`.
#[verifier::external_body]
pub(crate) fn lowercase(s: &str) -> (r: String)
    ensures
        r@ == lowercase_of(s@),
{
    s.to_lowercase()
}

/// Extensions, in lower case, that are indexed as images.
pub open spec fn image_extensions() -> Seq<Seq<char>> {
    seq!["jpg"@, "jpeg"@, "png"@, "gif"@, "webp"@, "bmp"@, "tiff"@, "tif"@]
}

/// Extensions, in lower case, that are indexed as videos.
pub open spec fn video_extensions() -> Seq<Seq<char>> {
    seq!["mp4"@, "mov"@, "avi"@, "mkv"@, "webm"@]
}

/// The kind of media a lower-case extension stands for.
pub open spec fn kind_of_extension(ext: Seq<char>) -> Option<Seq<char>> {
    if image_extensions().contains(ext) {
        Some("image"@)
    } else if video_extensions().contains(ext) {
        Some("video"@)
    } else {
        None
    }
}

/// The kind of media at `path`, judged by its extension in any case.
pub open spec fn media_kind(path: Seq<char>) -> Option<Seq<char>> {
    match platform_file_name(path) {
        Some(name) => match extension_of(name) {
            Some(ext) => kind_of_extension(lowercase_of(ext)),
            None => None,
        },
        None => None,
    }
}

/// Which files are indexed, by the extension of their name in any case: jpg,
/// jpeg, png, gif, webp, bmp, tiff and tif as images; mp4, mov, avi, mkv and
/// webm as videos; anything else, or no extension at all, not at all.
pub proof fn lemma_media_kinds_by_extension(path: Seq<char>)
    ensures
        match platform_file_name(path) {
            Some(name) => match extension_of(name) {
                Some(ext) => {
                    let e = lowercase_of(ext);
                    &&& (e == "jpg"@ || e == "jpeg"@ || e == "png"@ || e == "gif"@ || e == "webp"@ || e == "bmp"@ || e == "tiff"@ || e == "tif"@) ==> media_kind(path) == Some("image"@)
                    &&& (e == "mp4"@ || e == "mov"@ || e == "avi"@ || e == "mkv"@ || e == "webm"@) ==> media_kind(path) == Some("video"@)
                    &&& !(e == "jpg"@ || e == "jpeg"@ || e == "png"@ || e == "gif"@ || e == "webp"@ || e == "bmp"@ || e == "tiff"@ || e == "tif"@ || e == "mp4"@ || e == "mov"@ || e == "avi"@ || e == "mkv"@ || e == "webm"@) ==> media_kind(path) is None
                },
                None => media_kind(path) is None,
            },
            None => media_kind(path) is None,
        },
{
    reveal_strlit("jpg");
    reveal_strlit("jpeg");
    reveal_strlit("png");
    reveal_strlit("gif");
    reveal_strlit("webp");
    reveal_strlit("bmp");
    reveal_strlit("tiff");
    reveal_strlit("tif");
    reveal_strlit("mp4");
    reveal_strlit("mov");
    reveal_strlit("avi");
    reveal_strlit("mkv");
    reveal_strlit("webm");
    assert("jpg"@[0] == 'j');
    assert("jpeg"@[0] == 'j');
    assert("png"@[0] == 'p');
    assert("gif"@[0] == 'g');
    assert("webp"@[0] == 'w');
    assert("bmp"@[0] == 'b');
    assert("tiff"@[0] == 't');
    assert("tif"@[0] == 't');
    assert("mp4"@[0] == 'm');
    assert("mov"@[0] == 'm');
    assert("avi"@[0] == 'a');
    assert("mkv"@[0] == 'm');
    assert("webm"@[0] == 'w');
    assert("webp"@[3] == 'p' && "webm"@[3] == 'm');
    let im = image_extensions();
    let vi = video_extensions();
    match platform_file_name(path) {
        Some(name) => match extension_of(name) {
            Some(ext) => {
                let e = lowercase_of(ext);
                if e == "jpg"@ || e == "jpeg"@ || e == "png"@ || e == "gif"@ || e == "webp"@ || e == "bmp"@ || e == "tiff"@ || e == "tif"@ {
                    let k: int = if e == "jpg"@ { 0 } else if e == "jpeg"@ { 1 } else if e == "png"@ { 2 } else if e == "gif"@ { 3 }
                        else if e == "webp"@ { 4 } else if e == "bmp"@ { 5 } else if e == "tiff"@ { 6 } else { 7 };
                    assert(im[k] == e);
                    assert(im.contains(e));
                } else if e == "mp4"@ || e == "mov"@ || e == "avi"@ || e == "mkv"@ || e == "webm"@ {
                    let k: int = if e == "mp4"@ { 0 } else if e == "mov"@ { 1 } else if e == "avi"@ { 2 } else if e == "mkv"@ { 3 } else { 4 };
                    assert(vi[k] == e);
                    assert(vi.contains(e));
                    if im.contains(e) {
                        let i = choose|i: int| 0 <= i < im.len() && im[i] == e;
                        assert(i == 0 || i == 1 || i == 2 || i == 3 || i == 4 || i == 5 || i == 6 || i == 7);
                        assert(false);
                    }
                } else {
                    if im.contains(e) {
                        let i = choose|i: int| 0 <= i < im.len() && im[i] == e;
                        assert(i == 0 || i == 1 || i == 2 || i == 3 || i == 4 || i == 5 || i == 6 || i == 7);
                        assert(false);
                    }
                    if vi.contains(e) {
                        let i = choose|i: int| 0 <= i < vi.len() && vi[i] == e;
                        assert(i == 0 || i == 1 || i == 2 || i == 3 || i == 4);
                        assert(false);
                    }
                }
            },
            None => {},
        },
        None => {},
    }
}

/// The view of an optional static string.
pub open spec fn static_opt_view(o: Option<&'static str>) -> Option<Seq<char>> {
    match o {
        Some(s) => Some(s@),
        None => None,
    }
}

fn one_of(ext: &Vec<char>, names: &Vec<&'static str>) -> (r: bool)
    ensures
        r == (exists|k: int| 0 <= k < names@.len() && ext@ == (#[trigger] names@[k])@),
{
    let mut k: usize = 0;
    while k < names.len()
        invariant
            k <= names@.len(),
            forall|j: int| 0 <= j < k ==> ext@ != (#[trigger] names@[j])@,
        decreases names@.len() - k,
    {
        if chars_eq_str(ext, names[k]) {
            return true;
        }
        k = k + 1;
    }
    false
}

/// Whether `path` is a photo or a video the library indexes, and which.
pub fn is_supported_media(path: &str) -> (r: Option<&'static str>)
    ensures
        static_opt_view(r) == media_kind(path@),
{
    let name = match file_name_of(path) {
        Some(name) => name,
        None => return None,
    };
    let (_, extension) = split_file_name(name.as_str());
    let ext = match extension {
        Some(ext) => ext,
        None => return None,
    };
    let lower = lowercase(ext.as_str());
    let chars = chars_of(lower.as_str());
    let images: Vec<&'static str> = vec!["jpg", "jpeg", "png", "gif", "webp", "bmp", "tiff", "tif"];
    let videos: Vec<&'static str> = vec!["mp4", "mov", "avi", "mkv", "webm"];
    proof {
        assert(images@.map_values(|s: &str| s@) =~= image_extensions());
        assert(videos@.map_values(|s: &str| s@) =~= video_extensions());
    }
    if one_of(&chars, &images) {
        proof {
            let k = choose|k: int| 0 <= k < images@.len() && chars@ == (#[trigger] images@[k])@;
            assert(image_extensions()[k] == chars@);
        }
        Some("image")
    } else if one_of(&chars, &videos) {
        proof {
            assert(!image_extensions().contains(chars@)) by {
                if image_extensions().contains(chars@) {
                    let k = choose|k: int| 0 <= k < image_extensions().len() && image_extensions()[k] == chars@;
                    assert(images@[k]@ == chars@);
                }
            }
            let k = choose|k: int| 0 <= k < videos@.len() && chars@ == (#[trigger] videos@[k])@;
            assert(video_extensions()[k] == chars@);
        }
        Some("video")
    } else {
        proof {
            assert(!image_extensions().contains(chars@)) by {
                if image_extensions().contains(chars@) {
                    let k = choose|k: int| 0 <= k < image_extensions().len() && image_extensions()[k] == chars@;
                    assert(images@[k]@ == chars@);
                }
            }
            assert(!video_extensions().contains(chars@)) by {
                if video_extensions().contains(chars@) {
                    let k = choose|k: int| 0 <= k < video_extensions().len() && video_extensions()[k] == chars@;
                    assert(videos@[k]@ == chars@);
                }
            }
        }
        None
    }
}

/// `s` with its first `n` colons turned into dashes, as `str::replacen(':', "-", n)`
/// does.
pub open spec fn dashed(s: Seq<char>, n: nat) -> Seq<char>
    decreases s.len(),
{
    if s.len() == 0 {
        s
    } else if s[0] == ':' && n > 0 {
        seq!['-'] + dashed(s.drop_first(), (n - 1) as nat)
    } else {
        seq![s[0]] + dashed(s.drop_first(), n)
    }
}

/// EXIF writes dates as `YYYY:MM:DD HH:MM:SS`; the first two colons become dashes,
/// giving `YYYY-MM-DD HH:MM:SS`.
pub fn normalize_exif_date(raw: &str) -> (r: String)
    ensures
        r@ == dashed(raw@, 2),
{
    let chars = chars_of(raw);
    let mut out: Vec<char> = Vec::new();
    let mut left: usize = 2;
    let mut i: usize = 0;
    proof {
        assert(chars@.skip(0) =~= chars@);
    }
    while i < chars.len()
        invariant
            chars@ == raw@,
            i <= chars@.len(),
            left <= 2,
            out@ + dashed(chars@.skip(i as int), left as nat) == dashed(raw@, 2),
        decreases chars@.len() - i,
    {
        let c = chars[i];
        proof {
            assert(chars@.skip(i as int).drop_first() =~= chars@.skip(i + 1));
        }
        if c == ':' && left > 0 {
            out.push('-');
            left = left - 1;
            proof {
                assert(out@ + dashed(chars@.skip(i + 1), left as nat) =~= dashed(raw@, 2));
            }
        } else {
            out.push(c);
            proof {
                assert(out@ + dashed(chars@.skip(i + 1), left as nat) =~= dashed(raw@, 2));
            }
        }
        i = i + 1;
    }
    proof {
        assert(chars@.skip(i as int) =~= Seq::<char>::empty());
        assert(out@ =~= dashed(raw@, 2));
    }
    string_from_chars(&out)
}

/* ------------------------------------------------------------ indexing -- */

/// The SHA-256 digest of `bytes`, as 64 lower-case hexadecimal digits.
pub uninterp spec fn sha256_hex(bytes: Seq<u8>) -> Seq<char>;

/// Calls `sha2::Sha256::digest` and writes the digest in lower-case hex, as
/// `{:x}` formats it.
#[verifier::external_body]
fn sha256_hex_of(bytes: &[u8]) -> (r: String)
    ensures
        r@ == sha256_hex(bytes@),
{
    format!("{:x}", <sha2::Sha256 as sha2::Digest>::digest(bytes))
}

/// The MIME type `mime_guess` gives for `path` by its extension, or
/// `application/octet-stream` when it knows none.
pub uninterp spec fn mime_of(path: Seq<char>) -> Seq<char>;

/// Calls `mime_guess::from_path` and takes its first guess, or the octet
/// stream type.
#[verifier::external_body]
fn guess_mime(path: &str) -> (r: String)
    ensures
        r@ == mime_of(path@),
{
    mime_guess::from_path(path).first_or_octet_stream().to_string()
}

/// The EXIF fields a photo is described by, as text: camera make, model and
/// lens, exposure time and ISO speed as the `exif` crate displays them, and the
/// two dates as the bytes written in the block, `YYYY:MM:DD HH:MM:SS`.
pub struct ExifText {
    pub camera_make: Option<String>,
    pub camera_model: Option<String>,
    pub lens: Option<String>,
    pub exposure_time: Option<String>,
    pub iso: Option<u32>,
    /// The bytes of `DateTimeOriginal`, when the photo was taken.
    pub date_original: Option<Vec<u8>>,
    /// The bytes of `DateTime`, when the file was last changed.
    pub date_time: Option<Vec<u8>>,
}

/// The view of optional bytes.
pub open spec fn bytes_opt(o: Option<Vec<u8>>) -> Option<Seq<u8>> {
    match o {
        Some(b) => Some(b@),
        None => None,
    }
}

/// The fields of an EXIF reading, in the order of [`ExifText`].
pub open spec fn exif_view(e: Option<ExifText>) -> Option<
    (
        Option<Seq<char>>,
        Option<Seq<char>>,
        Option<Seq<char>>,
        Option<Seq<char>>,
        Option<u32>,
        Option<Seq<u8>>,
        Option<Seq<u8>>,
    ),
> {
    match e {
        Some(x) => Some(
            (
                text_opt(x.camera_make),
                text_opt(x.camera_model),
                text_opt(x.lens),
                text_opt(x.exposure_time),
                x.iso,
                bytes_opt(x.date_original),
                bytes_opt(x.date_time),
            ),
        ),
        None => None,
    }
}

/// What the `exif` crate reads from the primary image of `bytes`, field by field
/// as [`ExifText`] lists them; nothing when the bytes hold no readable EXIF block.
pub uninterp spec fn exif_text(bytes: Seq<u8>) -> Option<
    (
        Option<Seq<char>>,
        Option<Seq<char>>,
        Option<Seq<char>>,
        Option<Seq<char>>,
        Option<u32>,
        Option<Seq<u8>>,
        Option<Seq<u8>>,
    ),
>;

/// Calls `exif::Reader::read_from_container` on the bytes and displays the
/// descriptive fields of the primary image; the ISO speed is its first value,
/// and each date is the bytes of the first string of its field.
#[verifier::external_body]
fn read_exif_text(bytes: &[u8]) -> (r: Option<ExifText>)
    ensures
        exif_view(r) == exif_text(bytes@),
{
    let data = Reader::new().read_from_container(&mut Cursor::new(bytes)).ok()?;
    let field = |tag| data.get_field(tag, In::PRIMARY);
    let text = |tag| field(tag).map(|f| f.display_value().to_string());
    let raw = |tag| if let exif::Value::Ascii(v) = &field(tag)?.value { v.first().cloned() } else { None };
    Some(ExifText {
        camera_make: text(Tag::Make),
        camera_model: text(Tag::Model),
        lens: text(Tag::LensModel),
        exposure_time: text(Tag::ExposureTime),
        iso: field(Tag::PhotographicSensitivity).and_then(|f| f.value.get_uint(0)),
        date_original: raw(Tag::DateTimeOriginal),
        date_time: raw(Tag::DateTime),
    })
}

/// The perceptual hash near-duplicates are found by, in its stored base64 form,
/// or nothing when the bytes do not decode as an image.
pub uninterp spec fn perceptual_hash(bytes: Seq<u8>) -> Option<Seq<char>>;

/// Decodes the image with `image::load_from_memory` and hashes it with
/// `image_hasher`'s default hasher, writing the hash with `to_base64`.
#[verifier::external_body]
fn perceptual_hash_of(bytes: &[u8]) -> (r: Option<String>)
    ensures
        match r {
            Some(s) => perceptual_hash(bytes@) == Some(s@),
            None => perceptual_hash(bytes@) is None,
        },
{
    let image = image::load_from_memory(bytes).ok()?;
    Some(image_hasher::HasherConfig::new().to_hasher().hash_image(&image).to_base64())
}

/// When a photo was taken, by its EXIF dates: `DateTimeOriginal`, or, when the
/// block lacks it, `DateTime`; read as UTF-8 and with the first two colons, those
/// of the date, turned into dashes.
pub open spec fn capture_date(original: Option<Seq<u8>>, fallback: Option<Seq<u8>>) -> Option<Seq<char>> {
    match original {
        Some(raw) => Some(dashed(lossy_utf8(raw), 2)),
        None => match fallback {
            Some(raw) => Some(dashed(lossy_utf8(raw), 2)),
            None => None,
        },
    }
}

/// Reads the capture date from what EXIF holds.
pub fn capture_date_of(exif: &ExifText) -> (r: Option<String>)
    ensures
        text_opt(r) == capture_date(bytes_opt(exif.date_original), bytes_opt(exif.date_time)),
{
    let raw = match &exif.date_original {
        Some(raw) => raw,
        None => match &exif.date_time {
            Some(raw) => raw,
            None => return None,
        },
    };
    let text = utf8_lossy(raw.as_slice());
    Some(normalize_exif_date(text.as_str()))
}

/// What indexing a file records, beyond what the file system says of it.
pub struct IndexPlan {
    /// "image" or "video".
    pub media_type: &'static str,
    /// The content hash that tells a changed file from an unchanged one.
    pub hash: String,
    pub mime_type: String,
    /// What an image's EXIF block says of it.
    pub exif: Option<ExifText>,
    /// When an image was taken, from its EXIF block, as `YYYY-MM-DD HH:MM:SS`.
    pub taken_at: Option<String>,
    /// The perceptual hash of an image, for finding near-duplicates.
    pub phash: Option<String>,
}

/// The view of an optional string.
pub open spec fn text_opt(o: Option<String>) -> Option<Seq<char>> {
    match o {
        Some(s) => Some(s@),
        None => None,
    }
}

/// The view of an optional string slice.
pub open spec fn str_opt(o: Option<&str>) -> Option<Seq<char>> {
    match o {
        Some(s) => Some(s@),
        None => None,
    }
}

/// Decides how to index the file at `path` with contents `bytes`, given the hash
/// stored when it was last indexed. `None` when it is not a photo or a video, or
/// when its contents have not changed since; otherwise what to record. The
/// EXIF block and the perceptual hash are read for images only.
pub fn index_plan(path: &str, bytes: &[u8], stored_hash: Option<&str>) -> (r: Option<IndexPlan>)
    ensures
        r is None <==> (media_kind(path@) is None || str_opt(stored_hash) == Some(sha256_hex(bytes@))),
        r matches Some(plan) ==> {
            &&& Some(plan.media_type@) == media_kind(path@)
            &&& plan.hash@ == sha256_hex(bytes@)
            &&& plan.mime_type@ == mime_of(path@)
            &&& exif_view(plan.exif) == (if plan.media_type@ == "image"@ {
                exif_text(bytes@)
            } else {
                None
            })
            &&& text_opt(plan.taken_at) == (match exif_view(plan.exif) {
                Some(fields) => capture_date(fields.5, fields.6),
                None => None,
            })
            &&& text_opt(plan.phash) == (if plan.media_type@ == "image"@ {
                perceptual_hash(bytes@)
            } else {
                None
            })
        },
{
    let media_type = match is_supported_media(path) {
        Some(kind) => kind,
        None => return None,
    };
    let hash = sha256_hex_of(bytes);
    match stored_hash {
        Some(stored) => if same_text(stored, hash.as_str()) {
            return None;
        },
        None => {},
    }
    let is_image = same_text(media_type, "image");
    let exif = if is_image {
        read_exif_text(bytes)
    } else {
        None
    };
    let taken_at = match &exif {
        Some(fields) => capture_date_of(fields),
        None => None,
    };
    let phash = if is_image {
        perceptual_hash_of(bytes)
    } else {
        None
    };
    Some(IndexPlan { media_type, hash, mime_type: guess_mime(path), exif, taken_at, phash })
}

} // verus!
