//! Where thumbnails are kept, and what each one is called.
use vstd::prelude::*;
use crate::paths::{join_path, platform_join};
use crate::batch::texts;
use crate::images::{jpeg_thumbnail, thumbnail_jpeg};
use crate::text::{chars_of, push_str, string_from_chars};

verus! {

/// The thumbnails directory: `<app data>/thumbnails`.
pub fn thumbnail_dir(app_data_dir: &str) -> (r: String)
    ensures
        r@ == platform_join(app_data_dir@, "thumbnails"@),
{
    join_path(app_data_dir, "thumbnails")
}

/// The two thumbnail sizes: a label and the longest side in pixels.
pub fn thumbnail_sizes() -> (r: Vec<(&'static str, u32)>)
    ensures
        r@.len() == 2,
        r@[0].0@ == "sm"@ && r@[0].1 == 240,
        r@[1].0@ == "md"@ && r@[1].1 == 800,
{
    vec![("sm", 240), ("md", 800)]
}

/// The file a thumbnail is saved as: `<media id>_<label>.jpg`.
pub fn thumbnail_file_name(media_id: &str, label: &str) -> (r: String)
    ensures
        r@ == media_id@ + seq!['_'] + label@ + ".jpg"@,
{
    let mut out = chars_of(media_id);
    out.push('_');
    push_str(&mut out, label);
    push_str(&mut out, ".jpg");
    string_from_chars(&out)
}

/// The label of the `k`th thumbnail size.
pub open spec fn size_label(k: int) -> Seq<char> {
    if k == 0 {
        "sm"@
    } else {
        "md"@
    }
}

/// The longest side of the `k`th thumbnail size.
pub open spec fn size_side(k: int) -> u32 {
    if k == 0 {
        240
    } else {
        800
    }
}

/// One thumbnail, ready to be written: its size label, its file name and its
/// JPEG bytes.
pub struct Thumbnail {
    pub label: &'static str,
    pub file_name: String,
    pub jpeg: Vec<u8>,
}

/// What making a photo's thumbnails came to.
pub enum ThumbnailSet {
    /// The photo does not decode; it gets no thumbnails.
    Unreadable,
    /// Writing a thumbnail failed, with the encoder's message.
    Failed(String),
    /// One thumbnail per size, smallest first.
    Made(Vec<Thumbnail>),
}

/// Whether every size before the `k`th came out.
pub open spec fn sizes_made_before(bytes: Seq<u8>, extension: Seq<char>, k: int) -> bool {
    forall|j: int| 0 <= j < k ==> #[trigger] jpeg_thumbnail(bytes, extension, size_side(j)) matches Some(Ok(_))
}

/// The thumbnails of the photo `media_id`, whose file has `extension` and holds
/// `bytes`: one JPEG per size, named `<media id>_<label>.jpg`. The sizes are
/// made in order and the first that does not decode or does not encode decides.
pub fn thumbnails_for(media_id: &str, bytes: &[u8], extension: &str) -> (r: ThumbnailSet)
    ensures
        match r {
            ThumbnailSet::Unreadable => exists|k: int|
                0 <= k < 2 && sizes_made_before(bytes@, extension@, k) && #[trigger] jpeg_thumbnail(
                    bytes@,
                    extension@,
                    size_side(k),
                ) is None,
            ThumbnailSet::Failed(m) => exists|k: int|
                0 <= k < 2 && sizes_made_before(bytes@, extension@, k) && #[trigger] jpeg_thumbnail(
                    bytes@,
                    extension@,
                    size_side(k),
                ) == Some(Err::<Seq<u8>, Seq<char>>(m@)),
            ThumbnailSet::Made(ts) => ts@.len() == 2 && forall|k: int|
                0 <= k < 2 ==> {
                    &&& (#[trigger] ts@[k]).label@ == size_label(k)
                    &&& ts@[k].file_name@ == media_id@ + seq!['_'] + size_label(k) + ".jpg"@
                    &&& jpeg_thumbnail(bytes@, extension@, size_side(k)) == Some(Ok::<Seq<u8>, Seq<char>>(ts@[k].jpeg@))
                },
        },
{
    let sizes = thumbnail_sizes();
    let mut made: Vec<Thumbnail> = Vec::new();
    let mut k: usize = 0;
    while k < 2
        invariant
            k <= 2,
            sizes@.len() == 2,
            sizes@[0].0@ == "sm"@ && sizes@[0].1 == 240,
            sizes@[1].0@ == "md"@ && sizes@[1].1 == 800,
            made@.len() == k,
            forall|j: int|
                0 <= j < k ==> {
                    &&& (#[trigger] made@[j]).label@ == size_label(j)
                    &&& made@[j].file_name@ == media_id@ + seq!['_'] + size_label(j) + ".jpg"@
                    &&& jpeg_thumbnail(bytes@, extension@, size_side(j)) == Some(Ok::<Seq<u8>, Seq<char>>(made@[j].jpeg@))
                },
        decreases 2 - k,
    {
        let (label, side) = sizes[k];
        proof {
            assert(label@ == size_label(k as int) && side == size_side(k as int));
            assert(sizes_made_before(bytes@, extension@, k as int)) by {
                assert forall|j: int| 0 <= j < k implies #[trigger] jpeg_thumbnail(bytes@, extension@, size_side(j)) matches Some(Ok(_)) by {
                    assert(jpeg_thumbnail(bytes@, extension@, size_side(j)) == Some(Ok::<Seq<u8>, Seq<char>>(made@[j].jpeg@)));
                }
            }
        }
        let outcome = thumbnail_jpeg(bytes, extension, side);
        match outcome {
            None => {
                proof {
                    assert(jpeg_thumbnail(bytes@, extension@, size_side(k as int)) is None);
                }
                return ThumbnailSet::Unreadable;
            },
            Some(Err(message)) => {
                proof {
                    assert(jpeg_thumbnail(bytes@, extension@, size_side(k as int)) == Some(Err::<Seq<u8>, Seq<char>>(message@)));
                }
                return ThumbnailSet::Failed(message);
            },
            Some(Ok(jpeg)) => {
                let file_name = thumbnail_file_name(media_id, label);
                made.push(Thumbnail { label, file_name, jpeg });
            },
        }
        k = k + 1;
    }
    ThumbnailSet::Made(made)
}

/// The `ffmpeg` runs that pull one frame of the video `source` into `frame`, in
/// the order they are tried: a frame one second in, which skips the solid
/// colour some videos open on, then the very first frame, for clips shorter
/// than that.
pub open spec fn frame_attempts_spec(source: Seq<char>, frame: Seq<char>) -> Seq<Seq<Seq<char>>> {
    seq![
        seq!["-y"@, "-ss"@, "00:00:01"@, "-i"@, source, "-frames:v"@, "1"@, "-q:v"@, "3"@, frame],
        seq!["-y"@, "-i"@, source, "-frames:v"@, "1"@, "-q:v"@, "3"@, frame],
    ]
}

/// The arguments of each attempt to pull a video frame, in order.
pub fn frame_attempts(source: &str, frame: &str) -> (r: Vec<Vec<String>>)
    ensures
        r@.len() == 2,
        forall|k: int| 0 <= k < 2 ==> texts((#[trigger] r@[k])@) == frame_attempts_spec(source@, frame@)[k],
{
    let mut later: Vec<String> = Vec::new();
    later.push("-y".to_string());
    later.push("-ss".to_string());
    later.push("00:00:01".to_string());
    later.push("-i".to_string());
    later.push(source.to_string());
    later.push("-frames:v".to_string());
    later.push("1".to_string());
    later.push("-q:v".to_string());
    later.push("3".to_string());
    later.push(frame.to_string());
    let mut first: Vec<String> = Vec::new();
    first.push("-y".to_string());
    first.push("-i".to_string());
    first.push(source.to_string());
    first.push("-frames:v".to_string());
    first.push("1".to_string());
    first.push("-q:v".to_string());
    first.push("3".to_string());
    first.push(frame.to_string());
    proof {
        assert(texts(later@) =~= frame_attempts_spec(source@, frame@)[0]);
        assert(texts(first@) =~= frame_attempts_spec(source@, frame@)[1]);
    }
    let mut attempts: Vec<Vec<String>> = Vec::new();
    attempts.push(later);
    attempts.push(first);
    attempts
}

} // verus!
