//! The sizing decisions of the generative fill: the window sent to the model,
//! the size it works at, and the prompt's token ids.
use vstd::prelude::*;
use crate::inpaint::{is_bounding_box, is_marked, marked_region, padded_region};
use crate::text::{chars_of, string_from_chars, trim_by, trim_whitespace, ws};

verus! {

/// CLIP's context length. The text encoder was traced at exactly this, so the
/// prompt is padded or truncated to it.
pub const CONTEXT: usize = 77;

/// CLIP's end-of-text id, also used for padding.
pub const EOT: i64 = 49407;

/// The VAE compresses by 8 in each direction.
pub const VAE_SCALE: u32 = 8;

/// Stable Diffusion 1.5 was trained at this size and drifts away from it.
pub const TARGET_EDGE: u32 = 512;

/// Both working sides are a multiple of this: the VAE divides by 8, and the UNet
/// halves its input three more times before joining each stage back to the one
/// it skipped, so a latent side not divisible by 8 breaks the join.
pub const SIZE_STEP: u32 = 64;

/// A mask pixel at or above this value marks the area to paint.
pub const MASK_THRESHOLD: u8 = 128;

/// How many steps of 64 a side of `v` gets when the longer side `m` is fitted to
/// 512: `8 v / m` rounded half away from zero, and at least one.
pub open spec fn steps_for(v: int, m: int) -> int {
    if m == 0 {
        1
    } else {
        let rounded = (16 * v + m) / (2 * m);
        if rounded < 1 {
            1
        } else {
            rounded
        }
    }
}

/// The size to work at: the region's shape, fitted inside 512 and rounded so the
/// UNet's halving and doubling land on whole numbers.
pub open spec fn working(width: int, height: int) -> (int, int) {
    let m = if width >= height {
        width
    } else {
        height
    };
    (SIZE_STEP * steps_for(width, m), SIZE_STEP * steps_for(height, m))
}

proof fn lemma_steps_bounds(v: int, m: int)
    requires
        0 <= v <= m,
    ensures
        1 <= steps_for(v, m) <= 8,
        v == m && m > 0 ==> steps_for(v, m) == 8,
{
    if m > 0 {
        assert((16 * v + m) / (2 * m) <= 8) by (nonlinear_arith)
            requires
                0 <= v <= m,
                m > 0,
        ;
        if v == m {
            assert((16 * v + m) / (2 * m) == 8) by (nonlinear_arith)
                requires
                    v == m,
                    m > 0,
            ;
        }
    }
}

/// The size the model works at for a region of `width` by `height`.
pub fn working_size(width: u32, height: u32) -> (r: (u32, u32))
    ensures
        r.0 == working(width as int, height as int).0,
        r.1 == working(width as int, height as int).1,
        r.0 % SIZE_STEP == 0 && r.1 % SIZE_STEP == 0,
        SIZE_STEP <= r.0 <= TARGET_EDGE && SIZE_STEP <= r.1 <= TARGET_EDGE,
        width > 0 && width >= height ==> r.0 == TARGET_EDGE,
        height > 0 && height >= width ==> r.1 == TARGET_EDGE,
{
    let m: u64 = if width >= height {
        width as u64
    } else {
        height as u64
    };
    proof {
        lemma_steps_bounds(width as int, m as int);
        lemma_steps_bounds(height as int, m as int);
    }
    let w_steps: u64 = if m == 0 {
        1
    } else {
        let rounded = (16 * (width as u64) + m) / (2 * m);
        if rounded < 1 {
            1
        } else {
            rounded
        }
    };
    let h_steps: u64 = if m == 0 {
        1
    } else {
        let rounded = (16 * (height as u64) + m) / (2 * m);
        if rounded < 1 {
            1
        } else {
            rounded
        }
    };
    ((w_steps as u32) * SIZE_STEP, (h_steps as u32) * SIZE_STEP)
}

/// The generative tool's window: the marked area of the mask and its surroundings.
pub fn work_region(mask: &Vec<u8>, width: u32, height: u32) -> (r: Option<(u32, u32, u32, u32)>)
    requires
        mask@.len() == width * height,
        width + (3 * width + 3 * height + 2) / 4 <= u32::MAX,
        height + (3 * width + 3 * height + 2) / 4 <= u32::MAX,
    ensures
        match r {
            None => forall|i: int| 0 <= i < mask@.len() ==> !#[trigger] is_marked(mask@, MASK_THRESHOLD, i),
            Some(region) => exists|l: int, t: int, rr: int, b: int|
                is_bounding_box(mask@, width as int, MASK_THRESHOLD, l, t, rr, b) && region == padded_region(
                    width as int,
                    height as int,
                    l,
                    t,
                    rr,
                    b,
                ),
        },
        match r {
            Some((x, y, w, h)) => {
                &&& x + w <= width
                &&& y + h <= height
                &&& forall|i: int|
                    0 <= i < mask@.len() && #[trigger] is_marked(mask@, MASK_THRESHOLD, i) ==> x <= i % (width as int)
                        < x + w && y <= i / (width as int) < y + h
            },
            None => true,
        },
{
    marked_region(mask, width, height, MASK_THRESHOLD)
}

/// The prompt's ids as the text encoder takes them: exactly 77, ending on the
/// end-of-text id even when the prompt was cut, and padded with it.
pub open spec fn prompt_ids_spec(ids: Seq<i64>) -> Seq<i64> {
    Seq::new(
        CONTEXT as nat,
        |i: int|
            if i == CONTEXT - 1 || i >= ids.len() {
                EOT
            } else {
                ids[i]
            },
    )
}

/// Truncates or pads the tokenizer's ids to the context length.
pub fn prompt_ids(ids: Vec<i64>) -> (r: Vec<i64>)
    ensures
        r@ == prompt_ids_spec(ids@),
{
    let mut ids = ids;
    let ghost original = ids@;
    ids.truncate(CONTEXT);
    if ids.len() == CONTEXT {
        // A cut prompt must still end where the model expects.
        ids.set(CONTEXT - 1, EOT);
    }
    while ids.len() < CONTEXT
        invariant
            ids@.len() <= CONTEXT,
            ids@.len() >= original.len() || ids@.len() == CONTEXT,
            forall|i: int|
                0 <= i < ids@.len() ==> ids@[i] == (if i == CONTEXT - 1 || i >= original.len() {
                    EOT
                } else {
                    original[i]
                }),
        decreases CONTEXT - ids@.len(),
    {
        ids.push(EOT);
    }
    proof {
        assert(ids@ =~= prompt_ids_spec(original));
    }
    ids
}

/// Why a fill request cannot go ahead, checked in this order: no description,
/// a mask of another size than the photo, or nothing selected.
pub open spec fn request_problem(
    prompt: Seq<char>,
    photo: (u32, u32),
    mask: Seq<u8>,
    mask_size: (u32, u32),
) -> Option<Seq<char>> {
    if trim_by(prompt, ws()).len() == 0 {
        Some("describe what should appear there"@)
    } else if mask_size != photo {
        Some("the mask does not match the photo"@)
    } else if forall|i: int| 0 <= i < mask.len() ==> !#[trigger] is_marked(mask, MASK_THRESHOLD, i) {
        Some("nothing was selected to replace"@)
    } else {
        None
    }
}

/// Checks a fill request before any model runs: `photo` and `mask_size` are the
/// two images' sizes, `mask` the mask's pixels.
pub fn check_request(prompt: &str, photo: (u32, u32), mask: &Vec<u8>, mask_size: (u32, u32)) -> (r: Result<(), String>)
    ensures
        match r {
            Ok(()) => request_problem(prompt@, photo, mask@, mask_size) is None,
            Err(e) => request_problem(prompt@, photo, mask@, mask_size) == Some(e@),
        },
{
    let chars = chars_of(prompt);
    let trimmed = trim_whitespace(&chars);
    if trimmed.len() == 0 {
        let message = chars_of("describe what should appear there");
        return Err(string_from_chars(&message));
    }
    if mask_size.0 != photo.0 || mask_size.1 != photo.1 {
        let message = chars_of("the mask does not match the photo");
        return Err(string_from_chars(&message));
    }
    let mut i: usize = 0;
    while i < mask.len()
        invariant
            i <= mask@.len(),
            trim_by(prompt@, ws()).len() > 0,
            mask_size == photo,
            forall|k: int| 0 <= k < i ==> !#[trigger] is_marked(mask@, MASK_THRESHOLD, k),
        decreases mask@.len() - i,
    {
        if mask[i] >= MASK_THRESHOLD {
            proof {
                assert(is_marked(mask@, MASK_THRESHOLD, i as int));
            }
            return Ok(());
        }
        i = i + 1;
    }
    let message = chars_of("nothing was selected to replace");
    Err(string_from_chars(&message))
}

} // verus!
