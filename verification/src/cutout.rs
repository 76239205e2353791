//! Choosing the background-removal model for a photo.
use vstd::prelude::*;
use crate::text::{decimal, push_decimal, push_str, string_from_chars};

verus! {

/// Which cutout model to run. `Portrait` is chosen when the photo has a face in it.
#[derive(Debug, Clone, Copy, PartialEq, Eq, Structural)]
pub enum Subject {
    Portrait,
    General,
}

impl Subject {
    /// Faces are counted during indexing, so the choice costs nothing.
    pub fn for_face_count(faces: i64) -> (s: Subject)
        ensures
            s == (if faces > 0 { Subject::Portrait } else { Subject::General }),
    {
        if faces > 0 {
            Subject::Portrait
        } else {
            Subject::General
        }
    }

    /// The model file for this subject.
    pub fn file(self) -> (r: &'static str)
        ensures
            r@ == (match self {
                Subject::Portrait => "portrait.onnx"@,
                Subject::General => "general.onnx"@,
            }),
    {
        match self {
            Subject::Portrait => "portrait.onnx",
            Subject::General => "general.onnx",
        }
    }

    /// The side the model works at: MODNet wants a multiple of 32, ISNet was
    /// trained at 1024 and degrades away from it.
    pub fn size(self) -> (r: u32)
        ensures
            r == (match self {
                Subject::Portrait => PORTRAIT_SIZE,
                Subject::General => GENERAL_SIZE,
            }),
    {
        match self {
            Subject::Portrait => PORTRAIT_SIZE,
            Subject::General => GENERAL_SIZE,
        }
    }
}

/// MODNet is fully convolutional but wants a size divisible by 32.
pub const PORTRAIT_SIZE: u32 = 512;

/// ISNet was trained at this size.
pub const GENERAL_SIZE: u32 = 1024;

/// 24 megapixels: more than most cameras give, and the point past which building
/// the result costs more than computing it.
pub const MAX_PIXELS: u64 = 24_000_000;

/// Why a photo is refused.
pub open spec fn too_large_message(width: nat, height: nat) -> Seq<char> {
    decimal(width) + "×"@ + decimal(height)
        + " is too large to cut out. Cut the background out first, then enlarge the result — doing it the other way round means working on sixteen times more pixels for the same matte."@
}

/// Refuses a photo too large to cut out without trouble. The matte is computed
/// at a fixed size, but the result is built at full resolution.
pub fn check_size(width: u32, height: u32) -> (r: Result<(), String>)
    ensures
        match r {
            Ok(()) => width * height <= MAX_PIXELS,
            Err(message) => width * height > MAX_PIXELS && message@ == too_large_message(width as nat, height as nat),
        },
{
    assert((width as u64) * (height as u64) <= u64::MAX) by (nonlinear_arith)
        requires
            width <= u32::MAX,
            height <= u32::MAX,
    ;
    if (width as u64) * (height as u64) > MAX_PIXELS {
        let mut message: Vec<char> = Vec::new();
        push_decimal(&mut message, width as u64);
        push_str(&mut message, "×");
        push_decimal(&mut message, height as u64);
        push_str(
            &mut message,
            " is too large to cut out. Cut the background out first, then enlarge the result — doing it the other way round means working on sixteen times more pixels for the same matte.",
        );
        return Err(string_from_chars(&message));
    }
    Ok(())
}

/// A photo with its matte as the alpha channel: `rgb` holds three bytes a
/// pixel, `matte` one, and the result four.
pub open spec fn with_alpha(rgb: Seq<u8>, matte: Seq<u8>) -> Seq<u8> {
    Seq::new(
        matte.len() * 4,
        |i: int|
            if i % 4 == 3 {
                matte[i / 4]
            } else {
                rgb[(i / 4) * 3 + i % 4]
            },
    )
}

/// Applies a matte as the alpha channel, giving a cut-out picture.
pub fn apply_matte(rgb: &Vec<u8>, matte: &Vec<u8>) -> (r: Vec<u8>)
    requires
        rgb@.len() == 3 * matte@.len(),
        4 * matte@.len() <= usize::MAX,
    ensures
        r@ == with_alpha(rgb@, matte@),
{
    let n = matte.len();
    let mut out: Vec<u8> = Vec::new();
    let mut p: usize = 0;
    while p < n
        invariant
            n == matte@.len(),
            rgb@.len() == 3 * n,
            4 * n <= usize::MAX,
            p <= n,
            out@.len() == 4 * p,
            forall|i: int| 0 <= i < 4 * p ==> out@[i] == with_alpha(rgb@, matte@)[i],
        decreases n - p,
    {
        out.push(rgb[3 * p]);
        out.push(rgb[3 * p + 1]);
        out.push(rgb[3 * p + 2]);
        out.push(matte[p]);
        proof {
            assert forall|i: int| 0 <= i < 4 * (p + 1) implies out@[i] == with_alpha(rgb@, matte@)[i] by {
                if i >= 4 * p {
                    assert(i / 4 == p && i % 4 == i - 4 * p) by (nonlinear_arith)
                        requires
                            4 * p <= i < 4 * (p + 1),
                    ;
                }
            }
        }
        p = p + 1;
    }
    proof {
        assert(out@ =~= with_alpha(rgb@, matte@));
    }
    out
}

} // verus!
