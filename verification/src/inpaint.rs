//! Finding the part of a photo a mask marks, with the surroundings a model needs
//! to repair it, and how far the painted edge fades out.
use vstd::prelude::*;
use crate::text::{decimal, push_decimal, push_str, string_from_chars};

verus! {

/// A mask pixel at or above this value marks the area to erase.
pub const MASK_CUTOFF: u8 = 127;

/// How far the repair fades out past the mask's edge, in pixels.
pub const FEATHER: i32 = 3;

/// Whether pixel `i` (row-major) of the mask is marked.
pub open spec fn is_marked(mask: Seq<u8>, cutoff: u8, i: int) -> bool {
    mask[i] >= cutoff
}

/// Whether `l..=r` by `t..=b` is the bounding box of the marked pixels of a mask
/// `width` pixels wide: every marked pixel lies inside it, and a marked pixel
/// touches each of its four sides.
pub open spec fn is_bounding_box(mask: Seq<u8>, width: int, cutoff: u8, l: int, t: int, r: int, b: int) -> bool {
    &&& forall|i: int|
        0 <= i < mask.len() && #[trigger] is_marked(mask, cutoff, i) ==> l <= i % width <= r && t <= i / width <= b
    &&& exists|i: int| 0 <= i < mask.len() && #[trigger] is_marked(mask, cutoff, i) && i % width == l
    &&& exists|i: int| 0 <= i < mask.len() && #[trigger] is_marked(mask, cutoff, i) && i % width == r
    &&& exists|i: int| 0 <= i < mask.len() && #[trigger] is_marked(mask, cutoff, i) && i / width == t
    &&& exists|i: int| 0 <= i < mask.len() && #[trigger] is_marked(mask, cutoff, i) && i / width == b
}

/// The surroundings added on each side: three quarters of the marked area's
/// longest side, rounded half away from zero.
pub open spec fn padding(l: int, t: int, r: int, b: int) -> int {
    let marked = if r - l + 1 >= b - t + 1 {
        r - l + 1
    } else {
        b - t + 1
    };
    (3 * marked + 2) / 4
}

/// The padded box, cut to the photo, as (left, top, width, height).
pub open spec fn padded_region(width: int, height: int, l: int, t: int, r: int, b: int) -> (u32, u32, u32, u32) {
    let pad = padding(l, t, r, b);
    let left = if l >= pad {
        l - pad
    } else {
        0
    };
    let top = if t >= pad {
        t - pad
    } else {
        0
    };
    let right = if r + pad <= width - 1 {
        r + pad
    } else {
        width - 1
    };
    let bottom = if b + pad <= height - 1 {
        b + pad
    } else {
        height - 1
    };
    (left as u32, top as u32, (right - left + 1) as u32, (bottom - top + 1) as u32)
}

/// The window around the marked area of a `width` by `height` mask (row-major,
/// one byte a pixel) that is sent to a model, with its surroundings: the model's
/// pixels are spent on the area being replaced, not on the rest of the frame.
/// `None` when nothing is marked.
pub fn marked_region(mask: &Vec<u8>, width: u32, height: u32, cutoff: u8) -> (r: Option<(u32, u32, u32, u32)>)
    requires
        mask@.len() == width * height,
        width + (3 * width + 3 * height + 2) / 4 <= u32::MAX,
        height + (3 * width + 3 * height + 2) / 4 <= u32::MAX,
    ensures
        match r {
            None => forall|i: int| 0 <= i < mask@.len() ==> !#[trigger] is_marked(mask@, cutoff, i),
            Some(region) => exists|l: int, t: int, rr: int, b: int|
                is_bounding_box(mask@, width as int, cutoff, l, t, rr, b) && region == padded_region(
                    width as int,
                    height as int,
                    l,
                    t,
                    rr,
                    b,
                ),
        },
        match r {
            Some((x, y, w, h)) => {
                &&& x + w <= width
                &&& y + h <= height
                &&& forall|i: int|
                    0 <= i < mask@.len() && #[trigger] is_marked(mask@, cutoff, i) ==> x <= i % (width as int) < x + w
                        && y <= i / (width as int) < y + h
            },
            None => true,
        },
{
    let len = mask.len();
    let mut found = false;
    let mut left: u32 = width;
    let mut top: u32 = height;
    let mut right: u32 = 0;
    let mut bottom: u32 = 0;
    let mut i: usize = 0;
    while i < len
        invariant
            len == mask@.len() == width * height,
            i <= len,
            !found ==> forall|j: int| 0 <= j < i ==> !#[trigger] is_marked(mask@, cutoff, j),
            found ==> {
                &&& forall|j: int|
                    0 <= j < i && #[trigger] is_marked(mask@, cutoff, j) ==> left <= j % (width as int) <= right
                        && top <= j / (width as int) <= bottom
                &&& exists|j: int| 0 <= j < i && #[trigger] is_marked(mask@, cutoff, j) && j % (width as int) == left
                &&& exists|j: int| 0 <= j < i && #[trigger] is_marked(mask@, cutoff, j) && j % (width as int) == right
                &&& exists|j: int| 0 <= j < i && #[trigger] is_marked(mask@, cutoff, j) && j / (width as int) == top
                &&& exists|j: int| 0 <= j < i && #[trigger] is_marked(mask@, cutoff, j) && j / (width as int) == bottom
                &&& left <= right < width
                &&& top <= bottom < height
            },
        decreases len - i,
    {
        if mask[i] >= cutoff {
            assert(width > 0 && (i as int) / (width as int) < height && (i as int) % (width as int) < width) by (nonlinear_arith)
                requires
                    0 <= i < width * height,
            ;
            let x: u32 = (i % (width as usize)) as u32;
            let y: u32 = (i / (width as usize)) as u32;
            proof {
                assert(is_marked(mask@, cutoff, i as int));
            }
            if !found {
                found = true;
                left = x;
                right = x;
                top = y;
                bottom = y;
            } else {
                if x < left {
                    left = x;
                }
                if x > right {
                    right = x;
                }
                if y < top {
                    top = y;
                }
                if y > bottom {
                    bottom = y;
                }
            }
        }
        i = i + 1;
    }
    if !found {
        return None;
    }
    let marked: u32 = if right - left + 1 >= bottom - top + 1 {
        right - left + 1
    } else {
        bottom - top + 1
    };
    let pad: u32 = ((3 * (marked as u64) + 2) / 4) as u32;
    let new_left = left.saturating_sub(pad);
    let new_top = top.saturating_sub(pad);
    let new_right = if right + pad <= width - 1 {
        right + pad
    } else {
        width - 1
    };
    let new_bottom = if bottom + pad <= height - 1 {
        bottom + pad
    } else {
        height - 1
    };
    let region = (new_left, new_top, new_right - new_left + 1, new_bottom - new_top + 1);
    proof {
        assert(region == padded_region(width as int, height as int, left as int, top as int, right as int, bottom as int));
    }
    Some(region)
}

/// The erase tool's window: the marked area of the mask and its surroundings.
pub fn work_region(mask: &Vec<u8>, width: u32, height: u32) -> (r: Option<(u32, u32, u32, u32)>)
    requires
        mask@.len() == width * height,
        width + (3 * width + 3 * height + 2) / 4 <= u32::MAX,
        height + (3 * width + 3 * height + 2) / 4 <= u32::MAX,
    ensures
        match r {
            None => forall|i: int| 0 <= i < mask@.len() ==> !#[trigger] is_marked(mask@, MASK_CUTOFF, i),
            Some(region) => exists|l: int, t: int, rr: int, b: int|
                is_bounding_box(mask@, width as int, MASK_CUTOFF, l, t, rr, b) && region == padded_region(
                    width as int,
                    height as int,
                    l,
                    t,
                    rr,
                    b,
                ),
        },
        match r {
            Some((x, y, w, h)) => {
                &&& x + w <= width
                &&& y + h <= height
                &&& forall|i: int|
                    0 <= i < mask@.len() && #[trigger] is_marked(mask@, MASK_CUTOFF, i) ==> x <= i % (width as int) < x
                        + w && y <= i / (width as int) < y + h
            },
            None => true,
        },
{
    marked_region(mask, width, height, MASK_CUTOFF)
}

/// Whether a marked pixel lies within `d` steps of `(x, y)`, counting a
/// diagonal step as one.
pub open spec fn marked_within(mask: Seq<u8>, width: int, height: int, x: int, y: int, d: int) -> bool {
    exists|nx: int, ny: int|
        0 <= nx < width && 0 <= ny < height && x - d <= nx <= x + d && y - d <= ny <= y + d
            && #[trigger] is_marked(mask, MASK_CUTOFF, ny * width + nx)
}

/// How far the repair reaches into pixel `(x, y)`: 0 inside the mask, else the
/// distance to the nearest marked pixel up to `FEATHER`, and `FEATHER + 1` when
/// none is that close. The repair's weight there is `1 - distance / (FEATHER + 1)`.
pub fn feather_distance(mask: &Vec<u8>, width: u32, height: u32, x: u32, y: u32) -> (r: i32)
    requires
        mask@.len() == width * height,
        x < width,
        y < height,
        width <= 0x4000_0000,
        height <= 0x4000_0000,
    ensures
        0 <= r <= FEATHER + 1,
        r <= FEATHER ==> marked_within(mask@, width as int, height as int, x as int, y as int, r as int),
        forall|d: int| 0 <= d < r ==> !marked_within(mask@, width as int, height as int, x as int, y as int, d),
{
    let ghost w = width as int;
    let ghost h = height as int;
    assert(y * w + x < mask@.len()) by (nonlinear_arith)
        requires
            x < w,
            y < h,
            mask@.len() == w * h,
    ;
    let len = mask.len();
    assert((y as usize) * (width as usize) + (x as usize) < len);
    let centre = (y as usize) * (width as usize) + (x as usize);
    if mask[centre] >= MASK_CUTOFF {
        proof {
            assert(is_marked(mask@, MASK_CUTOFF, y * w + x));
        }
        return 0;
    }
    let mut nearest: i32 = FEATHER + 1;
    let mut dy: i32 = -FEATHER;
    while dy <= FEATHER
        invariant
            w == width,
            h == height,
            mask@.len() == w * h,
            x < width,
            y < height,
            width <= 0x4000_0000,
            height <= 0x4000_0000,
            !is_marked(mask@, MASK_CUTOFF, y * w + x),
            -FEATHER <= dy <= FEATHER + 1,
            1 <= nearest <= FEATHER + 1,
            nearest <= FEATHER ==> marked_within(mask@, w, h, x as int, y as int, nearest as int),
            forall|nx: int, ny: int|
                0 <= nx < w && 0 <= ny < h && x - FEATHER <= nx <= x + FEATHER && y - FEATHER <= ny < y + dy
                    && #[trigger] is_marked(mask@, MASK_CUTOFF, ny * w + nx) ==> nearest <= (if nx - x >= 0 {
                    nx - x
                } else {
                    x - nx
                }) || nearest <= (if ny - y >= 0 {
                    ny - y
                } else {
                    y - ny
                }),
        decreases FEATHER + 1 - dy,
    {
        let mut dx: i32 = -FEATHER;
        while dx <= FEATHER
            invariant
                w == width,
                h == height,
                mask@.len() == w * h,
                x < width,
                y < height,
                width <= 0x4000_0000,
                height <= 0x4000_0000,
                !is_marked(mask@, MASK_CUTOFF, y * w + x),
                -FEATHER <= dy <= FEATHER,
                -FEATHER <= dx <= FEATHER + 1,
                1 <= nearest <= FEATHER + 1,
                nearest <= FEATHER ==> marked_within(mask@, w, h, x as int, y as int, nearest as int),
                forall|nx: int, ny: int|
                    0 <= nx < w && 0 <= ny < h && x - FEATHER <= nx <= x + FEATHER && (y - FEATHER <= ny < y + dy
                        || (ny == y + dy && nx < x + dx)) && #[trigger] is_marked(mask@, MASK_CUTOFF, ny * w + nx)
                        ==> nearest <= (if nx - x >= 0 {
                        nx - x
                    } else {
                        x - nx
                    }) || nearest <= (if ny - y >= 0 {
                        ny - y
                    } else {
                        y - ny
                    }),
            decreases FEATHER + 1 - dx,
        {
            let nx: i64 = x as i64 + dx as i64;
            let ny: i64 = y as i64 + dy as i64;
            if 0 <= nx && nx < width as i64 && 0 <= ny && ny < height as i64 {
                assert(ny * w + nx < mask@.len()) by (nonlinear_arith)
                    requires
                        0 <= nx < w,
                        0 <= ny < h,
                        mask@.len() == w * h,
                ;
                let len = mask.len();
                assert((ny as usize) * (width as usize) + (nx as usize) < len);
                let at = (ny as usize) * (width as usize) + (nx as usize);
                if mask[at] >= MASK_CUTOFF {
                    let ax: i32 = if dx >= 0 {
                        dx
                    } else {
                        -dx
                    };
                    let ay: i32 = if dy >= 0 {
                        dy
                    } else {
                        -dy
                    };
                    let distance = if ax >= ay {
                        ax
                    } else {
                        ay
                    };
                    proof {
                        assert(is_marked(mask@, MASK_CUTOFF, ny * w + nx));
                    }
                    if distance < nearest {
                        nearest = distance;
                        proof {
                            assert(distance >= 1);
                            assert(marked_within(mask@, w, h, x as int, y as int, nearest as int)) by {
                                assert(0 <= nx < w && 0 <= ny < h && x - nearest <= nx <= x + nearest && y - nearest
                                    <= ny <= y + nearest && is_marked(mask@, MASK_CUTOFF, ny * w + nx));
                            }
                        }
                    }
                }
            }
            dx = dx + 1;
        }
        dy = dy + 1;
    }
    proof {
        assert forall|d: int| 0 <= d < nearest implies !marked_within(mask@, w, h, x as int, y as int, d) by {
            if marked_within(mask@, w, h, x as int, y as int, d) {
                let (px, py) = choose|px: int, py: int|
                    0 <= px < w && 0 <= py < h && x - d <= px <= x + d && y - d <= py <= y + d
                        && #[trigger] is_marked(mask@, MASK_CUTOFF, py * w + px);
                if d == 0 {
                    assert(px == x && py == y);
                }
            }
        }
    }
    nearest
}

/// How a size reads in a message: `(width, height)`.
pub open spec fn size_text(size: (u32, u32)) -> Seq<char> {
    "("@ + decimal(size.0 as nat) + ", "@ + decimal(size.1 as nat) + ")"@
}

fn push_size(out: &mut Vec<char>, size: (u32, u32))
    ensures
        final(out)@ == old(out)@ + size_text(size),
{
    push_str(out, "(");
    push_decimal(out, size.0 as u64);
    push_str(out, ", ");
    push_decimal(out, size.1 as u64);
    push_str(out, ")");
}

/// Why an erase cannot go ahead, checked in this order: a mask of another size
/// than the photo, or nothing marked. Growing a mask before the repair widens
/// what is marked but never marks anything in a mask that marks nothing, so the
/// mask as drawn decides.
pub open spec fn erase_problem(photo: (u32, u32), mask: Seq<u8>, mask_size: (u32, u32)) -> Option<Seq<char>> {
    if mask_size != photo {
        Some("mask is "@ + size_text(mask_size) + " but the photo is "@ + size_text(photo))
    } else if forall|i: int| 0 <= i < mask.len() ==> !#[trigger] is_marked(mask, MASK_CUTOFF, i) {
        Some("nothing was marked for removal"@)
    } else {
        None
    }
}

/// Checks an erase before any model runs: `photo` and `mask_size` are the two
/// images' sizes, `mask` the mask's pixels.
pub fn check_erase(photo: (u32, u32), mask: &Vec<u8>, mask_size: (u32, u32)) -> (r: Result<(), String>)
    ensures
        match r {
            Ok(()) => erase_problem(photo, mask@, mask_size) is None,
            Err(e) => erase_problem(photo, mask@, mask_size) == Some(e@),
        },
{
    if mask_size.0 != photo.0 || mask_size.1 != photo.1 {
        let mut out: Vec<char> = Vec::new();
        push_str(&mut out, "mask is ");
        push_size(&mut out, mask_size);
        push_str(&mut out, " but the photo is ");
        push_size(&mut out, photo);
        return Err(string_from_chars(&out));
    }
    let mut i: usize = 0;
    while i < mask.len()
        invariant
            i <= mask@.len(),
            mask_size == photo,
            forall|k: int| 0 <= k < i ==> !#[trigger] is_marked(mask@, MASK_CUTOFF, k),
        decreases mask@.len() - i,
    {
        if mask[i] >= MASK_CUTOFF {
            proof {
                assert(is_marked(mask@, MASK_CUTOFF, i as int));
            }
            return Ok(());
        }
        i = i + 1;
    }
    let mut out: Vec<char> = Vec::new();
    push_str(&mut out, "nothing was marked for removal");
    Err(string_from_chars(&out))
}

} // verus!
