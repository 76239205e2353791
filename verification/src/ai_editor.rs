//! The AI editor's bookkeeping: which tool is asked for, how a pending result
//! stacks up steps, when a selection encoding is stale, and how results are
//! labelled and previewed.
use vstd::prelude::*;
use crate::text::{chars_of, decimal, push_chars, push_decimal, push_str, same_text, string_from_chars, trim_by, trim_whitespace, ws};

verus! {

/// The longest edge of a preview handed to the interface.
pub const PREVIEW_EDGE: u32 = 1600;

/// The tools whose models download on their own.
#[derive(Debug, Clone, Copy, PartialEq, Eq, Structural)]
pub enum EditorTool {
    Upscale,
    Cutout,
    Segment,
    Inpaint,
    Generate,
}

/// The tool a name asks for.
pub open spec fn tool_of(name: Seq<char>) -> Result<EditorTool, Seq<char>> {
    if name == "upscale"@ {
        Ok(EditorTool::Upscale)
    } else if name == "cutout"@ {
        Ok(EditorTool::Cutout)
    } else if name == "segment"@ {
        Ok(EditorTool::Segment)
    } else if name == "inpaint"@ {
        Ok(EditorTool::Inpaint)
    } else if name == "generate"@ {
        Ok(EditorTool::Generate)
    } else {
        Err("Unknown editor tool: "@ + name)
    }
}

/// Reads which tool's model to download.
pub fn editor_tool(name: &str) -> (r: Result<EditorTool, String>)
    ensures
        match r {
            Ok(t) => tool_of(name@) == Ok::<EditorTool, Seq<char>>(t),
            Err(e) => tool_of(name@) == Err::<EditorTool, Seq<char>>(e@),
        },
{
    if same_text(name, "upscale") {
        Ok(EditorTool::Upscale)
    } else if same_text(name, "cutout") {
        Ok(EditorTool::Cutout)
    } else if same_text(name, "segment") {
        Ok(EditorTool::Segment)
    } else if same_text(name, "inpaint") {
        Ok(EditorTool::Inpaint)
    } else if same_text(name, "generate") {
        Ok(EditorTool::Generate)
    } else {
        let mut message: Vec<char> = Vec::new();
        push_str(&mut message, "Unknown editor tool: ");
        push_str(&mut message, name);
        Err(string_from_chars(&message))
    }
}

/// The views of a list of strings.
pub open spec fn names(v: Seq<String>) -> Seq<Seq<char>> {
    v.map_values(|s: String| s@)
}

/// The steps after applying `step` to `media_id`: added to those already
/// waiting for the same photo, or the first of a new list when what was waiting
/// belonged to another photo.
pub open spec fn steps_after(pending: Option<(Seq<char>, Seq<Seq<char>>)>, media_id: Seq<char>, step: Seq<char>) -> Seq<
    Seq<char>,
> {
    match pending {
        Some((owner, steps)) => if owner == media_id {
            steps.push(step)
        } else {
            seq![step]
        },
        None => seq![step],
    }
}

/// The view of what was waiting: its owner and steps.
pub open spec fn pending_view(pending: Option<(String, Vec<String>)>) -> Option<(Seq<char>, Seq<Seq<char>>)> {
    match pending {
        Some((owner, steps)) => Some((owner@, names(steps@))),
        None => None,
    }
}

/// Records a new step for a photo, given what was waiting as its owner and steps.
pub fn next_steps(pending: Option<(String, Vec<String>)>, media_id: &str, step: &str) -> (r: Vec<String>)
    ensures
        names(r@) == steps_after(pending_view(pending), media_id@, step@),
{
    let ghost before = pending_view(pending);
    let mut steps: Vec<String> = match pending {
        Some((owner, steps)) => if same_text(owner.as_str(), media_id) {
            steps
        } else {
            Vec::new()
        },
        None => Vec::new(),
    };
    let ghost kept = steps@;
    steps.push(step.to_string());
    proof {
        assert(names(steps@) =~= names(kept).push(step@));
        assert(names(steps@) =~= steps_after(before, media_id@, step@));
    }
    steps
}

/// What identifies the pixels a selection encoding describes: the photo, and
/// how many tools have changed it since, when a result is waiting for it.
pub open spec fn selection_key_of(media_id: Seq<char>, pending: Option<(Seq<char>, nat)>) -> Seq<char> {
    match pending {
        Some((owner, count)) => if owner == media_id {
            media_id + seq!['#'] + decimal(count)
        } else {
            media_id
        },
        None => media_id,
    }
}

/// The key an encoding of `media_id` is cached under, given the owner and the
/// number of steps of what is waiting.
pub fn selection_key(media_id: &str, pending: Option<(&str, usize)>) -> (r: String)
    ensures
        r@ == selection_key_of(
            media_id@,
            match pending {
                Some((owner, count)) => Some((owner@, count as nat)),
                None => None,
            },
        ),
{
    let mut out = chars_of(media_id);
    match pending {
        Some((owner, count)) => if same_text(owner, media_id) {
            out.push('#');
            push_decimal(&mut out, count as u64);
        },
        None => {},
    }
    string_from_chars(&out)
}

/// How many passes a generation makes: 25 unless asked, kept between 4 and 50.
pub fn generation_steps(steps: Option<usize>) -> (r: usize)
    ensures
        r == (match steps {
            Some(s) => if s < 4 {
                4
            } else if s > 50 {
                50
            } else {
                s
            },
            None => 25,
        }),
{
    match steps {
        Some(s) => if s < 4 {
            4
        } else if s > 50 {
            50
        } else {
            s
        },
        None => 25,
    }
}

/// How a cutout is labelled in the list of steps.
pub fn background_step(replaced: bool) -> (r: &'static str)
    ensures
        r@ == (if replaced {
            "Background replaced"@
        } else {
            "Background removed"@
        }),
{
    if replaced {
        "Background replaced"
    } else {
        "Background removed"
    }
}

/// How a generation is labelled: the prompt, trimmed, in quotes, cut after 28
/// characters with an ellipsis.
pub open spec fn paint_label_of(prompt: Seq<char>) -> Seq<char> {
    let summary = trim_by(prompt, ws());
    if summary.len() > 28 {
        "Painted “"@ + summary.take(28) + "…”"@
    } else {
        "Painted “"@ + summary + "”"@
    }
}

/// The step label for a generation.
pub fn paint_label(prompt: &str) -> (r: String)
    ensures
        r@ == paint_label_of(prompt@),
{
    let chars = chars_of(prompt);
    let summary = trim_whitespace(&chars);
    let mut out: Vec<char> = Vec::new();
    push_str(&mut out, "Painted “");
    if summary.len() > 28 {
        let mut k: usize = 0;
        let ghost start = out@;
        while k < 28
            invariant
                summary@.len() > 28,
                k <= 28,
                out@ == start + summary@.take(k as int),
            decreases 28 - k,
        {
            out.push(summary[k]);
            k = k + 1;
            proof {
                assert(out@ =~= start + summary@.take(k as int));
            }
        }
        push_str(&mut out, "…”");
    } else {
        push_chars(&mut out, &summary);
        push_str(&mut out, "”");
    }
    string_from_chars(&out)
}

/// `v * 1600 / m`, rounded half away from zero.
pub open spec fn scaled_side(v: int, m: int) -> int {
    (2 * PREVIEW_EDGE * v + m) / (2 * m)
}

/// The size a result is previewed at: shrunk so its longest edge is 1600 when
/// it is larger, otherwise its own.
pub fn preview_size(width: u32, height: u32) -> (r: (u32, u32))
    ensures
        ({
            let m = if width >= height {
                width as int
            } else {
                height as int
            };
            if m > PREVIEW_EDGE {
                r.0 == scaled_side(width as int, m) && r.1 == scaled_side(height as int, m)
            } else {
                r.0 == width && r.1 == height
            }
        }),
        r.0 <= PREVIEW_EDGE || r.0 == width,
        r.1 <= PREVIEW_EDGE || r.1 == height,
{
    let m: u64 = if width >= height {
        width as u64
    } else {
        height as u64
    };
    if m <= PREVIEW_EDGE as u64 {
        return (width, height);
    }
    assert(scaled_side(width as int, m as int) <= PREVIEW_EDGE && scaled_side(height as int, m as int)
        <= PREVIEW_EDGE) by (nonlinear_arith)
        requires
            width <= m,
            height <= m,
            m > PREVIEW_EDGE,
    ;
    let w = (2 * (PREVIEW_EDGE as u64) * (width as u64) + m) / (2 * m);
    let h = (2 * (PREVIEW_EDGE as u64) * (height as u64) + m) / (2 * m);
    (w as u32, h as u32)
}

} // verus!
