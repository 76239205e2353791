//! What the local chat model is told: the photos found for a question, one line
//! each, and the question itself.
use vstd::prelude::*;
use crate::paths::string_opt_view;
use crate::text::{chars_of, decimal, push_decimal, push_str, string_from_chars, trim_by, trim_whitespace, ws};

verus! {

/// The instructions the model answers under.
pub const SYSTEM_PROMPT: &'static str = "You are Hive, a local assistant for someone's personal photo library. You are given a short list of photos (filename, date, camera, and any text found in the photo) that were retrieved for the user's question. Answer using only what's in that list — if it doesn't contain the answer, say so plainly rather than guessing. Keep replies to a few sentences, in a warm and direct tone, and don't repeat the raw list back verbatim.";

/// How many photos are retrieved for one question.
pub const CONTEXT_PHOTOS: i64 = 8;

/// How much of the text found in a photo is quoted.
pub const QUOTED_CHARS: usize = 200;

/// What the model is told about one photo.
pub struct ContextRow {
    pub filename: String,
    pub taken_at: Option<String>,
    pub camera_model: Option<String>,
    pub ocr_text: Option<String>,
}

/// `value`, or `fallback` when there is none.
pub open spec fn or_else(value: Option<Seq<char>>, fallback: Seq<char>) -> Seq<char> {
    match value {
        Some(v) => v,
        None => fallback,
    }
}

/// The quoted text of a photo: its first 200 characters once trimmed, and
/// nothing when there is no text or only white space.
pub open spec fn quoted_text(ocr: Option<Seq<char>>) -> Seq<char> {
    match ocr {
        Some(t) => {
            let trimmed = trim_by(t, ws());
            if trimmed.len() == 0 {
                Seq::empty()
            } else {
                " — visible text: \""@ + trimmed.take(if trimmed.len() <= 200 {
                    trimmed.len() as int
                } else {
                    200
                }) + "\""@
            }
        },
        None => Seq::empty(),
    }
}

/// The line for the `i`th photo, counting from zero.
pub open spec fn context_line(i: int, row: ContextRow) -> Seq<char> {
    decimal((i + 1) as nat) + ". "@ + row.filename@ + " (taken "@ + or_else(
        string_opt_view(row.taken_at),
        "unknown date"@,
    ) + ", "@ + or_else(string_opt_view(row.camera_model), "unknown camera"@) + ")"@ + quoted_text(
        string_opt_view(row.ocr_text),
    )
}

/// The lines for the first `n` photos, one per line.
pub open spec fn context_lines(rows: Seq<ContextRow>, n: int) -> Seq<char>
    decreases n,
{
    if n <= 0 {
        Seq::empty()
    } else if n == 1 {
        context_line(0, rows[0])
    } else {
        context_lines(rows, n - 1) + seq!['\n'] + context_line(n - 1, rows[n - 1])
    }
}

/// The list the model is shown.
pub open spec fn context_text(rows: Seq<ContextRow>) -> Seq<char> {
    if rows.len() == 0 {
        "(no matching photos were found in the library)"@
    } else {
        context_lines(rows, rows.len() as int)
    }
}

fn push_opt_or(out: &mut Vec<char>, value: &Option<String>, fallback: &str)
    ensures
        final(out)@ == old(out)@ + or_else(string_opt_view(*value), fallback@),
{
    match value {
        Some(v) => push_str(out, v.as_str()),
        None => push_str(out, fallback),
    }
}

fn push_quoted(out: &mut Vec<char>, ocr: &Option<String>)
    ensures
        final(out)@ == old(out)@ + quoted_text(string_opt_view(*ocr)),
{
    match ocr {
        Some(t) => {
            let chars = chars_of(t.as_str());
            let trimmed = trim_whitespace(&chars);
            if trimmed.len() > 0 {
                push_str(out, " — visible text: \"");
                let n = if trimmed.len() <= QUOTED_CHARS {
                    trimmed.len()
                } else {
                    QUOTED_CHARS
                };
                let mut k: usize = 0;
                let ghost start = out@;
                while k < n
                    invariant
                        n <= trimmed@.len(),
                        k <= n,
                        out@ == start + trimmed@.take(k as int),
                    decreases n - k,
                {
                    out.push(trimmed[k]);
                    k = k + 1;
                    proof {
                        assert(out@ =~= start + trimmed@.take(k as int));
                    }
                }
                push_str(out, "\"");
            }
        },
        None => {},
    }
}

/// Lists the photos found for a question, one numbered line each: file name,
/// date, camera, and any text visible in it.
pub fn format_context(rows: &Vec<ContextRow>) -> (r: String)
    ensures
        r@ == context_text(rows@),
{
    if rows.len() == 0 {
        return "(no matching photos were found in the library)".to_string();
    }
    let mut out: Vec<char> = Vec::new();
    let mut i: usize = 0;
    while i < rows.len()
        invariant
            rows@.len() > 0,
            i <= rows@.len(),
            out@ == context_lines(rows@, i as int),
        decreases rows@.len() - i,
    {
        let ghost before = out@;
        if i > 0 {
            out.push('\n');
        }
        let row = &rows[i];
        push_decimal(&mut out, (i as u64) + 1);
        push_str(&mut out, ". ");
        push_str(&mut out, row.filename.as_str());
        push_str(&mut out, " (taken ");
        push_opt_or(&mut out, &row.taken_at, "unknown date");
        push_str(&mut out, ", ");
        push_opt_or(&mut out, &row.camera_model, "unknown camera");
        push_str(&mut out, ")");
        push_quoted(&mut out, &row.ocr_text);
        proof {
            if i == 0 {
                assert(out@ =~= context_line(0, rows@[0]));
            } else {
                assert(out@ =~= before + seq!['\n'] + context_line(i as int, rows@[i as int]));
            }
        }
        i = i + 1;
    }
    string_from_chars(&out)
}

/// The prompt for a question: the photos found, then the question.
pub fn user_prompt(context: &str, message: &str) -> (r: String)
    ensures
        r@ == "Photos found for this question:\n"@ + context@ + "\n\nQuestion: "@ + message@,
{
    let mut out: Vec<char> = Vec::new();
    push_str(&mut out, "Photos found for this question:\n");
    push_str(&mut out, context);
    push_str(&mut out, "\n\nQuestion: ");
    push_str(&mut out, message);
    string_from_chars(&out)
}

} // verus!
