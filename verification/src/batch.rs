//! Batch renaming: turning a pattern into new file names, and spotting clashes
//! before anything on disk is touched.
use vstd::prelude::*;
use vstd::utf8::{decode_utf8, encode_utf8, is_char_boundary};
use crate::models::{BatchReport, RenamePreview};
use crate::indexing::{lowercase, lowercase_of};
use crate::paths::{answered, string_opt_view, file_name_of, platform_file_name, platform_with_file_name, with_file_name_of};
use crate::text::{
    lemma_trimmed_chars_come_from_the_text, chars_of, decimal, is_char, padded3, push_chars, push_decimal, push_padded3, push_str, replace_all,
    replace_all_chars, same_text, string_from_chars, sub_chars, trim_by, trim_char, trim_whitespace, ws,
};

verus! {

broadcast use vstd::string::group_string_axioms;

/// Characters Windows refuses in a file name. Anything else the user types is kept.
pub open spec fn illegal_in_file_name(c: char) -> bool {
    c == '\\' || c == '/' || c == ':' || c == '*' || c == '?' || c == '"' || c == '<'
        || c == '>' || c == '|'
}

fn is_illegal_in_file_name(c: char) -> (r: bool)
    ensures
        r == illegal_in_file_name(c),
{
    c == '\\' || c == '/' || c == ':' || c == '*' || c == '?' || c == '"' || c == '<' || c == '>'
        || c == '|'
}

/// `s` with the characters Windows refuses taken out.
pub open spec fn legal_chars(s: Seq<char>) -> Seq<char>
    decreases s.len(),
{
    if s.len() == 0 {
        s
    } else if illegal_in_file_name(s.last()) {
        legal_chars(s.drop_last())
    } else {
        legal_chars(s.drop_last()).push(s.last())
    }
}

/// A name made safe for a file: refused characters dropped, then white space and
/// then dots trimmed from both ends.
pub open spec fn sanitized(name: Seq<char>) -> Seq<char> {
    trim_by(trim_by(legal_chars(name), ws()), is_char('.'))
}

proof fn lemma_legal_chars_are_legal(s: Seq<char>)
    ensures
        forall|k: int| 0 <= k < legal_chars(s).len() ==> !illegal_in_file_name(#[trigger] legal_chars(s)[k]),
    decreases s.len(),
{
    if s.len() > 0 {
        let rest = legal_chars(s.drop_last());
        lemma_legal_chars_are_legal(s.drop_last());
        if !illegal_in_file_name(s.last()) {
            assert forall|k: int| 0 <= k < legal_chars(s).len() implies !illegal_in_file_name(
                #[trigger] legal_chars(s)[k],
            ) by {
                if k < rest.len() {
                    assert(legal_chars(s)[k] == rest[k]);
                }
            }
        }
    }
}

/// A sanitized name holds none of the characters Windows refuses.
pub proof fn lemma_sanitized_names_are_legal(name: Seq<char>)
    ensures
        forall|k: int| 0 <= k < sanitized(name).len() ==> !illegal_in_file_name(#[trigger] sanitized(name)[k]),
{
    let kept = legal_chars(name);
    lemma_legal_chars_are_legal(name);
    let trimmed = trim_by(kept, ws());
    lemma_trimmed_chars_come_from_the_text(kept, ws());
    lemma_trimmed_chars_come_from_the_text(trimmed, is_char('.'));
    assert forall|k: int| 0 <= k < sanitized(name).len() implies !illegal_in_file_name(#[trigger] sanitized(name)[k]) by {
        let c = sanitized(name)[k];
        assert(trimmed.contains(c));
        let a = choose|a: int| 0 <= a < trimmed.len() && trimmed[a] == c;
        assert(kept.contains(trimmed[a]));
    }
}

/// A sanitized name holds none of the characters Windows refuses in a file
/// name: backslash, slash, colon, star, question mark, double quote, less-than,
/// greater-than and bar.
pub proof fn lemma_sanitized_names_hold_no_refused_character(name: Seq<char>)
    ensures
        forall|k: int|
            0 <= k < sanitized(name).len() ==> #[trigger] sanitized(name)[k] != '\\' && #[trigger] sanitized(name)[k] != '/' && #[trigger] sanitized(name)[k] != ':' && #[trigger] sanitized(name)[k] != '*' && #[trigger] sanitized(name)[k] != '?' && #[trigger] sanitized(name)[k] != '"' && #[trigger] sanitized(name)[k] != '<' && #[trigger] sanitized(name)[k] != '>' && #[trigger] sanitized(name)[k] != '|',
{
    lemma_sanitized_names_are_legal(name);
}

/// Makes `name` safe to use as a file name.
pub fn sanitize(name: &str) -> (r: String)
    ensures
        r@ == sanitized(name@),
{
    let chars = chars_of(name);
    let mut kept: Vec<char> = Vec::new();
    let mut i: usize = 0;
    while i < chars.len()
        invariant
            i <= chars@.len(),
            kept@ == legal_chars(chars@.take(i as int)),
        decreases chars@.len() - i,
    {
        let c = chars[i];
        proof {
            assert(chars@.take(i + 1).drop_last() =~= chars@.take(i as int));
        }
        if !is_illegal_in_file_name(c) {
            kept.push(c);
        }
        i = i + 1;
    }
    proof {
        assert(chars@.take(i as int) =~= chars@);
    }
    let trimmed = trim_whitespace(&kept);
    let cleaned = trim_char(&trimmed, '.');
    string_from_chars(&cleaned)
}

/// The capture day written into a new name: the first ten bytes of the capture
/// time (`YYYY-MM-DD`), or `undated` when there is no time or its first ten bytes
/// do not end on a character.
pub open spec fn capture_day(taken_at: Option<Seq<char>>) -> Seq<char> {
    match taken_at {
        Some(value) => {
            let bytes = encode_utf8(value);
            if bytes.len() >= 10 && is_char_boundary(bytes, 10) {
                decode_utf8(bytes.subrange(0, 10))
            } else {
                "undated"@
            }
        },
        None => "undated"@,
    }
}

/// The view of an optional string slice.
pub open spec fn str_opt_view(o: Option<&str>) -> Option<Seq<char>> {
    match o {
        Some(s) => Some(s@),
        None => None,
    }
}

fn day_of(taken_at: Option<&str>) -> (r: String)
    ensures
        r@ == capture_day(str_opt_view(taken_at)),
{
    match taken_at {
        Some(value) => {
            let bytes = value.as_bytes();
            if bytes.len() >= 10 && value.is_char_boundary(10) {
                let (day, _) = value.split_at(10);
                proof {
                    vstd::utf8::encode_utf8_decode_utf8(day@);
                }
                day.to_string()
            } else {
                "undated".to_string()
            }
        },
        None => "undated".to_string(),
    }
}

/// The stem a pattern produces: `{name}` becomes the original stem, `{n}` the
/// sequence number in three digits, `{date}` the capture day, in that order; the
/// result is sanitized, and where nothing is left the name is `stem-NNN`.
pub open spec fn expanded_name(pattern: Seq<char>, stem: Seq<char>, index: int, day: Seq<char>) -> Seq<char> {
    let expanded = replace_all(
        replace_all(replace_all(pattern, "{name}"@, stem), "{n}"@, padded3(index)),
        "{date}"@,
        day,
    );
    let cleaned = sanitized(expanded);
    if cleaned.len() == 0 {
        stem + seq!['-'] + padded3(index)
    } else {
        cleaned
    }
}

/// A pattern never yields an empty name: when nothing survives sanitizing, the
/// name falls back to the stem and the number.
pub proof fn lemma_expanded_names_are_never_empty(pattern: Seq<char>, stem: Seq<char>, index: int, day: Seq<char>)
    ensures
        expanded_name(pattern, stem, index, day).len() > 0,
{
}

/// An expanded name holds none of the characters Windows refuses, given a stem
/// that holds none: the expansion is sanitized, and its fallback is the stem, a
/// dash and digits.
pub proof fn lemma_expanded_names_hold_no_refused_character(pattern: Seq<char>, stem: Seq<char>, index: int, day: Seq<char>)
    requires
        forall|k: int| 0 <= k < stem.len() ==> #[trigger] stem[k] != '\\' && #[trigger] stem[k] != '/' && #[trigger] stem[k] != ':' && #[trigger] stem[k] != '*' && #[trigger] stem[k] != '?' && #[trigger] stem[k] != '"' && #[trigger] stem[k] != '<' && #[trigger] stem[k] != '>' && #[trigger] stem[k] != '|',
    ensures
        forall|k: int|
            0 <= k < expanded_name(pattern, stem, index, day).len() ==> #[trigger] expanded_name(pattern, stem, index, day)[k] != '\\' && #[trigger] expanded_name(pattern, stem, index, day)[k] != '/' && #[trigger] expanded_name(pattern, stem, index, day)[k] != ':' && #[trigger] expanded_name(pattern, stem, index, day)[k] != '*' && #[trigger] expanded_name(pattern, stem, index, day)[k] != '?' && #[trigger] expanded_name(pattern, stem, index, day)[k] != '"' && #[trigger] expanded_name(pattern, stem, index, day)[k] != '<' && #[trigger] expanded_name(pattern, stem, index, day)[k] != '>' && #[trigger] expanded_name(pattern, stem, index, day)[k] != '|',
{
    let expanded = replace_all(
        replace_all(replace_all(pattern, "{name}"@, stem), "{n}"@, padded3(index)),
        "{date}"@,
        day,
    );
    lemma_sanitized_names_hold_no_refused_character(expanded);
    crate::text::lemma_padded3_is_digits_or_minus(index);
    let r = expanded_name(pattern, stem, index, day);
    if sanitized(expanded).len() == 0 {
        let digits = padded3(index);
        assert forall|k: int| 0 <= k < r.len() implies #[trigger] r[k] != '\\' && #[trigger] r[k] != '/' && #[trigger] r[k] != ':' && #[trigger] r[k] != '*' && #[trigger] r[k] != '?' && #[trigger] r[k] != '"' && #[trigger] r[k] != '<' && #[trigger] r[k] != '>' && #[trigger] r[k] != '|' by {
            if k < stem.len() {
                assert(r[k] == stem[k]);
            } else if k == stem.len() {
                assert(r[k] == '-');
            } else {
                assert(r[k] == digits[k - stem.len() - 1]);
            }
        }
    }
}

/// Expands the rename pattern for one item. The extension is never part of the
/// pattern: it is carried over from the original file, so a pattern cannot
/// produce a name that no program opens.
pub fn expand_pattern(pattern: &str, stem: &str, index: i64, taken_at: Option<&str>) -> (r: String)
    ensures
        r@ == expanded_name(pattern@, stem@, index as int, capture_day(str_opt_view(taken_at))),
{
    proof {
        reveal_strlit("{name}");
        reveal_strlit("{n}");
        reveal_strlit("{date}");
    }
    let day = day_of(taken_at);
    let day_chars = chars_of(day.as_str());
    let stem_chars = chars_of(stem);
    let mut number: Vec<char> = Vec::new();
    push_padded3(&mut number, index);
    let pattern_chars = chars_of(pattern);
    let with_name = replace_all_chars(&pattern_chars, "{name}", &stem_chars);
    let with_number = replace_all_chars(&with_name, "{n}", &number);
    let with_day = replace_all_chars(&with_number, "{date}", &day_chars);
    let expanded = string_from_chars(&with_day);
    let cleaned = sanitize(expanded.as_str());
    if cleaned.as_str().is_empty() {
        let mut fallback: Vec<char> = Vec::new();
        push_chars(&mut fallback, &stem_chars);
        fallback.push('-');
        push_padded3(&mut fallback, index);
        proof {
            assert(fallback@ =~= stem@ + seq!['-'] + padded3(index as int));
        }
        string_from_chars(&fallback)
    } else {
        cleaned
    }
}

/// The position of the last `.` in `name`, or -1 when there is none.
pub open spec fn last_dot(name: Seq<char>) -> int
    decreases name.len(),
{
    if name.len() == 0 {
        -1
    } else if name.last() == '.' {
        name.len() - 1
    } else {
        last_dot(name.drop_last())
    }
}

/// The stem of a file name, as `Path::file_stem` documents it: the whole name
/// when it has no `.` or its only `.` is the first character, else the part
/// before the last `.`.
pub open spec fn stem_of(name: Seq<char>) -> Seq<char> {
    if last_dot(name) <= 0 {
        name
    } else {
        name.take(last_dot(name))
    }
}

/// The extension of a file name, as `Path::extension` documents it: none when
/// the name has no `.` or its only `.` is the first character, else the part
/// after the last `.`.
pub open spec fn extension_of(name: Seq<char>) -> Option<Seq<char>> {
    if last_dot(name) <= 0 {
        None
    } else {
        Some(name.skip(last_dot(name) + 1))
    }
}

proof fn lemma_last_dot(name: Seq<char>)
    ensures
        -1 <= last_dot(name) < name.len(),
        last_dot(name) >= 0 ==> name[last_dot(name)] == '.',
        forall|k: int| last_dot(name) < k < name.len() ==> name[k] != '.',
    decreases name.len(),
{
    if name.len() > 0 && name.last() != '.' {
        let rest = name.drop_last();
        lemma_last_dot(rest);
        assert forall|k: int| last_dot(name) < k < name.len() implies name[k] != '.' by {
            if k < rest.len() {
                assert(name[k] == rest[k]);
            }
        }
    }
}

/// Splits a file name into its stem and extension.
pub fn split_file_name(name: &str) -> (r: (String, Option<String>))
    ensures
        r.0@ == stem_of(name@),
        string_opt_view(r.1) == extension_of(name@),
{
    let chars = chars_of(name);
    let mut k: usize = chars.len();
    while k > 0 && chars[k - 1] != '.'
        invariant
            k <= chars@.len(),
            forall|j: int| k <= j < chars@.len() ==> chars@[j] != '.',
        decreases k,
    {
        k = k - 1;
    }
    proof {
        lemma_last_dot(name@);
        let d = last_dot(name@);
        if k > 0 {
            assert(d == k - 1) by {
                if d < k - 1 {
                    assert(name@[k - 1] != '.');
                }
            }
        } else {
            assert(d == -1) by {
                if d >= 0 {
                    assert(chars@[d] != '.');
                }
            }
        }
    }
    if k <= 1 {
        (string_from_chars(&chars), None)
    } else {
        let stem = sub_chars(&chars, 0, k - 1);
        let ext = sub_chars(&chars, k, chars.len());
        proof {
            assert(stem@ =~= name@.take(k - 1));
            assert(ext@ =~= name@.skip(k as int));
        }
        (string_from_chars(&stem), Some(string_from_chars(&ext)))
    }
}

/// The new file name for a file whose name is `file_name`: the expanded pattern,
/// followed by the original extension with its dot.
pub open spec fn renamed(
    pattern: Seq<char>,
    file_name: Option<Seq<char>>,
    index: int,
    day: Seq<char>,
) -> Seq<char> {
    let stem = match file_name {
        Some(n) => stem_of(n),
        None => Seq::empty(),
    };
    let extension = match file_name {
        Some(n) => match extension_of(n) {
            Some(e) => seq!['.'] + e,
            None => Seq::empty(),
        },
        None => Seq::empty(),
    };
    expanded_name(pattern, stem, index, day) + extension
}

/// A new name holds none of the characters Windows refuses when the file's
/// present name holds none: its stem is expanded and sanitized, and its
/// extension is carried over unchanged.
pub proof fn lemma_new_names_hold_no_refused_character(
    pattern: Seq<char>,
    file_name: Option<Seq<char>>,
    index: int,
    day: Seq<char>,
)
    requires
        forall|n: Seq<char>, k: int| file_name == Some(n) && 0 <= k < n.len() ==> #[trigger] n[k] != '\\' && #[trigger] n[k] != '/' && #[trigger] n[k] != ':' && #[trigger] n[k] != '*' && #[trigger] n[k] != '?' && #[trigger] n[k] != '"' && #[trigger] n[k] != '<' && #[trigger] n[k] != '>' && #[trigger] n[k] != '|',
    ensures
        forall|k: int|
            0 <= k < renamed(pattern, file_name, index, day).len() ==> #[trigger] renamed(pattern, file_name, index, day)[k] != '\\' && #[trigger] renamed(pattern, file_name, index, day)[k] != '/' && #[trigger] renamed(pattern, file_name, index, day)[k] != ':' && #[trigger] renamed(pattern, file_name, index, day)[k] != '*' && #[trigger] renamed(pattern, file_name, index, day)[k] != '?' && #[trigger] renamed(pattern, file_name, index, day)[k] != '"' && #[trigger] renamed(pattern, file_name, index, day)[k] != '<' && #[trigger] renamed(pattern, file_name, index, day)[k] != '>' && #[trigger] renamed(pattern, file_name, index, day)[k] != '|',
{
    let stem = match file_name {
        Some(n) => stem_of(n),
        None => Seq::empty(),
    };
    let extension = match file_name {
        Some(n) => match extension_of(n) {
            Some(e) => seq!['.'] + e,
            None => Seq::empty(),
        },
        None => Seq::empty(),
    };
    match file_name {
        Some(n) => {
            lemma_last_dot(n);
            assert forall|k: int| 0 <= k < stem.len() implies #[trigger] stem[k] != '\\' && #[trigger] stem[k] != '/' && #[trigger] stem[k] != ':' && #[trigger] stem[k] != '*' && #[trigger] stem[k] != '?' && #[trigger] stem[k] != '"' && #[trigger] stem[k] != '<' && #[trigger] stem[k] != '>' && #[trigger] stem[k] != '|' by {
                assert(stem[k] == n[k]);
            }
        },
        None => {},
    }
    lemma_expanded_names_hold_no_refused_character(pattern, stem, index, day);
    let x = expanded_name(pattern, stem, index, day);
    let r = renamed(pattern, file_name, index, day);
    assert(r == x + extension);
    assert forall|k: int| 0 <= k < r.len() implies #[trigger] r[k] != '\\' && #[trigger] r[k] != '/' && #[trigger] r[k] != ':' && #[trigger] r[k] != '*' && #[trigger] r[k] != '?' && #[trigger] r[k] != '"' && #[trigger] r[k] != '<' && #[trigger] r[k] != '>' && #[trigger] r[k] != '|' by {
        if k < x.len() {
            assert(r[k] == x[k]);
        } else {
            match file_name {
                Some(n) => {
                    let d = last_dot(n);
                    assert(r[k] == extension[k - x.len()]);
                    if k > x.len() {
                        assert(extension[k - x.len()] == n[d + 1 + (k - x.len() - 1)]);
                    }
                },
                None => {},
            }
        }
    }
}

/// The new name of one file, given the file name of its path.
pub fn new_file_name(pattern: &str, file_name: &Option<String>, index: i64, taken_at: Option<&str>) -> (r: String)
    ensures
        r@ == renamed(pattern@, string_opt_view(*file_name), index as int, capture_day(str_opt_view(taken_at))),
{
    let (stem, extension) = match file_name {
        Some(n) => split_file_name(n.as_str()),
        None => (String::new(), None),
    };
    let new_stem = expand_pattern(pattern, stem.as_str(), index, taken_at);
    let mut out = chars_of(new_stem.as_str());
    match extension {
        Some(e) => {
            out.push('.');
            let e_chars = chars_of(e.as_str());
            push_chars(&mut out, &e_chars);
        },
        None => {},
    }
    proof {
        assert(out@ =~= renamed(pattern@, string_opt_view(*file_name), index as int, capture_day(str_opt_view(taken_at))));
    }
    string_from_chars(&out)
}

/// The views of a sequence of strings.
pub open spec fn strings_view(v: Seq<String>) -> Seq<Seq<char>> {
    v.map_values(|s: String| s@)
}

/// Whether a row before `i` already took the target `t`: it is renamed, and its
/// target was free on disk.
pub open spec fn claimed_before(
    changed: Seq<bool>,
    on_disk: Seq<bool>,
    targets: Seq<Seq<char>>,
    i: int,
    t: Seq<char>,
) -> bool {
    exists|j: int| 0 <= j < i && changed[j] && !on_disk[j] && #[trigger] targets[j] == t
}

/// A rename clashes when it changes the name and its target is on disk already
/// or was taken by an earlier row of the same batch.
pub open spec fn in_conflict(changed: Seq<bool>, on_disk: Seq<bool>, targets: Seq<Seq<char>>, i: int) -> bool {
    changed[i] && (on_disk[i] || claimed_before(changed, on_disk, targets, i, targets[i]))
}

fn contains_string(v: &Vec<String>, s: &String) -> (r: bool)
    ensures
        r == (exists|k: int| 0 <= k < v@.len() && #[trigger] v@[k]@ == s@),
{
    let mut k: usize = 0;
    while k < v.len()
        invariant
            k <= v@.len(),
            forall|j: int| 0 <= j < k ==> v@[j]@ != s@,
        decreases v@.len() - k,
    {
        if v[k] == *s {
            return true;
        }
        k = k + 1;
    }
    false
}

/// Marks the rows whose rename would clash. `changed[i]` says whether row `i`
/// gets a new name, `on_disk[i]` whether its target exists already (asked only
/// for rows that change), `targets[i]` the path it would move to.
pub fn flag_conflicts(changed: &Vec<bool>, on_disk: &Vec<bool>, targets: &Vec<String>) -> (conflicts: Vec<bool>)
    requires
        changed@.len() == on_disk@.len(),
        changed@.len() == targets@.len(),
    ensures
        conflicts@.len() == changed@.len(),
        forall|i: int|
            0 <= i < changed@.len() ==> conflicts@[i] == in_conflict(changed@, on_disk@, strings_view(targets@), i),
{
    let ghost tv = strings_view(targets@);
    let mut taken: Vec<String> = Vec::new();
    let mut conflicts: Vec<bool> = Vec::new();
    let mut i: usize = 0;
    while i < changed.len()
        invariant
            changed@.len() == on_disk@.len(),
            changed@.len() == targets@.len(),
            tv == strings_view(targets@),
            i <= changed@.len(),
            conflicts@.len() == i,
            forall|k: int|
                0 <= k < i ==> conflicts@[k] == in_conflict(changed@, on_disk@, tv, k),
            forall|t: Seq<char>|
                (exists|k: int| 0 <= k < taken@.len() && #[trigger] taken@[k]@ == t)
                    <==> claimed_before(changed@, on_disk@, tv, i as int, t),
        decreases changed@.len() - i,
    {
        let target = &targets[i];
        let ghost before = taken@;
        let mut conflict = false;
        let mut seen = false;
        if changed[i] {
            seen = contains_string(&taken, target);
            conflict = on_disk[i] || seen;
            if !on_disk[i] && !seen {
                taken.push(target.clone());
            }
        }
        proof {
            let next: int = i + 1;
            assert(tv[i as int] == target@);
            if changed@[i as int] && seen {
                let k = choose|k: int| 0 <= k < before.len() && #[trigger] before[k]@ == target@;
                assert(exists|k: int| 0 <= k < before.len() && #[trigger] before[k]@ == tv[i as int]);
            }
            assert forall|t: Seq<char>|
                (exists|k: int| 0 <= k < taken@.len() && #[trigger] taken@[k]@ == t)
                    <==> #[trigger] claimed_before(changed@, on_disk@, tv, next, t) by {
                if claimed_before(changed@, on_disk@, tv, next, t) {
                    let j = choose|j: int|
                        0 <= j < i + 1 && changed@[j] && !on_disk@[j] && #[trigger] tv[j] == t;
                    if j < i {
                        assert(claimed_before(changed@, on_disk@, tv, i as int, t));
                        let k = choose|k: int| 0 <= k < before.len() && #[trigger] before[k]@ == t;
                        assert(taken@[k] == before[k]);
                    } else if seen {
                        let k = choose|k: int| 0 <= k < before.len() && #[trigger] before[k]@ == t;
                        assert(taken@[k] == before[k]);
                    } else {
                        assert(taken@[taken@.len() - 1]@ == t);
                    }
                }
                if exists|k: int| 0 <= k < taken@.len() && #[trigger] taken@[k]@ == t {
                    let k = choose|k: int| 0 <= k < taken@.len() && #[trigger] taken@[k]@ == t;
                    if k < before.len() {
                        assert(before[k]@ == t);
                        assert(claimed_before(changed@, on_disk@, tv, i as int, t));
                        let j = choose|j: int|
                            0 <= j < i && changed@[j] && !on_disk@[j] && #[trigger] tv[j] == t;
                        assert(claimed_before(changed@, on_disk@, tv, next, t));
                    } else {
                        assert(tv[i as int] == t);
                        assert(claimed_before(changed@, on_disk@, tv, next, t));
                    }
                }
            }
        }
        conflicts.push(conflict);
        i = i + 1;
    }
    conflicts
}

/// Within one batch, two renames that both go ahead never share a target: the
/// later of two rows with one target is flagged, unless the earlier one was.
pub proof fn lemma_clear_renames_have_distinct_targets(
    changed: Seq<bool>,
    on_disk: Seq<bool>,
    targets: Seq<Seq<char>>,
    i: int,
    j: int,
)
    requires
        changed.len() == on_disk.len(),
        changed.len() == targets.len(),
        0 <= i < j < changed.len(),
        changed[i],
        changed[j],
        !in_conflict(changed, on_disk, targets, i),
        !in_conflict(changed, on_disk, targets, j),
    ensures
        targets[i] != targets[j],
{
    if targets[i] == targets[j] {
        assert(claimed_before(changed, on_disk, targets, j, targets[j]));
    }
}

/// A target that comes back later in the batch is flagged there, when the disk
/// answers the same for the same path.
pub proof fn lemma_repeated_target_conflicts(
    changed: Seq<bool>,
    on_disk: Seq<bool>,
    targets: Seq<Seq<char>>,
    i: int,
    j: int,
)
    requires
        changed.len() == on_disk.len(),
        changed.len() == targets.len(),
        0 <= i < j < changed.len(),
        changed[i],
        changed[j],
        targets[i] == targets[j],
        on_disk[i] == on_disk[j],
    ensures
        in_conflict(changed, on_disk, targets, j),
{
    if !on_disk[j] {
        assert(claimed_before(changed, on_disk, targets, j, targets[j]));
    }
}

/// The new name of a row `(id, path, file name, capture time)` numbered `index`.
pub open spec fn row_name(pattern: Seq<char>, row: (String, String, String, Option<String>), index: int) -> Seq<char> {
    renamed(pattern, platform_file_name(row.1@), index, capture_day(string_opt_view(row.3)))
}

/// The path a row would move to.
pub open spec fn row_target(pattern: Seq<char>, row: (String, String, String, Option<String>), index: int) -> Seq<char> {
    platform_with_file_name(row.1@, row_name(pattern, row, index))
}

/// Whether a preview goes ahead: the name changes and nothing clashes.
pub open spec fn goes_ahead(p: RenamePreview) -> bool {
    p.to@ != p.from@ && !p.conflict
}

/// Whether each row of `rows` gets a new name under `pattern`, numbering from `start`.
pub open spec fn rows_changed(
    pattern: Seq<char>,
    rows: Seq<(String, String, String, Option<String>)>,
    start: int,
) -> Seq<bool> {
    Seq::new(rows.len(), |k: int| row_name(pattern, rows[k], start + k) != rows[k].2@)
}

/// The paths the rows of `rows` would move to.
pub open spec fn rows_targets(
    pattern: Seq<char>,
    rows: Seq<(String, String, String, Option<String>)>,
    start: int,
) -> Seq<Seq<char>> {
    Seq::new(rows.len(), |k: int| row_target(pattern, rows[k], start + k))
}

/// `on_disk[k]` is what `path_exists` answered for the target of row `k`, for
/// each row that changes; a row that keeps its name was not asked about.
pub open spec fn disk_answers<F: Fn(&str) -> bool>(
    path_exists: F,
    changed: Seq<bool>,
    targets: Seq<Seq<char>>,
    on_disk: Seq<bool>,
) -> bool {
    &&& on_disk.len() == changed.len()
    &&& forall|k: int|
        0 <= k < changed.len() ==> if changed[k] {
            answered(path_exists, targets[k], #[trigger] on_disk[k])
        } else {
            !on_disk[k]
        }
}

/// Shows what renaming `rows` (id, path, file name, capture time) with `pattern`
/// would produce, numbering from `start_index`. `path_exists` tells whether a path is
/// taken on disk; it is asked only for rows whose name changes.
pub fn build_previews<F: Fn(&str) -> bool>(
    rows: &[(String, String, String, Option<String>)],
    pattern: &str,
    start_index: i64,
    path_exists: F,
) -> (previews: Vec<RenamePreview>)
    requires
        rows@.len() <= i64::MAX,
        start_index + rows@.len() <= i64::MAX + 1,
        forall|t: &str| path_exists.requires((t,)),
    ensures
        previews@.len() == rows@.len(),
        forall|i: int|
            0 <= i < rows@.len() ==> {
                &&& (#[trigger] previews@[i]).media_id@ == rows@[i].0@
                &&& previews@[i].from@ == rows@[i].2@
                &&& previews@[i].to@ == row_name(pattern@, rows@[i], start_index + i)
                &&& (previews@[i].to@ == previews@[i].from@ ==> !previews@[i].conflict)
            },
        exists|on_disk: Seq<bool>|
            #[trigger] disk_answers(
                path_exists,
                rows_changed(pattern@, rows@, start_index as int),
                rows_targets(pattern@, rows@, start_index as int),
                on_disk,
            ) && forall|i: int|
                0 <= i < rows@.len() ==> (#[trigger] previews@[i]).conflict == in_conflict(
                    rows_changed(pattern@, rows@, start_index as int),
                    on_disk,
                    rows_targets(pattern@, rows@, start_index as int),
                    i,
                ),
        forall|i: int, j: int|
            0 <= i < j < rows@.len() && goes_ahead(#[trigger] previews@[i]) && goes_ahead(
                #[trigger] previews@[j],
            ) ==> row_target(pattern@, rows@[i], start_index + i) != row_target(
                pattern@,
                rows@[j],
                start_index + j,
            ),
{
    let n = rows.len();
    let mut names: Vec<String> = Vec::new();
    let mut targets: Vec<String> = Vec::new();
    let mut changed: Vec<bool> = Vec::new();
    let mut on_disk: Vec<bool> = Vec::new();
    let mut offset: usize = 0;
    while offset < n
        invariant
            n == rows@.len(),
            n <= i64::MAX,
            start_index + n <= i64::MAX + 1,
            forall|t: &str| path_exists.requires((t,)),
            offset <= n,
            names@.len() == offset,
            targets@.len() == offset,
            changed@.len() == offset,
            on_disk@.len() == offset,
            forall|k: int|
                0 <= k < offset ==> (#[trigger] names@[k])@ == row_name(pattern@, rows@[k], start_index + k),
            forall|k: int|
                0 <= k < offset ==> (#[trigger] targets@[k])@ == row_target(pattern@, rows@[k], start_index + k),
            forall|k: int| 0 <= k < offset ==> #[trigger] changed@[k] == (names@[k]@ != rows@[k].2@),
            forall|k: int| 0 <= k < offset ==> !(#[trigger] changed@[k]) ==> !on_disk@[k],
            forall|k: int|
                0 <= k < offset ==> changed@[k] ==> answered(path_exists, targets@[k]@, #[trigger] on_disk@[k]),
        decreases n - offset,
    {
        let row = &rows[offset];
        let index: i64 = start_index + offset as i64;
        let file_name = file_name_of(row.1.as_str());
        let taken_at: Option<&str> = match &row.3 {
            Some(s) => Some(s.as_str()),
            None => None,
        };
        let name = new_file_name(pattern, &file_name, index, taken_at);
        let target = with_file_name_of(row.1.as_str(), name.as_str());
        // Renaming a file to the name it already has is a no-op, not a clash.
        let unchanged = name == row.2;
        let here = if unchanged {
            false
        } else {
            let asked: &str = target.as_str();
            let present = path_exists(asked);
            proof {
                assert(call_ensures(path_exists, (asked,), present));
                assert(answered(path_exists, target@, present));
            }
            present
        };
        proof {
            assert(str_opt_view(taken_at) == string_opt_view(row.3));
            assert(name@ == row_name(pattern@, rows@[offset as int], start_index + offset));
            assert(target@ == row_target(pattern@, rows@[offset as int], start_index + offset));
        }
        names.push(name);
        targets.push(target);
        changed.push(!unchanged);
        on_disk.push(here);
        offset = offset + 1;
    }
    assert(offset == n);
    let conflicts = flag_conflicts(&changed, &on_disk, &targets);
    let ghost tv = strings_view(targets@);
    let mut previews: Vec<RenamePreview> = Vec::new();
    let mut i: usize = 0;
    while i < n
        invariant
            n == rows@.len(),
            names@.len() == n,
            targets@.len() == n,
            changed@.len() == n,
            on_disk@.len() == n,
            conflicts@.len() == n,
            tv == strings_view(targets@),
            i <= n,
            previews@.len() == i,
            forall|k: int|
                0 <= k < n ==> (#[trigger] names@[k])@ == row_name(pattern@, rows@[k], start_index + k),
            forall|k: int|
                0 <= k < n ==> (#[trigger] targets@[k])@ == row_target(pattern@, rows@[k], start_index + k),
            forall|k: int| 0 <= k < n ==> #[trigger] changed@[k] == (names@[k]@ != rows@[k].2@),
            forall|k: int| 0 <= k < n ==> !(#[trigger] changed@[k]) ==> !on_disk@[k],
            forall|k: int| 0 <= k < n ==> conflicts@[k] == in_conflict(changed@, on_disk@, tv, k),
            forall|k: int|
                0 <= k < i ==> {
                    &&& (#[trigger] previews@[k]).media_id@ == rows@[k].0@
                    &&& previews@[k].from@ == rows@[k].2@
                    &&& previews@[k].to@ == names@[k]@
                    &&& previews@[k].conflict == conflicts@[k]
                },
        decreases n - i,
    {
        let row = &rows[i];
        previews.push(
            RenamePreview {
                media_id: row.0.clone(),
                from: row.2.clone(),
                to: names[i].clone(),
                conflict: conflicts[i],
            },
        );
        i = i + 1;
    }
    proof {
        let ghost changed_view = rows_changed(pattern@, rows@, start_index as int);
        let ghost targets_view = rows_targets(pattern@, rows@, start_index as int);
        assert(changed_view =~= changed@);
        assert(targets_view =~= tv);
        assert(disk_answers(path_exists, changed_view, targets_view, on_disk@));
        assert forall|a: int, b: int|
            0 <= a < b < rows@.len() && goes_ahead(#[trigger] previews@[a]) && goes_ahead(
                #[trigger] previews@[b],
            ) implies row_target(pattern@, rows@[a], start_index + a) != row_target(
            pattern@,
            rows@[b],
            start_index + b,
        ) by {
            assert(names@[a]@ == previews@[a].to@);
            assert(names@[b]@ == previews@[b].to@);
            lemma_clear_renames_have_distinct_targets(changed@, on_disk@, tv, a, b);
        }
    }
    previews
}

/// The JPEG quality a compression uses: the one asked for, kept between 1 and 100.
pub fn jpeg_quality(quality: u8) -> (r: u8)
    ensures
        r == (if quality < 1 {
            1
        } else if quality > 100 {
            100
        } else {
            quality
        }),
{
    if quality < 1 {
        1
    } else if quality > 100 {
        100
    } else {
        quality
    }
}

/// The side an image is shrunk to fit, when a limit is set and the image
/// exceeds it on either side.
pub fn shrink_to(max_dimension: Option<u32>, width: u32, height: u32) -> (r: Option<u32>)
    ensures
        r == (match max_dimension {
            Some(max) => if max > 0 && (width > max || height > max) {
                Some(max)
            } else {
                None
            },
            None => None,
        }),
{
    match max_dimension {
        Some(max) => if max > 0 && (width > max || height > max) {
            Some(max)
        } else {
            None
        },
        None => None,
    }
}

/// The stem a new file is named after: the stem of the original file name, or
/// the whole name when it has none.
pub open spec fn output_stem_of(filename: Seq<char>) -> Seq<char> {
    match platform_file_name(filename) {
        Some(name) => stem_of(name),
        None => filename,
    }
}

/// The stem a compressed or converted copy is named after.
pub fn output_stem(filename: &str) -> (r: String)
    ensures
        r@ == output_stem_of(filename@),
{
    match file_name_of(filename) {
        Some(name) => split_file_name(name.as_str()).0,
        None => string_from_chars(&chars_of(filename)),
    }
}

/// `stem.extension`.
pub fn with_extension(stem: &str, extension: &str) -> (r: String)
    ensures
        r@ == stem@ + seq!['.'] + extension@,
{
    let mut out = chars_of(stem);
    out.push('.');
    push_str(&mut out, extension);
    string_from_chars(&out)
}

/// The containers images can be converted into.
#[derive(Debug, Clone, Copy, PartialEq, Eq, Structural)]
pub enum TargetFormat {
    Png,
    WebP,
    Jpeg,
}

impl TargetFormat {
    /// The extension a converted file gets.
    /// The extension a file of this format is given.
    pub open spec fn extension_spec(self) -> Seq<char> {
        match self {
            TargetFormat::Png => "png"@,
            TargetFormat::WebP => "webp"@,
            TargetFormat::Jpeg => "jpg"@,
        }
    }

    pub fn extension(self) -> (r: &'static str)
        ensures
            r@ == self.extension_spec(),
    {
        match self {
            TargetFormat::Png => "png",
            TargetFormat::WebP => "webp",
            TargetFormat::Jpeg => "jpg",
        }
    }
}

/// The container a format name asks for, in any case.
pub open spec fn target_of(name: Seq<char>) -> Result<TargetFormat, Seq<char>> {
    let lower = lowercase_of(name);
    if lower == "png"@ {
        Ok(TargetFormat::Png)
    } else if lower == "webp"@ {
        Ok(TargetFormat::WebP)
    } else if lower == "jpg"@ || lower == "jpeg"@ {
        Ok(TargetFormat::Jpeg)
    } else {
        Err("Unsupported target format: "@ + lower)
    }
}

/// Reads the container a conversion should produce.
pub fn target_format(format: &str) -> (r: Result<TargetFormat, String>)
    ensures
        match r {
            Ok(f) => target_of(format@) == Ok::<TargetFormat, Seq<char>>(f),
            Err(e) => target_of(format@) == Err::<TargetFormat, Seq<char>>(e@),
        },
{
    let lower = lowercase(format);
    let name = lower.as_str();
    if same_text(name, "png") {
        Ok(TargetFormat::Png)
    } else if same_text(name, "webp") {
        Ok(TargetFormat::WebP)
    } else if same_text(name, "jpg") || same_text(name, "jpeg") {
        Ok(TargetFormat::Jpeg)
    } else {
        let mut message: Vec<char> = Vec::new();
        push_str(&mut message, "Unsupported target format: ");
        push_str(&mut message, name);
        Err(string_from_chars(&message))
    }
}

/// The constant rate factor a video compression uses: the quality asked for,
/// kept between 16 (visually lossless) and 40.
pub open spec fn crf_of(quality: u8) -> int {
    if quality < 16 {
        16
    } else if quality > 40 {
        40
    } else {
        quality as int
    }
}

/// The view of a list of strings.
pub open spec fn texts(v: Seq<String>) -> Seq<Seq<char>> {
    v.map_values(|s: String| s@)
}

/// The arguments `ffmpeg` is run with to re-encode `source` into `target` with
/// H.264 at quality `quality`, scaled down to `max_height` when one is set; `-2`
/// keeps the width even, which H.264 requires.
pub open spec fn video_args_spec(source: Seq<char>, quality: u8, max_height: Option<u32>, target: Seq<char>) -> Seq<
    Seq<char>,
> {
    let base = seq![
        "-y"@,
        "-i"@,
        source,
        "-c:v"@,
        "libx264"@,
        "-crf"@,
        decimal(crf_of(quality) as nat),
        "-preset"@,
        "medium"@,
        "-c:a"@,
        "aac"@,
        "-b:a"@,
        "128k"@,
    ];
    let scaled = match max_height {
        Some(h) => if h > 0 {
            base + seq!["-vf"@, "scale=-2:min("@ + decimal(h as nat) + "\\,ih)"@]
        } else {
            base
        },
        None => base,
    };
    scaled.push(target)
}

/// The `ffmpeg` arguments for one video.
pub fn video_args(source: &str, quality: u8, max_height: Option<u32>, target: &str) -> (r: Vec<String>)
    ensures
        texts(r@) == video_args_spec(source@, quality, max_height, target@),
{
    let crf: u8 = if quality < 16 {
        16
    } else if quality > 40 {
        40
    } else {
        quality
    };
    let mut crf_text: Vec<char> = Vec::new();
    push_decimal(&mut crf_text, crf as u64);
    let mut args: Vec<String> = Vec::new();
    args.push("-y".to_string());
    args.push("-i".to_string());
    args.push(source.to_string());
    args.push("-c:v".to_string());
    args.push("libx264".to_string());
    args.push("-crf".to_string());
    args.push(string_from_chars(&crf_text));
    args.push("-preset".to_string());
    args.push("medium".to_string());
    args.push("-c:a".to_string());
    args.push("aac".to_string());
    args.push("-b:a".to_string());
    args.push("128k".to_string());
    match max_height {
        Some(h) => if h > 0 {
            args.push("-vf".to_string());
            let mut filter: Vec<char> = Vec::new();
            push_str(&mut filter, "scale=-2:min(");
            push_decimal(&mut filter, h as u64);
            push_str(&mut filter, "\\,ih)");
            args.push(string_from_chars(&filter));
        },
        None => {},
    }
    args.push(target.to_string());
    proof {
        assert(texts(args@) =~= video_args_spec(source@, quality, max_height, target@));
    }
    args
}

impl BatchReport {
    /// A report with nothing done yet, for work writing into `destination`.
    pub fn started(destination: Option<String>) -> (r: BatchReport)
        ensures
            r.processed == 0 && r.skipped == 0 && r.failed == 0,
            r.bytes_before == 0 && r.bytes_after == 0,
            r.destination == destination,
            r.first_error is None,
    {
        BatchReport {
            processed: 0,
            skipped: 0,
            failed: 0,
            bytes_before: 0,
            bytes_after: 0,
            destination,
            first_error: None,
        }
    }

    /// One item left alone.
    pub fn skip(&mut self)
        requires
            old(self).skipped < i64::MAX,
        ensures
            final(self).skipped == old(self).skipped + 1,
            final(self).processed == old(self).processed && final(self).failed == old(self).failed,
            final(self).bytes_before == old(self).bytes_before && final(self).bytes_after == old(self).bytes_after,
            final(self).destination == old(self).destination && final(self).first_error == old(self).first_error,
    {
        self.skipped = self.skipped + 1;
    }

    /// One item done, which took `before` bytes and now takes `after`.
    pub fn succeed(&mut self, before: i64, after: i64)
        requires
            old(self).processed < i64::MAX,
            i64::MIN <= old(self).bytes_before + before <= i64::MAX,
            i64::MIN <= old(self).bytes_after + after <= i64::MAX,
        ensures
            final(self).processed == old(self).processed + 1,
            final(self).bytes_before == old(self).bytes_before + before,
            final(self).bytes_after == old(self).bytes_after + after,
            final(self).skipped == old(self).skipped && final(self).failed == old(self).failed,
            final(self).destination == old(self).destination && final(self).first_error == old(self).first_error,
    {
        self.processed = self.processed + 1;
        self.bytes_before = self.bytes_before + before;
        self.bytes_after = self.bytes_after + after;
    }

    /// One item that could not be done, with what went wrong where that is
    /// known; the first failure with a message is the one kept.
    pub fn fail(&mut self, error: Option<String>)
        requires
            old(self).failed < i64::MAX,
        ensures
            final(self).failed == old(self).failed + 1,
            final(self).first_error == match old(self).first_error {
                Some(e) => Some(e),
                None => error,
            },
            final(self).processed == old(self).processed && final(self).skipped == old(self).skipped,
            final(self).bytes_before == old(self).bytes_before && final(self).bytes_after == old(self).bytes_after,
            final(self).destination == old(self).destination,
    {
        self.failed = self.failed + 1;
        if self.first_error.is_none() {
            self.first_error = error;
        }
    }
}

} // verus!
