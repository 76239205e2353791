//! Picking a file name that does not collide inside a destination folder.
use vstd::prelude::*;
use crate::batch::{extension_of, split_file_name, stem_of};
use crate::paths::{answered, file_name_of, join_path, platform_file_name, platform_join};
use crate::text::{chars_of, decimal, push_chars, push_decimal, push_str, string_from_chars};

verus! {

/// The highest number a colliding name is given before giving up.
pub const LAST_SUFFIX: u64 = 9_999;

/// The stem of `filename`, as `Path::file_stem` gives it, or nothing.
pub open spec fn stem_part(filename: Seq<char>) -> Seq<char> {
    match platform_file_name(filename) {
        Some(name) => stem_of(name),
        None => Seq::empty(),
    }
}

/// The extension of `filename` with its dot, or nothing.
pub open spec fn extension_part(filename: Seq<char>) -> Seq<char> {
    match platform_file_name(filename) {
        Some(name) => match extension_of(name) {
            Some(ext) => seq!['.'] + ext,
            None => Seq::empty(),
        },
        None => Seq::empty(),
    }
}

/// The `k`th path tried for `filename` in `destination`: the name itself first,
/// then `stem (k)` with the extension, for `k` from 2 on.
pub open spec fn candidate(destination: Seq<char>, filename: Seq<char>, k: int) -> Seq<char> {
    if k <= 1 {
        platform_join(destination, filename)
    } else {
        platform_join(
            destination,
            stem_part(filename) + " ("@ + decimal(k as nat) + ")"@ + extension_part(filename),
        )
    }
}

/// What the search found: the first candidate reported free, after all before it
/// were reported taken; or nothing, when every candidate up to the last suffix
/// was reported taken.
pub open spec fn first_free<F: Fn(&str) -> bool>(
    path_exists: F,
    destination: Seq<char>,
    filename: Seq<char>,
    r: Option<Seq<char>>,
) -> bool {
    match r {
        Some(path) => exists|k: int|
            1 <= k <= LAST_SUFFIX && path == candidate(destination, filename, k) && answered(
                path_exists,
                #[trigger] candidate(destination, filename, k),
                false,
            ) && forall|j: int|
                1 <= j < k ==> answered(path_exists, #[trigger] candidate(destination, filename, j), true),
        None => forall|j: int|
            1 <= j <= LAST_SUFFIX ==> answered(path_exists, #[trigger] candidate(destination, filename, j), true),
    }
}

/// Picks a path for `filename` inside `destination` that does not collide, by
/// appending " (2)", " (3)" and so on before the extension. `path_exists` tells
/// whether a path is taken. Gives `None` when every name up to the last suffix
/// is taken, rather than a name that would collide.
pub fn unique_destination<F: Fn(&str) -> bool>(destination: &str, filename: &str, path_exists: F) -> (r: Option<
    String,
>)
    requires
        forall|t: &str| path_exists.requires((t,)),
    ensures
        first_free(
            path_exists,
            destination@,
            filename@,
            match r {
                Some(p) => Some(p@),
                None => None,
            },
        ),
        r matches Some(p) ==> answered(path_exists, p@, false),
{
    let first = join_path(destination, filename);
    let asked: &str = first.as_str();
    let taken = path_exists(asked);
    proof {
        assert(call_ensures(path_exists, (asked,), taken));
        assert(answered(path_exists, candidate(destination@, filename@, 1), taken));
    }
    if !taken {
        return Some(first);
    }
    let mut stem: Vec<char> = Vec::new();
    let mut extension: Vec<char> = Vec::new();
    match file_name_of(filename) {
        Some(name) => {
            let (s, e) = split_file_name(name.as_str());
            stem = chars_of(s.as_str());
            match e {
                Some(e) => {
                    extension.push('.');
                    let more = chars_of(e.as_str());
                    push_chars(&mut extension, &more);
                },
                None => {},
            }
        },
        None => {},
    }
    assert(stem@ == stem_part(filename@));
    assert(extension@ == extension_part(filename@));
    let mut suffix: u64 = 2;
    while suffix <= LAST_SUFFIX
        invariant
            2 <= suffix <= LAST_SUFFIX + 1,
            forall|t: &str| path_exists.requires((t,)),
            stem@ == stem_part(filename@),
            extension@ == extension_part(filename@),
            first@ == candidate(destination@, filename@, 1),
            forall|j: int|
                1 <= j < suffix ==> answered(path_exists, #[trigger] candidate(destination@, filename@, j), true),
        decreases LAST_SUFFIX + 1 - suffix,
    {
        let mut name: Vec<char> = Vec::new();
        push_chars(&mut name, &stem);
        push_str(&mut name, " (");
        push_decimal(&mut name, suffix);
        push_str(&mut name, ")");
        push_chars(&mut name, &extension);
        let name_text = string_from_chars(&name);
        let path = join_path(destination, name_text.as_str());
        let asked: &str = path.as_str();
        let taken = path_exists(asked);
        proof {
            assert(name@ =~= stem_part(filename@) + " ("@ + decimal(suffix as nat) + ")"@ + extension_part(filename@));
            assert(path@ == candidate(destination@, filename@, suffix as int));
            assert(call_ensures(path_exists, (asked,), taken));
            assert(answered(path_exists, candidate(destination@, filename@, suffix as int), taken));
        }
        if !taken {
            return Some(path);
        }
        suffix = suffix + 1;
    }
    None
}

} // verus!
