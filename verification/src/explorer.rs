//! The folder browser's decisions: what to hide, which folders are watched,
//! and where "up" leads.
use vstd::prelude::*;
use crate::indexing::{lowercase, lowercase_of};
use crate::paths::{parent_of, platform_parent, string_opt_view};
use crate::text::{chars_of, starts_with, string_from_chars};

verus! {

/// Hidden and system entries are noise in a photo browser.
pub open spec fn hidden_name(name: Seq<char>) -> bool {
    name.len() > 0 && (name[0] == '.' || name[0] == '$')
}

/// Whether a directory entry is left out of the browser.
pub fn is_hidden_entry(name: &str) -> (r: bool)
    ensures
        r == hidden_name(name@),
{
    let chars = chars_of(name);
    chars.len() > 0 && (chars[0] == '.' || chars[0] == '$')
}

/// `c` with an ASCII capital made small; every other character unchanged.
pub open spec fn ascii_lower(c: char) -> char {
    if 'A' <= c <= 'Z' {
        ((c as u32) + 32) as char
    } else {
        c
    }
}

/// Whether two texts are equal once ASCII capitals are ignored, as
/// `str::eq_ignore_ascii_case` compares them.
pub open spec fn same_ignoring_ascii_case(a: Seq<char>, b: Seq<char>) -> bool {
    a.len() == b.len() && forall|i: int| 0 <= i < a.len() ==> ascii_lower(#[trigger] a[i]) == ascii_lower(b[i])
}

fn lower_ascii(c: char) -> (r: char)
    ensures
        r == ascii_lower(c),
{
    if 'A' <= c && c <= 'Z' {
        ((c as u8) + 32) as char
    } else {
        c
    }
}

fn eq_ignoring_ascii_case(a: &str, b: &str) -> (r: bool)
    ensures
        r == same_ignoring_ascii_case(a@, b@),
{
    let x = chars_of(a);
    let y = chars_of(b);
    if x.len() != y.len() {
        return false;
    }
    let mut i: usize = 0;
    while i < x.len()
        invariant
            x@ == a@,
            y@ == b@,
            x@.len() == y@.len(),
            i <= x@.len(),
            forall|k: int| 0 <= k < i ==> ascii_lower(#[trigger] x@[k]) == ascii_lower(y@[k]),
        decreases x@.len() - i,
    {
        if lower_ascii(x[i]) != lower_ascii(y[i]) {
            return false;
        }
        i = i + 1;
    }
    true
}

/// Whether `path` is one of the watched folders, ignoring ASCII case.
pub fn is_watched_folder(watched: &Vec<String>, path: &str) -> (r: bool)
    ensures
        r == exists|k: int| 0 <= k < watched@.len() && same_ignoring_ascii_case(#[trigger] watched@[k]@, path@),
{
    let mut k: usize = 0;
    while k < watched.len()
        invariant
            k <= watched@.len(),
            forall|j: int| 0 <= j < k ==> !same_ignoring_ascii_case(#[trigger] watched@[j]@, path@),
        decreases watched@.len() - k,
    {
        if eq_ignoring_ascii_case(watched[k].as_str(), path) {
            return true;
        }
        k = k + 1;
    }
    false
}

/// Whether a drive holds a watched folder: some watched path, in lower case,
/// begins with the drive's root in lower case.
pub fn drive_is_watched(watched: &Vec<String>, root: &str) -> (r: bool)
    ensures
        r == exists|k: int|
            0 <= k < watched@.len() && lowercase_of(root@).len() <= lowercase_of(#[trigger] watched@[k]@).len()
                && lowercase_of(watched@[k]@).take(lowercase_of(root@).len() as int) == lowercase_of(root@),
{
    let lower_root = lowercase(root);
    let mut k: usize = 0;
    while k < watched.len()
        invariant
            lower_root@ == lowercase_of(root@),
            k <= watched@.len(),
            forall|j: int|
                0 <= j < k ==> !(lowercase_of(root@).len() <= lowercase_of(#[trigger] watched@[j]@).len()
                    && lowercase_of(watched@[j]@).take(lowercase_of(root@).len() as int) == lowercase_of(root@)),
        decreases watched@.len() - k,
    {
        let lower = lowercase(watched[k].as_str());
        let chars = chars_of(lower.as_str());
        if starts_with(&chars, lower_root.as_str()) {
            return true;
        }
        k = k + 1;
    }
    false
}

/// The parent of a path, or nothing when already at a root.
pub fn parent_directory(path: &str) -> (r: Option<String>)
    ensures
        string_opt_view(r) == (match platform_parent(path@) {
            Some(parent) => if parent.len() > 0 {
                Some(parent)
            } else {
                None
            },
            None => None,
        }),
{
    match parent_of(path) {
        Some(parent) => {
            if parent.as_str().is_empty() {
                None
            } else {
                Some(parent)
            }
        },
        None => None,
    }
}

/// The pattern that finds indexed photos under a folder: its path and a
/// backslash, the separator the library's paths are stored with.
pub fn indexed_prefix(path: &str) -> (r: String)
    ensures
        r@ == path@ + seq!['\\'],
{
    let mut out = chars_of(path);
    out.push('\\');
    string_from_chars(&out)
}

/// Whether text `a` sorts before text `b`, comparing characters by code point
/// as `str`'s ordering does.
pub open spec fn text_lt(a: Seq<char>, b: Seq<char>) -> bool
    decreases a.len(),
{
    if b.len() == 0 {
        false
    } else if a.len() == 0 {
        true
    } else if a[0] != b[0] {
        (a[0] as int) < (b[0] as int)
    } else {
        text_lt(a.drop_first(), b.drop_first())
    }
}

proof fn lemma_text_lt_trichotomy(a: Seq<char>, b: Seq<char>)
    ensures
        text_lt(a, b) || a == b || text_lt(b, a),
        !(text_lt(a, b) && text_lt(b, a)),
        !(text_lt(a, b) && a == b),
    decreases a.len(),
{
    if a.len() > 0 && b.len() > 0 && a[0] == b[0] {
        lemma_text_lt_trichotomy(a.drop_first(), b.drop_first());
        if a.drop_first() == b.drop_first() {
            assert(a =~= seq![a[0]] + a.drop_first());
            assert(b =~= seq![b[0]] + b.drop_first());
        }
    } else if a.len() == 0 && b.len() == 0 {
        assert(a =~= b);
    } else if a.len() > 0 && b.len() > 0 {
        assert((a[0] as int) != (b[0] as int));
        assert(a != b) by {
            assert(a[0] != b[0]);
        }
    } else {
        assert(a.len() != b.len());
    }
}

proof fn lemma_text_lt_transitive(a: Seq<char>, b: Seq<char>, c: Seq<char>)
    requires
        text_lt(a, b),
        text_lt(b, c),
    ensures
        text_lt(a, c),
    decreases a.len(),
{
    if a.len() > 0 && b.len() > 0 && c.len() > 0 && a[0] == b[0] && b[0] == c[0] {
        lemma_text_lt_transitive(a.drop_first(), b.drop_first(), c.drop_first());
    }
}

/// Whether `order` lists every index below `n` exactly once.
pub open spec fn lists_each_once(order: Seq<usize>, n: int) -> bool {
    &&& order.len() == n
    &&& forall|k: int| 0 <= k < n ==> #[trigger] order[k] < n
    &&& forall|a: int, b: int| 0 <= a < b < n ==> order[a] != order[b]
}

/// Whether `order` sorts `keys` ascending, keeping equal keys in their listed order.
pub open spec fn sorted_stably(order: Seq<usize>, keys: Seq<Seq<char>>) -> bool {
    forall|a: int, b: int|
        0 <= a < b < order.len() ==> text_lt(keys[order[a] as int], keys[order[b] as int]) || (keys[order[a] as int]
            == keys[order[b] as int] && order[a] < order[b])
}

/// The order directories are listed in: by name in lower case, ties in the
/// order they were read.
pub fn directory_order(names: &Vec<String>) -> (order: Vec<usize>)
    ensures
        lists_each_once(order@, names@.len() as int),
        sorted_stably(order@, names@.map_values(|s: String| lowercase_of(s@))),
{
    let ghost keys_view = names@.map_values(|s: String| lowercase_of(s@));
    let n = names.len();
    let mut keys: Vec<Vec<char>> = Vec::new();
    let mut j: usize = 0;
    while j < n
        invariant
            n == names@.len(),
            keys_view == names@.map_values(|s: String| lowercase_of(s@)),
            j <= n,
            keys@.len() == j,
            forall|k: int| 0 <= k < j ==> (#[trigger] keys@[k])@ == keys_view[k],
        decreases n - j,
    {
        let lower = lowercase(names[j].as_str());
        keys.push(chars_of(lower.as_str()));
        j = j + 1;
    }
    let mut order: Vec<usize> = Vec::new();
    let mut i: usize = 0;
    while i < n
        invariant
            n == names@.len(),
            keys@.len() == n,
            forall|k: int| 0 <= k < n ==> (#[trigger] keys@[k])@ == keys_view[k],
            i <= n,
            order@.len() == i,
            forall|k: int| 0 <= k < i ==> #[trigger] order@[k] < i,
            forall|a: int, b: int| 0 <= a < b < i ==> order@[a] != order@[b],
            sorted_stably(order@, keys_view),
        decreases n - i,
    {
        let mut pos: usize = i;
        while pos > 0 && text_before(&keys[i], &keys[order[pos - 1]])
            invariant
                n == names@.len(),
                keys@.len() == n,
                forall|k: int| 0 <= k < n ==> (#[trigger] keys@[k])@ == keys_view[k],
                i < n,
                order@.len() == i,
                pos <= i,
                forall|k: int| 0 <= k < i ==> #[trigger] order@[k] < i,
                forall|k: int| pos <= k < i ==> text_lt(keys_view[i as int], keys_view[#[trigger] order@[k] as int]),
            decreases pos,
        {
            pos = pos - 1;
        }
        let ghost before = order@;
        order.insert(pos, i);
        proof {
            let ki = keys_view[i as int];
            assert forall|k: int| 0 <= k < i + 1 implies #[trigger] order@[k] < i + 1 by {
                if k < pos {
                    assert(order@[k] == before[k]);
                } else if k > pos {
                    assert(order@[k] == before[k - 1]);
                }
            }
            assert forall|a: int, b: int| 0 <= a < b < i + 1 implies order@[a] != order@[b] by {
                if a < pos && b < pos {
                    assert(order@[a] == before[a] && order@[b] == before[b]);
                } else if a < pos && b == pos {
                    assert(order@[a] == before[a]);
                } else if a < pos {
                    assert(order@[a] == before[a] && order@[b] == before[b - 1]);
                } else if a == pos {
                    assert(order@[b] == before[b - 1]);
                } else {
                    assert(order@[a] == before[a - 1] && order@[b] == before[b - 1]);
                }
            }
            if pos > 0 {
                let kp = keys_view[before[pos - 1] as int];
                lemma_text_lt_trichotomy(ki, kp);
            }
            assert forall|a: int, b: int| 0 <= a < b < order@.len() implies text_lt(
                keys_view[order@[a] as int],
                keys_view[order@[b] as int],
            ) || (keys_view[order@[a] as int] == keys_view[order@[b] as int] && order@[a] < order@[b]) by {
                if a < pos && b < pos {
                    assert(order@[a] == before[a] && order@[b] == before[b]);
                } else if a < pos && b == pos {
                    assert(order@[a] == before[a]);
                    let ka = keys_view[before[a] as int];
                    let kp = keys_view[before[pos - 1] as int];
                    lemma_text_lt_trichotomy(ki, kp);
                    lemma_text_lt_trichotomy(ka, ki);
                    if a < pos - 1 {
                        if text_lt(ka, kp) {
                            if text_lt(kp, ki) {
                                lemma_text_lt_transitive(ka, kp, ki);
                            }
                        } else {
                            if text_lt(kp, ki) {
                            }
                        }
                        if text_lt(ki, ka) {
                            if text_lt(ka, kp) {
                                lemma_text_lt_transitive(ki, ka, kp);
                            }
                        }
                    }
                } else if a < pos {
                    assert(order@[a] == before[a] && order@[b] == before[b - 1]);
                } else if a == pos {
                    assert(order@[b] == before[b - 1]);
                    lemma_text_lt_trichotomy(ki, keys_view[before[b - 1] as int]);
                } else {
                    assert(order@[a] == before[a - 1] && order@[b] == before[b - 1]);
                }
            }
        }
        i = i + 1;
    }
    order
}

fn text_before(a: &Vec<char>, b: &Vec<char>) -> (r: bool)
    ensures
        r == text_lt(a@, b@),
{
    let mut k: usize = 0;
    proof {
        assert(a@.skip(0) =~= a@);
        assert(b@.skip(0) =~= b@);
        assert(a@.take(0) =~= b@.take(0));
    }
    while k < a.len() && k < b.len() && a[k] == b[k]
        invariant
            k <= a@.len(),
            k <= b@.len(),
            a@.take(k as int) == b@.take(k as int),
            text_lt(a@, b@) == text_lt(a@.skip(k as int), b@.skip(k as int)),
        decreases a@.len() - k,
    {
        proof {
            assert(a@.skip(k as int).drop_first() =~= a@.skip(k + 1));
            assert(b@.skip(k as int).drop_first() =~= b@.skip(k + 1));
            assert(a@.take(k + 1) =~= a@.take(k as int).push(a@[k as int]));
            assert(b@.take(k + 1) =~= b@.take(k as int).push(b@[k as int]));
        }
        k = k + 1;
    }
    if k == b.len() {
        proof {
            assert(b@.skip(k as int).len() == 0);
        }
        false
    } else if k == a.len() {
        proof {
            assert(a@.skip(k as int).len() == 0);
        }
        true
    } else {
        proof {
            assert(a@.skip(k as int)[0] == a@[k as int]);
            assert(b@.skip(k as int)[0] == b@[k as int]);
        }
        a[k] < b[k]
    }
}

} // verus!
