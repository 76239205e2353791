//! Preferences that outlive a session: how much disk the thumbnail cache may
//! take, and whether sensitive photos are hidden.
use vstd::prelude::*;
use crate::models::CacheReport;
use crate::text::{chars_of, same_text};

verus! {

pub const SETTING_CACHE_LIMIT: &'static str = "thumbnail_cache_limit_mb";
pub const SETTING_SHORTCUTS: &'static str = "shortcuts";
pub const SETTING_NSFW_THRESHOLD: &'static str = "nsfw_threshold";
pub const SETTING_NSFW_AUTO_HIDE: &'static str = "nsfw_auto_hide";

/// 0 means "no limit"; anything else is a ceiling in megabytes.
pub const DEFAULT_CACHE_LIMIT_MB: i64 = 0;

/// Bytes in a megabyte, as the limit counts them.
pub const MEGABYTE: i64 = 1024 * 1024;

/// Whether `c` is an ASCII decimal digit.
pub open spec fn is_digit(c: char) -> bool {
    '0' <= c <= '9'
}

/// The number the decimal digits `d` spell.
pub open spec fn digits_value(d: Seq<char>) -> int
    decreases d.len(),
{
    if d.len() == 0 {
        0
    } else {
        digits_value(d.drop_last()) * 10 + (d.last() as int - '0' as int)
    }
}

/// Whether every character of `d` is a digit.
pub open spec fn all_digits(d: Seq<char>) -> bool {
    forall|k: int| 0 <= k < d.len() ==> is_digit(#[trigger] d[k])
}

/// Whether `s` opens with a `+` or a `-`.
pub open spec fn has_sign(s: Seq<char>) -> bool {
    s.len() > 0 && (s[0] == '+' || s[0] == '-')
}

/// `s` without its sign.
pub open spec fn unsigned_part(s: Seq<char>) -> Seq<char> {
    if has_sign(s) {
        s.drop_first()
    } else {
        s
    }
}

/// What `str::parse::<i64>` reads from `s`: an optional `+` or `-`, then one or
/// more ASCII digits and nothing else, naming a number in the range of `i64`.
pub open spec fn parsed_i64(s: Seq<char>) -> Option<i64> {
    let digits = unsigned_part(s);
    let value = if has_sign(s) && s[0] == '-' {
        -digits_value(digits)
    } else {
        digits_value(digits)
    };
    if digits.len() == 0 || !all_digits(digits) {
        None
    } else if i64::MIN <= value <= i64::MAX {
        Some(value as i64)
    } else {
        None
    }
}

proof fn lemma_digits_value_grows(d: Seq<char>)
    requires
        forall|k: int| 0 <= k < d.len() ==> is_digit(#[trigger] d[k]),
    ensures
        digits_value(d) >= 0,
    decreases d.len(),
{
    if d.len() > 0 {
        lemma_digits_value_grows(d.drop_last());
        assert(is_digit(d[d.len() - 1]));
    }
}

/// Reads a whole number the way `str::parse::<i64>` does.
pub fn parse_i64(s: &str) -> (r: Option<i64>)
    ensures
        r == parsed_i64(s@),
{
    let chars = chars_of(s);
    let n = chars.len();
    let signed = n > 0 && (chars[0] == '+' || chars[0] == '-');
    let negative = signed && chars[0] == '-';
    let start: usize = if signed {
        1
    } else {
        0
    };
    let ghost digits = unsigned_part(s@);
    if start == n {
        proof {
            assert(digits.len() == 0);
        }
        return None;
    }
    // The magnitude, exact until it passes 2^63; past that only "too large" matters.
    let limit: u64 = 0x8000_0000_0000_0000;
    let mut magnitude: u64 = 0;
    let mut too_large = false;
    let mut i: usize = start;
    proof {
        assert(s@.subrange(start as int, start as int) =~= Seq::<char>::empty());
    }
    while i < n
        invariant
            chars@ == s@,
            n == chars@.len(),
            limit == 0x8000_0000_0000_0000u64,
            signed == has_sign(s@),
            digits == unsigned_part(s@),
            start <= i <= n,
            start == (if signed {
                1int
            } else {
                0int
            }),
            digits =~= s@.subrange(start as int, n as int),
            forall|k: int| start <= k < i ==> is_digit(#[trigger] s@[k]),
            !too_large ==> magnitude == digits_value(s@.subrange(start as int, i as int)) && magnitude <= limit,
            too_large ==> digits_value(s@.subrange(start as int, i as int)) > limit,
        decreases n - i,
    {
        let c = chars[i];
        if !('0' <= c && c <= '9') {
            proof {
                assert(s@[i as int] == c);
                assert(digits[i - start] == c);
                assert(!is_digit(digits[i - start]));
                assert(!all_digits(digits));
            }
            return None;
        }
        let d: u64 = (c as u32 - '0' as u32) as u64;
        proof {
            let before = s@.subrange(start as int, i as int);
            let after = s@.subrange(start as int, i + 1);
            assert(after.drop_last() =~= before);
            assert(after.last() == c);
            lemma_digits_value_grows(before);
            assert(d == c as int - '0' as int);
        }
        if !too_large {
            if magnitude > (limit - d) / 10 {
                too_large = true;
                proof {
                    assert(digits_value(s@.subrange(start as int, i + 1)) == magnitude * 10 + d);
                    assert(magnitude * 10 + d > limit) by (nonlinear_arith)
                        requires
                            magnitude > (limit - d) / 10,
                            d <= 9,
                            limit == 0x8000_0000_0000_0000u64,
                    ;
                }
            } else {
                proof {
                    assert(magnitude * 10 + d <= limit) by (nonlinear_arith)
                        requires
                            magnitude <= (limit - d) / 10,
                            d <= 9,
                            limit == 0x8000_0000_0000_0000u64,
                    ;
                }
                magnitude = magnitude * 10 + d;
            }
        } else {
            proof {
                let before = s@.subrange(start as int, i as int);
                assert(digits_value(s@.subrange(start as int, i + 1)) == digits_value(before) * 10 + d);
            }
        }
        i = i + 1;
    }
    proof {
        assert(s@.subrange(start as int, n as int) =~= digits);
        assert forall|k: int| 0 <= k < digits.len() implies is_digit(#[trigger] digits[k]) by {
            assert(digits[k] == s@[k + start]);
        }
        assert(all_digits(digits));
    }
    if too_large {
        None
    } else if negative {
        if magnitude == limit {
            Some(i64::MIN)
        } else {
            Some(-(magnitude as i64))
        }
    } else if magnitude <= 0x7fff_ffff_ffff_ffff {
        Some(magnitude as i64)
    } else {
        None
    }
}

/// The cache limit a stored setting gives: the number it holds, else no limit.
pub fn cache_limit_mb(setting: Option<&str>) -> (r: i64)
    ensures
        r == (match setting {
            Some(s) => match parsed_i64(s@) {
                Some(n) => n,
                None => DEFAULT_CACHE_LIMIT_MB,
            },
            None => DEFAULT_CACHE_LIMIT_MB,
        }),
{
    match setting {
        Some(s) => match parse_i64(s) {
            Some(n) => n,
            None => DEFAULT_CACHE_LIMIT_MB,
        },
        None => DEFAULT_CACHE_LIMIT_MB,
    }
}

/// The limit as it is stored: a negative one is stored as no limit.
pub fn limit_to_store(megabytes: i64) -> (r: i64)
    ensures
        r == (if megabytes < 0 {
            0
        } else {
            megabytes
        }),
{
    if megabytes < 0 {
        0
    } else {
        megabytes
    }
}

/// Whether the stored preference asks for sensitive photos to be hidden. It is
/// off unless asked for: hiding takes a photo out of the library.
pub fn auto_hide_enabled(setting: Option<&str>) -> (r: bool)
    ensures
        r == (match setting {
            Some(s) => s@ == "true"@,
            None => false,
        }),
{
    match setting {
        Some(s) => same_text(s, "true"),
        None => false,
    }
}

/// Whether `order` lists every index below `n` exactly once.
pub open spec fn is_permutation(order: Seq<usize>, n: int) -> bool {
    &&& order.len() == n
    &&& forall|k: int| 0 <= k < n ==> #[trigger] order[k] < n
    &&& forall|a: int, b: int| 0 <= a < b < n ==> order[a] != order[b]
}

/// Whether `order` puts the files oldest first, keeping files touched at the
/// same moment in their listed order.
pub open spec fn oldest_first(order: Seq<usize>, touched: Seq<i128>) -> bool {
    forall|a: int, b: int|
        0 <= a < b < order.len() ==> touched[order[a] as int] < touched[order[b] as int] || (
        touched[order[a] as int] == touched[order[b] as int] && order[a] < order[b])
}

/// The files in the order they are evicted: least recently touched first, ties
/// in the order they were listed.
pub fn eviction_order(touched: &Vec<i128>) -> (order: Vec<usize>)
    ensures
        is_permutation(order@, touched@.len() as int),
        oldest_first(order@, touched@),
{
    let n = touched.len();
    let mut order: Vec<usize> = Vec::new();
    let mut i: usize = 0;
    while i < n
        invariant
            n == touched@.len(),
            i <= n,
            order@.len() == i,
            forall|k: int| 0 <= k < i ==> #[trigger] order@[k] < i,
            forall|a: int, b: int| 0 <= a < b < i ==> order@[a] != order@[b],
            oldest_first(order@, touched@),
        decreases n - i,
    {
        // Insert `i` after every file that sorts before or with it.
        let mut pos: usize = order.len();
        while pos > 0 && touched[order[pos - 1]] > touched[i]
            invariant
                n == touched@.len(),
                i < n,
                order@.len() == i,
                pos <= i,
                forall|k: int| 0 <= k < i ==> #[trigger] order@[k] < i,
                forall|k: int| pos <= k < i ==> touched@[#[trigger] order@[k] as int] > touched@[i as int],
            decreases pos,
        {
            pos = pos - 1;
        }
        let ghost before = order@;
        order.insert(pos, i);
        proof {
            assert forall|k: int| 0 <= k < i + 1 implies #[trigger] order@[k] < i + 1 by {
                if k < pos {
                    assert(order@[k] == before[k]);
                } else if k > pos {
                    assert(order@[k] == before[k - 1]);
                }
            }
            assert forall|a: int, b: int| 0 <= a < b < i + 1 implies order@[a] != order@[b] by {
                if a < pos && b < pos {
                    assert(order@[a] == before[a] && order@[b] == before[b]);
                } else if a < pos && b == pos {
                    assert(order@[a] == before[a]);
                } else if a < pos {
                    assert(order@[a] == before[a] && order@[b] == before[b - 1]);
                } else if a == pos {
                    assert(order@[b] == before[b - 1]);
                } else {
                    assert(order@[a] == before[a - 1] && order@[b] == before[b - 1]);
                }
            }
            assert forall|a: int, b: int| 0 <= a < b < order@.len() implies touched@[order@[a] as int]
                < touched@[order@[b] as int] || (touched@[order@[a] as int] == touched@[order@[b] as int]
                && order@[a] < order@[b]) by {
                if a < pos && b < pos {
                    assert(order@[a] == before[a] && order@[b] == before[b]);
                } else if a < pos && b == pos {
                    assert(order@[a] == before[a]);
                    assert(pos > 0);
                    assert(touched@[before[pos - 1] as int] <= touched@[i as int]);
                    if a < pos - 1 {
                        assert(touched@[before[a] as int] <= touched@[before[pos - 1] as int]);
                    }
                } else if a < pos {
                    assert(order@[a] == before[a] && order@[b] == before[b - 1]);
                } else if a == pos {
                    assert(order@[b] == before[b - 1]);
                    assert(touched@[before[b - 1] as int] > touched@[i as int]);
                } else {
                    assert(order@[a] == before[a - 1] && order@[b] == before[b - 1]);
                }
            }
        }
        i = i + 1;
    }
    order
}

/// The total of the sizes.
pub open spec fn total(sizes: Seq<i64>) -> int
    decreases sizes.len(),
{
    if sizes.len() == 0 {
        0
    } else {
        total(sizes.drop_last()) + sizes.last()
    }
}

/// What was freed when the files of `sizes` were tried in turn and `answers`
/// says which removals succeeded.
pub open spec fn freed_by(sizes: Seq<i64>, answers: Seq<bool>) -> int
    decreases answers.len(),
{
    if answers.len() == 0 {
        0
    } else {
        freed_by(sizes, answers.drop_last()) + if answers.last() {
            sizes[answers.len() - 1] as int
        } else {
            0int
        }
    }
}

/// How many removals succeeded.
pub open spec fn removed_by(answers: Seq<bool>) -> int
    decreases answers.len(),
{
    if answers.len() == 0 {
        0
    } else {
        removed_by(answers.drop_last()) + if answers.last() {
            1int
        } else {
            0int
        }
    }
}

/// The sizes in eviction order.
pub open spec fn in_order(sizes: Seq<i64>, order: Seq<usize>) -> Seq<i64> {
    order.map_values(|k: usize| sizes[k as int])
}

/// Whether `remove` answered `answer` when asked to delete file `k`.
pub open spec fn removal_answered<F: Fn(usize) -> bool>(remove: F, k: usize, answer: bool) -> bool {
    call_ensures(remove, (k,), answer)
}

/// An eviction run as it went: files were tried oldest first while the cache
/// was still over its limit, `answers` saying which removals worked; the run
/// stopped once the cache fit or every file was tried.
pub open spec fn evicted_as<F: Fn(usize) -> bool>(
    remove: F,
    order: Seq<usize>,
    sizes: Seq<i64>,
    used: int,
    limit: int,
    answers: Seq<bool>,
) -> bool {
    let ordered = in_order(sizes, order);
    &&& answers.len() <= order.len()
    &&& forall|k: int| 0 <= k < answers.len() ==> #[trigger] removal_answered(remove, order[k], answers[k])
    &&& forall|k: int| 0 <= k < answers.len() ==> used - freed_by(ordered, answers.take(k)) > limit
    &&& (answers.len() == order.len() || used - freed_by(ordered, answers) <= limit)
}

proof fn lemma_freed_bounds(sizes: Seq<i64>, answers: Seq<bool>)
    requires
        answers.len() <= sizes.len(),
        forall|k: int| 0 <= k < sizes.len() ==> 0 <= #[trigger] sizes[k],
    ensures
        0 <= freed_by(sizes, answers) <= total(sizes.take(answers.len() as int)),
        0 <= removed_by(answers) <= answers.len(),
    decreases answers.len(),
{
    if answers.len() > 0 {
        lemma_freed_bounds(sizes, answers.drop_last());
        assert(sizes.take(answers.len() as int).drop_last() =~= sizes.take(answers.len() - 1));
    }
}

/// Deletes the least recently used thumbnails until the cache fits its limit.
/// `files` holds each file's size and when it was last touched; `remove` deletes
/// one and says whether that worked. With no limit, or a cache inside it,
/// nothing is asked to be removed.
pub fn enforce_cache_limit<F: Fn(usize) -> bool>(limit_mb: i64, files: &Vec<(i64, i128)>, remove: F) -> (report:
    CacheReport)
    requires
        forall|t: usize| remove.requires((t,)),
        forall|k: int| 0 <= k < files@.len() ==> 0 <= (#[trigger] files@[k]).0,
        total(files@.map_values(|f: (i64, i128)| f.0)) <= i64::MAX,
        files@.len() < i64::MAX,
        limit_mb * MEGABYTE <= i64::MAX,
        limit_mb * MEGABYTE >= i64::MIN,
    ensures
        ({
            let sizes = files@.map_values(|f: (i64, i128)| f.0);
            let used = total(sizes);
            let limit = limit_mb * MEGABYTE;
            &&& report.limit_bytes == limit
            &&& (limit_mb <= 0 || used <= limit) ==> report.used_bytes == used && report.freed_bytes == 0
                && report.removed == 0
            &&& (limit_mb > 0 && used > limit) ==> exists|order: Seq<usize>, answers: Seq<bool>|
                is_permutation(order, files@.len() as int) && oldest_first(
                    order,
                    files@.map_values(|f: (i64, i128)| f.1),
                ) && evicted_as(remove, order, sizes, used, limit, answers) && report.freed_bytes
                    == freed_by(in_order(sizes, order), answers) && report.removed == removed_by(answers)
                    && report.used_bytes == used - report.freed_bytes
        }),
{
    let ghost sizes = files@.map_values(|f: (i64, i128)| f.0);
    let n = files.len();
    let mut used: i64 = 0;
    let mut k: usize = 0;
    while k < n
        invariant
            n == files@.len(),
            sizes == files@.map_values(|f: (i64, i128)| f.0),
            forall|j: int| 0 <= j < n ==> 0 <= (#[trigger] files@[j]).0,
            total(sizes) <= i64::MAX,
            k <= n,
            used == total(sizes.take(k as int)),
        decreases n - k,
    {
        proof {
            assert(sizes.take(k + 1).drop_last() =~= sizes.take(k as int));
            lemma_total_prefix(sizes, k + 1);
        }
        used = used + files[k].0;
        k = k + 1;
    }
    proof {
        assert(sizes.take(n as int) =~= sizes);
    }
    let limit = limit_mb * MEGABYTE;
    if limit_mb <= 0 || used <= limit {
        return CacheReport { used_bytes: used, limit_bytes: limit, freed_bytes: 0, removed: 0 };
    }
    let mut touched: Vec<i128> = Vec::new();
    let mut j: usize = 0;
    while j < n
        invariant
            n == files@.len(),
            j <= n,
            touched@ == files@.map_values(|f: (i64, i128)| f.1).take(j as int),
        decreases n - j,
    {
        touched.push(files[j].1);
        j = j + 1;
        proof {
            assert(touched@ =~= files@.map_values(|f: (i64, i128)| f.1).take(j as int));
        }
    }
    proof {
        assert(touched@ =~= files@.map_values(|f: (i64, i128)| f.1));
    }
    let order = eviction_order(&touched);
    let ghost ordered = in_order(sizes, order@);
    let mut freed: i64 = 0;
    let mut removed: i64 = 0;
    let ghost mut answers: Seq<bool> = Seq::empty();
    let mut t: usize = 0;
    while t < n
        invariant_except_break
            n == files@.len(),
            n < i64::MAX,
            sizes == files@.map_values(|f: (i64, i128)| f.0),
            forall|j: int| 0 <= j < n ==> 0 <= (#[trigger] files@[j]).0,
            is_permutation(order@, n as int),
            ordered == in_order(sizes, order@),
            forall|q: usize| remove.requires((q,)),
            used == total(sizes),
            t <= n,
            answers.len() == t,
            freed == freed_by(ordered, answers),
            removed == removed_by(answers),
            0 <= freed <= used,
            0 <= removed <= t,
            forall|q: int| 0 <= q < answers.len() ==> #[trigger] removal_answered(remove, order@[q], answers[q]),
            forall|q: int| 0 <= q < answers.len() ==> used - freed_by(ordered, answers.take(q)) > limit,
        ensures
            answers.len() <= n,
            0 <= freed <= used,
            0 <= removed <= n,
            freed == freed_by(ordered, answers),
            removed == removed_by(answers),
            forall|q: int| 0 <= q < answers.len() ==> #[trigger] removal_answered(remove, order@[q], answers[q]),
            forall|q: int| 0 <= q < answers.len() ==> used - freed_by(ordered, answers.take(q)) > limit,
            answers.len() == n || used - freed_by(ordered, answers) <= limit,
        decreases n - t,
    {
        if used - freed <= limit {
            break;
        }
        let index = order[t];
        let size = files[index].0;
        let ok = remove(index);
        proof {
            assert(answers.push(ok).take(t as int) =~= answers);
            assert(answers.push(ok).drop_last() =~= answers);
            assert(ordered[t as int] == size);
            lemma_freed_bounds(ordered, answers.push(ok));
            lemma_ordered_total(sizes, order@, t + 1);
        }
        if ok {
            freed = freed + size;
            removed = removed + 1;
        }
        proof {
            answers = answers.push(ok);
            assert forall|q: int| 0 <= q < answers.len() implies used - freed_by(ordered, answers.take(q)) > limit by {
                if q < t {
                    assert(answers.take(q) =~= answers.drop_last().take(q));
                }
            }
        }
        t = t + 1;
    }
    proof {
        assert(is_permutation(order@, files@.len() as int));
        assert(evicted_as(remove, order@, sizes, used as int, limit as int, answers));
    }
    CacheReport { used_bytes: used - freed, limit_bytes: limit, freed_bytes: freed, removed }
}

proof fn lemma_total_prefix(sizes: Seq<i64>, k: int)
    requires
        0 < k <= sizes.len(),
        forall|j: int| 0 <= j < sizes.len() ==> 0 <= #[trigger] sizes[j],
    ensures
        total(sizes.take(k)) <= total(sizes),
        total(sizes.take(k)) == total(sizes.take(k - 1)) + sizes[k - 1],
    decreases sizes.len() - k,
{
    assert(sizes.take(k).drop_last() =~= sizes.take(k - 1));
    if k < sizes.len() {
        lemma_total_prefix(sizes, k + 1);
    } else {
        assert(sizes.take(k) =~= sizes);
    }
}

proof fn lemma_total_concat(x: Seq<i64>, y: Seq<i64>)
    ensures
        total(x + y) == total(x) + total(y),
    decreases y.len(),
{
    if y.len() > 0 {
        lemma_total_concat(x, y.drop_last());
        assert((x + y).drop_last() =~= x + y.drop_last());
    } else {
        assert(x + y =~= x);
    }
}

/// Sizes picked at distinct positions add up to no more than all of them.
proof fn lemma_distinct_picks_total(sizes: Seq<i64>, picks: Seq<usize>)
    requires
        sizes.len() <= usize::MAX,
        forall|j: int| 0 <= j < sizes.len() ==> 0 <= #[trigger] sizes[j],
        forall|k: int| 0 <= k < picks.len() ==> #[trigger] picks[k] < sizes.len(),
        forall|a: int, b: int| 0 <= a < b < picks.len() ==> picks[a] != picks[b],
    ensures
        0 <= total(in_order(sizes, picks)) <= total(sizes),
    decreases sizes.len(),
{
    assert(total(Seq::<i64>::empty()) == 0);
    if sizes.len() == 0 {
        if picks.len() > 0 {
            assert(picks[0] < sizes.len());
        }
        assert(in_order(sizes, picks) =~= Seq::<i64>::empty());
    } else {
        let last = (sizes.len() - 1) as usize;
        let rest = sizes.drop_last();
        if exists|k: int| 0 <= k < picks.len() && picks[k] == last {
            let k = choose|k: int| 0 <= k < picks.len() && picks[k] == last;
            let a = picks.take(k);
            let b = picks.skip(k + 1);
            let others = a + b;
            assert(picks =~= a + seq![last] + b);
            assert forall|q: int| 0 <= q < others.len() implies #[trigger] others[q] < rest.len() by {
                if q < a.len() {
                    assert(others[q] == picks[q]);
                } else {
                    assert(others[q] == picks[q + 1]);
                }
            }
            assert forall|x: int, y: int| 0 <= x < y < others.len() implies others[x] != others[y] by {
                let px = if x < a.len() { x } else { x + 1 };
                let py = if y < a.len() { y } else { y + 1 };
                assert(others[x] == picks[px]);
                assert(others[y] == picks[py]);
            }
            lemma_distinct_picks_total(rest, others);
            assert(in_order(sizes, others) =~= in_order(rest, others));
            assert(in_order(sizes, picks) =~= in_order(sizes, a) + seq![sizes[last as int]] + in_order(sizes, b));
            assert(in_order(sizes, others) =~= in_order(sizes, a) + in_order(sizes, b));
            lemma_total_concat(in_order(sizes, a) + seq![sizes[last as int]], in_order(sizes, b));
            lemma_total_concat(in_order(sizes, a), seq![sizes[last as int]]);
            lemma_total_concat(in_order(sizes, a), in_order(sizes, b));
            assert(total(seq![sizes[last as int]]) == sizes[last as int]) by {
                assert(seq![sizes[last as int]].drop_last() =~= Seq::<i64>::empty());
            }
            let ta = total(in_order(sizes, a));
            let tb = total(in_order(sizes, b));
            assert(total(in_order(sizes, picks)) == ta + sizes[last as int] + tb);
            assert(0 <= ta + tb <= total(rest));
            assert(total(sizes) == total(rest) + sizes[last as int]);
        } else {
            assert forall|q: int| 0 <= q < picks.len() implies #[trigger] picks[q] < rest.len() by {
                assert(picks[q] != last);
            }
            lemma_distinct_picks_total(rest, picks);
            assert(in_order(sizes, picks) =~= in_order(rest, picks));
        }
    }
}

/// The sizes taken in eviction order add up to no more than all of them.
proof fn lemma_ordered_total(sizes: Seq<i64>, order: Seq<usize>, k: int)
    requires
        is_permutation(order, sizes.len() as int),
        sizes.len() <= usize::MAX,
        forall|j: int| 0 <= j < sizes.len() ==> 0 <= #[trigger] sizes[j],
        0 <= k <= order.len(),
    ensures
        total(in_order(sizes, order).take(k)) <= total(sizes),
{
    let picks = order.take(k);
    assert(in_order(sizes, order).take(k) =~= in_order(sizes, picks));
    lemma_distinct_picks_total(sizes, picks);
}

} // verus!
