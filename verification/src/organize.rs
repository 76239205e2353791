//! Grouping that needs no model: events are runs of photos taken close together
//! in time, and a timeline counts photos per year, month or day.
//!
//! Instants are nanoseconds since the Unix epoch, as whole numbers.
use vstd::prelude::*;
use crate::text::{chars_of, decimal, push_decimal, same_text, string_from_chars};

verus! {

/// A new event starts when this much time passes with no photo taken.
pub const DEFAULT_EVENT_GAP_HOURS: i64 = 6;

/// Runs shorter than this are noise, not events.
pub const DEFAULT_MIN_EVENT_ITEMS: usize = 4;

/// A trip has to last at least this long: an afternoon out is an event, not a trip.
pub const TRIP_MIN_HOURS: i64 = 20;

/// Nanoseconds in a minute and in an hour.
pub const NANOS_PER_MINUTE: i128 = 60_000_000_000;
pub const NANOS_PER_HOUR: i128 = 3_600_000_000_000;
pub const NANOS_PER_SECOND: i128 = 1_000_000_000;

/// The furthest an instant handled here lies from the epoch, in nanoseconds:
/// well beyond any date a calendar type holds.
pub const MAX_INSTANT: i128 = 0x4000_0000_0000_0000_0000_0000;

/// `x / d`, rounded toward zero, as the whole units of a time span are counted.
pub open spec fn trunc_div(x: int, d: int) -> int {
    if x >= 0 {
        x / d
    } else {
        -((-x) / d)
    }
}

/// Whole minutes from `a` to `b`.
pub open spec fn minutes_between(a: int, b: int) -> int {
    trunc_div(b - a, NANOS_PER_MINUTE as int)
}

/// Whether entry `k` opens a new run: more than `gap_hours` passed since the one before.
pub open spec fn opens_run<T>(entries: Seq<(i128, T)>, gap_hours: int, k: int) -> bool {
    minutes_between(entries[k - 1].0 as int, entries[k].0 as int) > gap_hours * 60
}

/// The entries cut into runs wherever the gap to the next one exceeds `gap_hours`.
pub open spec fn all_runs<T>(entries: Seq<(i128, T)>, gap_hours: int) -> Seq<Seq<(i128, T)>>
    decreases entries.len(),
{
    if entries.len() == 0 {
        Seq::empty()
    } else {
        let before = all_runs(entries.drop_last(), gap_hours);
        let k = entries.len() - 1;
        if k == 0 || opens_run(entries, gap_hours, k) {
            before.push(seq![entries[k]])
        } else {
            before.update(before.len() - 1, before.last().push(entries[k]))
        }
    }
}

/// The runs that hold at least `min_items` entries, in order.
pub open spec fn long_runs<T>(runs: Seq<Seq<(i128, T)>>, min_items: int) -> Seq<Seq<(i128, T)>>
    decreases runs.len(),
{
    if runs.len() == 0 {
        Seq::empty()
    } else if runs.last().len() >= min_items {
        long_runs(runs.drop_last(), min_items).push(runs.last())
    } else {
        long_runs(runs.drop_last(), min_items)
    }
}

/// The runs laid end to end.
pub open spec fn flatten<T>(runs: Seq<Seq<T>>) -> Seq<T>
    decreases runs.len(),
{
    if runs.len() == 0 {
        Seq::empty()
    } else {
        flatten(runs.drop_last()) + runs.last()
    }
}

proof fn lemma_runs_shape<T>(entries: Seq<(i128, T)>, gap_hours: int)
    requires
        entries.len() > 0,
    ensures
        all_runs(entries, gap_hours).len() > 0,
        all_runs(entries, gap_hours).last().len() > 0,
        all_runs(entries, gap_hours).last().last() == entries.last(),
    decreases entries.len(),
{
    if entries.len() > 1 {
        lemma_runs_shape(entries.drop_last(), gap_hours);
    }
}

/// Every entry lands in exactly one run, in its original order: laid end to end,
/// the runs are the entries.
pub proof fn lemma_runs_partition_the_entries<T>(entries: Seq<(i128, T)>, gap_hours: int)
    ensures
        flatten(all_runs(entries, gap_hours)) == entries,
    decreases entries.len(),
{
    if entries.len() > 0 {
        let rest = entries.drop_last();
        lemma_runs_partition_the_entries(rest, gap_hours);
        let before = all_runs(rest, gap_hours);
        let k = entries.len() - 1;
        if k == 0 || opens_run(entries, gap_hours, k) {
            assert(all_runs(entries, gap_hours).drop_last() =~= before);
            assert(entries =~= rest + seq![entries[k]]);
        } else {
            lemma_runs_shape(rest, gap_hours);
            let runs = all_runs(entries, gap_hours);
            assert(runs.drop_last() =~= before.drop_last());
            let a = flatten(before.drop_last());
            let b = before.last();
            assert(flatten(before) == a + b);
            assert(entries =~= rest.push(entries[k]));
            assert((a + b).push(entries[k]) =~= a + b.push(entries[k]));
            assert(flatten(runs) == a + b.push(entries[k]));
        }
    }
}

/// Every run kept holds at least the minimum.
pub proof fn lemma_kept_runs_are_long_enough<T>(runs: Seq<Seq<(i128, T)>>, min_items: int)
    ensures
        forall|i: int|
            0 <= i < long_runs(runs, min_items).len() ==> (#[trigger] long_runs(runs, min_items)[i]).len() >= min_items,
    decreases runs.len(),
{
    if runs.len() > 0 {
        let rest = runs.drop_last();
        lemma_kept_runs_are_long_enough(rest, min_items);
        let kept = long_runs(runs, min_items);
        assert forall|i: int| 0 <= i < kept.len() implies (#[trigger] kept[i]).len() >= min_items by {
            if runs.last().len() >= min_items && i == kept.len() - 1 {
                assert(kept[i] == runs.last());
            } else {
                assert(kept[i] == long_runs(rest, min_items)[i]);
            }
        }
    }
}

/// The views of a list of runs.
pub open spec fn runs_view<T>(runs: Seq<Vec<(i128, T)>>) -> Seq<Seq<(i128, T)>> {
    runs.map_values(|r: Vec<(i128, T)>| r@)
}

/// Splits a time-ordered list wherever the gap to the next entry exceeds
/// `gap_hours`, then drops runs that are too small to be interesting.
pub fn split_on_gaps<T: Copy>(entries: &[(i128, T)], gap_hours: i64, min_items: usize) -> (runs: Vec<
    Vec<(i128, T)>,
>)
    requires
        i64::MIN <= gap_hours * 60 <= i64::MAX,
        forall|k: int| 0 <= k < entries@.len() ==> -MAX_INSTANT <= (#[trigger] entries@[k]).0 <= MAX_INSTANT,
    ensures
        runs_view(runs@) == long_runs(all_runs(entries@, gap_hours as int), min_items as int),
{
    let ghost g = gap_hours as int;
    let ghost m = min_items as int;
    let limit: i128 = (gap_hours as i128) * 60;
    let mut runs: Vec<Vec<(i128, T)>> = Vec::new();
    let mut current: Vec<(i128, T)> = Vec::new();
    let mut k: usize = 0;
    while k < entries.len()
        invariant
            g == gap_hours as int,
            m == min_items as int,
            limit == g * 60,
            forall|j: int| 0 <= j < entries@.len() ==> -MAX_INSTANT <= (#[trigger] entries@[j]).0 <= MAX_INSTANT,
            k <= entries@.len(),
            k == 0 ==> runs@.len() == 0 && current@.len() == 0,
            k > 0 ==> {
                &&& current@.len() > 0
                &&& current@ == all_runs(entries@.take(k as int), g).last()
                &&& current@.last() == entries@[k - 1]
                &&& runs_view(runs@) == long_runs(all_runs(entries@.take(k as int), g).drop_last(), m)
            },
        decreases entries@.len() - k,
    {
        let entry = entries[k];
        let ghost prefix = entries@.take(k + 1);
        proof {
            assert(prefix.drop_last() =~= entries@.take(k as int));
            if k > 0 {
                lemma_runs_shape(entries@.take(k as int), g);
            }
        }
        let mut opens = false;
        if k > 0 {
            let previous = current[current.len() - 1].0;
            let d: i128 = entry.0 - previous;
            let minutes: i128 = if d >= 0 {
                d / NANOS_PER_MINUTE
            } else {
                -((-d) / NANOS_PER_MINUTE)
            };
            proof {
                assert(prefix[k - 1] == entries@[k - 1]);
            }
            opens = minutes > limit;
        }
        if k > 0 && opens {
            let ghost kept_before = runs@;
            let ghost finished_view = current@;
            let long_enough = current.len() >= min_items;
            let finished = current;
            current = Vec::new();
            if long_enough {
                runs.push(finished);
                proof {
                    assert(runs_view(runs@) =~= runs_view(kept_before).push(finished_view));
                }
            }
            current.push(entry);
            proof {
                let before = all_runs(entries@.take(k as int), g);
                assert(all_runs(prefix, g) == before.push(seq![entry]));
                assert(all_runs(prefix, g).drop_last() =~= before);
                assert(before.drop_last().push(before.last()) =~= before);
                assert(long_runs(before, m) == if before.last().len() >= m {
                    long_runs(before.drop_last(), m).push(before.last())
                } else {
                    long_runs(before.drop_last(), m)
                });
                assert(runs_view(kept_before) == long_runs(before.drop_last(), m));
                assert(finished_view == before.last());
                assert(before.len() > 0);
                if long_enough {
                    assert(runs_view(runs@) == runs_view(kept_before).push(finished_view));
                    assert(runs_view(runs@) =~= long_runs(before, m));
                } else {
                    assert(runs_view(runs@) =~= long_runs(before, m));
                }
            }
        } else {
            current.push(entry);
            proof {
                let before = all_runs(entries@.take(k as int), g);
                if k == 0 {
                    assert(all_runs(prefix, g) =~= seq![seq![entry]]);
                    assert(runs_view(runs@) =~= long_runs(all_runs(prefix, g).drop_last(), m));
                } else {
                    assert(all_runs(prefix, g) == before.update(before.len() - 1, before.last().push(entry)));
                    assert(all_runs(prefix, g).drop_last() =~= before.drop_last());
                }
            }
        }
        k = k + 1;
    }
    if current.len() > 0 {
        let ghost before = all_runs(entries@, g);
        proof {
            assert(entries@.take(k as int) =~= entries@);
            lemma_runs_shape(entries@, g);
            assert(before.drop_last().push(before.last()) =~= before);
            assert(long_runs(before, m) == if before.last().len() >= m {
                long_runs(before.drop_last(), m).push(before.last())
            } else {
                long_runs(before.drop_last(), m)
            });
        }
        if current.len() >= min_items {
            runs.push(current);
        }
        proof {
            assert(runs_view(runs@) =~= long_runs(before, m));
        }
    } else {
        proof {
            assert(entries@ =~= Seq::<(i128, T)>::empty());
        }
    }
    runs
}

/// The gap and minimum an event search uses: six hours and four photos unless
/// asked otherwise, the gap kept between one and 240 hours, the minimum at least two.
pub fn event_settings(gap_hours: Option<i64>, min_items: Option<usize>) -> (r: (i64, usize))
    ensures
        r.0 == (match gap_hours {
            Some(g) => if g < 1 {
                1
            } else if g > 240 {
                240
            } else {
                g
            },
            None => DEFAULT_EVENT_GAP_HOURS,
        }),
        r.1 == (match min_items {
            Some(n) => if n < 2 {
                2
            } else {
                n
            },
            None => DEFAULT_MIN_EVENT_ITEMS,
        }),
{
    let gap = match gap_hours {
        Some(g) => if g < 1 {
            1
        } else if g > 240 {
            240
        } else {
            g
        },
        None => DEFAULT_EVENT_GAP_HOURS,
    };
    let min = match min_items {
        Some(n) => if n < 2 {
            2
        } else {
            n
        },
        None => DEFAULT_MIN_EVENT_ITEMS,
    };
    (gap, min)
}

/// Whether a run from `start` to `end` lasts long enough to be a trip: at least
/// twenty whole hours.
pub fn lasts_a_trip(start: i128, end: i128) -> (r: bool)
    requires
        -MAX_INSTANT <= start <= MAX_INSTANT,
        -MAX_INSTANT <= end <= MAX_INSTANT,
    ensures
        r == (trunc_div(end - start, NANOS_PER_HOUR as int) >= TRIP_MIN_HOURS),
{
    let d: i128 = end - start;
    let hours: i128 = if d >= 0 {
        d / NANOS_PER_HOUR
    } else {
        -((-d) / NANOS_PER_HOUR)
    };
    hours >= (TRIP_MIN_HOURS as i128)
}

/// A whole number in decimal, with a minus sign when it is negative.
pub open spec fn signed_decimal(n: int) -> Seq<char> {
    if n >= 0 {
        decimal(n as nat)
    } else {
        seq!['-'] + decimal((-n) as nat)
    }
}

fn push_signed(out: &mut Vec<char>, n: i64)
    ensures
        final(out)@ == old(out)@ + signed_decimal(n as int),
{
    if n >= 0 {
        push_decimal(out, n as u64);
    } else {
        out.push('-');
        let magnitude: u64 = if n == i64::MIN {
            9_223_372_036_854_775_808u64
        } else {
            (-n) as u64
        };
        push_decimal(out, magnitude);
        proof {
            assert(final(out)@ =~= old(out)@ + signed_decimal(n as int));
        }
    }
}

/// An event's id: the whole seconds since the epoch of its first and last
/// photo, joined by `_`.
pub fn event_id(start_seconds: i64, end_seconds: i64) -> (r: String)
    ensures
        r@ == signed_decimal(start_seconds as int) + seq!['_'] + signed_decimal(end_seconds as int),
{
    let mut out: Vec<char> = Vec::new();
    push_signed(&mut out, start_seconds);
    out.push('_');
    push_signed(&mut out, end_seconds);
    string_from_chars(&out)
}

/// What `DateTime::parse_from_rfc3339` reads from `raw`: whole seconds since the
/// epoch and the nanoseconds past them.
pub uninterp spec fn rfc3339_parts(raw: Seq<char>) -> Option<(i64, u32)>;

/// Calls `DateTime::parse_from_rfc3339` and reads the instant it names. As
/// chrono documents it, the nanoseconds stay below two seconds' worth (the
/// second one only for a leap second).
#[verifier::external_body]
fn parse_rfc3339(raw: &str) -> (r: Option<(i64, u32)>)
    ensures
        r == rfc3339_parts(raw@),
        r matches Some((_, nanos)) ==> nanos < 2_000_000_000,
{
    match chrono::DateTime::parse_from_rfc3339(raw) {
        Ok(date) => Some((date.timestamp(), date.timestamp_subsec_nanos())),
        Err(_) => None,
    }
}

/// What `NaiveDateTime::parse_from_str` reads from `raw` with `format`, taken as
/// UTC: whole seconds since the epoch and the nanoseconds past them.
pub uninterp spec fn naive_parts(raw: Seq<char>, format: Seq<char>) -> Option<(i64, u32)>;

/// Calls `NaiveDateTime::parse_from_str` and reads the instant it names in UTC.
#[verifier::external_body]
fn parse_naive(raw: &str, format: &str) -> (r: Option<(i64, u32)>)
    ensures
        r == naive_parts(raw@, format@),
        r matches Some((_, nanos)) ==> nanos < 2_000_000_000,
{
    match chrono::NaiveDateTime::parse_from_str(raw, format) {
        Ok(date) => Some((date.and_utc().timestamp(), date.and_utc().timestamp_subsec_nanos())),
        Err(_) => None,
    }
}

/// How EXIF dates arrive once normalized: no zone, space-separated.
pub open spec fn exif_format() -> Seq<char> {
    "%Y-%m-%d %H:%M:%S"@
}

/// The instant named by whole seconds and nanoseconds.
pub open spec fn instant_of(parts: Option<(i64, u32)>) -> Option<int> {
    match parts {
        Some((seconds, nanos)) => Some(seconds * NANOS_PER_SECOND + nanos),
        None => None,
    }
}

/// The instant a stored date names: RFC 3339 first, else an EXIF-style date
/// taken as UTC.
pub open spec fn date_instant(raw: Seq<char>) -> Option<int> {
    match rfc3339_parts(raw) {
        Some(parts) => instant_of(Some(parts)),
        None => instant_of(naive_parts(raw, exif_format())),
    }
}

fn instant_from(parts: (i64, u32)) -> (r: i128)
    requires
        parts.1 < 2_000_000_000,
    ensures
        Some(r as int) == instant_of(Some(parts)),
        -MAX_INSTANT <= r <= MAX_INSTANT,
{
    let (seconds, nanos) = parts;
    assert(-MAX_INSTANT <= seconds * NANOS_PER_SECOND + nanos <= MAX_INSTANT) by (nonlinear_arith)
        requires
            -0x8000_0000_0000_0000 <= seconds <= 0x7fff_ffff_ffff_ffff,
            0 <= nanos < 2_000_000_000,
    ;
    (seconds as i128) * NANOS_PER_SECOND + (nanos as i128)
}

/// Reads a stored date as an instant.
pub fn parse_date(raw: &str) -> (r: Option<i128>)
    ensures
        match r {
            Some(t) => date_instant(raw@) == Some(t as int) && -MAX_INSTANT <= t <= MAX_INSTANT,
            None => date_instant(raw@) is None,
        },
{
    match parse_rfc3339(raw) {
        Some(parts) => Some(instant_from(parts)),
        None => match parse_naive(raw, "%Y-%m-%d %H:%M:%S") {
            Some(parts) => Some(instant_from(parts)),
            None => None,
        },
    }
}

/// The bucket key for photos with no usable date at all.
pub const UNSPECIFIED_BUCKET_KEY: &'static str = "unspecified";

/// The `strftime` format a timeline groups by, and how many characters of a
/// bucket key its label shows: a day, a month, or (by default) a year.
pub open spec fn timeline_spec(granularity: Option<Seq<char>>) -> (Seq<char>, int) {
    if granularity == Some("day"@) {
        ("%Y-%m-%d"@, 10)
    } else if granularity == Some("month"@) {
        ("%Y-%m"@, 7)
    } else {
        ("%Y"@, 4)
    }
}

/// The view of an optional string slice.
pub open spec fn text_opt(o: Option<&str>) -> Option<Seq<char>> {
    match o {
        Some(s) => Some(s@),
        None => None,
    }
}

/// The grouping format and label length for a timeline granularity.
pub fn timeline_format(granularity: Option<&str>) -> (r: (&'static str, usize))
    ensures
        r.0@ == timeline_spec(text_opt(granularity)).0,
        r.1 == timeline_spec(text_opt(granularity)).1,
{
    let is = |lit: &str| -> (b: bool)
        ensures
            b == (text_opt(granularity) == Some(lit@)),
        {
            match granularity {
                Some(g) => same_text(g, lit),
                None => false,
            }
        };
    if is("day") {
        ("%Y-%m-%d", 10)
    } else if is("month") {
        ("%Y-%m", 7)
    } else {
        ("%Y", 4)
    }
}

/// A bucket's label: the first `len` characters of its key.
pub fn bucket_label(key: &str, len: usize) -> (r: String)
    ensures
        r@ == key@.take(if len <= key@.len() {
            len as int
        } else {
            key@.len() as int
        }),
{
    let chars = chars_of(key);
    let n = if len <= chars.len() {
        len
    } else {
        chars.len()
    };
    let mut out: Vec<char> = Vec::new();
    let mut i: usize = 0;
    while i < n
        invariant
            n <= chars@.len(),
            chars@ == key@,
            i <= n,
            out@ == chars@.take(i as int),
        decreases n - i,
    {
        out.push(chars[i]);
        i = i + 1;
        proof {
            assert(out@ =~= chars@.take(i as int));
        }
    }
    string_from_chars(&out)
}

} // verus!
