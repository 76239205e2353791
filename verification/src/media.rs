//! The fixed SQL fragments a media query is built from: which slice of the
//! library it reads, and in which order.
use vstd::prelude::*;
use crate::text::{chars_of, is_whitespace, same_text, string_from_chars, trim_by, trim_whitespace, unicode_whitespace, ws};

verus! {

/// The view of an optional string slice.
pub open spec fn opt_text(o: Option<&str>) -> Option<Seq<char>> {
    match o {
        Some(s) => Some(s@),
        None => None,
    }
}

/// The condition for a scope. The scopes are mutually exclusive views, so one
/// name beats three overlapping switches that could ask for "trashed but not
/// trashed". No scope means the library itself, which hides everything filed away.
pub open spec fn scope_sql(scope: Option<Seq<char>>) -> Seq<char> {
    let name = match scope {
        Some(s) => s,
        None => "library"@,
    };
    if name == "trash"@ {
        "is_trashed = 1"@
    } else if name == "hidden"@ {
        "is_trashed = 0 AND is_hidden = 1"@
    } else if name == "archive"@ {
        "is_trashed = 0 AND is_archived = 1"@
    } else if name == "all"@ {
        "is_trashed = 0"@
    } else {
        "is_trashed = 0 AND is_hidden = 0 AND is_archived = 0"@
    }
}

/// Which slice of the library a query asks for.
pub fn scope_predicate(scope: Option<&str>) -> (r: &'static str)
    ensures
        r@ == scope_sql(opt_text(scope)),
{
    let name = match scope {
        Some(s) => s,
        None => "library",
    };
    if same_text(name, "trash") {
        "is_trashed = 1"
    } else if same_text(name, "hidden") {
        "is_trashed = 0 AND is_hidden = 1"
    } else if same_text(name, "archive") {
        "is_trashed = 0 AND is_archived = 1"
    } else if same_text(name, "all") {
        "is_trashed = 0"
    } else {
        "is_trashed = 0 AND is_hidden = 0 AND is_archived = 0"
    }
}

/// The order for a sort name. Orders come from this fixed set, never from caller
/// text. The trash reads as a deletion log; everything else as a timeline, where
/// a date corrected by hand outranks the one read from EXIF.
pub open spec fn order_sql(sort: Option<Seq<char>>, scope: Option<Seq<char>>) -> Seq<char> {
    if sort == Some("added"@) {
        "indexed_at DESC"@
    } else if sort == Some("name"@) {
        "filename COLLATE NOCASE ASC"@
    } else if sort == Some("size"@) {
        "size DESC"@
    } else if sort == Some("oldest"@) {
        "COALESCE(taken_at_override, taken_at, created_at) ASC"@
    } else if sort == Some("viewed"@) {
        "last_viewed_at DESC"@
    } else if scope == Some("trash"@) {
        "COALESCE(trashed_at, modified_at) DESC"@
    } else {
        "COALESCE(taken_at_override, taken_at, created_at) DESC"@
    }
}

fn is_text(o: Option<&str>, lit: &str) -> (r: bool)
    ensures
        r == (opt_text(o) == Some(lit@)),
{
    match o {
        Some(s) => same_text(s, lit),
        None => false,
    }
}

/// The sort order for a media query.
pub fn order_predicate(sort: Option<&str>, scope: Option<&str>) -> (r: &'static str)
    ensures
        r@ == order_sql(opt_text(sort), opt_text(scope)),
{
    if is_text(sort, "added") {
        "indexed_at DESC"
    } else if is_text(sort, "name") {
        "filename COLLATE NOCASE ASC"
    } else if is_text(sort, "size") {
        "size DESC"
    } else if is_text(sort, "oldest") {
        "COALESCE(taken_at_override, taken_at, created_at) ASC"
    } else if is_text(sort, "viewed") {
        "last_viewed_at DESC"
    } else if is_text(scope, "trash") {
        "COALESCE(trashed_at, modified_at) DESC"
    } else {
        "COALESCE(taken_at_override, taken_at, created_at) DESC"
    }
}

/// Only the trash shows trashed photos: every other scope begins by asking for
/// rows that are not trashed.
pub proof fn lemma_only_the_trash_shows_trashed(scope: Option<Seq<char>>)
    ensures
        scope == Some("trash"@) ==> scope_sql(scope) == "is_trashed = 1"@,
        scope != Some("trash"@) ==> scope_sql(scope).take(14) == "is_trashed = 0"@,
{
    reveal_strlit("is_trashed = 0");
    reveal_strlit("is_trashed = 0 AND is_hidden = 1");
    reveal_strlit("is_trashed = 0 AND is_archived = 1");
    reveal_strlit("is_trashed = 0 AND is_hidden = 0 AND is_archived = 0");
    reveal_strlit("library");
    reveal_strlit("trash");
    assert("is_trashed = 0 AND is_hidden = 1"@.take(14) =~= "is_trashed = 0"@);
    assert("is_trashed = 0 AND is_archived = 1"@.take(14) =~= "is_trashed = 0"@);
    assert("is_trashed = 0 AND is_hidden = 0 AND is_archived = 0"@.take(14) =~= "is_trashed = 0"@);
    assert("is_trashed = 0"@.take(14) =~= "is_trashed = 0"@);
    assert("library"@ != "trash"@) by {
        assert("library"@.len() != "trash"@.len());
    }
}

/// The search text after the first `k` characters have been read: each run of
/// white space becomes `* `, double quotes are dropped, everything else kept.
/// `after_space` says whether the character before was white space.
pub open spec fn fts_body(t: Seq<char>, after_space: bool) -> Seq<char>
    decreases t.len(),
{
    if t.len() == 0 {
        Seq::empty()
    } else if unicode_whitespace(t[0]) {
        (if after_space {
            Seq::empty()
        } else {
            "* "@
        }) + fts_body(t.drop_first(), true)
    } else if t[0] == '"' {
        fts_body(t.drop_first(), false)
    } else {
        seq![t[0]] + fts_body(t.drop_first(), false)
    }
}

/// The full-text query for what was typed: every word a prefix (`word*`), no
/// double quotes; nothing at all for a query that is only white space.
pub open spec fn fts_query_of(query: Seq<char>) -> Option<Seq<char>> {
    let t = trim_by(query, ws());
    if t.len() == 0 {
        None
    } else {
        Some(fts_body(t, false) + seq!['*'])
    }
}

/// Builds the full-text query for a search.
pub fn fts_query(query: &str) -> (r: Option<String>)
    ensures
        match r {
            Some(q) => fts_query_of(query@) == Some(q@),
            None => fts_query_of(query@) is None,
        },
{
    let chars = chars_of(query);
    let t = trim_whitespace(&chars);
    if t.len() == 0 {
        return None;
    }
    let n = t.len();
    let mut out: Vec<char> = Vec::new();
    let mut i: usize = 0;
    let mut prev_space = false;
    proof {
        reveal_strlit("* ");
        assert(t@.skip(0) =~= t@);
        assert(out@ + fts_body(t@, false) =~= fts_body(t@, false));
    }
    while i < n
        invariant
            n == t@.len(),
            i <= n,
            fts_body(t@, false) == out@ + fts_body(t@.skip(i as int), prev_space),
        decreases n - i,
    {
        let c = t[i];
        let ghost rest = t@.skip(i as int);
        proof {
            assert(rest.drop_first() =~= t@.skip(i + 1));
            assert(rest[0] == c);
        }
        if is_whitespace(c) {
            if !prev_space {
                let ghost before = out@;
                out.push('*');
                out.push(' ');
                proof {
                    reveal_strlit("* ");
                    assert(out@ =~= before + "* "@);
                }
                proof {
                    assert(fts_body(t@, false) =~= out@ + fts_body(t@.skip(i + 1), true));
                }
            } else {
                proof {
                    assert(fts_body(t@, false) =~= out@ + fts_body(t@.skip(i + 1), true));
                }
            }
            prev_space = true;
        } else if c == '"' {
            prev_space = false;
        } else {
            out.push(c);
            proof {
                assert(fts_body(t@, false) =~= out@ + fts_body(t@.skip(i + 1), false));
            }
            prev_space = false;
        }
        i = i + 1;
    }
    proof {
        assert(t@.skip(n as int) =~= Seq::<char>::empty());
        assert(out@ =~= fts_body(t@, false));
    }
    out.push('*');
    Some(string_from_chars(&out))
}

} // verus!
