//! Smart albums: rule-based albums that automatically include matching photos.
//!
//! A smart album is defined by one or more rules (tag, person, date range, media
//! type, score...). When the album is opened the matching photos are computed on
//! the fly, by a query this module writes.
//!
//! Rules are joined according to the album's `match_type`: `all` demands every
//! rule, `any` a single one. Any operator can be prefixed with `not_` to invert
//! it. A rule that cannot be translated is refused, never skipped: skipping it
//! would silently widen the album.
use vstd::prelude::*;
use crate::text::{
    chars_eq_str, chars_of, push_chars, push_str, starts_with, string_from_chars,
    sub_chars, find_char,
};

verus! {

/// The two ways a set of rules can be combined.
pub const MATCH_ALL: &'static str = "all";
pub const MATCH_ANY: &'static str = "any";

#[derive(Debug, Clone)]
pub struct SmartAlbumRule {
    /// One of the kinds [`accepted_operators`] knows.
    pub kind: String,
    /// One of the operators that kind accepts, optionally prefixed with `not_`.
    pub operator: String,
    /// The value to match: tag name, person_id, "start|end", a number, etc.
    pub value: String,
}

#[derive(Debug, Clone)]
pub struct SmartAlbum {
    pub id: String,
    pub name: String,
    pub rules: Vec<SmartAlbumRule>,
    /// [`MATCH_ALL`] or [`MATCH_ANY`].
    pub match_type: String,
    pub cover_media_id: Option<String>,
    pub item_count: i64,
    pub created_at: String,
    pub updated_at: String,
}

#[derive(Debug, Clone)]
pub struct SmartAlbumSuggestion {
    pub name: String,
    pub rules: Vec<SmartAlbumRule>,
    pub match_type: String,
    pub preview_count: i64,
}

/// A value bound to one `?` of a smart-album query.
#[derive(Debug, Clone)]
pub enum SqlValue {
    Text(String),
    Integer(i64),
    /// A score threshold, as the text the rule holds; bound as a real number.
    Real(String),
}

/// What a bound value stands for.
pub enum BindView {
    Text(Seq<char>),
    Integer(int),
    Real(Seq<char>),
}

pub open spec fn bind_view(v: SqlValue) -> BindView {
    match v {
        SqlValue::Text(s) => BindView::Text(s@),
        SqlValue::Integer(i) => BindView::Integer(i as int),
        SqlValue::Real(s) => BindView::Real(s@),
    }
}

pub open spec fn binds_view(vs: Seq<SqlValue>) -> Seq<BindView> {
    vs.map_values(|v: SqlValue| bind_view(v))
}

/* ------------------------------------------------------------ LIKE text -- */

/// How one character of a LIKE value is written so that it matches only itself.
pub open spec fn escape_char(c: char) -> Seq<char> {
    if c == '\\' || c == '%' || c == '_' {
        seq!['\\', c]
    } else {
        seq![c]
    }
}

/// `s` with every backslash, `%` and `_` escaped by a backslash.
pub open spec fn escaped(s: Seq<char>) -> Seq<char>
    decreases s.len(),
{
    if s.len() == 0 {
        seq![]
    } else {
        escape_char(s[0]) + escaped(s.drop_first())
    }
}

/// Reads a LIKE pattern written with `ESCAPE '\'`: the literal text it matches,
/// or `None` when it holds a wildcard (or ends on a lone escape character).
pub open spec fn like_literal(p: Seq<char>) -> Option<Seq<char>>
    decreases p.len(),
{
    if p.len() == 0 {
        Some(seq![])
    } else if p[0] == '\\' {
        if p.len() < 2 {
            None
        } else {
            match like_literal(p.subrange(2, p.len() as int)) {
                Some(rest) => Some(seq![p[1]] + rest),
                None => None,
            }
        }
    } else if p[0] == '%' || p[0] == '_' {
        None
    } else {
        match like_literal(p.drop_first()) {
            Some(rest) => Some(seq![p[0]] + rest),
            None => None,
        }
    }
}

proof fn lemma_escaped_append(a: Seq<char>, c: char)
    ensures
        escaped(a.push(c)) == escaped(a) + escape_char(c),
    decreases a.len(),
{
    if a.len() == 0 {
        assert(a.push(c).drop_first() =~= Seq::<char>::empty());
        assert(escaped(Seq::<char>::empty()) == Seq::<char>::empty());
        assert(escaped(a.push(c)) =~= escape_char(c));
    } else {
        assert(a.push(c).drop_first() =~= a.drop_first().push(c));
        lemma_escaped_append(a.drop_first(), c);
        assert(escaped(a.push(c)) =~= escape_char(a[0]) + escaped(a.drop_first().push(c)));
        assert(escaped(a) =~= escape_char(a[0]) + escaped(a.drop_first()));
    }
}

/// A value written with [`escape_like`] matches exactly its own text: it holds
/// no wildcard, so a filename search for "100_0123" finds that literal name.
pub proof fn lemma_escaped_matches_literally(s: Seq<char>)
    ensures
        like_literal(escaped(s)) == Some(s),
    decreases s.len(),
{
    if s.len() == 0 {
    } else {
        lemma_escaped_matches_literally(s.drop_first());
        let e = escaped(s);
        let rest = escaped(s.drop_first());
        let c = s[0];
        if c == '\\' || c == '%' || c == '_' {
            assert(e.subrange(2, e.len() as int) =~= rest);
            assert(seq![c] + s.drop_first() =~= s);
        } else {
            assert(e.drop_first() =~= rest);
            assert(seq![c] + s.drop_first() =~= s);
        }
    }
}

/// `%` and `_` are wildcards for LIKE. A filename search for "100_0123" has to
/// look for that literal text, so they are escaped here and every LIKE clause
/// declares `ESCAPE '\'`.
pub fn escape_like(value: &str) -> (r: String)
    ensures
        r@ == escaped(value@),
{
    let chars = chars_of(value);
    let mut out: Vec<char> = Vec::new();
    let mut i: usize = 0;
    while i < chars.len()
        invariant
            chars@ == value@,
            i <= chars@.len(),
            out@ == escaped(chars@.take(i as int)),
        decreases chars@.len() - i,
    {
        let c = chars[i];
        if c == '\\' || c == '%' || c == '_' {
            out.push('\\');
        }
        out.push(c);
        proof {
            assert(chars@.take(i + 1) =~= chars@.take(i as int).push(c));
            lemma_escaped_append(chars@.take(i as int), c);
        }
        i = i + 1;
    }
    proof {
        assert(chars@.take(i as int) =~= chars@);
    }
    string_from_chars(&out)
}

/// The pattern that finds `value` anywhere in a text.
pub open spec fn contains_pattern(value: Seq<char>) -> Seq<char> {
    seq!['%'] + escaped(value) + seq!['%']
}

fn contains_value(value: &String) -> (r: SqlValue)
    ensures
        bind_view(r) == BindView::Text(contains_pattern(value@)),
{
    let escaped_value = escape_like(value.as_str());
    let mut out: Vec<char> = Vec::new();
    out.push('%');
    push_chars(&mut out, &chars_of(escaped_value.as_str()));
    out.push('%');
    proof {
        assert(out@ =~= contains_pattern(value@));
    }
    SqlValue::Text(string_from_chars(&out))
}

/* --------------------------------------------------------------- rules -- */

/// Every translation a rule can have: one per accepted (kind, operator) pair.
#[derive(Debug, Clone, Copy, PartialEq, Eq, Structural)]
pub enum Clause {
    TagIs,
    TagContains,
    PersonIs,
    MediaTypeIs,
    FavoriteIs,
    DateRangeBetween,
    PlaceIs,
    PlaceContains,
    CameraIs,
    CameraContains,
    CaptionContains,
    FilenameContains,
    AestheticAtLeast,
    AestheticAtMost,
    BlurAtLeast,
    BlurAtMost,
    NsfwAtLeast,
    NsfwAtMost,
}

/// The clause a (kind, operator) pair names, the `not_` prefix already removed.
pub open spec fn clause_of(kind: Seq<char>, op: Seq<char>) -> Option<Clause> {
    if kind == "tag"@ && op == "is"@ {
        Some(Clause::TagIs)
    } else if kind == "tag"@ && op == "contains"@ {
        Some(Clause::TagContains)
    } else if kind == "person"@ && op == "is"@ {
        Some(Clause::PersonIs)
    } else if kind == "media_type"@ && op == "is"@ {
        Some(Clause::MediaTypeIs)
    } else if kind == "favorite"@ && op == "is"@ {
        Some(Clause::FavoriteIs)
    } else if kind == "date_range"@ && op == "between"@ {
        Some(Clause::DateRangeBetween)
    } else if kind == "place"@ && op == "is"@ {
        Some(Clause::PlaceIs)
    } else if kind == "place"@ && op == "contains"@ {
        Some(Clause::PlaceContains)
    } else if kind == "camera"@ && op == "is"@ {
        Some(Clause::CameraIs)
    } else if kind == "camera"@ && op == "contains"@ {
        Some(Clause::CameraContains)
    } else if kind == "caption"@ && op == "contains"@ {
        Some(Clause::CaptionContains)
    } else if kind == "filename"@ && op == "contains"@ {
        Some(Clause::FilenameContains)
    } else if kind == "aesthetic"@ && op == "at_least"@ {
        Some(Clause::AestheticAtLeast)
    } else if kind == "aesthetic"@ && op == "at_most"@ {
        Some(Clause::AestheticAtMost)
    } else if kind == "blur"@ && op == "at_least"@ {
        Some(Clause::BlurAtLeast)
    } else if kind == "blur"@ && op == "at_most"@ {
        Some(Clause::BlurAtMost)
    } else if kind == "nsfw"@ && op == "at_least"@ {
        Some(Clause::NsfwAtLeast)
    } else if kind == "nsfw"@ && op == "at_most"@ {
        Some(Clause::NsfwAtMost)
    } else {
        None
    }
}

fn parse_clause(kind: &Vec<char>, op: &Vec<char>) -> (r: Option<Clause>)
    ensures
        r == clause_of(kind@, op@),
{
    let is = chars_eq_str(op, "is");
    let contains = chars_eq_str(op, "contains");
    let at_least = chars_eq_str(op, "at_least");
    let at_most = chars_eq_str(op, "at_most");
    let between = chars_eq_str(op, "between");
    if chars_eq_str(kind, "tag") && is {
        Some(Clause::TagIs)
    } else if chars_eq_str(kind, "tag") && contains {
        Some(Clause::TagContains)
    } else if chars_eq_str(kind, "person") && is {
        Some(Clause::PersonIs)
    } else if chars_eq_str(kind, "media_type") && is {
        Some(Clause::MediaTypeIs)
    } else if chars_eq_str(kind, "favorite") && is {
        Some(Clause::FavoriteIs)
    } else if chars_eq_str(kind, "date_range") && between {
        Some(Clause::DateRangeBetween)
    } else if chars_eq_str(kind, "place") && is {
        Some(Clause::PlaceIs)
    } else if chars_eq_str(kind, "place") && contains {
        Some(Clause::PlaceContains)
    } else if chars_eq_str(kind, "camera") && is {
        Some(Clause::CameraIs)
    } else if chars_eq_str(kind, "camera") && contains {
        Some(Clause::CameraContains)
    } else if chars_eq_str(kind, "caption") && contains {
        Some(Clause::CaptionContains)
    } else if chars_eq_str(kind, "filename") && contains {
        Some(Clause::FilenameContains)
    } else if chars_eq_str(kind, "aesthetic") && at_least {
        Some(Clause::AestheticAtLeast)
    } else if chars_eq_str(kind, "aesthetic") && at_most {
        Some(Clause::AestheticAtMost)
    } else if chars_eq_str(kind, "blur") && at_least {
        Some(Clause::BlurAtLeast)
    } else if chars_eq_str(kind, "blur") && at_most {
        Some(Clause::BlurAtMost)
    } else if chars_eq_str(kind, "nsfw") && at_least {
        Some(Clause::NsfwAtLeast)
    } else if chars_eq_str(kind, "nsfw") && at_most {
        Some(Clause::NsfwAtMost)
    } else {
        None
    }
}

/// The WHERE fragment of each clause, with one `?` per bound value.
pub open spec fn clause_sql(c: Clause) -> Seq<char> {
    match c {
        Clause::TagIs => "m.id IN (SELECT media_id FROM tags WHERE tag = ?)"@,
        Clause::TagContains => "m.id IN (SELECT media_id FROM tags WHERE tag LIKE ? ESCAPE '\\')"@,
        Clause::PersonIs => "m.id IN (SELECT media_id FROM faces WHERE person_id = ?)"@,
        Clause::MediaTypeIs => "m.media_type = ?"@,
        Clause::FavoriteIs => "m.is_favorite = 1"@,
        Clause::DateRangeBetween => "COALESCE(m.taken_at_override, m.taken_at, m.created_at) BETWEEN ? AND ?"@,
        Clause::PlaceIs | Clause::PlaceContains => "m.id IN (SELECT e.media_id FROM exif_data e\n                      JOIN geocode_cache g\n                        ON ROUND(e.gps_lat, 2) = g.lat AND ROUND(e.gps_lon, 2) = g.lon\n                      WHERE g.name LIKE ? ESCAPE '\\')"@,
        Clause::CameraIs => "m.id IN (SELECT media_id FROM exif_data WHERE camera_model = ?)"@,
        Clause::CameraContains => "m.id IN (SELECT media_id FROM exif_data WHERE camera_model LIKE ? ESCAPE '\\')"@,
        Clause::CaptionContains => "m.id IN (SELECT media_id FROM captions WHERE text LIKE ? ESCAPE '\\')"@,
        Clause::FilenameContains => "m.filename LIKE ? ESCAPE '\\'"@,
        Clause::AestheticAtLeast => "m.aesthetic_score >= ?"@,
        Clause::AestheticAtMost => "m.aesthetic_score <= ?"@,
        Clause::BlurAtLeast => "m.blur_score >= ?"@,
        Clause::BlurAtMost => "m.blur_score <= ?"@,
        Clause::NsfwAtLeast => "m.nsfw_score >= ?"@,
        Clause::NsfwAtMost => "m.nsfw_score <= ?"@,
    }
}

fn clause_text(c: Clause) -> (s: &'static str)
    ensures
        s@ == clause_sql(c),
{
    match c {
        Clause::TagIs => "m.id IN (SELECT media_id FROM tags WHERE tag = ?)",
        Clause::TagContains => "m.id IN (SELECT media_id FROM tags WHERE tag LIKE ? ESCAPE '\\')",
        Clause::PersonIs => "m.id IN (SELECT media_id FROM faces WHERE person_id = ?)",
        Clause::MediaTypeIs => "m.media_type = ?",
        Clause::FavoriteIs => "m.is_favorite = 1",
        Clause::DateRangeBetween => "COALESCE(m.taken_at_override, m.taken_at, m.created_at) BETWEEN ? AND ?",
        Clause::PlaceIs | Clause::PlaceContains => "m.id IN (SELECT e.media_id FROM exif_data e\n                      JOIN geocode_cache g\n                        ON ROUND(e.gps_lat, 2) = g.lat AND ROUND(e.gps_lon, 2) = g.lon\n                      WHERE g.name LIKE ? ESCAPE '\\')",
        Clause::CameraIs => "m.id IN (SELECT media_id FROM exif_data WHERE camera_model = ?)",
        Clause::CameraContains => "m.id IN (SELECT media_id FROM exif_data WHERE camera_model LIKE ? ESCAPE '\\')",
        Clause::CaptionContains => "m.id IN (SELECT media_id FROM captions WHERE text LIKE ? ESCAPE '\\')",
        Clause::FilenameContains => "m.filename LIKE ? ESCAPE '\\'",
        Clause::AestheticAtLeast => "m.aesthetic_score >= ?",
        Clause::AestheticAtMost => "m.aesthetic_score <= ?",
        Clause::BlurAtLeast => "m.blur_score >= ?",
        Clause::BlurAtMost => "m.blur_score <= ?",
        Clause::NsfwAtLeast => "m.nsfw_score >= ?",
        Clause::NsfwAtMost => "m.nsfw_score <= ?",
    }
}

/// Why a score rule's value was refused.
pub open spec fn not_a_number_message(kind: Seq<char>, value: Seq<char>) -> Seq<char> {
    "rule \""@ + kind + "\" expects a number, got \""@ + value + "\""@
}

/// Why a date range without its separator was refused.
pub open spec fn not_a_range_message(value: Seq<char>) -> Seq<char> {
    "rule \"date_range\" expects \"start|end\", got \""@ + value + "\""@
}

/// The values bound to a clause, or why the rule's value does not fit it.
/// `numeric` says whether the value, trimmed, reads as a number.
pub open spec fn clause_binds(c: Clause, kind: Seq<char>, value: Seq<char>, numeric: bool) -> Result<
    Seq<BindView>,
    Seq<char>,
> {
    match c {
        Clause::TagIs | Clause::PersonIs | Clause::MediaTypeIs | Clause::CameraIs => Ok(
            seq![BindView::Text(value)],
        ),
        Clause::TagContains | Clause::PlaceContains | Clause::CameraContains
        | Clause::CaptionContains | Clause::FilenameContains => Ok(
            seq![BindView::Text(contains_pattern(value))],
        ),
        Clause::PlaceIs => Ok(seq![BindView::Text(escaped(value))]),
        Clause::FavoriteIs => Ok(seq![]),
        Clause::DateRangeBetween => {
            if exists|i: int| 0 <= i < value.len() && value[i] == '|' {
                let i = choose|i: int|
                    0 <= i < value.len() && value[i] == '|' && forall|k: int|
                        0 <= k < i ==> value[k] != '|';
                Ok(
                    seq![
                        BindView::Text(value.subrange(0, i)),
                        BindView::Text(value.subrange(i + 1, value.len() as int)),
                    ],
                )
            } else {
                Err(not_a_range_message(value))
            }
        },
        _ => {
            if numeric {
                Ok(seq![BindView::Real(value)])
            } else {
                Err(not_a_number_message(kind, value))
            }
        },
    }
}

/// The operators each kind accepts, as they are listed to the user.
pub open spec fn accepted_list(kind: Seq<char>) -> Option<Seq<char>> {
    if kind == "tag"@ {
        Some("is, contains"@)
    } else if kind == "person"@ {
        Some("is"@)
    } else if kind == "media_type"@ {
        Some("is"@)
    } else if kind == "favorite"@ {
        Some("is"@)
    } else if kind == "date_range"@ {
        Some("between"@)
    } else if kind == "place"@ {
        Some("is, contains"@)
    } else if kind == "camera"@ {
        Some("is, contains"@)
    } else if kind == "caption"@ {
        Some("contains"@)
    } else if kind == "filename"@ {
        Some("contains"@)
    } else if kind == "aesthetic"@ {
        Some("at_least, at_most"@)
    } else if kind == "blur"@ {
        Some("at_least, at_most"@)
    } else if kind == "nsfw"@ {
        Some("at_least, at_most"@)
    } else {
        None
    }
}

/// The operators each rule kind accepts, joined for display; `None` for a kind
/// no rule has.
pub fn accepted_operators(kind: &Vec<char>) -> (r: Option<&'static str>)
    ensures
        match r {
            Some(s) => accepted_list(kind@) == Some(s@),
            None => accepted_list(kind@) is None,
        },
{
    if chars_eq_str(kind, "tag") {
        Some("is, contains")
    } else if chars_eq_str(kind, "person") {
        Some("is")
    } else if chars_eq_str(kind, "media_type") {
        Some("is")
    } else if chars_eq_str(kind, "favorite") {
        Some("is")
    } else if chars_eq_str(kind, "date_range") {
        Some("between")
    } else if chars_eq_str(kind, "place") {
        Some("is, contains")
    } else if chars_eq_str(kind, "camera") {
        Some("is, contains")
    } else if chars_eq_str(kind, "caption") {
        Some("contains")
    } else if chars_eq_str(kind, "filename") {
        Some("contains")
    } else if chars_eq_str(kind, "aesthetic") {
        Some("at_least, at_most")
    } else if chars_eq_str(kind, "blur") {
        Some("at_least, at_most")
    } else if chars_eq_str(kind, "nsfw") {
        Some("at_least, at_most")
    } else {
        None
    }
}

/// Every rule kind, joined for display.
pub open spec fn all_kinds() -> Seq<char> {
    "tag, person, media_type, favorite, date_range, place, camera, caption, filename, aesthetic, blur, nsfw"@
}

/// Names the problem with a rule this build cannot translate, listing what would
/// have worked instead.
pub open spec fn unsupported_message(kind: Seq<char>, operator: Seq<char>) -> Seq<char> {
    match accepted_list(kind) {
        Some(ops) => "rule \""@ + kind + "\" has no operator \""@ + operator + "\" — accepted: "@ + ops,
        None => "unknown rule \""@ + kind + "\" — accepted: "@ + all_kinds(),
    }
}

/// Names the problem with a rule this build cannot translate, listing what would
/// have worked instead.
pub fn unsupported(rule: &SmartAlbumRule) -> (r: String)
    ensures
        r@ == unsupported_message(rule.kind@, rule.operator@),
{
    let kind = chars_of(rule.kind.as_str());
    let mut msg: Vec<char> = Vec::new();
    match accepted_operators(&kind) {
        Some(ops) => {
            push_str(&mut msg, "rule \"");
            push_chars(&mut msg, &kind);
            push_str(&mut msg, "\" has no operator \"");
            push_str(&mut msg, rule.operator.as_str());
            push_str(&mut msg, "\" — accepted: ");
            push_str(&mut msg, ops);
        },
        None => {
            push_str(&mut msg, "unknown rule \"");
            push_chars(&mut msg, &kind);
            push_str(&mut msg, "\" — accepted: ");
            push_str(
                &mut msg,
                "tag, person, media_type, favorite, date_range, place, camera, caption, filename, aesthetic, blur, nsfw",
            );
        },
    }
    string_from_chars(&msg)
}

/// The operator with a leading `not_` removed, and whether it was there.
pub open spec fn strip_not(operator: Seq<char>) -> (Seq<char>, bool) {
    if 4 <= operator.len() && operator.take(4) == "not_"@ {
        (operator.skip(4), true)
    } else {
        (operator, false)
    }
}

/// A negated clause. A score that was never computed is NULL, and `NOT (NULL >= 7)`
/// is itself NULL, which SQLite drops; "not rated at least 7" plainly covers
/// photos with no rating at all, so an undecidable comparison negates to true.
pub open spec fn negated_sql(clause: Seq<char>) -> Seq<char> {
    "IFNULL(NOT ("@ + clause + "), 1)"@
}

/// What a rule translates to: its WHERE fragment and the values to bind to it,
/// or why it cannot be translated.
pub open spec fn rule_sql(rule_kind: Seq<char>, operator: Seq<char>, value: Seq<char>, numeric: bool) -> Result<
    (Seq<char>, Seq<BindView>),
    Seq<char>,
> {
    let (op, negated) = strip_not(operator);
    match clause_of(rule_kind, op) {
        None => Err(unsupported_message(rule_kind, operator)),
        Some(c) => match clause_binds(c, rule_kind, value, numeric) {
            Err(e) => Err(e),
            Ok(binds) => Ok(
                (if negated { negated_sql(clause_sql(c)) } else { clause_sql(c) }, binds),
            ),
        },
    }
}

/// Whether the rule's value, trimmed, reads as a number, for every rule.
pub open spec fn rule_sql_of(rule: SmartAlbumRule, numeric: bool) -> Result<(Seq<char>, Seq<BindView>), Seq<char>> {
    rule_sql(rule.kind@, rule.operator@, rule.value@, numeric)
}

proof fn lemma_score_rule_sql(kind: Seq<char>, op: Seq<char>, c: Clause, v: Seq<char>)
    requires
        (kind == "aesthetic"@ || kind == "blur"@ || kind == "nsfw"@),
        (op == "at_least"@ || op == "at_most"@),
        c == (if kind == "aesthetic"@ {
            if op == "at_least"@ { Clause::AestheticAtLeast } else { Clause::AestheticAtMost }
        } else if kind == "blur"@ {
            if op == "at_least"@ { Clause::BlurAtLeast } else { Clause::BlurAtMost }
        } else {
            if op == "at_least"@ { Clause::NsfwAtLeast } else { Clause::NsfwAtMost }
        }),
    ensures
        rule_sql(kind, op, v, true) == Ok::<(Seq<char>, Seq<BindView>), Seq<char>>((clause_sql(c), seq![BindView::Real(v)])),
{
    reveal_strlit("tag");
    reveal_strlit("person");
    reveal_strlit("media_type");
    reveal_strlit("favorite");
    reveal_strlit("date_range");
    reveal_strlit("place");
    reveal_strlit("camera");
    reveal_strlit("caption");
    reveal_strlit("filename");
    reveal_strlit("aesthetic");
    reveal_strlit("blur");
    reveal_strlit("nsfw");
    reveal_strlit("is");
    reveal_strlit("contains");
    reveal_strlit("between");
    reveal_strlit("at_least");
    reveal_strlit("at_most");
    reveal_strlit("not_");
    assert(op.take(4)[0] == 'a' && "not_"@[0] == 'n');
    assert(op.take(4) != "not_"@);
    assert(strip_not(op) == (op, false));
    assert(kind.len() == 9 || kind.len() == 4);
    if kind == "nsfw"@ {
        assert(kind[0] != "blur"@[0]);
    }
    assert(clause_of(kind, op) == Some(c));
}

/// A score rule compares on the side it asks for: `at_least v` keeps the photos
/// scored `v` or more (`>=`), `at_most v` those scored `v` or less (`<=`), for the
/// looks, blur and sensitivity scores alike, with `v` bound as a number.
pub proof fn lemma_score_rules_compare_on_the_asked_side(v: Seq<char>)
    ensures
        rule_sql("aesthetic"@, "at_least"@, v, true) == Ok::<(Seq<char>, Seq<BindView>), Seq<char>>(
            ("m.aesthetic_score >= ?"@, seq![BindView::Real(v)]),
        ),
        rule_sql("aesthetic"@, "at_most"@, v, true) == Ok::<(Seq<char>, Seq<BindView>), Seq<char>>(
            ("m.aesthetic_score <= ?"@, seq![BindView::Real(v)]),
        ),
        rule_sql("blur"@, "at_least"@, v, true) == Ok::<(Seq<char>, Seq<BindView>), Seq<char>>(
            ("m.blur_score >= ?"@, seq![BindView::Real(v)]),
        ),
        rule_sql("blur"@, "at_most"@, v, true) == Ok::<(Seq<char>, Seq<BindView>), Seq<char>>(
            ("m.blur_score <= ?"@, seq![BindView::Real(v)]),
        ),
        rule_sql("nsfw"@, "at_least"@, v, true) == Ok::<(Seq<char>, Seq<BindView>), Seq<char>>(
            ("m.nsfw_score >= ?"@, seq![BindView::Real(v)]),
        ),
        rule_sql("nsfw"@, "at_most"@, v, true) == Ok::<(Seq<char>, Seq<BindView>), Seq<char>>(
            ("m.nsfw_score <= ?"@, seq![BindView::Real(v)]),
        ),
{
    reveal_strlit("aesthetic");
    reveal_strlit("blur");
    reveal_strlit("nsfw");
    reveal_strlit("at_least");
    reveal_strlit("at_most");
    assert("aesthetic"@.len() == 9 && "blur"@.len() == 4 && "nsfw"@.len() == 4);
    assert("at_least"@.len() == 8 && "at_most"@.len() == 7);
    assert("blur"@ != "aesthetic"@ && "nsfw"@ != "aesthetic"@ && "at_least"@ != "at_most"@);
    assert("nsfw"@[0] != "blur"@[0]);
    lemma_score_rule_sql("aesthetic"@, "at_least"@, Clause::AestheticAtLeast, v);
    lemma_score_rule_sql("aesthetic"@, "at_most"@, Clause::AestheticAtMost, v);
    lemma_score_rule_sql("blur"@, "at_least"@, Clause::BlurAtLeast, v);
    lemma_score_rule_sql("blur"@, "at_most"@, Clause::BlurAtMost, v);
    lemma_score_rule_sql("nsfw"@, "at_least"@, Clause::NsfwAtLeast, v);
    lemma_score_rule_sql("nsfw"@, "at_most"@, Clause::NsfwAtMost, v);
}

fn message_with_value(prefix: &str, middle: &Vec<char>, infix: &str, value: &String) -> (r: String)
    ensures
        r@ == prefix@ + middle@ + infix@ + value@ + "\""@,
{
    let mut msg: Vec<char> = Vec::new();
    push_str(&mut msg, prefix);
    push_chars(&mut msg, middle);
    push_str(&mut msg, infix);
    push_str(&mut msg, value.as_str());
    push_str(&mut msg, "\"");
    string_from_chars(&msg)
}

/// Builds the WHERE fragment for a single rule, plus the values to bind to it.
///
/// `value_is_number` says whether the rule's value, trimmed, reads as a number;
/// it decides whether a score rule can be translated.
///
/// Returns `Err` for anything it cannot translate. That is the point: a rule that
/// was skipped instead would silently widen the album — "beach photos of 2024"
/// quietly becoming "all photos of 2024", with nothing on screen to say so.
pub fn rule_to_sql(rule: &SmartAlbumRule, value_is_number: bool) -> (r: Result<(String, Vec<SqlValue>), String>)
    ensures
        match r {
            Ok((sql, binds)) => rule_sql_of(*rule, value_is_number) == Ok::<(Seq<char>, Seq<BindView>), Seq<char>>((sql@, binds_view(binds@))),
            Err(e) => rule_sql_of(*rule, value_is_number) == Err::<(Seq<char>, Seq<BindView>), Seq<char>>(e@),
        },
{
    let kind = chars_of(rule.kind.as_str());
    let operator = chars_of(rule.operator.as_str());
    proof {
        reveal_strlit("not_");
    }
    let negated = starts_with(&operator, "not_");
    let op = if negated { sub_chars(&operator, 4, operator.len()) } else { sub_chars(&operator, 0, operator.len()) };
    proof {
        reveal_strlit("not_");
        assert(operator@.subrange(0, operator@.len() as int) =~= operator@);
        assert(operator@.subrange(4, operator@.len() as int) =~= operator@.skip(4));
        assert(strip_not(rule.operator@) == (op@, negated));
    }
    let clause = match parse_clause(&kind, &op) {
        None => {
            return Err(unsupported(rule));
        },
        Some(c) => c,
    };
    let ghost expected = clause_binds(clause, kind@, rule.value@, value_is_number);
    let binds: Vec<SqlValue> = match clause {
        Clause::TagIs | Clause::PersonIs | Clause::MediaTypeIs | Clause::CameraIs => {
            let mut b: Vec<SqlValue> = Vec::new();
            b.push(SqlValue::Text(rule.value.clone()));
            proof {
                assert(binds_view(b@) =~= seq![BindView::Text(rule.value@)]);
            }
            b
        },
        Clause::TagContains | Clause::PlaceContains | Clause::CameraContains
        | Clause::CaptionContains | Clause::FilenameContains => {
            let mut b: Vec<SqlValue> = Vec::new();
            b.push(contains_value(&rule.value));
            proof {
                assert(binds_view(b@) =~= seq![BindView::Text(contains_pattern(rule.value@))]);
            }
            b
        },
        Clause::PlaceIs => {
            let mut b: Vec<SqlValue> = Vec::new();
            b.push(SqlValue::Text(escape_like(rule.value.as_str())));
            proof {
                assert(binds_view(b@) =~= seq![BindView::Text(escaped(rule.value@))]);
            }
            b
        },
        Clause::FavoriteIs => {
            let b: Vec<SqlValue> = Vec::new();
            proof {
                assert(binds_view(b@) =~= Seq::<BindView>::empty());
            }
            b
        },
        Clause::DateRangeBetween => {
            let value = chars_of(rule.value.as_str());
            match find_char(&value, '|') {
                None => {
                    let mut msg: Vec<char> = Vec::new();
                    push_str(&mut msg, "rule \"date_range\" expects \"start|end\", got \"");
                    push_str(&mut msg, rule.value.as_str());
                    push_str(&mut msg, "\"");
                    return Err(string_from_chars(&msg));
                },
                Some(i) => {
                    assert(i < value.len());
                    let start = sub_chars(&value, 0, i);
                    let end = sub_chars(&value, i + 1, value.len());
                    let mut b: Vec<SqlValue> = Vec::new();
                    b.push(SqlValue::Text(string_from_chars(&start)));
                    b.push(SqlValue::Text(string_from_chars(&end)));
                    proof {
                        let w = choose|j: int|
                            0 <= j < value@.len() && value@[j] == '|' && forall|k: int|
                                0 <= k < j ==> value@[k] != '|';
                        assert(w == i as int) by {
                            if w < i {
                                assert(value@[w] != '|');
                            } else if w > i {
                                assert(value@[i as int] != '|');
                            }
                        }
                        assert(binds_view(b@) =~= seq![
                            BindView::Text(value@.subrange(0, i as int)),
                            BindView::Text(value@.subrange(i + 1, value@.len() as int)),
                        ]);
                    }
                    b
                },
            }
        },
        _ => {
            if !value_is_number {
                return Err(message_with_value("rule \"", &kind, "\" expects a number, got \"", &rule.value));
            }
            let mut b: Vec<SqlValue> = Vec::new();
            b.push(SqlValue::Real(rule.value.clone()));
            proof {
                assert(binds_view(b@) =~= seq![BindView::Real(rule.value@)]);
            }
            b
        },
    };
    let text = clause_text(clause);
    let sql = if negated {
        let mut out: Vec<char> = Vec::new();
        push_str(&mut out, "IFNULL(NOT (");
        push_str(&mut out, text);
        push_str(&mut out, "), 1)");
        string_from_chars(&out)
    } else {
        text.to_string()
    };
    Ok((sql, binds))
}

/// A rule with the `not_` prefix translates to the negation of the rule without
/// it, bound to the same values: any operator can be inverted.
pub proof fn lemma_not_prefix_negates(kind: Seq<char>, op: Seq<char>, value: Seq<char>, numeric: bool)
    requires
        !(4 <= op.len() && op.take(4) == "not_"@),
        rule_sql(kind, op, value, numeric) is Ok,
    ensures
        ({
            let (sql, binds) = rule_sql(kind, op, value, numeric)->Ok_0;
            rule_sql(kind, "not_"@ + op, value, numeric) == Ok::<(Seq<char>, Seq<BindView>), Seq<char>>(
                (negated_sql(sql), binds),
            )
        }),
{
    reveal_strlit("not_");
    let full = "not_"@ + op;
    assert(full.take(4) =~= "not_"@);
    assert(full.skip(4) =~= op);
}

/* ---------------------------------------------------------- the query -- */

/// The SQL keyword that joins the rules of an album, or why the match type is refused.
pub open spec fn joiner_of(match_type: Seq<char>) -> Result<Seq<char>, Seq<char>> {
    if match_type == "all"@ {
        Ok(" AND "@)
    } else if match_type == "any"@ {
        Ok(" OR "@)
    } else {
        Err("match type must be \"all\" or \"any\", got \""@ + match_type + "\""@)
    }
}

/// The SQL keyword that joins the rules of an album.
pub fn joiner(match_type: &str) -> (r: Result<&'static str, String>)
    ensures
        match r {
            Ok(s) => joiner_of(match_type@) == Ok::<Seq<char>, Seq<char>>(s@),
            Err(e) => joiner_of(match_type@) == Err::<Seq<char>, Seq<char>>(e@),
        },
{
    let m = chars_of(match_type);
    if chars_eq_str(&m, MATCH_ALL) {
        Ok(" AND ")
    } else if chars_eq_str(&m, MATCH_ANY) {
        Ok(" OR ")
    } else {
        let mut msg: Vec<char> = Vec::new();
        push_str(&mut msg, "match type must be \"all\" or \"any\", got \"");
        push_chars(&mut msg, &m);
        push_str(&mut msg, "\"");
        Err(string_from_chars(&msg))
    }
}

/// The clauses and bound values of every rule, in order, or the first reason a
/// rule cannot be translated.
pub open spec fn rules_sql(rules: Seq<SmartAlbumRule>, numeric: Seq<bool>) -> Result<
    (Seq<Seq<char>>, Seq<BindView>),
    Seq<char>,
>
    decreases rules.len(),
{
    if rules.len() == 0 {
        Ok((seq![], seq![]))
    } else {
        match rules_sql(rules.drop_last(), numeric) {
            Err(e) => Err(e),
            Ok((clauses, binds)) => match rule_sql_of(rules.last(), numeric[rules.len() - 1]) {
                Err(e) => Err(e),
                Ok((clause, more)) => Ok((clauses.push(clause), binds + more)),
            },
        }
    }
}

/// `parts` joined by `sep`.
pub open spec fn joined(parts: Seq<Seq<char>>, sep: Seq<char>) -> Seq<char>
    decreases parts.len(),
{
    if parts.len() == 0 {
        seq![]
    } else if parts.len() == 1 {
        parts[0]
    } else {
        joined(parts.drop_last(), sep) + sep + parts.last()
    }
}

/// What the query of a smart album starts with: only photos still in the library.
pub open spec fn query_head() -> Seq<char> {
    "SELECT m.id FROM media_items m\n         WHERE m.is_trashed = 0 AND ("@
}

/// What the query of a smart album ends with: newest first, with a bound limit.
pub open spec fn query_tail() -> Seq<char> {
    ")\n         ORDER BY COALESCE(m.taken_at_override, m.taken_at, m.created_at) DESC\n         LIMIT ?"@
}

/// The query that lists a smart album, newest first: `None` for an album with no
/// rules, which matches nothing.
pub open spec fn album_query(rules: Seq<SmartAlbumRule>, numeric: Seq<bool>, match_type: Seq<char>, limit: int) -> Result<
    Option<(Seq<char>, Seq<BindView>)>,
    Seq<char>,
> {
    match joiner_of(match_type) {
        Err(e) => Err(e),
        Ok(sep) => if rules.len() == 0 {
            Ok(None)
        } else {
            match rules_sql(rules, numeric) {
                Err(e) => Err(e),
                Ok((clauses, binds)) => Ok(
                    Some(
                        (
                            query_head() + joined(clauses, sep) + query_tail(),
                            binds.push(BindView::Integer(limit)),
                        ),
                    ),
                ),
            }
        },
    }
}

/// Writes the query that returns the media IDs matching `rules`, newest first,
/// and the values to bind to it; `Ok(None)` when there are no rules.
///
/// `numeric[i]` says whether the value of `rules[i]`, trimmed, reads as a number.
pub fn smart_album_query(
    rules: &Vec<SmartAlbumRule>,
    numeric: &Vec<bool>,
    match_type: &str,
    limit: i64,
) -> (r: Result<Option<(String, Vec<SqlValue>)>, String>)
    requires
        numeric@.len() == rules@.len(),
    ensures
        match r {
            Ok(None) => album_query(rules@, numeric@, match_type@, limit as int) == Ok::<
                Option<(Seq<char>, Seq<BindView>)>,
                Seq<char>,
            >(None),
            Ok(Some((sql, binds))) => album_query(rules@, numeric@, match_type@, limit as int)
                == Ok::<Option<(Seq<char>, Seq<BindView>)>, Seq<char>>(
                Some((sql@, binds_view(binds@))),
            ),
            Err(e) => album_query(rules@, numeric@, match_type@, limit as int) == Err::<
                Option<(Seq<char>, Seq<BindView>)>,
                Seq<char>,
            >(e@),
        },
{
    let separator = joiner(match_type)?;
    if rules.len() == 0 {
        return Ok(None);
    }
    let mut text: Vec<char> = Vec::new();
    push_str(&mut text, "SELECT m.id FROM media_items m\n         WHERE m.is_trashed = 0 AND (");
    let ghost head = text@;
    let mut binds: Vec<SqlValue> = Vec::new();
    let ghost mut clauses: Seq<Seq<char>> = seq![];
    let mut i: usize = 0;
    proof {
        assert(rules@.take(0) =~= Seq::<SmartAlbumRule>::empty());
        assert(binds_view(binds@) =~= Seq::<BindView>::empty());
        assert(text@ =~= head + joined(clauses, separator@));
    }
    while i < rules.len()
        invariant
            numeric@.len() == rules@.len(),
            i <= rules@.len(),
            rules@.len() > 0,
            head == query_head(),
            joiner_of(match_type@) == Ok::<Seq<char>, Seq<char>>(separator@),
            rules_sql(rules@.take(i as int), numeric@) == Ok::<(Seq<Seq<char>>, Seq<BindView>), Seq<char>>(
                (clauses, binds_view(binds@)),
            ),
            clauses.len() == i,
            text@ == head + joined(clauses, separator@),
        decreases rules@.len() - i,
    {
        let (clause, more) = match rule_to_sql(&rules[i], numeric[i]) {
            Ok(translated) => translated,
            Err(e) => {
                proof {
                    assert(rules@.take(i + 1).drop_last() =~= rules@.take(i as int));
                    assert(rules@.take(i + 1).last() == rules@[i as int]);
                    lemma_rules_sql_error_spreads(rules@, numeric@, i as int + 1);
                }
                return Err(e);
            },
        };
        let ghost old_binds = binds@;
        if i > 0 {
            push_str(&mut text, separator);
        }
        push_str(&mut text, clause.as_str());
        let mut more = more;
        let ghost more_view = more@;
        binds.append(&mut more);
        proof {
            assert(binds_view(binds@) =~= binds_view(old_binds) + binds_view(more_view));
            assert(rules@.take(i + 1).drop_last() =~= rules@.take(i as int));
            assert(rules@.take(i + 1).last() == rules@[i as int]);
            let old_clauses = clauses;
            clauses = clauses.push(clause@);
            assert(clauses.drop_last() =~= old_clauses);
            if i > 0 {
                assert(text@ =~= head + joined(clauses, separator@));
            } else {
                assert(text@ =~= head + joined(clauses, separator@));
            }
        }
        i = i + 1;
    }
    push_str(
        &mut text,
        ")\n         ORDER BY COALESCE(m.taken_at_override, m.taken_at, m.created_at) DESC\n         LIMIT ?",
    );
    let ghost pre = binds@;
    binds.push(SqlValue::Integer(limit));
    proof {
        assert(binds@.drop_last() =~= pre);
        assert(rules@.take(i as int) =~= rules@);
        assert(binds_view(binds@) =~= binds_view(binds@.drop_last()).push(BindView::Integer(limit as int)));
        assert(text@ == query_head() + joined(clauses, separator@) + query_tail());
    }
    Ok(Some((string_from_chars(&text), binds)))
}

/// Once a rule fails to translate, every longer run of rules fails too.
proof fn lemma_rules_sql_error_spreads(rules: Seq<SmartAlbumRule>, numeric: Seq<bool>, n: int)
    requires
        0 < n <= rules.len(),
        rules_sql(rules.take(n), numeric) is Err,
    ensures
        rules_sql(rules, numeric) == rules_sql(rules.take(n), numeric),
    decreases rules.len() - n,
{
    if n < rules.len() {
        assert(rules.take(n + 1).drop_last() =~= rules.take(n));
        lemma_rules_sql_error_spreads(rules, numeric, n + 1);
    } else {
        assert(rules.take(n) =~= rules);
    }
}

/// A rule that cannot be translated refuses the whole album: it is never skipped,
/// so a typo in a saved album cannot silently widen it.
pub proof fn lemma_untranslatable_rule_refuses_album(
    rules: Seq<SmartAlbumRule>,
    numeric: Seq<bool>,
    match_type: Seq<char>,
    limit: int,
    i: int,
)
    requires
        numeric.len() == rules.len(),
        0 <= i < rules.len(),
        rule_sql_of(rules[i], numeric[i]) is Err,
    ensures
        album_query(rules, numeric, match_type, limit) is Err,
{
    let prefix = rules.take(i + 1);
    assert(prefix.drop_last() =~= rules.take(i));
    assert(prefix.last() == rules[i]);
    assert(rules_sql(prefix, numeric) is Err);
    lemma_rules_sql_error_spreads(rules, numeric, i + 1);
}

proof fn lemma_rules_sql_ok_prefix(rules: Seq<SmartAlbumRule>, numeric: Seq<bool>, n: int)
    requires
        0 <= n <= rules.len(),
        forall|j: int| 0 <= j < n ==> #[trigger] rule_sql_of(rules[j], numeric[j]) is Ok,
    ensures
        rules_sql(rules.take(n), numeric) is Ok,
    decreases n,
{
    if n > 0 {
        lemma_rules_sql_ok_prefix(rules, numeric, n - 1);
        assert(rules.take(n).drop_last() =~= rules.take(n - 1));
        assert(rules.take(n).last() == rules[n - 1]);
        assert(rule_sql_of(rules[n - 1], numeric[n - 1]) is Ok);
    } else {
        assert(rules.take(0) =~= Seq::<SmartAlbumRule>::empty());
    }
}

/// The album is refused with the reason of its first rule that cannot be
/// translated, whatever follows it; an unknown match type is reported before
/// any rule is looked at.
pub proof fn lemma_first_untranslatable_rule_is_reported(
    rules: Seq<SmartAlbumRule>,
    numeric: Seq<bool>,
    match_type: Seq<char>,
    limit: int,
    i: int,
)
    requires
        numeric.len() == rules.len(),
        0 <= i < rules.len(),
        forall|j: int| 0 <= j < i ==> #[trigger] rule_sql_of(rules[j], numeric[j]) is Ok,
        rule_sql_of(rules[i], numeric[i]) is Err,
    ensures
        album_query(rules, numeric, match_type, limit) == match joiner_of(match_type) {
            Err(e) => Err::<Option<(Seq<char>, Seq<BindView>)>, Seq<char>>(e),
            Ok(_) => Err(rule_sql_of(rules[i], numeric[i])->Err_0),
        },
{
    lemma_rules_sql_ok_prefix(rules, numeric, i);
    let prefix = rules.take(i + 1);
    assert(prefix.drop_last() =~= rules.take(i));
    assert(prefix.last() == rules[i]);
    assert(rules_sql(prefix, numeric) == Err::<(Seq<Seq<char>>, Seq<BindView>), Seq<char>>(
        rule_sql_of(rules[i], numeric[i])->Err_0,
    ));
    lemma_rules_sql_error_spreads(rules, numeric, i + 1);
}

/// A match type other than "all" or "any" refuses the album with the same
/// reason `joiner` gives, whatever the rules, even none.
pub proof fn lemma_unknown_match_type_refuses_album(
    rules: Seq<SmartAlbumRule>,
    numeric: Seq<bool>,
    match_type: Seq<char>,
    limit: int,
)
    requires
        match_type != "all"@,
        match_type != "any"@,
    ensures
        album_query(rules, numeric, match_type, limit) == Err::<Option<(Seq<char>, Seq<BindView>)>, Seq<char>>(
            joiner_of(match_type)->Err_0,
        ),
        joiner_of(match_type) is Err,
{
}

/// Whatever the rules and however they are joined, the album's query only ever
/// returns photos that are not in the trash: the rules all sit inside one
/// parenthesised group that follows the trash filter, so an `any` album cannot
/// pull photos back out of the trash.
pub proof fn lemma_album_query_excludes_trash(
    rules: Seq<SmartAlbumRule>,
    numeric: Seq<bool>,
    match_type: Seq<char>,
    limit: int,
)
    requires
        album_query(rules, numeric, match_type, limit) matches Ok(Some(_)),
    ensures
        ({
            let (sql, _) = album_query(rules, numeric, match_type, limit)->Ok_0->Some_0;
            exists|rule_part: Seq<char>| sql == query_head() + rule_part + query_tail()
        }),
{
    let (sql, _) = album_query(rules, numeric, match_type, limit)->Ok_0->Some_0;
    let sep = joiner_of(match_type)->Ok_0;
    let (clauses, _) = rules_sql(rules, numeric)->Ok_0;
    let part = joined(clauses, sep);
    assert(sql == query_head() + part + query_tail());
}

/* --------------------------------------------------------- suggestions -- */

/// The upper-case form of a character, as std's Unicode tables give it.
pub uninterp spec fn uppercase_of(c: char) -> Seq<char>;

/// Calls `char::to_uppercase`, collecting the characters it yields.
#[verifier::external_body]
fn char_uppercase(c: char) -> (r: Vec<char>)
    ensures
        r@ == uppercase_of(c),
{
    c.to_uppercase().collect()
}

/// `s` with its first character in upper case.
pub open spec fn capitalized(s: Seq<char>) -> Seq<char> {
    if s.len() == 0 {
        seq![]
    } else {
        uppercase_of(s[0]) + s.drop_first()
    }
}

/// `s` with its first character in upper case.
pub fn capitalize(s: &str) -> (r: String)
    ensures
        r@ == capitalized(s@),
{
    let chars = chars_of(s);
    if chars.len() == 0 {
        return string_from_chars(&chars);
    }
    let mut out = char_uppercase(chars[0]);
    let rest = sub_chars(&chars, 1, chars.len());
    push_chars(&mut out, &rest);
    proof {
        assert(rest@ =~= s@.drop_first());
    }
    string_from_chars(&out)
}

/// A suggested album, as plain text.
pub struct SuggestionView {
    pub name: Seq<char>,
    pub kind: Seq<char>,
    pub operator: Seq<char>,
    pub value: Seq<char>,
    pub count: int,
}

/// Whether `s` is the one-rule album that `v` describes. A suggestion is always
/// one rule, so its match type never matters; it is filled in anyway so the
/// album created from it is well-formed.
pub open spec fn suggests(s: SmartAlbumSuggestion, v: SuggestionView) -> bool {
    &&& s.name@ == v.name
    &&& s.rules@.len() == 1
    &&& s.rules@[0].kind@ == v.kind
    &&& s.rules@[0].operator@ == v.operator
    &&& s.rules@[0].value@ == v.value
    &&& s.match_type@ == "all"@
    &&& s.preview_count == v.count
}

/// A one-rule suggestion.
pub fn single_rule_suggestion(name: String, kind: &str, operator: &str, value: String, count: i64) -> (s: SmartAlbumSuggestion)
    ensures
        suggests(
            s,
            SuggestionView { name: name@, kind: kind@, operator: operator@, value: value@, count: count as int },
        ),
{
    let mut rules: Vec<SmartAlbumRule> = Vec::new();
    rules.push(SmartAlbumRule { kind: kind.to_string(), operator: operator.to_string(), value });
    SmartAlbumSuggestion { name, rules, match_type: MATCH_ALL.to_string(), preview_count: count }
}

pub open spec fn tag_suggestion(tag: (String, i64)) -> SuggestionView {
    SuggestionView { name: capitalized(tag.0@), kind: "tag"@, operator: "is"@, value: tag.0@, count: tag.1 as int }
}

pub open spec fn person_suggestion(person: (String, String, i64)) -> SuggestionView {
    SuggestionView {
        name: "Photos with "@ + person.1@,
        kind: "person"@,
        operator: "is"@,
        value: person.0@,
        count: person.2 as int,
    }
}

/// The suggestions the library's counts call for, in the order they are offered:
/// the top tags and named people as the queries returned them, then the best
/// photos, the favorites, the videos and the favourite camera, each only once
/// there are enough of them to be worth a shelf.
pub open spec fn expected_suggestions(
    tags: Seq<(String, i64)>,
    people: Seq<(String, String, i64)>,
    best_count: int,
    favorite_count: int,
    video_count: int,
    top_camera: Option<(String, i64)>,
) -> Seq<SuggestionView> {
    tags.map_values(|t: (String, i64)| tag_suggestion(t)) + people.map_values(
        |p: (String, String, i64)| person_suggestion(p),
    ) + (if best_count >= 5 {
        seq![SuggestionView { name: "Best photos"@, kind: "aesthetic"@, operator: "at_least"@, value: "7"@, count: best_count }]
    } else {
        seq![]
    }) + (if favorite_count >= 3 {
        seq![SuggestionView { name: "Favorites"@, kind: "favorite"@, operator: "is"@, value: "true"@, count: favorite_count }]
    } else {
        seq![]
    }) + (if video_count >= 3 {
        seq![SuggestionView { name: "Videos"@, kind: "media_type"@, operator: "is"@, value: "video"@, count: video_count }]
    } else {
        seq![]
    }) + (match top_camera {
        Some((model, count)) => if count >= 10 {
            seq![SuggestionView { name: "Shot on "@ + model@, kind: "camera"@, operator: "is"@, value: model@, count: count as int }]
        } else {
            seq![]
        },
        None => seq![],
    })
}

/// Whether a suggested rule translates, its value read as a number (the one
/// score rule suggested, "at least 7", has a numeric value; no other suggested
/// rule looks at that).
pub open spec fn translates(v: SuggestionView) -> bool {
    rule_sql(v.kind, v.operator, v.value, true) is Ok
}

proof fn lemma_suggested_kind_translates(kind: Seq<char>, op: Seq<char>, value: Seq<char>)
    requires
        (kind == "tag"@ && op == "is"@) || (kind == "person"@ && op == "is"@) || (kind == "aesthetic"@ && op
            == "at_least"@) || (kind == "favorite"@ && op == "is"@) || (kind == "media_type"@ && op == "is"@) || (
        kind == "camera"@ && op == "is"@),
    ensures
        rule_sql(kind, op, value, true) is Ok,
{
    reveal_strlit("tag");
    reveal_strlit("is");
    reveal_strlit("contains");
    reveal_strlit("person");
    reveal_strlit("media_type");
    reveal_strlit("favorite");
    reveal_strlit("date_range");
    reveal_strlit("between");
    reveal_strlit("place");
    reveal_strlit("camera");
    reveal_strlit("caption");
    reveal_strlit("filename");
    reveal_strlit("aesthetic");
    reveal_strlit("at_least");
    reveal_strlit("at_most");
    reveal_strlit("blur");
    reveal_strlit("nsfw");
    reveal_strlit("not_");
    if op == "at_least"@ {
        assert(op.take(4)[0] == 'a');
        assert("not_"@[0] == 'n');
        assert(op.take(4) != "not_"@);
    } else {
        assert(op.len() == 2);
    }
    assert(strip_not(op) == (op, false));
}

/// Every suggested album is a rule that translates: accepting a suggestion can
/// never produce an album that refuses to load.
pub proof fn lemma_suggested_rules_translate(
    tags: Seq<(String, i64)>,
    people: Seq<(String, String, i64)>,
    best_count: int,
    favorite_count: int,
    video_count: int,
    top_camera: Option<(String, i64)>,
)
    ensures
        forall|k: int|
            0 <= k < expected_suggestions(tags, people, best_count, favorite_count, video_count, top_camera).len()
                ==> translates(
                #[trigger] expected_suggestions(tags, people, best_count, favorite_count, video_count, top_camera)[k],
            ),
{
    let e = expected_suggestions(tags, people, best_count, favorite_count, video_count, top_camera);
    assert forall|k: int| 0 <= k < e.len() implies translates(#[trigger] e[k]) by {
        let v = e[k];
        assert(
            (v.kind == "tag"@ && v.operator == "is"@) || (v.kind == "person"@ && v.operator == "is"@) || (v.kind
                == "aesthetic"@ && v.operator == "at_least"@) || (v.kind == "favorite"@ && v.operator == "is"@) || (
            v.kind == "media_type"@ && v.operator == "is"@) || (v.kind == "camera"@ && v.operator == "is"@)
        );
        lemma_suggested_kind_translates(v.kind, v.operator, v.value);
    }
}

/// Each suggestion picks what it is named for: every tag and every named person
/// the queries found gets an album of that tag or person, in order, and enough
/// well-rated photos, favorites, videos or shots from one camera get an album
/// whose one rule selects exactly those: looks at least 7, favorite, media type
/// video, that camera model.
pub proof fn lemma_suggestions_pick_what_they_are_named_for(
    tags: Seq<(String, i64)>,
    people: Seq<(String, String, i64)>,
    best_count: int,
    favorite_count: int,
    video_count: int,
    top_camera: Option<(String, i64)>,
)
    ensures
        ({
            let e = expected_suggestions(tags, people, best_count, favorite_count, video_count, top_camera);
            &&& forall|i: int|
                0 <= i < tags.len() ==> (#[trigger] e[i]).kind == "tag"@ && e[i].operator == "is"@ && e[i].value
                    == tags[i].0@ && e[i].count == tags[i].1
            &&& forall|j: int|
                0 <= j < people.len() ==> (#[trigger] e[tags.len() + j]).kind == "person"@ && e[tags.len()
                    + j].operator == "is"@ && e[tags.len() + j].value == people[j].0@ && e[tags.len() + j].name
                    == "Photos with "@ + people[j].1@ && e[tags.len() + j].count == people[j].2
            &&& best_count >= 5 ==> exists|k: int|
                0 <= k < e.len() && #[trigger] e[k] == SuggestionView {
                    name: "Best photos"@,
                    kind: "aesthetic"@,
                    operator: "at_least"@,
                    value: "7"@,
                    count: best_count,
                }
            &&& favorite_count >= 3 ==> exists|k: int|
                0 <= k < e.len() && #[trigger] e[k] == SuggestionView {
                    name: "Favorites"@,
                    kind: "favorite"@,
                    operator: "is"@,
                    value: "true"@,
                    count: favorite_count,
                }
            &&& video_count >= 3 ==> exists|k: int|
                0 <= k < e.len() && #[trigger] e[k] == SuggestionView {
                    name: "Videos"@,
                    kind: "media_type"@,
                    operator: "is"@,
                    value: "video"@,
                    count: video_count,
                }
            &&& forall|model: String, count: i64|
                top_camera == Some((model, count)) && count >= 10 ==> exists|k: int|
                    0 <= k < e.len() && #[trigger] e[k] == SuggestionView {
                        name: "Shot on "@ + model@,
                        kind: "camera"@,
                        operator: "is"@,
                        value: model@,
                        count: count as int,
                    }
        }),
{
    let e = expected_suggestions(tags, people, best_count, favorite_count, video_count, top_camera);
    let t = tags.map_values(|t: (String, i64)| tag_suggestion(t));
    let p = people.map_values(|p: (String, String, i64)| person_suggestion(p));
    let b: Seq<SuggestionView> = if best_count >= 5 {
        seq![SuggestionView { name: "Best photos"@, kind: "aesthetic"@, operator: "at_least"@, value: "7"@, count: best_count }]
    } else {
        seq![]
    };
    let f: Seq<SuggestionView> = if favorite_count >= 3 {
        seq![SuggestionView { name: "Favorites"@, kind: "favorite"@, operator: "is"@, value: "true"@, count: favorite_count }]
    } else {
        seq![]
    };
    let v: Seq<SuggestionView> = if video_count >= 3 {
        seq![SuggestionView { name: "Videos"@, kind: "media_type"@, operator: "is"@, value: "video"@, count: video_count }]
    } else {
        seq![]
    };
    assert forall|i: int| 0 <= i < tags.len() implies (#[trigger] e[i]).kind == "tag"@ && e[i].operator == "is"@
        && e[i].value == tags[i].0@ && e[i].count == tags[i].1 by {
        assert(e[i] == t[i]);
    }
    assert forall|j: int| 0 <= j < people.len() implies (#[trigger] e[tags.len() + j]).kind == "person"@ && e[tags.len()
        + j].operator == "is"@ && e[tags.len() + j].value == people[j].0@ && e[tags.len() + j].name == "Photos with "@
        + people[j].1@ && e[tags.len() + j].count == people[j].2 by {
        assert(e[tags.len() + j] == p[j]);
    }
    let base: int = (t.len() + p.len()) as int;
    if best_count >= 5 {
        assert(e[base] == b[0]);
    }
    if favorite_count >= 3 {
        assert(e[base + b.len() as int] == f[0]);
    }
    if video_count >= 3 {
        assert(e[base + b.len() as int + f.len() as int] == v[0]);
    }
    assert forall|model: String, count: i64| top_camera == Some((model, count)) && count >= 10 implies exists|k: int|
        0 <= k < e.len() && #[trigger] e[k] == SuggestionView {
            name: "Shot on "@ + model@,
            kind: "camera"@,
            operator: "is"@,
            value: model@,
            count: count as int,
        } by {
        assert(e[base + b.len() as int + f.len() as int + v.len() as int] == SuggestionView {
            name: "Shot on "@ + model@,
            kind: "camera"@,
            operator: "is"@,
            value: model@,
            count: count as int,
        });
    }
}

fn append_suggestion(out: &mut Vec<SmartAlbumSuggestion>, s: SmartAlbumSuggestion, Ghost(views): Ghost<Seq<SuggestionView>>, Ghost(v): Ghost<SuggestionView>)
    requires
        old(out)@.len() == views.len(),
        forall|k: int| 0 <= k < views.len() ==> suggests(#[trigger] old(out)@[k], views[k]),
        suggests(s, v),
    ensures
        final(out)@.len() == views.len() + 1,
        forall|k: int| 0 <= k < views.len() + 1 ==> suggests(#[trigger] final(out)@[k], views.push(v)[k]),
{
    out.push(s);
}

/// The tags worth suggesting an album for: used on at least five photos outside
/// the trash, the ten most used, with their counts.
pub const TAG_SUGGESTIONS_QUERY: &'static str = "SELECT t.tag, COUNT(*) as cnt FROM tags t JOIN media_items m ON m.id = t.media_id WHERE m.is_trashed = 0 GROUP BY t.tag HAVING cnt >= 5 ORDER BY cnt DESC LIMIT 10";

/// The named people worth suggesting an album for: in at least three photos
/// outside the trash, the ten most photographed, as (id, name, count).
pub const PEOPLE_SUGGESTIONS_QUERY: &'static str = "SELECT p.id, p.name, COUNT(DISTINCT f.media_id) as cnt FROM people p JOIN faces f ON f.person_id = p.id JOIN media_items m ON m.id = f.media_id WHERE p.name IS NOT NULL AND m.is_trashed = 0 GROUP BY p.id HAVING cnt >= 3 ORDER BY cnt DESC LIMIT 10";

/// How many photos outside the trash score at least 7 for looks.
pub const BEST_COUNT_QUERY: &'static str = "SELECT COUNT(*) FROM media_items WHERE aesthetic_score >= 7.0 AND is_trashed = 0";

/// How many favorites are outside the trash.
pub const FAVORITE_COUNT_QUERY: &'static str = "SELECT COUNT(*) FROM media_items WHERE is_favorite = 1 AND is_trashed = 0";

/// How many videos are outside the trash.
pub const VIDEO_COUNT_QUERY: &'static str = "SELECT COUNT(*) FROM media_items WHERE media_type = 'video' AND is_trashed = 0";

/// The camera most photos outside the trash were taken with, and how many.
pub const TOP_CAMERA_QUERY: &'static str = "SELECT e.camera_model, COUNT(*) as cnt FROM exif_data e JOIN media_items m ON m.id = e.media_id WHERE e.camera_model IS NOT NULL AND e.camera_model <> '' AND m.is_trashed = 0 GROUP BY e.camera_model ORDER BY cnt DESC LIMIT 1";

/// Turns what the library's queries counted into suggested smart albums.
///
/// `tags` are the most used tags with their photo counts, `people` the named
/// people as (id, name, count), and `top_camera` the camera most photos were
/// taken with.
pub fn build_suggestions(
    tags: Vec<(String, i64)>,
    people: Vec<(String, String, i64)>,
    best_count: i64,
    favorite_count: i64,
    video_count: i64,
    top_camera: Option<(String, i64)>,
) -> (r: Vec<SmartAlbumSuggestion>)
    ensures
        ({
            let expected = expected_suggestions(
                tags@,
                people@,
                best_count as int,
                favorite_count as int,
                video_count as int,
                top_camera,
            );
            &&& r@.len() == expected.len()
            &&& forall|k: int| 0 <= k < r@.len() ==> suggests(#[trigger] r@[k], expected[k])
        }),
        forall|k: int| 0 <= k < r@.len() ==> (#[trigger] r@[k]).rules@.len() == 1 && rule_sql_of(r@[k].rules@[0], true) is Ok,
{
    let mut out: Vec<SmartAlbumSuggestion> = Vec::new();
    let ghost mut views: Seq<SuggestionView> = seq![];
    let mut i: usize = 0;
    while i < tags.len()
        invariant
            i <= tags@.len(),
            views == tags@.take(i as int).map_values(|t: (String, i64)| tag_suggestion(t)),
            out@.len() == views.len(),
            forall|k: int| 0 <= k < views.len() ==> suggests(#[trigger] out@[k], views[k]),
        decreases tags@.len() - i,
    {
        let (tag, count) = &tags[i];
        let s = single_rule_suggestion(capitalize(tag.as_str()), "tag", "is", tag.clone(), *count);
        let ghost v = tag_suggestion(tags@[i as int]);
        append_suggestion(&mut out, s, Ghost(views), Ghost(v));
        proof {
            views = views.push(v);
            assert(tags@.take(i + 1).map_values(|t: (String, i64)| tag_suggestion(t)) =~= views);
        }
        i = i + 1;
    }
    proof {
        assert(tags@.take(i as int) =~= tags@);
    }
    let ghost tag_views = views;
    let mut j: usize = 0;
    while j < people.len()
        invariant
            j <= people@.len(),
            views == tag_views + people@.take(j as int).map_values(|p: (String, String, i64)| person_suggestion(p)),
            out@.len() == views.len(),
            forall|k: int| 0 <= k < views.len() ==> suggests(#[trigger] out@[k], views[k]),
        decreases people@.len() - j,
    {
        let (id, name, count) = &people[j];
        let mut label: Vec<char> = Vec::new();
        push_str(&mut label, "Photos with ");
        push_str(&mut label, name.as_str());
        let s = single_rule_suggestion(string_from_chars(&label), "person", "is", id.clone(), *count);
        let ghost v = person_suggestion(people@[j as int]);
        append_suggestion(&mut out, s, Ghost(views), Ghost(v));
        proof {
            views = views.push(v);
            assert(tag_views + people@.take(j + 1).map_values(|p: (String, String, i64)| person_suggestion(p)) =~= views);
        }
        j = j + 1;
    }
    proof {
        assert(people@.take(j as int) =~= people@);
    }
    if best_count >= 5 {
        let s = single_rule_suggestion("Best photos".to_string(), "aesthetic", "at_least", "7".to_string(), best_count);
        let ghost v = SuggestionView { name: "Best photos"@, kind: "aesthetic"@, operator: "at_least"@, value: "7"@, count: best_count as int };
        append_suggestion(&mut out, s, Ghost(views), Ghost(v));
        proof {
            views = views.push(v);
        }
    }
    if favorite_count >= 3 {
        let s = single_rule_suggestion("Favorites".to_string(), "favorite", "is", "true".to_string(), favorite_count);
        let ghost v = SuggestionView { name: "Favorites"@, kind: "favorite"@, operator: "is"@, value: "true"@, count: favorite_count as int };
        append_suggestion(&mut out, s, Ghost(views), Ghost(v));
        proof {
            views = views.push(v);
        }
    }
    if video_count >= 3 {
        let s = single_rule_suggestion("Videos".to_string(), "media_type", "is", "video".to_string(), video_count);
        let ghost v = SuggestionView { name: "Videos"@, kind: "media_type"@, operator: "is"@, value: "video"@, count: video_count as int };
        append_suggestion(&mut out, s, Ghost(views), Ghost(v));
        proof {
            views = views.push(v);
        }
    }
    if let Some((model, count)) = top_camera {
        if count >= 10 {
            let mut label: Vec<char> = Vec::new();
            push_str(&mut label, "Shot on ");
            push_str(&mut label, model.as_str());
            let ghost v = SuggestionView { name: "Shot on "@ + model@, kind: "camera"@, operator: "is"@, value: model@, count: count as int };
            let s = single_rule_suggestion(string_from_chars(&label), "camera", "is", model, count);
            append_suggestion(&mut out, s, Ghost(views), Ghost(v));
            proof {
                views = views.push(v);
            }
        }
    }
    proof {
        let expected = expected_suggestions(
            tags@,
            people@,
            best_count as int,
            favorite_count as int,
            video_count as int,
            top_camera,
        );
        assert(views =~= expected);
        lemma_suggested_rules_translate(tags@, people@, best_count as int, favorite_count as int, video_count as int, top_camera);
        assert forall|k: int| 0 <= k < out@.len() implies (#[trigger] out@[k]).rules@.len() == 1 && rule_sql_of(out@[k].rules@[0], true) is Ok by {
            assert(suggests(out@[k], expected[k]));
            assert(translates(expected[k]));
        }
    }
    out
}

/// How many matches a new album is checked against; the first is its cover.
pub const NEW_ALBUM_LIMIT: i64 = 1000;

/// The match type an album is saved with: the one asked for, or "all".
pub open spec fn match_type_or_all(match_type: Option<Seq<char>>) -> Seq<char> {
    match match_type {
        Some(m) => m,
        None => "all"@,
    }
}

/// Checks a new album before it is saved, so an album that could never load is
/// never stored: it needs a rule, and its rules must translate. Returns the match
/// type to store and the query whose first result is the cover.
pub fn new_album_query(rules: &Vec<SmartAlbumRule>, numeric: &Vec<bool>, match_type: Option<String>) -> (r: Result<
    (String, String, Vec<SqlValue>),
    String,
>)
    requires
        numeric@.len() == rules@.len(),
    ensures
        ({
            let m = match_type_or_all(match match_type {
                Some(s) => Some(s@),
                None => None,
            });
            match r {
                Ok((stored, sql, binds)) => rules@.len() > 0 && stored@ == m && album_query(
                    rules@,
                    numeric@,
                    m,
                    NEW_ALBUM_LIMIT as int,
                ) == Ok::<Option<(Seq<char>, Seq<BindView>)>, Seq<char>>(Some((sql@, binds_view(binds@)))),
                Err(e) => if rules@.len() == 0 {
                    e@ == "a smart album needs at least one rule"@
                } else {
                    album_query(rules@, numeric@, m, NEW_ALBUM_LIMIT as int) == Err::<
                        Option<(Seq<char>, Seq<BindView>)>,
                        Seq<char>,
                    >(e@)
                },
            }
        }),
{
    let stored = match match_type {
        Some(m) => m,
        None => MATCH_ALL.to_string(),
    };
    if rules.len() == 0 {
        return Err("a smart album needs at least one rule".to_string());
    }
    match smart_album_query(rules, numeric, stored.as_str(), NEW_ALBUM_LIMIT) {
        Ok(Some((sql, binds))) => Ok((stored, sql, binds)),
        Ok(None) => Err("a smart album needs at least one rule".to_string()),
        Err(e) => Err(e),
    }
}

} // verus!
