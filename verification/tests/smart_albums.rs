use hive::smart_albums::{
    build_suggestions, escape_like, TAG_SUGGESTIONS_QUERY, rule_to_sql, smart_album_query, SmartAlbumRule, SqlValue, MATCH_ALL,
    MATCH_ANY,
};
use rusqlite::types::Value;
use rusqlite::{params_from_iter, Connection};

fn rule(kind: &str, operator: &str, value: &str) -> SmartAlbumRule {
    SmartAlbumRule {
        kind: kind.to_string(),
        operator: operator.to_string(),
        value: value.to_string(),
    }
}

/// Just enough schema for the clauses under test. Three photos: a sharp beach
/// one, a blurry beach one, and a mountain one that was never scored.
fn memory_db() -> Connection {
    let conn = Connection::open_in_memory().unwrap();
    conn.execute_batch(
        "CREATE TABLE media_items (
            id TEXT PRIMARY KEY, filename TEXT NOT NULL, media_type TEXT NOT NULL,
            taken_at TEXT, taken_at_override TEXT, created_at TEXT NOT NULL,
            is_favorite INTEGER NOT NULL DEFAULT 0, is_trashed INTEGER NOT NULL DEFAULT 0,
            aesthetic_score REAL, blur_score REAL, nsfw_score REAL);
         CREATE TABLE tags (media_id TEXT, tag TEXT, confidence REAL);
         CREATE TABLE captions (media_id TEXT, text TEXT);
         CREATE TABLE faces (media_id TEXT, person_id TEXT);
         CREATE TABLE exif_data (media_id TEXT, camera_model TEXT, gps_lat REAL, gps_lon REAL);
         CREATE TABLE geocode_cache (lat REAL, lon REAL, name TEXT);

         INSERT INTO media_items (id, filename, media_type, created_at, aesthetic_score)
         VALUES ('sharp', 'IMG_100%.jpg', 'image', '2024-06-01', 8.0),
                ('blurry', 'IMG_2.jpg', 'image', '2024-06-02', 3.0),
                ('mountain', 'IMG_3.jpg', 'image', '2024-06-03', NULL);
         INSERT INTO tags (media_id, tag) VALUES
                ('sharp', 'beach'), ('blurry', 'beach'), ('mountain', 'mountain');
         INSERT INTO exif_data (media_id, camera_model, gps_lat, gps_lon)
         VALUES ('sharp', 'X100V', 48.8566, 2.3522);
         INSERT INTO geocode_cache (lat, lon, name) VALUES (48.86, 2.35, 'Paris, France');",
    )
    .unwrap();
    conn
}

fn reads_as_number(value: &str) -> bool {
    value.trim().parse::<f64>().is_ok()
}

fn bind(value: &SqlValue) -> Value {
    match value {
        SqlValue::Text(text) => Value::Text(text.clone()),
        SqlValue::Integer(number) => Value::Integer(*number),
        SqlValue::Real(text) => Value::Real(text.trim().parse::<f64>().unwrap()),
    }
}

/// Builds the album's query with the library and runs it.
fn query_smart_album(
    conn: &Connection,
    rules: &[SmartAlbumRule],
    match_type: &str,
    limit: i64,
) -> Result<Vec<String>, String> {
    let numeric: Vec<bool> = rules.iter().map(|r| reads_as_number(&r.value)).collect();
    let Some((sql, binds)) = smart_album_query(&rules.to_vec(), &numeric, match_type, limit)? else {
        return Ok(vec![]);
    };
    let values: Vec<Value> = binds.iter().map(bind).collect();
    let mut stmt = conn.prepare(&sql).map_err(|e| e.to_string())?;
    let ids = stmt
        .query_map(params_from_iter(values.iter()), |r| r.get(0))
        .map_err(|e| e.to_string())?
        .collect::<Result<Vec<String>, _>>()
        .map_err(|e| e.to_string())?;
    Ok(ids)
}

fn run(conn: &Connection, rules: &[SmartAlbumRule], match_type: &str) -> Vec<String> {
    let mut ids = query_smart_album(conn, rules, match_type, 100).unwrap();
    ids.sort();
    ids
}

#[test]
fn an_unknown_rule_is_refused_rather_than_dropped() {
    let conn = memory_db();
    // The old parser skipped this rule, so the album silently returned every
    // beach photo instead of none.
    let rules = vec![rule("tag", "is", "beach"), rule("altitude", "is", "high")];
    let error = query_smart_album(&conn, &rules, MATCH_ALL, 100).unwrap_err();

    assert!(error.contains("altitude"), "{error}");
    assert!(error.contains("accepted:"), "{error}");
}

#[test]
fn an_operator_the_kind_does_not_accept_names_the_alternatives() {
    let conn = memory_db();
    let error = query_smart_album(&conn, &[rule("person", "contains", "x")], MATCH_ALL, 100).unwrap_err();

    assert!(error.contains("\"person\""), "{error}");
    assert!(error.contains("is"), "{error}");
}

#[test]
fn all_intersects_the_rules_and_any_unions_them() {
    let conn = memory_db();
    let rules = vec![rule("tag", "is", "beach"), rule("tag", "is", "mountain")];

    // No photo carries both tags — the case that used to produce a puzzling
    // empty album with no way to ask for "either".
    assert!(run(&conn, &rules, MATCH_ALL).is_empty());
    assert_eq!(run(&conn, &rules, MATCH_ANY), ["blurry", "mountain", "sharp"]);
}

#[test]
fn an_unknown_match_type_is_refused() {
    let conn = memory_db();
    let error = query_smart_album(&conn, &[rule("tag", "is", "beach")], "maybe", 100).unwrap_err();

    assert!(error.contains("maybe"), "{error}");
}

#[test]
fn negation_keeps_the_photos_that_were_never_scored() {
    let conn = memory_db();
    // "mountain" has no aesthetic score at all. Plain SQL would drop it from
    // both `>= 7` and `NOT (>= 7)`, which reads as a bug to anyone looking.
    assert_eq!(run(&conn, &[rule("aesthetic", "at_least", "7")], MATCH_ALL), ["sharp"]);
    assert_eq!(
        run(&conn, &[rule("aesthetic", "not_at_least", "7")], MATCH_ALL),
        ["blurry", "mountain"]
    );
}

#[test]
fn a_score_rule_needs_an_actual_number() {
    let conn = memory_db();
    let error = query_smart_album(&conn, &[rule("blur", "at_most", "low")], MATCH_ALL, 100).unwrap_err();

    assert!(error.contains("number"), "{error}");
}

#[test]
fn like_wildcards_in_the_value_are_matched_literally() {
    let conn = memory_db();
    // Only "IMG_100%.jpg" contains a literal '%'; an unescaped pattern would
    // have matched all three filenames.
    assert_eq!(run(&conn, &[rule("filename", "contains", "%")], MATCH_ALL), ["sharp"]);
}

#[test]
fn a_place_rule_matches_through_the_rounded_geocode_cache() {
    let conn = memory_db();
    assert_eq!(run(&conn, &[rule("place", "contains", "Paris")], MATCH_ALL), ["sharp"]);
    assert!(run(&conn, &[rule("place", "is", "Paris")], MATCH_ALL).is_empty());
    assert_eq!(run(&conn, &[rule("place", "is", "Paris, France")], MATCH_ALL), ["sharp"]);
}

#[test]
fn trashed_photos_stay_out_of_an_any_album() {
    let conn = memory_db();
    conn.execute("UPDATE media_items SET is_trashed = 1 WHERE id = 'sharp'", []).unwrap();
    let rules = vec![rule("tag", "is", "beach"), rule("tag", "is", "mountain")];

    assert_eq!(run(&conn, &rules, MATCH_ANY), ["blurry", "mountain"]);
}

#[test]
fn like_escaping_covers_the_escape_character_itself() {
    assert_eq!(escape_like("100%_a\\b"), "100\\%\\_a\\\\b");
    assert_eq!(escape_like("plain"), "plain");
}

#[test]
fn an_empty_rule_list_asks_nothing() {
    assert!(smart_album_query(&vec![], &vec![], MATCH_ALL, 10).unwrap().is_none());
    // The match type is checked even so.
    assert!(smart_album_query(&vec![], &vec![], "maybe", 10).is_err());
}

#[test]
fn a_number_is_only_bound_when_it_reads_as_one() {
    let (sql, binds) = rule_to_sql(&rule("aesthetic", "at_least", " 7 "), true).unwrap();
    assert!(sql.contains("aesthetic_score"), "{sql}");
    assert!(matches!(&binds[..], [SqlValue::Real(v)] if v == " 7 "));
    assert!(rule_to_sql(&rule("aesthetic", "at_least", "x"), false).is_err());
}

#[test]
fn suggestions_come_from_what_the_library_holds() {
    let suggestions = build_suggestions(
        vec![("beach".to_string(), 12)],
        vec![("p1".to_string(), "Ana".to_string(), 4)],
        5,
        2,
        3,
        Some(("X100V".to_string(), 7)),
    );
    let names: Vec<&str> = suggestions.iter().map(|s| s.name.as_str()).collect();
    // Best photos need five, favorites three, videos three, a camera ten.
    assert_eq!(names, ["Beach", "Photos with Ana", "Best photos", "Videos"]);
    assert_eq!(suggestions[0].rules[0].kind, "tag");
    assert_eq!(suggestions[0].rules[0].value, "beach");
    assert_eq!(suggestions[1].rules[0].value, "p1");
    assert_eq!(suggestions[2].rules[0].operator, "at_least");
    assert_eq!(suggestions[3].preview_count, 3);
    assert!(suggestions.iter().all(|s| s.match_type == "all"));
}

#[test]
fn a_new_album_needs_a_rule_that_translates() {
    use_new_album();
}

fn use_new_album() {
    let error = hive::smart_albums::new_album_query(&vec![], &vec![], None).unwrap_err();
    assert_eq!(error, "a smart album needs at least one rule");
    let (stored, sql, binds) =
        hive::smart_albums::new_album_query(&vec![rule("tag", "is", "beach")], &vec![false], None).unwrap();
    assert_eq!(stored, "all");
    assert!(sql.starts_with("SELECT m.id FROM media_items m"), "{sql}");
    assert!(matches!(binds.last(), Some(SqlValue::Integer(1000))));
    assert!(hive::smart_albums::new_album_query(&vec![rule("tag", "is", "x")], &vec![false], Some("maybe".into()))
        .is_err());
}

#[test]
fn tag_suggestions_need_five_photos_and_stop_at_ten() {
    let conn = Connection::open_in_memory().unwrap();
    conn.execute_batch(
        "CREATE TABLE media_items (id TEXT PRIMARY KEY, is_trashed INTEGER NOT NULL DEFAULT 0);
         CREATE TABLE tags (media_id TEXT, tag TEXT);",
    )
    .unwrap();
    // Twelve tags on five photos each, one on four, and one whose fifth photo is trashed.
    for photo in 0..6 {
        let trashed = if photo == 5 { 1 } else { 0 };
        conn.execute("INSERT INTO media_items (id, is_trashed) VALUES (?1, ?2)", (photo.to_string(), trashed)).unwrap();
    }
    for tag in 0..12 {
        for photo in 0..5 {
            conn.execute("INSERT INTO tags VALUES (?1, ?2)", (photo.to_string(), format!("tag{tag:02}"))).unwrap();
        }
    }
    for photo in 0..4 {
        conn.execute("INSERT INTO tags VALUES (?1, 'rare')", (photo.to_string(),)).unwrap();
    }
    for photo in 1..6 {
        conn.execute("INSERT INTO tags VALUES (?1, 'half_trashed')", (photo.to_string(),)).unwrap();
    }
    let tags: Vec<(String, i64)> = conn
        .prepare(TAG_SUGGESTIONS_QUERY)
        .unwrap()
        .query_map([], |r| Ok((r.get(0)?, r.get(1)?)))
        .unwrap()
        .map(|r| r.unwrap())
        .collect();
    assert_eq!(tags.len(), 10);
    assert!(tags.iter().all(|(tag, count)| *count >= 5 && tag.starts_with("tag")));
    let suggestions = build_suggestions(tags, vec![], 0, 0, 0, None);
    assert_eq!(suggestions.len(), 10);
    assert!(suggestions.iter().all(|s| s.rules.len() == 1 && s.match_type == MATCH_ALL && s.rules[0].kind == "tag"));
}

#[test]
fn every_suggestion_is_a_rule_that_translates() {
    let suggestions = build_suggestions(
        vec![("beach".to_string(), 9)],
        vec![("p1".to_string(), "Ana".to_string(), 4)],
        6,
        3,
        5,
        Some(("X100V".to_string(), 12)),
    );
    assert_eq!(suggestions.len(), 6);
    for s in &suggestions {
        assert_eq!(s.rules.len(), 1);
        assert!(rule_to_sql(&s.rules[0], true).is_ok(), "{}", s.name);
    }
}
