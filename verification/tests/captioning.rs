use hive::captioning::{banned_next, byte_decoder, decode_tokens, vocab_table, NO_REPEAT_NGRAM};

#[test]
fn the_byte_table_covers_every_byte_exactly_once() {
    let table = byte_decoder();
    assert_eq!(table.len(), 256);
    let mut bytes: Vec<u8> = table.values().copied().collect();
    bytes.sort_unstable();
    bytes.dedup();
    assert_eq!(bytes.len(), 256);
}

#[test]
fn the_space_marker_decodes_back_to_a_space() {
    let table = byte_decoder();
    // "Ġ" is how GPT-2 writes a leading space; "a" stands for itself.
    assert_eq!(table.get(&('Ġ' as u32)).copied(), Some(b' '));
    assert_eq!(table.get(&('a' as u32)).copied(), Some(b'a'));
}

#[test]
fn a_repeated_trigram_bans_the_token_that_would_close_it() {
    // "a man riding a man": proposing "riding" again would close the loop, so
    // it is the one token refused. The ban keys on the two tokens just said.
    let generated = [1, 2, 3, 1, 2];
    assert_eq!(banned_next(&generated, NO_REPEAT_NGRAM), vec![3]);
}

#[test]
fn a_pair_that_never_recurred_bans_nothing() {
    // Ends on "riding a", which has not been followed by anything yet.
    assert!(banned_next(&[1, 2, 3, 1], NO_REPEAT_NGRAM).is_empty());
}

#[test]
fn nothing_is_banned_before_the_first_ngram_exists() {
    assert!(banned_next(&[1, 2], NO_REPEAT_NGRAM).is_empty());
}

#[test]
fn every_repeat_of_the_pair_bans_its_follower_in_order() {
    assert_eq!(banned_next(&[7, 7, 1, 7, 7, 2, 7, 7], NO_REPEAT_NGRAM), vec![1, 2]);
}

#[test]
fn generated_ids_read_back_as_a_trimmed_sentence() {
    let vocab = vocab_table(&vec![
        ("a".to_string(), 1),
        ("Ġdog".to_string(), 2),
        ("Ġ".to_string(), 3),
    ]);
    assert_eq!(vocab, vec!["".to_string(), "a".to_string(), "Ġdog".to_string(), "Ġ".to_string()]);
    let table = byte_decoder();
    // The start marker reads as nothing, unknown ids are skipped, and the
    // trailing space is trimmed.
    assert_eq!(decode_tokens(&[50256, 1, 2, 99, -1, 3], &vocab, &table), "a dog");
    assert_eq!(decode_tokens(&[50256, 1], &Vec::new(), &table), "");
}

#[test]
fn the_last_token_listed_for_an_id_wins() {
    let vocab = vocab_table(&vec![("x".to_string(), 0), ("y".to_string(), 0)]);
    assert_eq!(vocab, vec!["y".to_string()]);
    assert_eq!(vocab_table(&Vec::new()), vec![String::new()]);
}
