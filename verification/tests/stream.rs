use local_ai_hub::chars::{is_whitespace, str_chars};
use local_ai_hub::stream::{
    byte_index_at_char, count_sentence_endings, find_stream_cut, flush_turn_chunks,
    is_safe_chunk_boundary, take_stream_chunk, PendingTurn,
};

#[test]
fn whitespace_matches_the_standard_library_on_every_character() {
    let mut code: u32 = 0;
    while code <= 0x10FFFF {
        if let Some(c) = char::from_u32(code) {
            assert_eq!(is_whitespace(c), c.is_whitespace(), "U+{:04X}", code);
        }
        code += 1;
    }
}

#[test]
fn str_chars_lists_every_character() {
    assert_eq!(str_chars("a…b"), vec!['a', '…', 'b']);
}

#[test]
fn byte_index_at_char_counts_bytes_of_wide_characters() {
    assert_eq!(byte_index_at_char("a…b", 0), 0);
    assert_eq!(byte_index_at_char("a…b", 1), 1);
    assert_eq!(byte_index_at_char("a…b", 2), 4);
    assert_eq!(byte_index_at_char("a…b", 3), 5);
    assert_eq!(byte_index_at_char("a…b", 100), 5);
}

#[test]
fn sentence_endings_need_whitespace_or_the_end_after_them() {
    assert_eq!(count_sentence_endings("Hi. How are you? I am fine."), 3);
    assert_eq!(count_sentence_endings("v1.2 is out"), 0);
    assert_eq!(count_sentence_endings("Wait… what?!"), 2);
    assert_eq!(count_sentence_endings(""), 0);
}

#[test]
fn safe_boundary_wants_punctuation_or_whitespace_before_the_cut() {
    let rem = "Hello, world. Next";
    assert!(!is_safe_chunk_boundary(rem, 0, false));
    assert!(!is_safe_chunk_boundary(rem, 3, false));
    assert!(is_safe_chunk_boundary(rem, 6, false));
    assert!(is_safe_chunk_boundary(rem, 7, false));
    assert!(is_safe_chunk_boundary(rem, 13, false));
    assert!(!is_safe_chunk_boundary(rem, 18, false));
    assert!(!is_safe_chunk_boundary(rem, 19, false));
    assert!(is_safe_chunk_boundary(rem, 3, true));
    assert!(is_safe_chunk_boundary(rem, 18, true));
    assert!(!is_safe_chunk_boundary(rem, 0, true));
}

#[test]
fn safe_boundary_refuses_the_middle_of_a_character() {
    let rem = "é. x";
    assert!(!is_safe_chunk_boundary(rem, 1, true));
    assert!(is_safe_chunk_boundary(rem, 2, true));
    assert!(is_safe_chunk_boundary(rem, 3, false));
}

#[test]
fn safe_boundary_refuses_a_blank_left_side() {
    assert!(!is_safe_chunk_boundary("   x", 2, false));
    assert!(is_safe_chunk_boundary("   x", 2, true));
}

#[test]
fn cut_prefers_the_last_paragraph_break() {
    let rem = "One. Two.\n\nThree. Four.\n\nFive";
    assert_eq!(find_stream_cut(rem, rem.len(), 1, 1, true), Some(25));
    assert_eq!(&rem[25..], "Five");
}

#[test]
fn cut_falls_back_to_a_list_item() {
    let rem = "Items:\n- one\n- two";
    assert_eq!(find_stream_cut(rem, rem.len(), 1, 1, true), Some(13));
}

#[test]
fn cut_takes_the_second_to_last_sentence_end() {
    assert_eq!(find_stream_cut("A. B. C. D", 10, 1, 2, false), Some(5));
    let rem = "One. Two. Three. Four";
    assert_eq!(find_stream_cut(rem, rem.len(), 1, 2, false), Some(9));
    assert_eq!(find_stream_cut(rem, rem.len(), 1, 3, false), Some(4));
    assert_eq!(find_stream_cut("Wait… what?! Yes. x", 21, 1, 2, false), Some(14));
}

#[test]
fn cut_takes_the_last_sentence_end_where_one_is_asked_for() {
    let rem = "One. Two. Three. Four";
    assert_eq!(find_stream_cut(rem, rem.len(), 1, 1, false), Some(16));
    assert_eq!(find_stream_cut("Hi. How are you? I am fine.", 27, 1, 1, true), Some(27));
}

#[test]
fn cut_skips_the_sentence_rule_where_too_few_sentences_end() {
    let rem = "One. Two. Three. Four";
    assert_eq!(find_stream_cut(rem, rem.len(), 1, 4, false), Some(16));
    assert_eq!(find_stream_cut("One. Two", 8, 1, 2, false), Some(4));
    assert_eq!(find_stream_cut("One two", 7, 1, 0, false), None);
}

#[test]
fn cut_skips_a_sentence_end_below_the_minimum() {
    let rem = "One. Two. Three";
    assert_eq!(find_stream_cut(rem, rem.len(), 8, 2, false), Some(9));
    assert_eq!(find_stream_cut(rem, rem.len(), 8, 3, false), Some(9));
    assert_eq!(find_stream_cut("One. Two. Threeee", 17, 12, 2, false), None);
}

#[test]
fn cut_falls_back_to_the_last_whitespace() {
    let rem = "alpha, beta gamma";
    assert_eq!(find_stream_cut(rem, rem.len(), 1, 2, true), Some(11));
    assert_eq!(find_stream_cut(rem, rem.len(), 1, 2, false), None);
}

#[test]
fn cut_at_the_window_edge_only_when_forcing() {
    assert_eq!(find_stream_cut("abcdef", 6, 1, 1, true), Some(6));
    assert_eq!(find_stream_cut("abcdef", 6, 1, 1, false), None);
    assert_eq!(find_stream_cut("abcdef", 4, 1, 1, true), Some(4));
}

#[test]
fn chunk_of_the_paragraph_scenario() {
    let full = "Paragraph one is long enough to cross the threshold. It has two sentences.\n\nParagraph two.";
    let (next, chunk) = take_stream_chunk(full, 0, 900, 1).unwrap();
    assert_eq!(
        chunk,
        "Paragraph one is long enough to cross the threshold. It has two sentences."
    );
    assert_eq!(next, 76);
    assert_eq!(&full[next..], "Paragraph two.");
    let (next2, chunk2) = take_stream_chunk(full, next, 900, 1).unwrap();
    assert_eq!(chunk2, "Paragraph two.");
    assert_eq!(next2, full.len());
    assert_eq!(take_stream_chunk(full, next2, 900, 1), None);
}

#[test]
fn chunk_is_refused_when_shorter_than_the_minimum() {
    assert_eq!(take_stream_chunk("Short. Text. More", 0, 900, 80), None);
    assert_eq!(take_stream_chunk("   \n ", 0, 900, 1), None);
    assert_eq!(take_stream_chunk("abc", 3, 900, 1), None);
    assert_eq!(take_stream_chunk("abc", 10, 900, 1), None);
}

#[test]
fn forced_chunk_begins_after_leading_whitespace() {
    assert_eq!(take_stream_chunk("\n\nfoo", 0, 900, 1), Some((5, "foo".to_string())));
    assert_eq!(take_stream_chunk("  hello. ", 0, 900, 1), Some((9, "hello.".to_string())));
    assert_eq!(take_stream_chunk("\n\nfoo", 0, 900, 80), None);
}

#[test]
fn chunk_begins_after_leading_whitespace_while_the_answer_grows() {
    assert_eq!(take_stream_chunk(" a. b.", 0, 900, 2), Some((4, "a.".to_string())));
    assert_eq!(take_stream_chunk(" a. b.", 1, 900, 2), Some((4, "a.".to_string())));
    assert_eq!(take_stream_chunk("\n \u{a0}é. b. c", 0, 900, 2), Some((8, "é.".to_string())));
    assert_eq!(take_stream_chunk(" a. b.", 0, 900, 3), None);
    assert_eq!(take_stream_chunk("  \n", 0, 900, 2), None);
}

#[test]
fn the_minimum_counts_from_the_first_character_that_is_sent() {
    assert_eq!(take_stream_chunk("   ab. ", 0, 900, 4), None);
    assert_eq!(take_stream_chunk("   abc. ", 0, 900, 4), Some((8, "abc.".to_string())));
}

#[test]
fn flush_skips_whitespace_before_the_first_fragment_while_the_answer_grows() {
    let first = "Paragraph one is long enough to cross the threshold of eighty characters. It has two sentences.";
    let mut turn = PendingTurn::new("t1".to_string(), 5);
    turn.push_text(" \n");
    turn.push_text(first);
    turn.push_text("\n\nParagraph two");
    let chunks = flush_turn_chunks(&mut turn, false);
    assert_eq!(chunks, vec![first.to_string()]);
    assert_eq!(&turn.full_text[turn.sent_byte..], "Paragraph two");
    let mut turn = PendingTurn::new("t1".to_string(), 5);
    turn.push_text("\n\nShort.");
    assert!(flush_turn_chunks(&mut turn, false).is_empty());
    assert_eq!(turn.sent_byte, 0);
}

#[test]
fn two_paragraphs_are_cut_at_the_blank_line() {
    let mut turn = PendingTurn::new("t1".to_string(), 5);
    turn.push_text("Paragraph one is long enough to cross the threshold. It has two sentences.\n\nParagraph two.");
    let chunks = flush_turn_chunks(&mut turn, true);
    assert_eq!(
        chunks,
        vec![
            "Paragraph one is long enough to cross the threshold. It has two sentences."
                .to_string(),
            "Paragraph two.".to_string(),
        ]
    );
    assert_eq!(turn.sent_byte, turn.full_text.len());
    assert!(flush_turn_chunks(&mut turn, true).is_empty());
}

#[test]
fn paragraph_below_the_minimum_waits_while_the_answer_grows() {
    let mut turn = PendingTurn::new("t1".to_string(), 5);
    let text = "Paragraph one is long enough to cross the threshold. It has two sentences.\n\nParagraph two.";
    turn.push_text(text);
    assert!(flush_turn_chunks(&mut turn, false).is_empty());
    assert_eq!(turn.sent_byte, 0);
    let chunks = flush_turn_chunks(&mut turn, true);
    assert_eq!(chunks.len(), 2);
    assert_eq!(chunks[1], "Paragraph two.");
    assert_eq!(turn.sent_byte, text.len());
}

#[test]
fn paragraph_above_the_minimum_is_cut_off_while_the_answer_grows() {
    let mut turn = PendingTurn::new("t1".to_string(), 5);
    let first = "Paragraph one is long enough to cross the threshold of eighty characters. It has two sentences.";
    turn.push_text(first);
    turn.push_text("\n\nParagraph two");
    let chunks = flush_turn_chunks(&mut turn, false);
    assert_eq!(chunks, vec![first.to_string()]);
    assert_eq!(&turn.full_text[turn.sent_byte..], "Paragraph two");
    turn.push_text(".");
    let rest = flush_turn_chunks(&mut turn, true);
    assert_eq!(rest, vec!["Paragraph two.".to_string()]);
}

#[test]
fn forced_flush_prefers_the_last_whitespace_to_the_window_edge() {
    let mut turn = PendingTurn::new("t1".to_string(), 5);
    turn.push_text("Paragraph two");
    let rest = flush_turn_chunks(&mut turn, true);
    assert_eq!(rest, vec!["Paragraph".to_string(), "two".to_string()]);
}

#[test]
fn flush_waits_for_enough_text() {
    let mut turn = PendingTurn::new("t1".to_string(), 5);
    turn.push_text("Hi. ");
    assert!(flush_turn_chunks(&mut turn, false).is_empty());
    turn.push_text("How are you? ");
    assert!(flush_turn_chunks(&mut turn, false).is_empty());
    assert_eq!(turn.sent_byte, 0);
    turn.push_text("I am fine.");
    assert!(flush_turn_chunks(&mut turn, false).is_empty());
    let all = flush_turn_chunks(&mut turn, true);
    assert_eq!(all, vec!["Hi. How are you? I am fine.".to_string()]);
    assert_eq!(turn.sent_byte, turn.full_text.len());
}

#[test]
fn flush_keeps_the_order_of_the_text() {
    let text = "First sentence of the answer that is rather long and goes on for a while. Second sentence, also of some length, to get past the minimum. Third one here.\n\n- item one is here\n- item two is here\n\nLast paragraph without an end";
    let mut turn = PendingTurn::new("t".to_string(), 1);
    turn.push_text(text);
    let mut chunks = flush_turn_chunks(&mut turn, false);
    chunks.extend(flush_turn_chunks(&mut turn, true));
    let joined: String = chunks.concat().chars().filter(|c| !c.is_whitespace()).collect();
    let wanted: String = text.chars().filter(|c| !c.is_whitespace()).collect();
    assert_eq!(joined, wanted);
    for c in &chunks {
        assert!(!c.is_empty());
        assert!(!c.ends_with(char::is_whitespace));
        assert!(!c.starts_with(char::is_whitespace));
        assert!(text.contains(c.as_str()));
    }
    assert_eq!(turn.sent_byte, text.len());
}

#[test]
fn text_without_punctuation_waits_for_the_end_of_the_turn() {
    let text = "lorem ".repeat(300);
    let mut turn = PendingTurn::new("t".to_string(), 1);
    turn.push_text(&text);
    assert!(flush_turn_chunks(&mut turn, false).is_empty());
    assert_eq!(turn.sent_byte, 0);
    let chunks = flush_turn_chunks(&mut turn, true);
    assert_eq!(chunks.len(), 2);
    for c in &chunks {
        assert!(c.chars().count() <= 900);
        assert!(c.ends_with("lorem"));
        assert!(c.starts_with("lorem"));
    }
    assert_eq!(chunks[0].chars().count(), 899);
    assert_eq!(turn.sent_byte, text.len());
}

#[test]
fn forced_flush_sends_what_follows_a_blank_first_paragraph() {
    let mut turn = PendingTurn::new("t".to_string(), 1);
    turn.push_text("\n\nA");
    assert_eq!(flush_turn_chunks(&mut turn, true), vec!["A".to_string()]);
    assert_eq!(turn.sent_byte, 3);
    let mut turn = PendingTurn::new("t".to_string(), 1);
    turn.push_text(" \n\n  foo bar.\n\n\n baz ");
    assert_eq!(
        flush_turn_chunks(&mut turn, true),
        vec!["foo bar.".to_string(), "baz".to_string()]
    );
    assert_eq!(turn.sent_byte, turn.full_text.len());
}

#[test]
fn forced_flush_counts_whitespace_that_is_left_as_sent() {
    let mut turn = PendingTurn::new("t".to_string(), 1);
    turn.push_text("abc.  \n");
    assert_eq!(flush_turn_chunks(&mut turn, true), vec!["abc.".to_string()]);
    assert_eq!(turn.sent_byte, 7);
    turn.push_text(" \n ");
    assert!(flush_turn_chunks(&mut turn, false).is_empty());
    assert_eq!(turn.sent_byte, 7);
    assert!(flush_turn_chunks(&mut turn, true).is_empty());
    assert_eq!(turn.sent_byte, 10);
    let mut blank = PendingTurn::new("t".to_string(), 1);
    blank.push_text("   ");
    assert!(flush_turn_chunks(&mut blank, true).is_empty());
    assert_eq!(blank.sent_byte, 3);
}

#[test]
fn replace_text_keeps_the_buffer_when_the_new_text_is_shorter() {
    let mut turn = PendingTurn::new("t".to_string(), 1);
    turn.push_text("abcdef");
    turn.replace_text("abc");
    assert_eq!(turn.full_text, "abcdef");
    turn.replace_text("abcdefgh");
    assert_eq!(turn.full_text, "abcdefgh");
}

#[test]
fn replace_text_moves_the_sent_position_back_to_a_character_boundary() {
    let mut turn = PendingTurn::new("t".to_string(), 1);
    turn.push_text("é.");
    let _ = flush_turn_chunks(&mut turn, true);
    assert_eq!(turn.sent_byte, 3);
    turn.replace_text("a€ and more");
    assert_eq!(turn.full_text, "a€ and more");
    assert_eq!(turn.sent_byte, 1);
    assert!(turn.full_text.is_char_boundary(turn.sent_byte));
    turn.replace_text("a€ and more still");
    assert_eq!(turn.sent_byte, 1);
    let mut turn = PendingTurn::new("t".to_string(), 1);
    turn.push_text("é.");
    let _ = flush_turn_chunks(&mut turn, true);
    turn.replace_text("é. and more");
    assert_eq!(turn.full_text, "é. and more");
    assert_eq!(turn.sent_byte, 3);
    assert_eq!(flush_turn_chunks(&mut turn, true), vec!["and".to_string(), "more".to_string()]);
}
