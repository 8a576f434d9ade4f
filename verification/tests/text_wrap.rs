use quadboy::rendering::text::text_content_length;
use quadboy::rendering::text_wrap::{
    break_long_word, carry_formatting_to_next_line, get_visual_length,
    split_formatted_text_into_words, wrap_text, FormattedWord,
};

#[test]
fn test_pine_tree_formatting() {
    let input = "{c|P}ine {c|T}ree";
    let wrapped = wrap_text(input, 20);

    println!("Pine Tree input: '{}'", input);
    println!("Pine Tree wrapped: {:?}", wrapped);

    // Should be one line since it's short
    assert_eq!(wrapped.len(), 1);

    let result = &wrapped[0];
    println!("Pine Tree result: '{}'", result);

    // The visual length should be 9 characters ("Pine Tree")
    assert_eq!(text_content_length(result), 9);
}

#[test]
fn test_rattlesnake_formatting() {
    let input = "{Y-y-X-y repeat|Rattlesnake}";
    let wrapped = wrap_text(input, 20);

    println!("Rattlesnake input: '{}'", input);
    println!("Rattlesnake wrapped: {:?}", wrapped);

    assert_eq!(wrapped.len(), 1);

    let result = &wrapped[0];
    println!("Rattlesnake result: '{}'", result);

    assert_eq!(text_content_length(result), 11);
}

#[test]
fn test_brown_bear_formatting() {
    let input = "{X|Brown Bear}";
    let wrapped = wrap_text(input, 20);

    println!("Brown Bear input: '{}'", input);
    println!("Brown Bear wrapped: {:?}", wrapped);

    assert_eq!(wrapped.len(), 1);

    let result = &wrapped[0];
    println!("Brown Bear result: '{}'", result);

    assert_eq!(text_content_length(result), 10);
}

#[test]
fn test_split_formatted_text_into_words() {
    let input = "{c|P}ine {c|T}ree";
    let words = split_formatted_text_into_words(input);

    println!("Pine Tree words: {:?}", words);

    for (i, word) in words.iter().enumerate() {
        println!(
            "Word {}: text='{}', visual_length={}, formatting={:?}",
            i, word.text, word.visual_length, word.formatting
        );
    }
}

#[test]
fn test_split_rattlesnake_into_words() {
    let input = "{Y-y-X-y repeat|Rattlesnake}";
    let words = split_formatted_text_into_words(input);

    println!("Rattlesnake words: {:?}", words);

    assert_eq!(words.len(), 1);

    let word = &words[0];
    println!(
        "Rattlesnake word: text='{}', visual_length={}, formatting={:?}",
        word.text, word.visual_length, word.formatting
    );

    assert_eq!(word.visual_length, 11);
}

#[test]
fn test_text_content_length_simple() {
    assert_eq!(text_content_length("Hello"), 5);
    assert_eq!(text_content_length(""), 0);
}

#[test]
fn test_text_content_length_formatted() {
    assert_eq!(text_content_length("{R|Hello}"), 5);
    assert_eq!(text_content_length("{Y-y-X-y repeat|Rattlesnake}"), 11);
    assert_eq!(text_content_length("{c|P}ine {c|T}ree"), 9);
}

#[test]
fn split_words_and_visual_lengths() {
    let words = split_formatted_text_into_words("  {c|P}ine {c|T}ree\tgo ");
    let texts: Vec<&str> = words.iter().map(|w| w.text.as_str()).collect();
    assert_eq!(texts, vec!["{c|P}ine", "{c|T}ree", "go"]);
    let lens: Vec<usize> = words.iter().map(|w| w.visual_length).collect();
    assert_eq!(lens, vec![4, 4, 2]);
    assert!(words.iter().all(|w| w.formatting.is_none()));
}

#[test]
fn split_keeps_spaces_inside_sequences() {
    let words = split_formatted_text_into_words("{X|Brown Bear} roars");
    assert_eq!(words.len(), 2);
    assert_eq!(words[0].text, "{X|Brown Bear}");
    assert_eq!(words[0].visual_length, 10);
    assert_eq!(words[1].text, "roars");
}

#[test]
fn split_counts_drawn_characters() {
    let words = split_formatted_text_into_words("café {R|héllo}");
    assert_eq!(words[0].visual_length, 4);
    assert_eq!(words[1].visual_length, 5);
    assert_eq!(words[1].visual_length, text_content_length(&words[1].text));
}

#[test]
fn split_unclosed_sequence_draws_nothing() {
    let words = split_formatted_text_into_words("{R|open");
    assert_eq!(words.len(), 1);
    assert_eq!(words[0].text, "{R|open");
    assert_eq!(words[0].visual_length, 0);
}

#[test]
fn wrap_breaks_at_width() {
    let lines = wrap_text("the quick brown fox jumps", 10);
    assert_eq!(lines, vec!["the quick", "brown fox", "jumps"]);
}

#[test]
fn wrap_zero_width_gives_nothing() {
    assert!(wrap_text("anything at all", 0).is_empty());
}

#[test]
fn wrap_blank_text_gives_one_empty_line() {
    assert_eq!(wrap_text("   ", 5), vec![String::new()]);
    assert!(wrap_text("", 5).is_empty());
}

#[test]
fn wrap_breaks_long_words() {
    let lines = wrap_text("a extraordinarily b", 5);
    assert_eq!(lines, vec!["a", "extra", "ordin", "arily", "b"]);
    assert_eq!(wrap_text("ab", 1), vec!["a", "b"]);
    assert_eq!(wrap_text("abcdefg hi", 4), vec!["abcd", "efg", "hi"]);
    for line in wrap_text("the quick brown extraordinarily long fox", 6) {
        assert!(text_content_length(&line) <= 6);
    }
}

#[test]
fn wrap_breaks_styled_long_words_keeping_their_style() {
    assert_eq!(wrap_text("{R|Rattlesnake}", 5), vec!["{R|Rattl}", "{R|esnak}", "{R|e}"]);
    assert_eq!(wrap_text("{R|abcdefgh}", 3), vec!["{R|abc}", "{R|def}", "{R|gh}"]);
    assert_eq!(wrap_text("ab{G|cd}ef go", 3), vec!["ab{G|c}", "{G|d}ef", "go"]);
    for line in wrap_text("{Y-y-X-y repeat|Rattlesnake} and {X|Brown Bear} here", 4) {
        assert!(text_content_length(&line) <= 4, "{}", line);
    }
}
#[test]
fn wrap_counts_only_drawn_text() {
    let lines = wrap_text("{R|red} {G|green} {B|blue}", 9);
    assert_eq!(lines, vec!["{R|red} {G|green}", "{B|blue}"]);
}

#[test]
fn break_long_word_into_chunks() {
    let word = FormattedWord {
        text: "abcdefg".to_string(),
        visual_length: 7,
        formatting: None,
    };
    let active = Some("R".to_string());
    let chunks = break_long_word(&word, 3, &active);
    let texts: Vec<&str> = chunks.iter().map(|w| w.text.as_str()).collect();
    assert_eq!(texts, vec!["abc", "def", "g"]);
    let lens: Vec<usize> = chunks.iter().map(|w| w.visual_length).collect();
    assert_eq!(lens, vec![3, 3, 1]);
    assert!(chunks.iter().all(|w| w.formatting.as_deref() == Some("R")));
}

#[test]
fn break_long_word_keeps_markup_uncounted() {
    let word = FormattedWord {
        text: "{a|bc}".to_string(),
        visual_length: 2,
        formatting: None,
    };
    let chunks = break_long_word(&word, 2, &None);
    let texts: Vec<&str> = chunks.iter().map(|w| w.text.as_str()).collect();
    assert_eq!(texts, vec!["{a|b", "c}"]);
}

#[test]
fn break_empty_word_returns_it() {
    let word = FormattedWord {
        text: String::new(),
        visual_length: 0,
        formatting: Some("Y".to_string()),
    };
    let chunks = break_long_word(&word, 4, &None);
    assert_eq!(chunks.len(), 1);
    assert_eq!(chunks[0].text, "");
    assert_eq!(chunks[0].formatting.as_deref(), Some("Y"));
}

#[test]
fn visual_length_ignores_markup() {
    assert_eq!(get_visual_length("{R-G repeat|ab} cd"), 5);
    assert_eq!(get_visual_length("a|b}c"), 5);
}

#[test]
fn carry_formatting_wraps_next_line() {
    assert_eq!(
        carry_formatting_to_next_line("{R|red} text", "more"),
        "{R|more}"
    );
}

#[test]
fn carry_formatting_uses_last_setting() {
    assert_eq!(
        carry_formatting_to_next_line("{R|a} {G|b}", "c"),
        "{G|c}"
    );
}

#[test]
fn carry_formatting_leaves_styled_or_plain_lines() {
    assert_eq!(carry_formatting_to_next_line("{R|a}", "{G|b}"), "{G|b}");
    assert_eq!(carry_formatting_to_next_line("plain", "next"), "next");
    assert_eq!(carry_formatting_to_next_line("{|empty}", "next"), "next");
}

#[test]
fn wrapped_lines_are_greedy() {
    let width = 10;
    let lines = wrap_text("the quick brown fox jumps over {R|the} lazy dog", width);
    assert_eq!(lines, vec!["the quick", "brown fox", "jumps over", "{R|the} lazy", "dog"]);
    for pair in lines.windows(2) {
        let first_next = split_formatted_text_into_words(&pair[1])[0].visual_length;
        assert!(text_content_length(&pair[0]) + 1 + first_next > width);
    }
    for line in &lines {
        assert!(text_content_length(line) <= width);
    }
}

#[test]
fn word_lengths_match_drawn_text() {
    for word in split_formatted_text_into_words("{c|P}ine {X|Brown Bear} plain {Y-y|héllo}") {
        assert_eq!(word.visual_length, text_content_length(&word.text));
    }
}

#[test]
fn carried_line_keeps_its_drawn_text() {
    let carried = carry_formatting_to_next_line("a {R|hot} and {|x} coal", "embers");
    assert_eq!(carried, "{R|embers}");
    assert_eq!(text_content_length(&carried), 6);
    assert_eq!(carry_formatting_to_next_line("plain words", "embers"), "embers");
    assert_eq!(carry_formatting_to_next_line("{G|a} {Y|b}", "{R|c}"), "{R|c}");
}
