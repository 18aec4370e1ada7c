use vcal_parser::layout::{
    calculate_event_width, calculate_left_side_width, calculate_padding, max_chars_per_line,
    minute_of_day, split_words, wrap_text, wrap_words,
};

#[test]
fn padding_divides_what_the_items_leave_free() {
    assert_eq!(calculate_padding(400, 10, 24), 6);
    assert_eq!(calculate_padding(240, 10, 24), 0);
    assert_eq!(calculate_padding(263, 10, 24), 0);
    assert_eq!(calculate_padding(264, 10, 24), 1);
}

#[test]
fn padding_rounds_towards_zero() {
    assert_eq!(calculate_padding(100, 10, 24), -5);
    assert_eq!(calculate_padding(239, 10, 24), 0);
    assert_eq!(calculate_padding(7, 0, -2), -3);
    assert_eq!(calculate_padding(0, 7, -1), -7);
    assert_eq!(calculate_padding(2147483647, 0, 1), 2147483647);
}

#[test]
fn left_side_width_is_font_size_times_characters() {
    assert_eq!(calculate_left_side_width(6, 6), 36);
    assert_eq!(calculate_left_side_width(0, 9), 0);
    assert_eq!(calculate_left_side_width(7, -3), -21);
}

#[test]
fn event_width_is_the_left_offset() {
    assert_eq!(calculate_event_width(300, 40), 40);
    assert_eq!(calculate_event_width(0, 0), 0);
    assert_eq!(calculate_event_width(-5, 12), 12);
}

#[test]
fn minute_of_day_counts_from_midnight() {
    assert_eq!(minute_of_day(0, 0), 0);
    assert_eq!(minute_of_day(17, 30), 1050);
    assert_eq!(minute_of_day(23, 59), 1439);
    assert_eq!(minute_of_day(255, 255), 15555);
}

#[test]
fn max_chars_leaves_four_free() {
    assert_eq!(max_chars_per_line(110, 6), 17);
    assert_eq!(max_chars_per_line(10, 6), 1);
    assert_eq!(max_chars_per_line(9, 6), 0);
    assert_eq!(max_chars_per_line(4, 6), 0);
    assert_eq!(max_chars_per_line(-5, 6), 0);
    assert_eq!(max_chars_per_line(i32::MIN, 1), 0);
    assert_eq!(max_chars_per_line(i32::MAX, 1), 2147483643);
}

#[test]
fn words_are_the_runs_between_white_space() {
    assert_eq!(split_words("  Liverpool -  FC\tBarcelona\n"), vec!["Liverpool", "-", "FC", "Barcelona"]);
    assert_eq!(split_words("one"), vec!["one"]);
    assert!(split_words("").is_empty());
    assert!(split_words(" \t\r\n").is_empty());
}

#[test]
fn words_are_split_at_unicode_white_space() {
    assert_eq!(split_words("a\u{3000}b\u{a0}c\u{2003}d"), vec!["a", "b", "c", "d"]);
    assert_eq!(split_words("Állatok etetése"), vec!["Állatok", "etetése"]);
}

#[test]
fn wrap_opens_a_line_where_a_word_does_not_fit() {
    assert_eq!(wrap_text("Formális nyelvek, automaták", 11), "Formális\nnyelvek,\nautomaták");
    assert_eq!(wrap_text("Liverpool - FC Barcelona", 16), "Liverpool - FC\nBarcelona");
    assert_eq!(wrap_text("Liverpool - FC Barcelona", 24), "Liverpool - FC Barcelona");
    assert_eq!(wrap_text("Liverpool - FC Barcelona", 23), "Liverpool - FC\nBarcelona");
}

#[test]
fn wrap_counts_characters_not_bytes() {
    assert_eq!(wrap_text("őőőő űűűű", 9), "őőőő űűűű");
    assert_eq!(wrap_text("őőőő űűűű", 8), "őőőő\nűűűű");
}

#[test]
fn wrap_does_not_cut_a_long_word() {
    assert_eq!(wrap_text("a extraordinarily b", 5), "a\nextraordinarily\nb");
    assert_eq!(wrap_text("word", 0), "word");
    assert_eq!(wrap_text("a b", 0), "a\nb");
}

#[test]
fn wrap_joins_words_with_one_space() {
    assert_eq!(wrap_text("  a \t b\n", 10), "a b");
    assert_eq!(wrap_text("", 10), "");
    assert_eq!(wrap_text("   ", 10), "");
}

#[test]
fn wrap_words_takes_the_words_as_they_are() {
    assert_eq!(wrap_words(&vec!["ab", "cd", "ef"], 5), "ab cd\nef");
    assert_eq!(wrap_words(&vec!["", "x"], 5), "x");
    assert_eq!(wrap_words(&vec!["a b", "", "c"], 4), "a b \nc");
    assert_eq!(wrap_words(&Vec::new(), 5), "");
}
