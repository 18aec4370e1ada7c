use vcal_parser::unfold_lines;

#[test]
fn test_unfold_lines_crlf() {
    let input = "DESCRIPTION:This is a long\r\n  description that spans\r\n \tmultiple lines.\r\n";
    let result = unfold_lines(input);
    assert_eq!(
        result,
        "DESCRIPTION:This is a long description that spans\tmultiple lines.\r\n"
    );
}

#[test]
fn test_unfold_lines_lf_only() {
    let input = "DESCRIPTION:This is a long\n  description that spans\n \tmultiple lines.\n";
    let result = unfold_lines(input);
    assert_eq!(
        result,
        "DESCRIPTION:This is a long description that spans\tmultiple lines.\n"
    );
}

#[test]
fn test_unfold_no_folding() {
    let input = "SUMMARY:Simple line\r\nDTSTART:20251222T170000\r\n";
    let result = unfold_lines(input);
    assert_eq!(result, input);
}

#[test]
fn unfold_of_nothing_is_nothing() {
    assert_eq!(unfold_lines(""), "");
}

#[test]
fn unfold_takes_out_each_of_the_four_folds() {
    assert_eq!(unfold_lines("ab\r\n cd"), "abcd");
    assert_eq!(unfold_lines("ab\r\n\tcd"), "abcd");
    assert_eq!(unfold_lines("ab\n cd"), "abcd");
    assert_eq!(unfold_lines("ab\n\tcd"), "abcd");
}

#[test]
fn unfold_keeps_breaks_that_no_space_follows() {
    assert_eq!(unfold_lines("a\r\nb\nc\rd\r"), "a\r\nb\nc\rd\r");
    assert_eq!(unfold_lines("a\r\n"), "a\r\n");
    assert_eq!(unfold_lines("a\n"), "a\n");
    assert_eq!(unfold_lines("a\r b"), "a\r b");
}

#[test]
fn unfold_keeps_a_carriage_return_before_a_bare_fold() {
    assert_eq!(unfold_lines("a\r\r\n b"), "a\rb");
    assert_eq!(unfold_lines("\n \n \n x"), "x");
}

#[test]
fn unfold_takes_one_space_only_and_reads_once() {
    assert_eq!(unfold_lines("a\n  b"), "a b");
    assert_eq!(unfold_lines("a\n\n  b"), "a\n b");
    assert_eq!(unfold_lines("a\r\n"), "a\r\n");
    assert_eq!(unfold_lines("a\n \n b"), "ab");
}

#[test]
fn unfold_can_split_a_name_and_keeps_other_text() {
    assert_eq!(unfold_lines("SUM\r\n MARY:Fürdő\r\n és\n"), "SUMMARY:Fürdőés\n");
}

#[test]
fn unfold_inverts_a_fold_put_into_unfolded_text() {
    let text = "BEGIN:VEVENT\r\nSUMMARY:Weekly meeting\r\nEND:VEVENT\r\n";
    for fold in ["\r\n ", "\r\n\t", "\n ", "\n\t"] {
        for (at, _) in text.char_indices() {
            if text[..at].ends_with('\r') || text[..at].ends_with('\n') {
                continue;
            }
            let folded = format!("{}{}{}", &text[..at], fold, &text[at..]);
            assert_eq!(unfold_lines(&folded), text);
        }
    }
}
