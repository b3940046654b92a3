use minigrep::{contains_text, search, search_case_insensitive, search_lines, split_lines};

#[test]
fn case_sensitive() {
    let query = "duct";
    let contents = "\
Rust:
safe, fast, productive.
Pick three.
Duct tape.";

    assert_eq!(vec!["safe, fast, productive."], search(query, contents))
}

#[test]
fn case_insensitive() {
    let query = "RuSt";
    let contents = "\
Rust:
safe, fast, productive.
Pick three.
Trust me.";

    assert_eq!(vec!["Rust:", "Trust me."], search_case_insensitive(query, contents))
}

#[test]
fn scenario_exact_match_in_three_lines() {
    let contents = "Rust:\nsafe, fast, productive.\nPick three.";
    assert_eq!(vec!["safe, fast, productive."], search_lines("duct", contents, true));
}

#[test]
fn scenario_folded_match_in_four_lines() {
    let contents = "Rust:\nsafe, fast, productive.\nPick three.\nTrust me.";
    assert_eq!(vec!["Rust:", "Trust me."], search_lines("RuSt", contents, false));
}

#[test]
fn exact_mode_does_not_fold() {
    let contents = "Rust:\nsafe, fast, productive.\nPick three.\nTrust me.";
    assert_eq!(Vec::<&str>::new(), search("RuSt", contents));
}

#[test]
fn exact_matches_are_also_folded_matches() {
    let contents = "Duct tape.\nproductive\nconduct\nnothing";
    let exact = search("duct", contents);
    let folded = search_case_insensitive("duct", contents);
    assert_eq!(vec!["productive", "conduct"], exact);
    assert_eq!(vec!["Duct tape.", "productive", "conduct"], folded);
    for line in exact {
        assert!(folded.contains(&line));
    }
}

#[test]
fn found_lines_match_again() {
    let contents = "one fish\ntwo fish\nred\nblue fish";
    for line in search("fish", contents) {
        assert!(contains_text(line, "fish"));
        assert_eq!(vec![line], search("fish", line));
    }
}

#[test]
fn empty_query_keeps_every_line() {
    let contents = "alpha\n\nbeta\ngamma";
    assert_eq!(vec!["alpha", "", "beta", "gamma"], search("", contents));
    assert_eq!(vec!["alpha", "", "beta", "gamma"], search_case_insensitive("", contents));
}

#[test]
fn empty_contents_give_nothing() {
    assert_eq!(Vec::<&str>::new(), search("a", ""));
    assert_eq!(Vec::<&str>::new(), search("", ""));
    assert_eq!(Vec::<&str>::new(), search_case_insensitive("A", ""));
}

#[test]
fn query_longer_than_every_line() {
    assert_eq!(Vec::<&str>::new(), search("a long query", "short\nlines"));
}

#[test]
fn recurring_lines_are_kept() {
    assert_eq!(vec!["abc", "abc"], search("b", "abc\nxyz\nabc"));
}

#[test]
fn carriage_returns_end_lines() {
    assert_eq!(vec!["first", "second"], split_lines("first\r\nsecond\r\n"));
    assert_eq!(vec!["a", "b"], split_lines("a\r\nb"));
    assert_eq!(vec!["a", "b\r"], split_lines("a\nb\r"));
}

#[test]
fn final_line_feed_adds_no_line() {
    assert_eq!(vec!["one", "two"], split_lines("one\ntwo\n"));
    assert_eq!(vec!["one", "two"], split_lines("one\ntwo"));
    assert_eq!(vec!["", ""], split_lines("\n\n"));
    assert_eq!(Vec::<&str>::new(), split_lines(""));
}

#[test]
fn split_matches_std_lines() {
    let text = "x\r\ny\n\nz\rw\n\r\nlast";
    assert_eq!(text.lines().collect::<Vec<&str>>(), split_lines(text));
}

#[test]
fn substring_containment() {
    assert!(contains_text("productive", "duct"));
    assert!(contains_text("productive", "productive"));
    assert!(contains_text("productive", ""));
    assert!(contains_text("", ""));
    assert!(!contains_text("productive", "Duct"));
    assert!(!contains_text("duc", "duct"));
    assert!(!contains_text("", "a"));
    assert!(contains_text("aaab", "aab"));
    assert!(contains_text("héllo wörld", "ö"));
}

#[test]
fn folding_handles_non_ascii() {
    assert_eq!(vec!["ÄPFEL", "äpfel"], search_case_insensitive("Äpfel", "ÄPFEL\näpfel\nBirnen"));
}
