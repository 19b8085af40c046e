use title_index::{
    document_tokens, extract_org_title, extract_title, split_words, strip_org_links,
    title_from_file, tokenize,
};

#[test]
fn tokenize_empty_text() {
    assert!(tokenize("").is_empty());
}

#[test]
fn tokenize_drops_punctuation() {
    assert_eq!(tokenize("Bears, Beets—Battlestar!"), vec!["bears", "beets", "battlestar"]);
}

#[test]
fn tokenize_lowercases() {
    assert_eq!(tokenize("THE Bears DEN"), vec!["the", "bears", "den"]);
}

#[test]
fn tokenize_splits_at_digits() {
    assert_eq!(tokenize("abc123def 42"), vec!["abc", "def"]);
}

#[test]
fn tokenize_keeps_non_ascii_letters() {
    assert_eq!(tokenize("Über Straße, Ελλάδα"), vec!["über", "straße", "ελλάδα"]);
}

#[test]
fn tokenize_keeps_duplicates_in_order() {
    assert_eq!(tokenize("b a b"), vec!["b", "a", "b"]);
}

#[test]
fn tokenize_only_punctuation() {
    assert!(tokenize("!!! 123 -- ...").is_empty());
}

#[test]
fn split_words_does_not_lowercase() {
    assert_eq!(split_words("Ab cD"), vec!["Ab", "cD"]);
}

#[test]
fn link_becomes_label() {
    assert_eq!(strip_org_links("[[id-1][Second Post]]"), "Second Post");
}

#[test]
fn text_without_links_is_unchanged() {
    let s = "Plain [title] with ]] and [[ marks";
    let once = strip_org_links(s);
    assert_eq!(once, s);
    assert_eq!(strip_org_links(&once), once);
}

#[test]
fn several_links_are_all_replaced() {
    assert_eq!(
        strip_org_links("A [[x][Bears]] and [[id:2][Beets]]!"),
        "A Bears and Beets!"
    );
}

#[test]
fn link_with_empty_label_is_kept() {
    assert_eq!(strip_org_links("[[x][]]"), "[[x][]]");
    assert_eq!(strip_org_links("[[][y]]"), "[[][y]]");
}

#[test]
fn link_after_stray_bracket() {
    assert_eq!(strip_org_links("[[[x][y]]"), "[y");
}

#[test]
fn title_line_is_trimmed() {
    assert_eq!(extract_title("#+title:  The Bears Den  "), Some("The Bears Den".to_string()));
}

#[test]
fn title_directive_ignores_case_and_leading_space() {
    assert_eq!(extract_title("  #+TITLE:Camp"), Some("Camp".to_string()));
    assert_eq!(extract_title("\t#+Title: Den"), Some("Den".to_string()));
}

#[test]
fn line_without_directive_has_no_title() {
    assert_eq!(extract_title("title: nothing"), None);
    assert_eq!(extract_title("#+author: someone"), None);
    assert_eq!(extract_title(""), None);
}

#[test]
fn empty_title_is_a_title() {
    assert_eq!(extract_title("#+title:"), Some(String::new()));
}

#[test]
fn first_title_line_wins() {
    let text = "#+author: me\r\n#+title: First\n#+title: Second\n";
    assert_eq!(title_from_file(text), Some("First".to_string()));
}

#[test]
fn file_without_title() {
    assert_eq!(title_from_file("just some\ntext\n"), None);
    assert_eq!(title_from_file(""), None);
}

#[test]
fn title_on_last_line_without_newline() {
    assert_eq!(title_from_file("x\n #+title: Last"), Some("Last".to_string()));
}

#[test]
fn org_title_has_links_replaced() {
    let text = "intro\n#+title: [[id:7][Bears]] Den\n";
    assert_eq!(extract_org_title(text), Some("Bears Den".to_string()));
}

#[test]
fn document_tokens_of_a_text() {
    let text = "#+TITLE: The [[x][Bears]] Den, 2nd";
    assert_eq!(document_tokens(text), Some(vec!["the".to_string(), "bears".to_string(), "den".to_string(), "nd".to_string()]));
    assert_eq!(document_tokens("no title here"), None);
}
