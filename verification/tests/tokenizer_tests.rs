use rsvp_reader::tokenizer::tokenize;

#[test]
fn tokenize_simple_words() {
    let toks = tokenize("Upload a document");
    assert_eq!(toks, vec!["Upload".to_string(), "a".to_string(), "document".to_string()]);
}

#[test]
fn tokenize_collapses_whitespace_runs() {
    let toks = tokenize("  hello \t\n  world\r\n foo ");
    assert_eq!(toks, vec!["hello".to_string(), "world".to_string(), "foo".to_string()]);
}

#[test]
fn tokenize_empty_input_yields_no_tokens() {
    let toks = tokenize("");
    assert!(toks.is_empty());
}

#[test]
fn tokenize_whitespace_only_yields_no_tokens() {
    let toks = tokenize(" \t \n \r ");
    assert!(toks.is_empty());
}

#[test]
fn tokenize_never_produces_empty_tokens_and_keeps_order() {
    let toks = tokenize("one  two\tthree\n\nfour");
    assert!(toks.iter().all(|t| !t.is_empty()));
    assert_eq!(toks, vec!["one".to_string(), "two".to_string(), "three".to_string(), "four".to_string()]);
}

#[test]
fn tokenize_splits_on_unicode_whitespace() {
    let toks = tokenize("a\u{00A0}b\u{2003}c\u{2028}d\u{3000}e");
    assert_eq!(
        toks,
        vec!["a".to_string(), "b".to_string(), "c".to_string(), "d".to_string(), "e".to_string()]
    );
}

#[test]
fn tokenize_keeps_punctuation_attached() {
    let toks = tokenize("begin. (now)");
    assert_eq!(toks, vec!["begin.".to_string(), "(now)".to_string()]);
}
