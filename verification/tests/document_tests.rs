use rsvp_reader::document::{build_document, EmptyDocumentError};

#[test]
fn build_document_keeps_nonempty_pages_in_order() {
    let raws = vec![
        "".to_string(),
        "first page".to_string(),
        "   \t ".to_string(),
        "second".to_string(),
    ];
    let doc = build_document(&raws).unwrap();
    assert_eq!(doc.page_count(), 2);
    assert_eq!(doc.page_len(0), 2);
    assert_eq!(doc.token(0, 0), "first");
    assert_eq!(doc.token(0, 1), "page");
    assert_eq!(doc.page_len(1), 1);
    assert_eq!(doc.token(1, 0), "second");
}

#[test]
fn build_document_succeeds_when_one_page_has_a_token() {
    let raws = vec![" ".to_string(), "word".to_string(), "".to_string()];
    assert!(build_document(&raws).is_ok());
}

#[test]
fn build_document_fails_when_every_page_is_blank() {
    let raws = vec!["".to_string(), " \t ".to_string(), "\n\n".to_string()];
    assert_eq!(build_document(&raws).unwrap_err(), EmptyDocumentError);
}

#[test]
fn build_document_fails_on_no_pages() {
    let raws: Vec<String> = Vec::new();
    assert!(build_document(&raws).is_err());
}
