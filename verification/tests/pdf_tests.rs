use lopdf::content::{Content, Operation};
use lopdf::{Dictionary, Document, Object, Stream};
use rsvp_reader::engine::{PlaybackMode, RsvpEngine};
use rsvp_reader::pdf::PdfIngestError;

/// Builds an in-memory PDF with one page per entry of `texts`; an entry may
/// be empty, giving a page without any text.
fn pdf_bytes_with_pages(texts: &[&str]) -> Vec<u8> {
    let mut doc = Document::with_version("1.5");
    let pages_id = doc.new_object_id();

    let mut font = Dictionary::new();
    font.set("Type", "Font");
    font.set("Subtype", "Type1");
    font.set("BaseFont", "Courier");
    let font_id = doc.add_object(font);

    let mut fonts = Dictionary::new();
    fonts.set("F1", font_id);
    let mut resources = Dictionary::new();
    resources.set("Font", fonts);
    let resources_id = doc.add_object(resources);

    let mut kids: Vec<Object> = Vec::new();
    for text in texts {
        let mut operations = vec![Operation::new("BT", vec![])];
        if !text.is_empty() {
            operations.push(Operation::new("Tf", vec!["F1".into(), 24.into()]));
            operations.push(Operation::new("Td", vec![100.into(), 600.into()]));
            operations.push(Operation::new("Tj", vec![Object::string_literal(*text)]));
        }
        operations.push(Operation::new("ET", vec![]));
        let content = Content { operations };
        let content_id = doc.add_object(Stream::new(Dictionary::new(), content.encode().unwrap()));

        let mut page = Dictionary::new();
        page.set("Type", "Page");
        page.set("Parent", pages_id);
        page.set("Contents", content_id);
        let page_id = doc.add_object(page);
        kids.push(page_id.into());
    }

    let mut pages = Dictionary::new();
    pages.set("Type", "Pages");
    pages.set("Count", kids.len() as i64);
    pages.set("Kids", kids);
    pages.set("Resources", resources_id);
    pages.set(
        "MediaBox",
        vec![0.into(), 0.into(), 595.into(), 842.into()],
    );
    doc.objects.insert(pages_id, Object::Dictionary(pages));

    let mut catalog = Dictionary::new();
    catalog.set("Type", "Catalog");
    catalog.set("Pages", pages_id);
    let catalog_id = doc.add_object(catalog);
    doc.trailer.set("Root", catalog_id);

    let mut bytes: Vec<u8> = Vec::new();
    doc.save_to(&mut bytes).unwrap();
    bytes
}

#[test]
fn ingest_pdf_reads_words_in_page_order() {
    let bytes = pdf_bytes_with_pages(&["alpha beta", "gamma"]);
    let mut engine = RsvpEngine::new();
    engine.ingest_pdf(&bytes).unwrap();
    assert_eq!(engine.mode(), PlaybackMode::Playing);
    assert_eq!(engine.page_count(), 2);
    assert_eq!(engine.current_page_index(), 0);
    assert_eq!(engine.tick(200).unwrap().text, "alpha");
    assert_eq!(engine.tick(200).unwrap().text, "beta");
    assert_eq!(engine.tick(200).unwrap().text, "gamma");
    assert_eq!(engine.current_page_index(), 1);
}

#[test]
fn ingest_pdf_skips_blank_pages() {
    let bytes = pdf_bytes_with_pages(&["", "only words here"]);
    let mut engine = RsvpEngine::new();
    engine.ingest_pdf(&bytes).unwrap();
    assert_eq!(engine.page_count(), 1);
    assert_eq!(engine.tick(200).unwrap().text, "only");
}

#[test]
fn ingest_pdf_rejects_unparsable_bytes() {
    let mut engine = RsvpEngine::new();
    let before_pages = engine.page_count();
    let err = engine.ingest_pdf(b"this is not a pdf at all").unwrap_err();
    assert_eq!(err, PdfIngestError::ParseFailed);
    assert_eq!(engine.mode(), PlaybackMode::Paused);
    assert_eq!(engine.page_count(), before_pages);
}

#[test]
fn ingest_pdf_rejects_pdf_without_text() {
    let bytes = pdf_bytes_with_pages(&["", ""]);
    let mut engine = RsvpEngine::new();
    let err = engine.ingest_pdf(&bytes).unwrap_err();
    assert_eq!(err, PdfIngestError::EmptyDocument);
    // the placeholder document is untouched
    assert_eq!(engine.mode(), PlaybackMode::Paused);
    assert_eq!(engine.page_count(), 1);
}
