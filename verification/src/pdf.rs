//! Bringing a PDF into the engine.
//!
//! The binary document format is entirely the lopdf crate's concern: this
//! module trusts lopdf at its interface — parse bytes, list pages, extract a
//! page's text — and verifies the logic around those calls: every page's
//! text is gathered in page order, pages that fail extraction are skipped,
//! and the engine is replaced atomically or not at all.

use vstd::prelude::*;
use crate::document::doc_pages_of;
use crate::engine::RsvpEngine;

verus! {

#[verifier::external_type_specification]
#[verifier::external_body]
pub struct ExPdfDocument(lopdf::Document);

#[verifier::external_type_specification]
#[verifier::external_body]
pub struct ExPdfError(lopdf::Error);

/// The page numbers of a parsed PDF, in the order its page map yields them.
pub uninterp spec fn pdf_page_numbers(d: lopdf::Document) -> Seq<u32>;

/// The text lopdf extracts for one page of a parsed document, or `None` when
/// extraction of that page fails. The outcome is a function of the parsed
/// document and the page number alone.
pub uninterp spec fn pdf_page_text(d: lopdf::Document, page_no: u32) -> Option<Seq<char>>;

/// Whether a byte buffer loads as a PDF. Lenient loading either fails in
/// its sequential header / cross-reference / encryption stages — the same
/// way on every call with the same bytes — or returns a document. Only that
/// success is named: *which* document comes back is not a function of the
/// bytes alone (on a malformed buffer that carries an object id twice in
/// different object streams, the parallel object load keeps whichever copy
/// a worker appended first), so nothing is named of the document's
/// contents.
pub uninterp spec fn pdf_loads(bytes: Seq<u8>) -> bool;

/// Relies on `lopdf::Document::load_mem`: in its default lenient mode every
/// per-object failure during the object load is skipped, so whether the
/// load succeeds at all is decided deterministically in the sequential
/// stages before it — named `pdf_loads`. Of the returned document itself
/// nothing is assumed.
#[verifier::external_body]
fn load_pdf(bytes: &[u8]) -> (r: Result<lopdf::Document, lopdf::Error>)
    ensures
        r is Ok <==> pdf_loads(bytes@),
{
    lopdf::Document::load_mem(bytes)
}

/// Relies on `lopdf::Document::get_pages`: a `BTreeMap` keyed by page
/// number, built with keys 1, 2, … in page-tree order, whose `keys` iterate
/// in ascending order.
#[verifier::external_body]
fn pdf_pages_list(d: &lopdf::Document) -> (r: Vec<u32>)
    ensures
        r@ == pdf_page_numbers(*d),
        forall|i: int, j: int| 0 <= i < j < r@.len() ==> r@[i] < r@[j],
{
    d.get_pages().keys().cloned().collect()
}

/// Relies on `lopdf::Document::extract_text`: the extracted text of one page
/// is a function of the parsed document and the page number alone.
#[verifier::external_body]
fn pdf_extract_text(d: &lopdf::Document, page_no: u32) -> (r: Result<String, lopdf::Error>)
    ensures
        r matches Ok(t) ==> pdf_page_text(*d, page_no) == Some(t@),
        r matches Err(_) ==> pdf_page_text(*d, page_no) is None,
{
    d.extract_text(&[page_no])
}

/// The page texts of `d` whose extraction succeeds, for the page numbers
/// `nums`, in order.
pub open spec fn extracted_texts(d: lopdf::Document, nums: Seq<u32>) -> Seq<Seq<char>>
    decreases nums.len(),
{
    if nums.len() == 0 {
        Seq::empty()
    } else {
        let rest = extracted_texts(d, nums.drop_last());
        match pdf_page_text(d, nums.last()) {
            Some(t) => rest.push(t),
            None => rest,
        }
    }
}

/// Extracts the text of every page of a parsed PDF, in page order, skipping
/// pages whose extraction fails.
pub fn extract_page_texts(d: &lopdf::Document) -> (r: Vec<String>)
    ensures
        r.deep_view() == extracted_texts(*d, pdf_page_numbers(*d)),
{
    let nums = pdf_pages_list(d);
    let mut out: Vec<String> = Vec::new();
    let n = nums.len();
    proof {
        assert(out.deep_view() =~= extracted_texts(*d, nums@.take(0)));
    }
    for i in 0..n
        invariant
            n == nums@.len(),
            nums@ == pdf_page_numbers(*d),
            out.deep_view() == extracted_texts(*d, nums@.take(i as int)),
    {
        let r = pdf_extract_text(d, nums[i]);
        let ghost prev = out.deep_view();
        match r {
            Ok(t) => {
                let ghost tv = t@;
                out.push(t);
                proof {
                    assert(out.deep_view() =~= prev.push(tv));
                }
            },
            Err(_) => {},
        }
        proof {
            assert(nums@.take(i + 1).drop_last() =~= nums@.take(i as int));
            assert(nums@.take(i + 1).last() == nums@[i as int]);
        }
    }
    proof {
        assert(nums@.take(n as int) =~= nums@);
    }
    out
}

/// Why PDF ingestion was rejected: the bytes are not a loadable PDF, or the
/// loaded document has no extractable text on any page. Either way the
/// previous engine state is untouched.
#[derive(Clone, Copy, Debug, PartialEq, Eq, Structural)]
pub enum PdfIngestError {
    ParseFailed,
    EmptyDocument,
}

impl RsvpEngine {
    /// Parses PDF bytes, extracts each page's text in page order and ingests
    /// the result. Bytes that do not load as a PDF are rejected with
    /// `ParseFailed`, exactly those. Bytes that load yield a document, and
    /// that document — the one this call loaded — decides the rest: if its
    /// extracted pages hold any token, the engine holds them, tokenized,
    /// with the cursor at the start, playing, and the pacing parameters, the
    /// clock's accumulated progress and the shown text persisting; if not,
    /// `EmptyDocument`. On either error the engine is left completely
    /// untouched.
    pub fn ingest_pdf(&mut self, bytes: &[u8]) -> (r: Result<(), PdfIngestError>)
        requires
            old(self).wf(),
        ensures
            final(self).wf(),
            r is Err ==> *final(self) == *old(self),
            r matches Err(PdfIngestError::ParseFailed) <==> !pdf_loads(bytes@),
            r is Ok ==> final(self)@.playing && final(self)@.page == 0 && final(self)@.word == 0
                && final(self)@.acc == old(self)@.acc && final(self)@.wpm == old(self)@.wpm
                && final(self)@.chunk == old(self)@.chunk
                && final(self)@.shown == old(self)@.shown,
            pdf_loads(bytes@) ==> (exists|d: lopdf::Document|
                {
                    &&& (r is Ok <==> doc_pages_of(
                        #[trigger] extracted_texts(d, pdf_page_numbers(d)),
                    ).len() > 0)
                    &&& (r is Ok ==> final(self)@.pages == doc_pages_of(
                        extracted_texts(d, pdf_page_numbers(d)),
                    ))
                }),
    {
        match load_pdf(bytes) {
            Err(_) => Err(PdfIngestError::ParseFailed),
            Ok(doc) => {
                let r2 = match self.ingest(&extract_page_texts(&doc)) {
                    Ok(_) => Ok(()),
                    Err(_) => Err(PdfIngestError::EmptyDocument),
                };
                proof {
                    let ts = extracted_texts(doc, pdf_page_numbers(doc));
                    assert((r2 is Ok <==> doc_pages_of(ts).len() > 0) && (r2 is Ok ==> self@.pages
                        == doc_pages_of(ts)));
                }
                r2
            },
        }
    }
}

} // verus!
