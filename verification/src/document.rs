//! The document model: an ordered, non-empty collection of pages, each an
//! ordered, non-empty sequence of tokens.

use vstd::prelude::*;
use crate::tokenizer::{tokenize, tokens_of};

verus! {

/// Ingestion found no extractable text on any page.
#[derive(Clone, Copy, Debug, PartialEq, Eq, Structural)]
pub struct EmptyDocumentError;

/// The pages a raw page sequence yields: each page tokenized, pages whose
/// token sequence is empty discarded, original relative order kept.
pub open spec fn doc_pages_of(raws: Seq<Seq<char>>) -> Seq<Seq<Seq<char>>>
    decreases raws.len(),
{
    if raws.len() == 0 {
        Seq::empty()
    } else {
        let rest = doc_pages_of(raws.drop_last());
        if tokens_of(raws.last()).len() > 0 {
            rest.push(tokens_of(raws.last()))
        } else {
            rest
        }
    }
}

/// Law: building from raw pages yields at least one page exactly when some
/// raw page holds at least one token.
pub proof fn lemma_doc_pages_nonempty(raws: Seq<Seq<char>>)
    ensures
        doc_pages_of(raws).len() > 0 <==> exists|i: int|
            0 <= i < raws.len() && tokens_of(#[trigger] raws[i]).len() > 0,
    decreases raws.len(),
{
    if raws.len() > 0 {
        lemma_doc_pages_nonempty(raws.drop_last());
        if tokens_of(raws.last()).len() > 0 {
            assert(tokens_of(raws[raws.len() - 1]).len() > 0);
        } else if doc_pages_of(raws.drop_last()).len() > 0 {
            let i = choose|i: int|
                0 <= i < raws.drop_last().len() && tokens_of(
                    #[trigger] raws.drop_last()[i],
                ).len() > 0;
            assert(tokens_of(raws[i]).len() > 0);
        } else {
            assert forall|i: int| 0 <= i < raws.len() implies tokens_of(
                #[trigger] raws[i],
            ).len() == 0 by {
                if i < raws.len() - 1 {
                    assert(raws.drop_last()[i] == raws[i]);
                }
            }
        }
    }
}

/// Every page a raw page sequence yields is non-empty.
pub proof fn lemma_doc_pages_wf(raws: Seq<Seq<char>>)
    ensures
        forall|i: int|
            0 <= i < doc_pages_of(raws).len() ==> (#[trigger] doc_pages_of(raws)[i]).len() > 0,
    decreases raws.len(),
{
    if raws.len() > 0 {
        lemma_doc_pages_wf(raws.drop_last());
        let rest = doc_pages_of(raws.drop_last());
        if tokens_of(raws.last()).len() > 0 {
            assert forall|i: int| 0 <= i < doc_pages_of(raws).len() implies (
            #[trigger] doc_pages_of(raws)[i]).len() > 0 by {
                if i < rest.len() {
                    assert(doc_pages_of(raws)[i] == rest[i]);
                } else {
                    assert(doc_pages_of(raws)[i] == tokens_of(raws.last()));
                }
            }
        }
    }
}

/// An ordered, non-empty sequence of non-empty pages of tokens.
#[derive(Debug)]
pub struct TextDocument {
    pages: Vec<Vec<String>>,
}

impl View for TextDocument {
    type V = Seq<Seq<Seq<char>>>;

    closed spec fn view(&self) -> Seq<Seq<Seq<char>>> {
        self.pages.deep_view()
    }
}

impl TextDocument {
    /// The document invariant: at least one page, and no empty page.
    pub open spec fn wf(&self) -> bool {
        &&& self@.len() > 0
        &&& forall|i: int| 0 <= i < self@.len() ==> (#[trigger] self@[i]).len() > 0
    }

    /// Wraps already-tokenized pages; every page must hold a token.
    pub(crate) fn from_pages(pages: Vec<Vec<String>>) -> (r: TextDocument)
        requires
            pages@.len() > 0,
            forall|i: int| 0 <= i < pages@.len() ==> (#[trigger] pages@[i])@.len() > 0,
        ensures
            r@ == pages.deep_view(),
            r.wf(),
    {
        proof {
            assert(pages.deep_view().len() == pages@.len());
            assert forall|i: int| 0 <= i < pages.deep_view().len() implies (
            #[trigger] pages.deep_view()[i]).len() > 0 by {
                assert(pages.deep_view()[i].len() == pages@[i]@.len());
            }
        }
        TextDocument { pages }
    }

    /// How many pages the document holds.
    pub fn page_count(&self) -> (r: usize)
        ensures
            r == self@.len(),
    {
        proof {
            assert(self.pages.deep_view().len() == self.pages@.len());
        }
        self.pages.len()
    }

    /// How many tokens stand on page `p`.
    pub fn page_len(&self, p: usize) -> (r: usize)
        requires
            p < self@.len(),
        ensures
            r == self@[p as int].len(),
    {
        proof {
            assert(self.pages.deep_view().len() == self.pages@.len());
            assert(self.pages@[p as int].deep_view().len() == self.pages@[p as int]@.len());
        }
        self.pages[p].len()
    }

    /// The token at position `w` of page `p`.
    pub fn token(&self, p: usize, w: usize) -> (r: &String)
        requires
            p < self@.len(),
            w < self@[p as int].len(),
        ensures
            r@ == self@[p as int][w as int],
    {
        proof {
            assert(self.pages.deep_view().len() == self.pages@.len());
            assert(self.pages@[p as int].deep_view().len() == self.pages@[p as int]@.len());
        }
        &self.pages[p][w]
    }
}

/// Tokenizes each raw page in order, discards pages without tokens, and
/// returns the surviving pages in their original relative order; fails with
/// `EmptyDocumentError` exactly when no raw page holds any token.
pub fn build_document(pages_raw: &Vec<String>) -> (r: Result<TextDocument, EmptyDocumentError>)
    ensures
        match r {
            Ok(doc) => {
                &&& doc@ == doc_pages_of(pages_raw.deep_view())
                &&& doc.wf()
            },
            Err(_) => doc_pages_of(pages_raw.deep_view()).len() == 0,
        },
        r is Ok <==> exists|i: int|
            0 <= i < pages_raw@.len() && tokens_of(#[trigger] pages_raw.deep_view()[i]).len() > 0,
{
    let mut pages: Vec<Vec<String>> = Vec::new();
    let n = pages_raw.len();
    proof {
        assert(pages_raw.deep_view().len() == pages_raw@.len());
    }
    for i in 0..n
        invariant
            n == pages_raw@.len(),
            pages_raw.deep_view().len() == n,
            pages.deep_view() == doc_pages_of(pages_raw.deep_view().take(i as int)),
    {
        let ghost raws = pages_raw.deep_view();
        proof {
            assert(raws[i as int] == pages_raw@[i as int]@);
        }
        let toks = tokenize(pages_raw[i].as_str());
        if toks.len() > 0 {
            proof {
                assert(toks.deep_view().len() == toks@.len());
            }
            pages.push(toks);
            proof {
                assert(pages.deep_view() =~= doc_pages_of(raws.take(i as int)).push(
                    tokens_of(raws[i as int]),
                ));
            }
        }
        proof {
            assert(raws.take(i + 1).drop_last() =~= raws.take(i as int));
            assert(raws.take(i + 1).last() == raws[i as int]);
        }
    }
    proof {
        assert(pages_raw.deep_view().take(n as int) =~= pages_raw.deep_view());
        lemma_doc_pages_nonempty(pages_raw.deep_view());
        lemma_doc_pages_wf(pages_raw.deep_view());
    }
    if pages.len() == 0 {
        Err(EmptyDocumentError)
    } else {
        proof {
            assert(pages.deep_view().len() == pages@.len());
        }
        Ok(TextDocument { pages })
    }
}

} // verus!
