//! The reader state machine: owns the document, the cursor, the playback
//! mode and the pacing state, and decides on each time advancement whether a
//! new chunk is revealed, the cursor moves on, the next page begins, or the
//! end of the document pauses playback.
//!
//! Every operation is specified against [`EngineModel`], a mathematical model
//! of the whole engine state, through the spec transition function
//! [`tick_next`] and the output function [`tick_out`].

use vstd::prelude::*;
use crate::document::{build_document, doc_pages_of, EmptyDocumentError, TextDocument};
use crate::pacing::{
    compute_interval_ms, interval_ms_of, sat_add_u64, InvalidParameterError, PacingClock,
    PacingConfig,
};
use crate::tokenizer::{push_char, push_str};

verus! {

/// A seek target outside the document's page range was rejected.
#[derive(Clone, Copy, Debug, PartialEq, Eq, Structural)]
pub struct OutOfRangeError;

/// Whether the engine is advancing through the document or standing still.
#[derive(Clone, Copy, Debug, PartialEq, Eq, Structural)]
pub enum PlaybackMode {
    Playing,
    Paused,
}

/// The group of consecutive tokens revealed together at one pacing interval.
#[derive(Clone, Debug)]
pub struct DisplayChunk {
    pub text: String,
}

/// The mathematical model of the engine state: the tokenized pages, the
/// cursor, the playback flag, the pacing parameters, the clock accumulator
/// and the text currently on display.
#[verifier::ext_equal]
pub struct EngineModel {
    pub pages: Seq<Seq<Seq<char>>>,
    pub page: int,
    pub word: int,
    pub playing: bool,
    pub wpm: int,
    pub chunk: int,
    pub acc: int,
    pub shown: Seq<char>,
}

/// Validity of a model: a non-empty document of non-empty pages, a cursor
/// inside it (`word == page length` is the transient page-exhausted state),
/// and pacing parameters in their machine ranges.
pub open spec fn model_wf(m: EngineModel) -> bool {
    &&& m.pages.len() > 0
    &&& forall|i: int| 0 <= i < m.pages.len() ==> (#[trigger] m.pages[i]).len() > 0
    &&& 0 <= m.page < m.pages.len()
    &&& 0 <= m.word <= m.pages[m.page].len()
    &&& 1 <= m.wpm <= u32::MAX
    &&& 1 <= m.chunk <= u32::MAX
    &&& 0 <= m.acc <= u64::MAX
}

/// Where a chunk that starts at `word` ends: `chunk_size` tokens further,
/// but never past the end of the page.
pub open spec fn chunk_end(word: int, chunk: int, page_len: int) -> int {
    if word + chunk < page_len {
        word + chunk
    } else {
        page_len
    }
}

/// The tokens of one chunk joined by single spaces.
pub open spec fn join_words(ws: Seq<Seq<char>>) -> Seq<char>
    decreases ws.len(),
{
    if ws.len() == 0 {
        Seq::empty()
    } else if ws.len() == 1 {
        ws[0]
    } else {
        join_words(ws.drop_last()) + seq![' '] + ws.last()
    }
}

/// The text revealed by one cursor advancement, if any: the next chunk of the
/// current page; the first chunk of the next page when the current page is
/// exhausted; nothing at the end of the document.
pub open spec fn step_emit(m: EngineModel) -> Option<Seq<char>> {
    let pl = m.pages[m.page].len() as int;
    if m.word < pl {
        Some(join_words(m.pages[m.page].subrange(m.word, chunk_end(m.word, m.chunk, pl))))
    } else if m.page + 1 < m.pages.len() {
        let pl2 = m.pages[m.page + 1].len() as int;
        Some(join_words(m.pages[m.page + 1].subrange(0, chunk_end(0, m.chunk, pl2))))
    } else {
        None
    }
}

/// One cursor advancement: move past the revealed chunk, roll to the next
/// page when the current one is exhausted, or pause at the end of the
/// document.
pub open spec fn step_cursor(m: EngineModel) -> EngineModel {
    let pl = m.pages[m.page].len() as int;
    if m.word < pl {
        EngineModel {
            word: chunk_end(m.word, m.chunk, pl),
            shown: join_words(m.pages[m.page].subrange(m.word, chunk_end(m.word, m.chunk, pl))),
            ..m
        }
    } else if m.page + 1 < m.pages.len() {
        let pl2 = m.pages[m.page + 1].len() as int;
        EngineModel {
            page: m.page + 1,
            word: chunk_end(0, m.chunk, pl2),
            shown: join_words(m.pages[m.page + 1].subrange(0, chunk_end(0, m.chunk, pl2))),
            ..m
        }
    } else {
        EngineModel { playing: false, ..m }
    }
}

/// How many whole intervals the clock consumes when `e` more milliseconds
/// arrive in state `m`.
pub open spec fn fired_count(m: EngineModel, e: int) -> int {
    sat_add_u64(m.acc, e) / interval_ms_of(m.wpm, m.chunk)
}

/// The state after one `tick` with `e` elapsed milliseconds: paused engines
/// ignore time entirely; otherwise the clock accumulates, and one cursor
/// advancement happens if at least one interval was consumed — one, however
/// many intervals have elapsed, so irregular frames never skip chunks.
pub open spec fn tick_next(m: EngineModel, e: int) -> EngineModel {
    if !m.playing {
        m
    } else {
        let ivl = interval_ms_of(m.wpm, m.chunk);
        let total = sat_add_u64(m.acc, e);
        let m2 = EngineModel { acc: total % ivl, ..m };
        if total / ivl == 0 {
            m2
        } else {
            step_cursor(m2)
        }
    }
}

/// What one `tick` with `e` elapsed milliseconds returns.
pub open spec fn tick_out(m: EngineModel, e: int) -> Option<Seq<char>> {
    if !m.playing {
        None
    } else if fired_count(m, e) == 0 {
        None
    } else {
        step_emit(m)
    }
}

/// The placeholder page every fresh engine starts with.
pub open spec fn placeholder_page() -> Seq<Seq<char>> {
    seq!["Upload"@, "a"@, "document"@, "to"@, "begin."@]
}

/// The state of a fresh engine: the placeholder document, cursor at the
/// start, paused, 300 words per minute, one word per chunk, nothing shown.
pub open spec fn initial_model() -> EngineModel {
    EngineModel {
        pages: seq![placeholder_page()],
        page: 0,
        word: 0,
        playing: false,
        wpm: 300,
        chunk: 1,
        acc: 0,
        shown: Seq::empty(),
    }
}

/// The fraction of the current page already revealed, in permille of the
/// page length, clamped to 1000.
pub open spec fn progress_permille_of(m: EngineModel) -> int {
    let len = m.pages[m.page].len() as int;
    if len < 1 || m.word >= len {
        1000
    } else {
        m.word * 1000 / len
    }
}

/// The reader state machine.
pub struct RsvpEngine {
    doc: TextDocument,
    page_index: usize,
    word_index: usize,
    mode: PlaybackMode,
    config: PacingConfig,
    clock: PacingClock,
    shown: String,
}

impl View for RsvpEngine {
    type V = EngineModel;

    closed spec fn view(&self) -> EngineModel {
        EngineModel {
            pages: self.doc@,
            page: self.page_index as int,
            word: self.word_index as int,
            playing: self.mode is Playing,
            wpm: self.config.words_per_minute as int,
            chunk: self.config.chunk_size as int,
            acc: self.clock.accumulated_ms as int,
            shown: self.shown@,
        }
    }
}

impl Default for RsvpEngine {
    /// The same state as [`RsvpEngine::new`].
    fn default() -> (r: RsvpEngine)
        ensures
            r.wf(),
            r@ == initial_model(),
    {
        RsvpEngine::new()
    }
}

impl RsvpEngine {
    /// The engine invariant, stated over the model.
    pub open spec fn wf(&self) -> bool {
        model_wf(self@)
    }

    /// A fresh engine: the placeholder document, paused, at the default rate
    /// of 300 words per minute, one word per chunk.
    pub fn new() -> (r: RsvpEngine)
        ensures
            r.wf(),
            r@ == initial_model(),
    {
        let mut words: Vec<String> = Vec::new();
        words.push("Upload".to_owned());
        words.push("a".to_owned());
        words.push("document".to_owned());
        words.push("to".to_owned());
        words.push("begin.".to_owned());
        let mut pages: Vec<Vec<String>> = Vec::new();
        proof {
            assert(words.deep_view() =~= placeholder_page());
        }
        pages.push(words);
        proof {
            assert(pages.deep_view() =~= seq![placeholder_page()]);
        }
        let doc = TextDocument::from_pages(pages);
        let r = RsvpEngine {
            doc,
            page_index: 0,
            word_index: 0,
            mode: PlaybackMode::Paused,
            config: PacingConfig { words_per_minute: 300, chunk_size: 1 },
            clock: PacingClock::new(),
            shown: String::new(),
        };
        proof {
            assert(r@ =~= initial_model());
        }
        r
    }

    /// Reveals the chunk that starts at the cursor on the current page and
    /// moves the cursor past it.
    fn emit_chunk(&mut self) -> (c: DisplayChunk)
        requires
            old(self).wf(),
            old(self)@.word < old(self)@.pages[old(self)@.page].len(),
        ensures
            final(self).wf(),
            final(self)@ == (EngineModel {
                word: chunk_end(
                    old(self)@.word,
                    old(self)@.chunk,
                    old(self)@.pages[old(self)@.page].len() as int,
                ),
                shown: join_words(
                    old(self)@.pages[old(self)@.page].subrange(
                        old(self)@.word,
                        chunk_end(
                            old(self)@.word,
                            old(self)@.chunk,
                            old(self)@.pages[old(self)@.page].len() as int,
                        ),
                    ),
                ),
                ..old(self)@
            }),
            c.text@ == final(self)@.shown,
    {
        let ghost m = self@;
        let page_len = self.doc.page_len(self.page_index);
        let chunk = self.config.chunk_size as usize;
        let remaining = page_len - self.word_index;
        let end = if chunk < remaining {
            self.word_index + chunk
        } else {
            page_len
        };
        let ghost spec_end = chunk_end(m.word, m.chunk, m.pages[m.page].len() as int);
        proof {
            assert(end as int == spec_end);
        }
        let mut text = String::new();
        let start = self.word_index;
        let mut w = start;
        proof {
            assert(m.pages[m.page].subrange(start as int, start as int) =~= Seq::<Seq<
                char,
            >>::empty());
            assert(text@ =~= join_words(m.pages[m.page].subrange(start as int, start as int)));
        }
        while w < end
            invariant
                self@ == m,
                self.wf(),
                start == m.word,
                end as int == spec_end,
                start <= w <= end,
                end <= m.pages[m.page].len(),
                text@ == join_words(m.pages[m.page].subrange(start as int, w as int)),
            decreases end - w,
        {
            if w > start {
                push_char(&mut text, ' ');
            }
            let tok = self.doc.token(self.page_index, w);
            push_str(&mut text, tok.as_str());
            proof {
                let sub1 = m.pages[m.page].subrange(start as int, w + 1);
                assert(sub1.drop_last() =~= m.pages[m.page].subrange(start as int, w as int));
                assert(sub1.last() == m.pages[m.page][w as int]);
                if w > start {
                    assert(join_words(sub1) == join_words(sub1.drop_last()) + seq![' ']
                        + sub1.last());
                    assert(text@ =~= join_words(sub1));
                } else {
                    assert(sub1.len() == 1);
                    assert(join_words(sub1) == sub1[0]);
                    assert(text@ =~= join_words(sub1));
                }
            }
            w = w + 1;
        }
        self.word_index = end;
        self.shown = text.clone();
        proof {
            assert(self@ =~= (EngineModel {
                word: spec_end,
                shown: join_words(m.pages[m.page].subrange(m.word, spec_end)),
                ..m
            }));
        }
        DisplayChunk { text }
    }

    /// The per-frame operation: accumulates `elapsed_ms` against the pacing
    /// interval and, when at least one interval has been consumed, advances
    /// the cursor by exactly one chunk and returns its text. Paused engines
    /// return `None` and accumulate nothing. A page boundary rolls to the
    /// next page within the same call; the end of the document pauses
    /// playback.
    pub fn tick(&mut self, elapsed_ms: u64) -> (r: Option<DisplayChunk>)
        requires
            old(self).wf(),
        ensures
            final(self).wf(),
            final(self)@ == tick_next(old(self)@, elapsed_ms as int),
            match r {
                Some(c) => tick_out(old(self)@, elapsed_ms as int) == Some(c.text@),
                None => tick_out(old(self)@, elapsed_ms as int) is None,
            },
    {
        let ghost m0 = self@;
        match self.mode {
            PlaybackMode::Paused => {
                return None;
            },
            PlaybackMode::Playing => {},
        }
        let interval = compute_interval_ms(&self.config);
        let fired = self.clock.advance(elapsed_ms, interval);
        let ghost m2 = EngineModel {
            acc: sat_add_u64(m0.acc, elapsed_ms as int) % interval_ms_of(m0.wpm, m0.chunk),
            ..m0
        };
        proof {
            assert(self@ =~= m2);
        }
        if fired == 0 {
            return None;
        }
        let page_len = self.doc.page_len(self.page_index);
        if self.word_index < page_len {
            let c = self.emit_chunk();
            proof {
                assert(self@ =~= step_cursor(m2));
                assert(step_emit(m0) == step_emit(m2));
            }
            Some(c)
        } else if self.page_index < self.doc.page_count() - 1 {
            self.page_index = self.page_index + 1;
            self.word_index = 0;
            let ghost m3 = self@;
            proof {
                assert(m3 =~= (EngineModel { page: m2.page + 1, word: 0, ..m2 }));
            }
            let c = self.emit_chunk();
            proof {
                assert(self@ =~= step_cursor(m2));
                assert(step_emit(m0) == step_emit(m2));
            }
            Some(c)
        } else {
            self.mode = PlaybackMode::Paused;
            proof {
                assert(self@ =~= step_cursor(m2));
                assert(step_emit(m0) == step_emit(m2));
            }
            None
        }
    }

    /// Switches between `Playing` and `Paused`; nothing else changes.
    pub fn toggle_play_pause(&mut self)
        requires
            old(self).wf(),
        ensures
            final(self).wf(),
            final(self)@ == (EngineModel { playing: !old(self)@.playing, ..old(self)@ }),
    {
        self.mode = match self.mode {
            PlaybackMode::Playing => PlaybackMode::Paused,
            PlaybackMode::Paused => PlaybackMode::Playing,
        };
    }

    /// Moves the cursor to the start of page `page_index`, in either mode and
    /// without changing the mode; a target outside the document is rejected
    /// and changes nothing.
    pub fn seek_to_page(&mut self, page_index: usize) -> (r: Result<(), OutOfRangeError>)
        requires
            old(self).wf(),
        ensures
            final(self).wf(),
            page_index < old(self)@.pages.len() ==> r is Ok && final(self)@ == (EngineModel {
                page: page_index as int,
                word: 0,
                ..old(self)@
            }),
            page_index >= old(self)@.pages.len() ==> r is Err && *final(self) == *old(self),
    {
        if page_index < self.doc.page_count() {
            self.page_index = page_index;
            self.word_index = 0;
            Ok(())
        } else {
            Err(OutOfRangeError)
        }
    }

    /// Updates the pacing parameters; already-accumulated clock progress is
    /// kept, so the next `tick` consumes every interval that now fits. A zero
    /// rate or chunk size is rejected and changes nothing.
    pub fn set_pacing(&mut self, wpm: u32, chunk_size: u32) -> (r: Result<(), InvalidParameterError>)
        requires
            old(self).wf(),
        ensures
            final(self).wf(),
            wpm == 0 || chunk_size == 0 ==> r is Err && *final(self) == *old(self),
            wpm > 0 && chunk_size > 0 ==> r is Ok && final(self)@ == (EngineModel {
                wpm: wpm as int,
                chunk: chunk_size as int,
                ..old(self)@
            }),
    {
        if wpm == 0 || chunk_size == 0 {
            Err(InvalidParameterError)
        } else {
            self.config = PacingConfig { words_per_minute: wpm, chunk_size };
            Ok(())
        }
    }

    /// Replaces the document wholesale with one built from the raw pages,
    /// resets the cursor to the start and starts playback; every other field
    /// — the pacing parameters, the clock's accumulated progress and the
    /// shown text — persists across the replacement. When no raw page has
    /// any token the previous state is left completely untouched and the
    /// error is surfaced.
    pub fn ingest(&mut self, pages_raw: &Vec<String>) -> (r: Result<(), EmptyDocumentError>)
        requires
            old(self).wf(),
        ensures
            final(self).wf(),
            match r {
                Ok(_) => final(self)@ == (EngineModel {
                    pages: doc_pages_of(pages_raw.deep_view()),
                    page: 0,
                    word: 0,
                    playing: true,
                    ..old(self)@
                }),
                Err(_) => *final(self) == *old(self) && doc_pages_of(
                    pages_raw.deep_view(),
                ).len() == 0,
            },
    {
        match build_document(pages_raw) {
            Ok(doc) => {
                self.doc = doc;
                self.page_index = 0;
                self.word_index = 0;
                self.mode = PlaybackMode::Playing;
                Ok(())
            },
            Err(e) => Err(e),
        }
    }

    /// The current playback mode.
    pub fn mode(&self) -> (r: PlaybackMode)
        ensures
            (r is Playing) == self@.playing,
    {
        self.mode
    }

    /// The current page index.
    pub fn current_page_index(&self) -> (r: usize)
        ensures
            r == self@.page,
    {
        self.page_index
    }

    /// The number of pages in the current document.
    pub fn page_count(&self) -> (r: usize)
        requires
            self.wf(),
        ensures
            r == self@.pages.len(),
    {
        self.doc.page_count()
    }

    /// The text of the chunk currently on display; empty before the first
    /// reveal.
    pub fn current_chunk_text(&self) -> (r: &String)
        ensures
            r@ == self@.shown,
    {
        &self.shown
    }

    /// How far through the current page the cursor stands, in permille.
    pub fn progress_permille(&self) -> (r: u32)
        requires
            self.wf(),
        ensures
            r == progress_permille_of(self@),
            r <= 1000,
    {
        let len = self.doc.page_len(self.page_index);
        if self.word_index >= len {
            1000
        } else {
            let num = (self.word_index as u128) * 1000;
            let q = num / (len as u128);
            proof {
                assert(self@.word * 1000 / (self@.pages[self@.page].len() as int) < 1000
                    && self@.word * 1000 / (self@.pages[self@.page].len() as int) >= 0) by (nonlinear_arith)
                    requires
                        0 <= self@.word < self@.pages[self@.page].len(),
                ;
            }
            q as u32
        }
    }
}

} // verus!
