//! Laws of the reader state machine, proved over the engine model: how a
//! whole run of ticks behaves, not just a single call.

use vstd::prelude::*;
use crate::engine::{
    chunk_end, join_words, model_wf, step_cursor, tick_next, tick_out, EngineModel,
};
use crate::pacing::{interval_ms_of, sat_add_u64};

verus! {

/// The sum of a sequence of elapsed durations.
pub open spec fn sum_of(es: Seq<int>) -> int
    decreases es.len(),
{
    if es.len() == 0 {
        0
    } else {
        es[0] + sum_of(es.drop_first())
    }
}

/// The engine state after delivering the elapsed durations `es` to `tick`,
/// one call per element, in order.
pub open spec fn run_ticks(m: EngineModel, es: Seq<int>) -> EngineModel
    decreases es.len(),
{
    if es.len() == 0 {
        m
    } else {
        run_ticks(tick_next(m, es[0]), es.drop_first())
    }
}

/// How many chunks such a run reveals.
pub open spec fn chunks_emitted(m: EngineModel, es: Seq<int>) -> int
    decreases es.len(),
{
    if es.len() == 0 {
        0
    } else {
        (if tick_out(m, es[0]) is Some {
            1int
        } else {
            0int
        }) + chunks_emitted(tick_next(m, es[0]), es.drop_first())
    }
}

/// The texts such a run reveals, in order.
pub open spec fn emitted_texts(m: EngineModel, es: Seq<int>) -> Seq<Seq<char>>
    decreases es.len(),
{
    if es.len() == 0 {
        Seq::empty()
    } else {
        match tick_out(m, es[0]) {
            Some(t) => seq![t] + emitted_texts(tick_next(m, es[0]), es.drop_first()),
            None => emitted_texts(tick_next(m, es[0]), es.drop_first()),
        }
    }
}

/// The next `n` chunks of a page read from position `word`: each chunk is
/// the following `chunk` tokens (fewer at the page's end) joined by spaces,
/// and each starts where the previous one ended.
pub open spec fn chunks_from(page: Seq<Seq<char>>, chunk: int, word: int, n: int) -> Seq<Seq<char>>
    decreases n,
{
    if n <= 0 {
        Seq::empty()
    } else {
        seq![join_words(page.subrange(word, chunk_end(word, chunk, page.len() as int)))]
            + chunks_from(page, chunk, chunk_end(word, chunk, page.len() as int), n - 1)
    }
}

/// Division rounding up.
pub open spec fn ceil_div(a: int, b: int) -> int {
    (a + b - 1) / b
}

/// The smaller of two integers.
pub open spec fn min_int(a: int, b: int) -> int {
    if a < b {
        a
    } else {
        b
    }
}

/// How many chunks are still to be revealed on the single page of `m`.
pub open spec fn remaining_chunks(m: EngineModel) -> int {
    let len = m.pages[0].len() as int;
    if m.word >= len {
        0
    } else {
        ceil_div(len - m.word, m.chunk)
    }
}

/// The next `n` chunks of a whole document read from cursor `(page, word)`:
/// the consecutive chunks of the current page, then — each page begun as
/// the previous one is exhausted — the consecutive chunks of the following
/// pages, in document order.
pub open spec fn doc_chunks_from(
    pages: Seq<Seq<Seq<char>>>,
    chunk: int,
    page: int,
    word: int,
    n: int,
) -> Seq<Seq<char>>
    decreases n,
{
    if n <= 0 {
        Seq::empty()
    } else {
        let len = pages[page].len() as int;
        if word < len {
            seq![join_words(pages[page].subrange(word, chunk_end(word, chunk, len)))]
                + doc_chunks_from(pages, chunk, page, chunk_end(word, chunk, len), n - 1)
        } else if page + 1 < pages.len() {
            let len2 = pages[page + 1].len() as int;
            seq![join_words(pages[page + 1].subrange(0, chunk_end(0, chunk, len2)))]
                + doc_chunks_from(pages, chunk, page + 1, chunk_end(0, chunk, len2), n - 1)
        } else {
            Seq::empty()
        }
    }
}

/// One tick keeps the model valid.
proof fn lemma_tick_next_wf(m: EngineModel, e: int)
    requires
        model_wf(m),
        e >= 0,
    ensures
        model_wf(tick_next(m, e)),
{
    if m.playing {
        let ivl = interval_ms_of(m.wpm, m.chunk);
        assert(1 <= ivl <= 60_000 * (u32::MAX as int)) by (nonlinear_arith)
            requires
                1 <= m.wpm <= u32::MAX,
                1 <= m.chunk <= u32::MAX,
                ivl == interval_ms_of(m.wpm, m.chunk),
        ;
        let total = sat_add_u64(m.acc, e);
        assert(0 <= total % ivl < ivl) by (nonlinear_arith)
            requires
                ivl >= 1,
                total >= 0,
        ;
    }
}

/// Law: whatever the frame cadence — frames may be short, long, or carry
/// many missed intervals — a run of ticks reveals exactly the consecutive
/// chunks of the document read on from the starting cursor, in order: no
/// chunk is ever skipped or repeated, across page boundaries included.
pub proof fn lemma_no_chunk_skipped(m: EngineModel, es: Seq<int>)
    requires
        model_wf(m),
        forall|i: int| 0 <= i < es.len() ==> #[trigger] es[i] >= 0,
    ensures
        emitted_texts(m, es) == doc_chunks_from(
            m.pages,
            m.chunk,
            m.page,
            m.word,
            chunks_emitted(m, es),
        ),
    decreases es.len(),
{
    if es.len() == 0 {
    } else {
        let e = es[0];
        let rest = es.drop_first();
        let mnext = tick_next(m, e);
        lemma_tick_next_wf(m, e);
        lemma_no_chunk_skipped(mnext, rest);
        lemma_chunks_nonneg(mnext, rest);
        let n = chunks_emitted(m, es);
        if !m.playing {
            assert(emitted_texts(m, es) == emitted_texts(m, rest));
        } else {
            let ivl = interval_ms_of(m.wpm, m.chunk);
            let total = sat_add_u64(m.acc, e);
            let m2 = EngineModel { acc: total % ivl, ..m };
            if total / ivl == 0 {
                assert(mnext == m2);
                assert(emitted_texts(m, es) == emitted_texts(m2, rest));
                assert(doc_chunks_from(m2.pages, m2.chunk, m2.page, m2.word, n)
                    == doc_chunks_from(m.pages, m.chunk, m.page, m.word, n));
            } else {
                assert(mnext == step_cursor(m2));
                let len = m.pages[m.page].len() as int;
                if m.word < len {
                    let wnext = chunk_end(m.word, m.chunk, len);
                    let t = join_words(m.pages[m.page].subrange(m.word, wnext));
                    assert(tick_out(m, e) == Some(t));
                    assert(n == 1 + chunks_emitted(mnext, rest));
                    assert(mnext.page == m.page && mnext.word == wnext);
                    assert(emitted_texts(m, es) == seq![t] + emitted_texts(mnext, rest));
                    assert(doc_chunks_from(m.pages, m.chunk, m.page, m.word, n) =~= seq![t]
                        + doc_chunks_from(m.pages, m.chunk, m.page, wnext, n - 1));
                } else if m.page + 1 < m.pages.len() {
                    let len2 = m.pages[m.page + 1].len() as int;
                    let wnext = chunk_end(0, m.chunk, len2);
                    let t = join_words(m.pages[m.page + 1].subrange(0, wnext));
                    assert(tick_out(m, e) == Some(t));
                    assert(n == 1 + chunks_emitted(mnext, rest));
                    assert(mnext.page == m.page + 1 && mnext.word == wnext);
                    assert(emitted_texts(m, es) == seq![t] + emitted_texts(mnext, rest));
                    assert(doc_chunks_from(m.pages, m.chunk, m.page, m.word, n) =~= seq![t]
                        + doc_chunks_from(m.pages, m.chunk, m.page + 1, wnext, n - 1));
                } else {
                    assert(tick_out(m, e) is None);
                    assert(!mnext.playing);
                    assert(emitted_texts(m, es) == emitted_texts(mnext, rest));
                    assert(emitted_texts(mnext, rest) =~= Seq::<Seq<char>>::empty());
                    assert(doc_chunks_from(m.pages, m.chunk, m.page, m.word, n)
                        == Seq::<Seq<char>>::empty());
                }
            }
        }
    }
}

/// Every remaining chunk of a whole document read from cursor `(page,
/// word)`: the consecutive chunks of the current page, then those of every
/// following page, to the end of the document.
pub open spec fn doc_chunks_all(
    pages: Seq<Seq<Seq<char>>>,
    chunk: int,
    page: int,
    word: int,
) -> Seq<Seq<char>>
    decreases pages.len() - page, pages[page].len() as int - word,
        when 0 <= page < pages.len() && 0 <= word && 1 <= chunk
{
    let len = pages[page].len() as int;
    if word < len {
        seq![join_words(pages[page].subrange(word, chunk_end(word, chunk, len)))]
            + doc_chunks_all(pages, chunk, page, chunk_end(word, chunk, len))
    } else if page + 1 < pages.len() {
        doc_chunks_all(pages, chunk, page + 1, 0)
    } else {
        Seq::empty()
    }
}

/// Law: a run of ticks that exhausts the document — its final state is
/// paused — has revealed every remaining chunk of the document from the
/// starting cursor, in document order, each exactly once: nothing is
/// skipped, nothing repeated, and nothing is left out.
pub proof fn lemma_exhausting_run(m: EngineModel, es: Seq<int>)
    requires
        model_wf(m),
        forall|i: int| 0 <= i < es.len() ==> #[trigger] es[i] >= 0,
        !run_ticks(m, es).playing,
    ensures
        emitted_texts(m, es) == if m.playing {
            doc_chunks_all(m.pages, m.chunk, m.page, m.word)
        } else {
            Seq::<Seq<char>>::empty()
        },
    decreases es.len(),
{
    if es.len() == 0 {
    } else {
        let e = es[0];
        let rest = es.drop_first();
        let mnext = tick_next(m, e);
        lemma_tick_next_wf(m, e);
        assert(run_ticks(m, es) == run_ticks(mnext, rest));
        lemma_exhausting_run(mnext, rest);
        if !m.playing {
            assert(emitted_texts(m, es) == emitted_texts(m, rest));
        } else {
            let ivl = interval_ms_of(m.wpm, m.chunk);
            let total = sat_add_u64(m.acc, e);
            let m2 = EngineModel { acc: total % ivl, ..m };
            if total / ivl == 0 {
                assert(mnext == m2);
                assert(emitted_texts(m, es) == emitted_texts(m2, rest));
                assert(doc_chunks_all(m2.pages, m2.chunk, m2.page, m2.word) == doc_chunks_all(
                    m.pages,
                    m.chunk,
                    m.page,
                    m.word,
                ));
            } else {
                assert(mnext == step_cursor(m2));
                let len = m.pages[m.page].len() as int;
                if m.word < len {
                    let wnext = chunk_end(m.word, m.chunk, len);
                    let t = join_words(m.pages[m.page].subrange(m.word, wnext));
                    assert(tick_out(m, e) == Some(t));
                    assert(mnext.playing && mnext.page == m.page && mnext.word == wnext);
                    assert(emitted_texts(m, es) == seq![t] + emitted_texts(mnext, rest));
                    assert(doc_chunks_all(m.pages, m.chunk, m.page, m.word) =~= seq![t]
                        + doc_chunks_all(m.pages, m.chunk, m.page, wnext));
                } else if m.page + 1 < m.pages.len() {
                    let len2 = m.pages[m.page + 1].len() as int;
                    let wnext = chunk_end(0, m.chunk, len2);
                    let t = join_words(m.pages[m.page + 1].subrange(0, wnext));
                    assert(tick_out(m, e) == Some(t));
                    assert(mnext.playing && mnext.page == m.page + 1 && mnext.word == wnext);
                    assert(emitted_texts(m, es) == seq![t] + emitted_texts(mnext, rest));
                    assert(m.pages[m.page + 1].len() > 0);
                    assert(doc_chunks_all(m.pages, m.chunk, m.page, m.word) =~= doc_chunks_all(
                        m.pages,
                        m.chunk,
                        m.page + 1,
                        0,
                    ));
                    assert(doc_chunks_all(m.pages, m.chunk, m.page + 1, 0) =~= seq![t]
                        + doc_chunks_all(m.pages, m.chunk, m.page + 1, wnext));
                } else {
                    assert(tick_out(m, e) is None);
                    assert(!mnext.playing);
                    assert(emitted_texts(m, es) == emitted_texts(mnext, rest));
                    assert(doc_chunks_all(m.pages, m.chunk, m.page, m.word)
                        == Seq::<Seq<char>>::empty());
                }
            }
        }
    }
}

/// Law: a tick delivered to a paused engine returns nothing and changes
/// nothing — in particular the cursor and the clock accumulator stand still.
pub proof fn lemma_tick_paused(m: EngineModel, e: int)
    requires
        !m.playing,
    ensures
        tick_next(m, e) == m,
        tick_out(m, e) is None,
{
}

proof fn lemma_sum_nonneg(es: Seq<int>)
    requires
        forall|i: int| 0 <= i < es.len() ==> #[trigger] es[i] >= 0,
    ensures
        sum_of(es) >= 0,
    decreases es.len(),
{
    if es.len() > 0 {
        lemma_sum_nonneg(es.drop_first());
    }
}

proof fn lemma_chunks_nonneg(m: EngineModel, es: Seq<int>)
    ensures
        chunks_emitted(m, es) >= 0,
    decreases es.len(),
{
    if es.len() > 0 {
        lemma_chunks_nonneg(tick_next(m, es[0]), es.drop_first());
    }
}

proof fn lemma_run_single_page(m: EngineModel, es: Seq<int>)
    requires
        model_wf(m),
        m.pages.len() == 1,
        m.page == 0,
        m.playing ==> m.acc < interval_ms_of(m.wpm, m.chunk),
        m.playing ==> (m.word == m.pages[0].len() || m.word % m.chunk == 0),
        forall|i: int|
            0 <= i < es.len() ==> 0 <= #[trigger] es[i] <= interval_ms_of(m.wpm, m.chunk),
    ensures
        chunks_emitted(m, es) == if !m.playing {
            0int
        } else {
            min_int((m.acc + sum_of(es)) / interval_ms_of(m.wpm, m.chunk), remaining_chunks(m))
        },
        emitted_texts(m, es) == chunks_from(m.pages[0], m.chunk, m.word, chunks_emitted(m, es)),
    decreases es.len(),
{
    let ivl = interval_ms_of(m.wpm, m.chunk);
    assert(1 <= ivl <= 60_000 * (u32::MAX as int)) by (nonlinear_arith)
        requires
            1 <= m.wpm <= u32::MAX,
            1 <= m.chunk <= u32::MAX,
            ivl == interval_ms_of(m.wpm, m.chunk),
    ;
    if es.len() == 0 {
        if m.playing {
            assert(m.acc / ivl == 0) by (nonlinear_arith)
                requires
                    0 <= m.acc < ivl,
            ;
            assert(remaining_chunks(m) >= 0) by (nonlinear_arith)
                requires
                    m.chunk >= 1,
                    remaining_chunks(m) == (if m.word >= m.pages[0].len() as int {
                        0int
                    } else {
                        ((m.pages[0].len() - m.word) as int + m.chunk - 1) / m.chunk
                    }),
                    m.word <= m.pages[0].len(),
            ;
        }
    } else {
        let e = es[0];
        let rest = es.drop_first();
        assert(forall|i: int| 0 <= i < rest.len() ==> 0 <= #[trigger] rest[i] <= ivl);
        assert(sum_of(es) == e + sum_of(rest));
        if !m.playing {
            lemma_run_single_page(m, rest);
            assert(emitted_texts(m, es) == emitted_texts(m, rest));
        } else {
            let total = m.acc + e;
            assert(sat_add_u64(m.acc, e) == total);
            let fired = total / ivl;
            assert(fired == 0 <==> total < ivl) by (nonlinear_arith)
                requires
                    0 <= total < 2 * ivl,
                    ivl >= 1,
                    fired == total / ivl,
            ;
            let mnext = tick_next(m, e);
            if fired == 0 {
                assert(total % ivl == total) by (nonlinear_arith)
                    requires
                        0 <= total < ivl,
                ;
                let m2 = EngineModel { acc: total % ivl, ..m };
                assert(mnext == m2);
                assert(m2.acc == total);
                lemma_run_single_page(m2, rest);
                assert(chunks_emitted(m, es) == min_int((total + sum_of(rest)) / ivl,
                    remaining_chunks(m2)));
                assert(emitted_texts(m, es) == emitted_texts(m2, rest));
            } else {
                let acc2 = total - ivl;
                let m2 = EngineModel { acc: acc2, ..m };
                assert(total % ivl == acc2) by (nonlinear_arith)
                    requires
                        ivl >= 1,
                        ivl <= total < 2 * ivl,
                        acc2 == total - ivl,
                ;
                assert((EngineModel { acc: total % ivl, ..m }) =~= m2);
                assert(mnext == step_cursor(m2));
                let len = m.pages[0].len() as int;
                // sums telescope across the consumed interval
                assert((m.acc + sum_of(es)) / ivl == 1 + (acc2 + sum_of(rest)) / ivl)
                    by (nonlinear_arith)
                    requires
                        ivl >= 1,
                        m.acc + sum_of(es) == ivl + (acc2 + sum_of(rest)),
                ;
                if m.word < len {
                    assert(tick_out(m, e) is Some);
                    let m3 = step_cursor(m2);
                    let wnext = if m.word + m.chunk < len {
                        m.word + m.chunk
                    } else {
                        len
                    };
                    assert(m3.word == wnext);
                    assert(m.word % m.chunk == 0);
                    if m.word + m.chunk < len {
                        assert(wnext % m.chunk == 0 && ceil_div(len - wnext, m.chunk) == ceil_div(
                            len - m.word,
                            m.chunk,
                        ) - 1) by (nonlinear_arith)
                            requires
                                m.chunk >= 1,
                                m.word % m.chunk == 0,
                                wnext == m.word + m.chunk,
                                wnext < len,
                                ceil_div(len - wnext, m.chunk) == (len - wnext + m.chunk - 1)
                                    / m.chunk,
                                ceil_div(len - m.word, m.chunk) == (len - m.word + m.chunk - 1)
                                    / m.chunk,
                        ;
                        assert(remaining_chunks(m3) == remaining_chunks(m) - 1);
                    } else {
                        assert(ceil_div(len - m.word, m.chunk) == 1) by (nonlinear_arith)
                            requires
                                m.chunk >= 1,
                                0 < len - m.word <= m.chunk,
                                ceil_div(len - m.word, m.chunk) == (len - m.word + m.chunk - 1)
                                    / m.chunk,
                        ;
                        assert(remaining_chunks(m3) == 0 && remaining_chunks(m) == 1);
                    }
                    lemma_run_single_page(m3, rest);
                    assert(chunks_emitted(m3, rest) == min_int((acc2 + sum_of(rest)) / ivl,
                        remaining_chunks(m3)));
                    assert(min_int(1 + (acc2 + sum_of(rest)) / ivl, 1 + remaining_chunks(m3))
                        == 1 + min_int((acc2 + sum_of(rest)) / ivl, remaining_chunks(m3)));
                    let t = join_words(m.pages[0].subrange(m.word, wnext));
                    assert(chunk_end(m.word, m.chunk, m.pages[0].len() as int) == wnext);
                    assert(tick_out(m, e) == Some(t));
                    assert(emitted_texts(m, es) == seq![t] + emitted_texts(m3, rest));
                    assert(emitted_texts(m3, rest) == chunks_from(m.pages[0], m.chunk, wnext,
                        chunks_emitted(m3, rest)));
                    lemma_chunks_nonneg(m3, rest);
                    assert(chunks_emitted(m, es) == 1 + chunks_emitted(m3, rest));
                    assert(chunks_from(m.pages[0], m.chunk, m.word, chunks_emitted(m, es))
                        =~= seq![t] + chunks_from(m.pages[0], m.chunk, wnext,
                        chunks_emitted(m, es) - 1));
                } else {
                    // page exhausted and no further page: the engine pauses
                    assert(m.word == len);
                    assert(tick_out(m, e) is None);
                    let m3 = step_cursor(m2);
                    assert(!m3.playing);
                    lemma_run_single_page(m3, rest);
                    assert(chunks_emitted(m, es) == 0);
                    lemma_sum_nonneg(es);
                    assert((m.acc + sum_of(es)) / ivl >= 0) by (nonlinear_arith)
                        requires
                            ivl >= 1,
                            m.acc + sum_of(es) >= 0,
                    ;
                    assert(remaining_chunks(m) == 0);
                    assert(emitted_texts(m, es) == emitted_texts(m3, rest));
                    assert(emitted_texts(m, es) =~= chunks_from(m.pages[0], m.chunk, m.word, 0));
                }
            }
        }
    }
}

/// Law: on a single-page document played from the start with a fresh clock,
/// a run of ticks in which every frame delivers at most one interval's worth
/// of time reveals exactly `floor(total_elapsed / interval)` chunks, capped
/// at `ceil(page_length / chunk_size)`; and what is revealed is exactly the
/// first that-many chunks of the page, in order, each starting where the
/// previous ended — no chunk is skipped or repeated, however the total time
/// is split across frames. Once the page is exhausted playback pauses and no
/// further chunk appears.
pub proof fn lemma_chunk_count(m: EngineModel, es: Seq<int>)
    requires
        model_wf(m),
        m.playing,
        m.pages.len() == 1,
        m.page == 0,
        m.word == 0,
        m.acc == 0,
        forall|i: int|
            0 <= i < es.len() ==> 0 <= #[trigger] es[i] <= interval_ms_of(m.wpm, m.chunk),
    ensures
        chunks_emitted(m, es) == min_int(
            sum_of(es) / interval_ms_of(m.wpm, m.chunk),
            ceil_div(m.pages[0].len() as int, m.chunk),
        ),
        emitted_texts(m, es) == chunks_from(m.pages[0], m.chunk, 0, chunks_emitted(m, es)),
{
    assert(m.word % m.chunk == 0) by (nonlinear_arith)
        requires
            m.word == 0,
            m.chunk >= 1,
    ;
    lemma_run_single_page(m, es);
    assert(remaining_chunks(m) == ceil_div(m.pages[0].len() as int, m.chunk));
}

} // verus!
