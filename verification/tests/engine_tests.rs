use rsvp_reader::engine::{PlaybackMode, RsvpEngine};
use rsvp_reader::pacing::{compute_interval_ms, PacingClock, PacingConfig};

fn playing_engine(pages: &[&str]) -> RsvpEngine {
    let raws: Vec<String> = pages.iter().map(|p| p.to_string()).collect();
    let mut engine = RsvpEngine::new();
    engine.ingest(&raws).unwrap();
    engine
}

#[test]
fn interval_formula_exact_values() {
    let cfg = PacingConfig { words_per_minute: 300, chunk_size: 1 };
    assert_eq!(compute_interval_ms(&cfg), 200);
    let cfg = PacingConfig { words_per_minute: 60, chunk_size: 3 };
    assert_eq!(compute_interval_ms(&cfg), 3000);
    // a rate faster than one word per millisecond still gives a one-tick interval
    let cfg = PacingConfig { words_per_minute: 100_000, chunk_size: 1 };
    assert_eq!(compute_interval_ms(&cfg), 1);
}

#[test]
fn clock_consumes_whole_intervals_and_keeps_remainder() {
    let mut clock = PacingClock::new();
    assert_eq!(clock.advance(450, 200), 2);
    assert_eq!(clock.accumulated_ms, 50);
    assert_eq!(clock.advance(100, 200), 0);
    assert_eq!(clock.accumulated_ms, 150);
    assert_eq!(clock.advance(50, 200), 1);
    assert_eq!(clock.accumulated_ms, 0);
}

#[test]
fn end_to_end_scenario_two_pages() {
    // document [["Upload","a","document"], ["to","begin"]], 300 wpm, chunk 1
    let mut engine = playing_engine(&["Upload a document", "to begin"]);
    assert_eq!(engine.mode(), PlaybackMode::Playing);
    assert_eq!(engine.tick(200).unwrap().text, "Upload");
    assert_eq!(engine.tick(200).unwrap().text, "a");
    assert_eq!(engine.tick(200).unwrap().text, "document");
    // page boundary: the next tick rolls to page 1 and still reveals a chunk
    assert_eq!(engine.tick(200).unwrap().text, "to");
    assert_eq!(engine.current_page_index(), 1);
    assert_eq!(engine.tick(200).unwrap().text, "begin");
    // no further page: playback pauses, nothing is revealed
    assert!(engine.tick(200).is_none());
    assert_eq!(engine.mode(), PlaybackMode::Paused);
    // the last chunk stays on display
    assert_eq!(engine.current_chunk_text(), "begin");
}

#[test]
fn tick_accumulates_partial_intervals() {
    let mut engine = playing_engine(&["alpha beta"]);
    assert!(engine.tick(100).is_none());
    assert!(engine.tick(99).is_none());
    assert_eq!(engine.tick(1).unwrap().text, "alpha");
}

#[test]
fn tick_while_paused_returns_none_and_changes_nothing() {
    let mut engine = playing_engine(&["alpha beta gamma"]);
    assert_eq!(engine.tick(200).unwrap().text, "alpha");
    engine.toggle_play_pause();
    assert_eq!(engine.mode(), PlaybackMode::Paused);
    let progress_before = engine.progress_permille();
    for _ in 0..10 {
        assert!(engine.tick(10_000).is_none());
    }
    // paused time is never accumulated: after resuming, a full interval is
    // still needed before the next chunk
    assert_eq!(engine.progress_permille(), progress_before);
    engine.toggle_play_pause();
    assert!(engine.tick(199).is_none());
    assert_eq!(engine.tick(1).unwrap().text, "beta");
}

#[test]
fn large_frame_advances_exactly_one_chunk() {
    let mut engine = playing_engine(&["one two three four five"]);
    // ten intervals in one frame still reveal exactly one chunk
    assert_eq!(engine.tick(2000).unwrap().text, "one");
    assert_eq!(engine.tick(200).unwrap().text, "two");
}

#[test]
fn chunk_size_groups_words_and_clips_at_page_end() {
    let mut engine = playing_engine(&["a b c"]);
    engine.set_pacing(300, 2).unwrap();
    // interval for chunk 2 at 300 wpm is 400 ms
    assert!(engine.tick(399).is_none());
    assert_eq!(engine.tick(1).unwrap().text, "a b");
    assert_eq!(engine.tick(400).unwrap().text, "c");
    assert!(engine.tick(400).is_none());
    assert_eq!(engine.mode(), PlaybackMode::Paused);
}

#[test]
fn seek_to_valid_page_resets_word_index() {
    let mut engine = playing_engine(&["alpha beta", "gamma delta"]);
    assert_eq!(engine.tick(200).unwrap().text, "alpha");
    assert!(engine.progress_permille() > 0);
    engine.seek_to_page(1).unwrap();
    assert_eq!(engine.current_page_index(), 1);
    assert_eq!(engine.progress_permille(), 0);
    // seeking back to the same page also restarts it
    engine.seek_to_page(0).unwrap();
    assert_eq!(engine.current_page_index(), 0);
    assert_eq!(engine.tick(200).unwrap().text, "alpha");
}

#[test]
fn seek_out_of_range_is_rejected_without_state_change() {
    let mut engine = playing_engine(&["alpha beta", "gamma"]);
    assert_eq!(engine.tick(200).unwrap().text, "alpha");
    let progress_before = engine.progress_permille();
    assert!(engine.seek_to_page(2).is_err());
    assert_eq!(engine.current_page_index(), 0);
    assert_eq!(engine.progress_permille(), progress_before);
    assert_eq!(engine.mode(), PlaybackMode::Playing);
}

#[test]
fn set_pacing_rejects_zero_and_keeps_config() {
    let mut engine = playing_engine(&["a b c d"]);
    assert!(engine.set_pacing(0, 1).is_err());
    assert!(engine.set_pacing(300, 0).is_err());
    assert!(engine.set_pacing(0, 0).is_err());
    // the previous 300 wpm / chunk 1 configuration still drives the clock
    assert!(engine.tick(199).is_none());
    assert_eq!(engine.tick(1).unwrap().text, "a");
}

#[test]
fn set_pacing_keeps_accumulated_progress() {
    let mut engine = playing_engine(&["slow then fast"]);
    // 150 ms of a 200 ms interval already accumulated
    assert!(engine.tick(150).is_none());
    // speeding up to a 100 ms interval: the accumulated 150 ms now contains a
    // whole interval, so the next tick fires at once instead of waiting again
    engine.set_pacing(600, 1).unwrap();
    assert_eq!(engine.tick(0).unwrap().text, "slow");
}

#[test]
fn ingest_mid_playback_replaces_everything() {
    let mut engine = playing_engine(&["old words here", "and there"]);
    assert_eq!(engine.tick(200).unwrap().text, "old");
    assert_eq!(engine.tick(200).unwrap().text, "words");
    engine.toggle_play_pause();
    let raws = vec!["fresh start".to_string()];
    engine.ingest(&raws).unwrap();
    // cursor reset, playback auto-started, new document in place
    assert_eq!(engine.mode(), PlaybackMode::Playing);
    assert_eq!(engine.current_page_index(), 0);
    assert_eq!(engine.page_count(), 1);
    assert_eq!(engine.progress_permille(), 0);
    assert_eq!(engine.tick(200).unwrap().text, "fresh");
}

#[test]
fn ingest_keeps_accumulated_clock_progress() {
    let mut engine = playing_engine(&["first words"]);
    // 150 ms of the 200 ms interval accumulated before the replacement
    assert!(engine.tick(150).is_none());
    let raws = vec!["next text".to_string()];
    engine.ingest(&raws).unwrap();
    // the partial progress survives the document swap: 50 ms completes it
    assert_eq!(engine.tick(50).unwrap().text, "next");
}

#[test]
fn failed_ingest_leaves_engine_untouched() {
    let mut engine = playing_engine(&["alpha beta"]);
    assert_eq!(engine.tick(200).unwrap().text, "alpha");
    let raws = vec![" ".to_string(), "".to_string()];
    assert!(engine.ingest(&raws).is_err());
    assert_eq!(engine.mode(), PlaybackMode::Playing);
    assert_eq!(engine.page_count(), 1);
    assert_eq!(engine.current_chunk_text(), "alpha");
    assert_eq!(engine.tick(200).unwrap().text, "beta");
}

#[test]
fn fresh_engine_holds_placeholder_and_is_paused() {
    let mut engine = RsvpEngine::new();
    assert_eq!(engine.mode(), PlaybackMode::Paused);
    assert_eq!(engine.page_count(), 1);
    assert_eq!(engine.current_page_index(), 0);
    assert_eq!(engine.current_chunk_text(), "");
    assert!(engine.tick(10_000).is_none());
    // the placeholder document plays like any other once started
    engine.toggle_play_pause();
    assert_eq!(engine.tick(200).unwrap().text, "Upload");
}

#[test]
fn default_engine_matches_new() {
    let engine = RsvpEngine::default();
    assert_eq!(engine.mode(), PlaybackMode::Paused);
    assert_eq!(engine.page_count(), 1);
}

#[test]
fn progress_reports_permille_of_current_page() {
    let mut engine = playing_engine(&["a b c d"]);
    assert_eq!(engine.progress_permille(), 0);
    engine.tick(200);
    assert_eq!(engine.progress_permille(), 250);
    engine.tick(200);
    assert_eq!(engine.progress_permille(), 500);
    engine.tick(200);
    engine.tick(200);
    assert_eq!(engine.progress_permille(), 1000);
}

#[test]
fn chunk_count_matches_elapsed_over_interval() {
    // 12 words, chunk 1, 300 wpm: 2.0 s of play in 100 ms frames reveals
    // floor(2000 / 200) = 10 chunks
    let mut engine = playing_engine(&["w1 w2 w3 w4 w5 w6 w7 w8 w9 w10 w11 w12"]);
    let mut chunks = 0;
    for _ in 0..20 {
        if engine.tick(100).is_some() {
            chunks += 1;
        }
    }
    assert_eq!(chunks, 10);
    // and the cap: unlimited further time reveals only the 2 words left
    let mut more = 0;
    for _ in 0..50 {
        if engine.tick(200).is_some() {
            more += 1;
        }
    }
    assert_eq!(more, 2);
    // the interval after the last chunk hit the end of the document
    assert_eq!(engine.mode(), PlaybackMode::Paused);
}
