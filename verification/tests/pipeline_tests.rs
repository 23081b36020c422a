use tailspin::highlight::{HighlightProcessor, HighlightSet, Pattern, Rule};
use tailspin::pipeline::{drain_backlog, feed_chunks, follow_growth, run_no_follow,
    truncation_recovery};
use tailspin::signal::CompletionSignal;
use tailspin::sink::SinkWriter;
use tailspin::style::{Style, StyledLine};
use tailspin::tail::{TailSession, TailStep};

fn rule(pattern: &[u8], code: u32) -> Rule {
    Rule { pattern: Pattern::Prefix { bytes: pattern.to_vec() }, style: Style { code } }
}

fn processor() -> HighlightProcessor {
    HighlightProcessor::new(HighlightSet { rules: vec![rule(b"ERROR:", 31), rule(b"INFO:", 32)] })
}

fn all_lines(sink: &SinkWriter) -> Vec<StyledLine> {
    let mut v = sink.flushed.clone();
    v.extend(sink.buffered.iter().cloned());
    v
}

fn texts(sink: &SinkWriter) -> Vec<Vec<u8>> {
    all_lines(sink).iter().map(|l| l.strip().clone()).collect()
}

#[test]
fn concrete_scenario_two_styled_lines() {
    let file = b"ERROR: disk full\nINFO: retrying\n".to_vec();
    let mut sink = SinkWriter::new();
    let mut signal = CompletionSignal::new();
    assert!(!signal.is_fired());
    let (session, step) = run_no_follow(&file, &processor(), &mut sink, &mut signal);
    assert!(signal.is_fired());
    assert!(session.signaled);
    assert_eq!(step, TailStep::Stop);
    assert_eq!(
        sink.flushed,
        vec![
            StyledLine::Styled { style: Style { code: 31 }, text: b"ERROR: disk full".to_vec() },
            StyledLine::Styled { style: Style { code: 32 }, text: b"INFO: retrying".to_vec() },
        ]
    );
    assert!(sink.buffered.is_empty());
}

#[test]
fn backlog_written_and_flushed_when_signal_fires() {
    let file = b"a\nb\nc\n".to_vec();
    let mut sink = SinkWriter::new();
    let mut signal = CompletionSignal::new();
    drain_backlog(&file, false, &processor(), &mut sink, &mut signal);
    assert!(signal.is_fired());
    assert_eq!(sink.flushed.len(), 3);
    assert_eq!(texts(&sink), vec![b"a".to_vec(), b"b".to_vec(), b"c".to_vec()]);
}

#[test]
fn empty_backlog_still_signals() {
    let mut sink = SinkWriter::new();
    let mut signal = CompletionSignal::new();
    drain_backlog(&Vec::new(), false, &processor(), &mut sink, &mut signal);
    assert!(signal.is_fired());
    assert_eq!(sink.flushed.len(), 0);
}

#[test]
fn incomplete_trailing_line_is_held_back() {
    let file = b"complete\nincomplete".to_vec();
    let mut sink = SinkWriter::new();
    let mut signal = CompletionSignal::new();
    let session = drain_backlog(&file, true, &processor(), &mut sink, &mut signal);
    assert_eq!(texts(&sink), vec![b"complete".to_vec()]);
    assert_eq!(session.pending, b"incomplete".to_vec());
}

#[test]
fn growth_loses_and_duplicates_nothing() {
    let initial = b"one\ntwo\n".to_vec();
    let appended = b"three\nfour\n".to_vec();
    let mut sink = SinkWriter::new();
    let mut signal = CompletionSignal::new();
    follow_growth(&initial, &appended, &processor(), &mut sink, &mut signal);
    assert!(signal.is_fired());
    assert_eq!(
        texts(&sink),
        vec![b"one".to_vec(), b"two".to_vec(), b"three".to_vec(), b"four".to_vec()]
    );
}

#[test]
fn growth_joins_line_split_across_phases() {
    let initial = b"first\nsecond half ".to_vec();
    let appended = b"arrives later\n".to_vec();
    let mut sink = SinkWriter::new();
    let mut signal = CompletionSignal::new();
    follow_growth(&initial, &appended, &processor(), &mut sink, &mut signal);
    assert_eq!(
        texts(&sink),
        vec![b"first".to_vec(), b"second half arrives later".to_vec()]
    );
}

#[test]
fn truncation_emits_only_new_content() {
    let initial = b"old1\nold2\n".to_vec();
    let appended = b"new1\nnew2\n".to_vec();
    let mut sink = SinkWriter::new();
    let mut signal = CompletionSignal::new();
    let session = truncation_recovery(&initial, &appended, &processor(), &mut sink, &mut signal);
    assert_eq!(session.cursor, 10);
    let texts = texts(&sink);
    assert_eq!(texts.len(), 4);
    assert_eq!(&texts[2..], &[b"new1".to_vec(), b"new2".to_vec()]);
    assert_eq!(texts.iter().filter(|t| *t == &b"old1".to_vec()).count(), 1);
    assert_eq!(texts.iter().filter(|t| *t == &b"old2".to_vec()).count(), 1);
}

#[test]
fn truncation_drops_held_trailing_bytes() {
    let initial = b"done\nhalf a line".to_vec();
    let appended = b"fresh\n".to_vec();
    let mut sink = SinkWriter::new();
    let mut signal = CompletionSignal::new();
    truncation_recovery(&initial, &appended, &processor(), &mut sink, &mut signal);
    assert_eq!(texts(&sink), vec![b"done".to_vec(), b"fresh".to_vec()]);
}

#[test]
fn no_follow_stops_after_backlog() {
    let file = b"x\ny\n".to_vec();
    let mut sink = SinkWriter::new();
    let mut signal = CompletionSignal::new();
    let (session, step) = run_no_follow(&file, &processor(), &mut sink, &mut signal);
    assert_eq!(step, TailStep::Stop);
    assert!(!session.follow);
    assert_eq!(sink.flushed.len(), 2);
}

#[test]
fn chunk_boundaries_are_invisible() {
    let mut whole_sink = SinkWriter::new();
    let mut chunked_sink = SinkWriter::new();
    let whole = b"alpha\nbeta\ngamma\n".to_vec();
    let chunks = vec![b"alp".to_vec(), b"ha\nbe".to_vec(), b"".to_vec(), b"ta\ngamma\n".to_vec()];
    let mut s1 = TailSession::new(true, 0);
    s1.feed(&whole, &processor(), &mut whole_sink);
    let mut s2 = TailSession::new(true, 0);
    feed_chunks(&mut s2, &chunks, &processor(), &mut chunked_sink);
    assert_eq!(all_lines(&whole_sink), all_lines(&chunked_sink));
    assert_eq!(s1.pending, s2.pending);
    assert_eq!(s1.cursor, s2.cursor);
}
