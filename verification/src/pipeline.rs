use vstd::prelude::*;

use crate::highlight::{classifies, first_match, HighlightProcessor, Rule};
use crate::lines::{complete_lines, lemma_split_append, trailing};
use crate::signal::CompletionSignal;
use crate::sink::SinkWriter;
use crate::style::StyledLine;
use crate::tail::{lemma_prefix_push, lemma_prefix_trans, TailSession, TailStep};

verus! {

/// All the source bytes fed so far, chunk after chunk.
pub open spec fn concat_bytes(chunks: Seq<Seq<u8>>) -> Seq<u8>
    decreases chunks.len(),
{
    if chunks.len() == 0 {
        Seq::empty()
    } else {
        concat_bytes(chunks.drop_last()) + chunks.last()
    }
}

/// Concatenating one more chunk extends the concatenation by it.
proof fn lemma_concat_take_step(chunks: Seq<Seq<u8>>, i: int)
    requires
        0 <= i < chunks.len(),
    ensures
        concat_bytes(chunks.take(i + 1)) == concat_bytes(chunks.take(i)) + chunks[i],
{
    assert(chunks.take(i + 1).drop_last() =~= chunks.take(i));
    assert(chunks.take(i + 1).last() == chunks[i]);
}

/// The concatenation of a prefix of the chunks is never longer than
/// the concatenation of all of them.
proof fn lemma_concat_take_len(chunks: Seq<Seq<u8>>, i: int)
    requires
        0 <= i <= chunks.len(),
    ensures
        concat_bytes(chunks.take(i)).len() <= concat_bytes(chunks).len(),
    decreases chunks.len() - i,
{
    if i == chunks.len() {
        assert(chunks.take(i) =~= chunks);
    } else {
        lemma_concat_take_step(chunks, i);
        lemma_concat_take_len(chunks, i + 1);
    }
}

/// Classifying two text runs one after the other is the same as
/// classifying their concatenation.
proof fn lemma_classifies_append(
    rules: Seq<Rule>,
    t1: Seq<Seq<u8>>,
    t2: Seq<Seq<u8>>,
    o1: Seq<StyledLine>,
    o2: Seq<StyledLine>,
)
    requires
        classifies(rules, t1, o1),
        classifies(rules, t2, o2),
    ensures
        classifies(rules, t1 + t2, o1 + o2),
{
    assert forall|i: int| 0 <= i < (o1 + o2).len() implies (#[trigger] (o1 + o2)[i]).text_spec()
        == (t1 + t2)[i] && (o1 + o2)[i].style_spec() == first_match(rules, (t1 + t2)[i]) by {
        if i < o1.len() {
            assert((o1 + o2)[i] == o1[i]);
            assert((t1 + t2)[i] == t1[i]);
        } else {
            assert((o1 + o2)[i] == o2[i - o1.len()]);
            assert((t1 + t2)[i] == t2[i - t1.len()]);
        }
    }
}

/// The lines a sink gained across two successive phases decompose at
/// the state between the phases.
proof fn lemma_delta_chain(l0: Seq<StyledLine>, l1: Seq<StyledLine>, l2: Seq<StyledLine>)
    requires
        l0.is_prefix_of(l1),
        l1.is_prefix_of(l2),
    ensures
        l2.skip(l0.len() as int) == l1.skip(l0.len() as int) + l2.skip(l1.len() as int),
{
    assert(l2.skip(l0.len() as int) =~= l1.skip(l0.len() as int) + l2.skip(l1.len() as int));
}

/// Drain the initial backlog: feed the bytes the file held when the
/// session started, flush the sink, then fire the completion signal.
///
/// Backlog-before-signal: the signal fires here exactly once, and only
/// after every complete line of the backlog has been classified,
/// written to the sink in file order, and flushed.
pub fn drain_backlog(
    file: &Vec<u8>,
    follow: bool,
    processor: &HighlightProcessor,
    sink: &mut SinkWriter,
    signal: &mut CompletionSignal,
) -> (session: TailSession)
    requires
        !old(signal).fired,
    ensures
        final(signal).fired,
        session.wf(),
        session.signaled,
        session.follow == follow,
        session.cursor == file@.len(),
        session.backlog_len == file@.len(),
        session.pending@ == trailing(file@),
        old(sink).lines().is_prefix_of(final(sink).lines()),
        final(sink).lines().len() == old(sink).lines().len() + complete_lines(file@).len(),
        classifies(
            processor.rules.rules@,
            complete_lines(file@),
            final(sink).lines().skip(old(sink).lines().len() as int),
        ),
        final(sink).flushed@ == final(sink).lines(),
{
    let backlog_len = file.len() as u64;
    let mut session = TailSession::new(follow, backlog_len);
    proof {
        assert(Seq::<u8>::empty() + file@ =~= file@);
    }
    session.feed(file, processor, sink);
    sink.flush();
    let fired = session.note_backlog_drained();
    proof {
        assert(fired);
    }
    signal.fire();
    session
}

/// No loss under growth: a backlog of bytes followed, in follow mode,
/// by appended bytes puts exactly the complete lines of the whole
/// content into the sink, in original order, each exactly once.
pub fn follow_growth(
    initial: &Vec<u8>,
    appended: &Vec<u8>,
    processor: &HighlightProcessor,
    sink: &mut SinkWriter,
    signal: &mut CompletionSignal,
) -> (session: TailSession)
    requires
        !old(signal).fired,
        initial@.len() + appended@.len() <= u64::MAX,
    ensures
        final(signal).fired,
        session.wf(),
        session.signaled,
        session.follow,
        session.cursor == initial@.len() + appended@.len(),
        session.pending@ == trailing(initial@ + appended@),
        old(sink).lines().is_prefix_of(final(sink).lines()),
        final(sink).lines().len() == old(sink).lines().len() + complete_lines(
            initial@ + appended@,
        ).len(),
        classifies(
            processor.rules.rules@,
            complete_lines(initial@ + appended@),
            final(sink).lines().skip(old(sink).lines().len() as int),
        ),
        final(sink).flushed@ == final(sink).lines(),
{
    let ghost lines0 = sink.lines();
    let mut session = drain_backlog(initial, true, processor, sink, signal);
    let ghost lines1 = sink.lines();
    session.feed(appended, processor, sink);
    sink.flush();
    proof {
        lemma_split_append(initial@, appended@);
        lemma_delta_chain(lines0, lines1, sink.lines());
        lemma_classifies_append(
            processor.rules.rules@,
            complete_lines(initial@),
            complete_lines(trailing(initial@) + appended@),
            lines1.skip(lines0.len() as int),
            sink.lines().skip(lines1.len() as int),
        );
    }
    session
}

/// Truncation recovery: after the backlog is drained the source is
/// truncated to nothing; the cursor resets, the held trailing bytes are
/// dropped, and bytes appended afterwards put exactly their own
/// complete lines into the sink — nothing from before the truncation is
/// emitted again.
pub fn truncation_recovery(
    initial: &Vec<u8>,
    appended: &Vec<u8>,
    processor: &HighlightProcessor,
    sink: &mut SinkWriter,
    signal: &mut CompletionSignal,
) -> (session: TailSession)
    requires
        !old(signal).fired,
        appended@.len() <= u64::MAX,
    ensures
        final(signal).fired,
        session.wf(),
        session.cursor == appended@.len(),
        session.pending@ == trailing(appended@),
        final(sink).lines().len() == old(sink).lines().len() + complete_lines(initial@).len()
            + complete_lines(appended@).len(),
        classifies(
            processor.rules.rules@,
            complete_lines(appended@),
            final(sink).lines().skip(
                (old(sink).lines().len() + complete_lines(initial@).len()) as int,
            ),
        ),
        final(sink).flushed@ == final(sink).lines(),
{
    let mut session = drain_backlog(initial, true, processor, sink, signal);
    let _step = session.next_step(0);
    proof {
        assert(session.cursor == 0);
        assert(session.pending@ =~= Seq::<u8>::empty());
        assert(Seq::<u8>::empty() + appended@ =~= appended@);
    }
    session.feed(appended, processor, sink);
    sink.flush();
    session
}

/// No-follow termination: with follow disabled, once the backlog is
/// drained and the signal has fired, the very next poll tells the
/// driver to stop — the reader completes with no dangling work.
pub fn run_no_follow(
    file: &Vec<u8>,
    processor: &HighlightProcessor,
    sink: &mut SinkWriter,
    signal: &mut CompletionSignal,
) -> (r: (TailSession, TailStep))
    requires
        !old(signal).fired,
    ensures
        r.1 == TailStep::Stop,
        final(signal).fired,
        r.0.wf(),
        r.0.signaled,
        !r.0.follow,
        old(sink).lines().is_prefix_of(final(sink).lines()),
        final(sink).lines().len() == old(sink).lines().len() + complete_lines(file@).len(),
        classifies(
            processor.rules.rules@,
            complete_lines(file@),
            final(sink).lines().skip(old(sink).lines().len() as int),
        ),
        final(sink).flushed@ == final(sink).lines(),
{
    let mut session = drain_backlog(file, false, processor, sink, signal);
    let step = session.next_step(file.len() as u64);
    (session, step)
}

/// Chunk boundaries are invisible downstream: feeding the source bytes
/// in any succession of chunks classifies and emits exactly the
/// complete lines of their concatenation, in order, each exactly once,
/// with the trailing segment of the whole held back.
pub fn feed_chunks(
    session: &mut TailSession,
    chunks: &Vec<Vec<u8>>,
    processor: &HighlightProcessor,
    sink: &mut SinkWriter,
)
    requires
        old(session).wf(),
        old(session).cursor + concat_bytes(chunks.deep_view()).len() <= u64::MAX,
    ensures
        final(session).wf(),
        final(session).cursor == old(session).cursor + concat_bytes(chunks.deep_view()).len(),
        final(session).backlog_len == old(session).backlog_len,
        final(session).follow == old(session).follow,
        final(session).signaled == old(session).signaled,
        final(session).pending@ == trailing(
            old(session).pending@ + concat_bytes(chunks.deep_view()),
        ),
        old(sink).lines().is_prefix_of(final(sink).lines()),
        old(sink).flushed@.is_prefix_of(final(sink).flushed@),
        final(sink).lines().len() == old(sink).lines().len() + complete_lines(
            old(session).pending@ + concat_bytes(chunks.deep_view()),
        ).len(),
        classifies(
            processor.rules.rules@,
            complete_lines(old(session).pending@ + concat_bytes(chunks.deep_view())),
            final(sink).lines().skip(old(sink).lines().len() as int),
        ),
{
    let ghost all = chunks.deep_view();
    let ghost p0 = session.pending@;
    let ghost c0 = session.cursor;
    let ghost lines0 = sink.lines();
    let ghost flushed0 = sink.flushed@;
    proof {
        assert(all.take(0) =~= Seq::<Seq<u8>>::empty());
        assert(p0 + concat_bytes(all.take(0)) =~= p0);
        crate::lines::lemma_no_terminator(p0);
        assert(sink.lines().skip(lines0.len() as int) =~= Seq::<StyledLine>::empty());
        assert(lines0.is_prefix_of(sink.lines()));
        assert(flushed0.is_prefix_of(sink.flushed@));
    }
    let n = chunks.len();
    let mut i: usize = 0;
    while i < n
        invariant
            i <= n,
            n == chunks@.len(),
            all == chunks.deep_view(),
            session.wf(),
            session.cursor == c0 + concat_bytes(all.take(i as int)).len(),
            c0 + concat_bytes(all).len() <= u64::MAX,
            session.backlog_len == old(session).backlog_len,
            session.follow == old(session).follow,
            session.signaled == old(session).signaled,
            session.pending@ == trailing(p0 + concat_bytes(all.take(i as int))),
            lines0.is_prefix_of(sink.lines()),
            flushed0.is_prefix_of(sink.flushed@),
            sink.lines().len() == lines0.len() + complete_lines(
                p0 + concat_bytes(all.take(i as int)),
            ).len(),
            classifies(
                processor.rules.rules@,
                complete_lines(p0 + concat_bytes(all.take(i as int))),
                sink.lines().skip(lines0.len() as int),
            ),
        decreases n - i,
    {
        let ghost fed = p0 + concat_bytes(all.take(i as int));
        let ghost lines_mid = sink.lines();
        let ghost flushed_mid = sink.flushed@;
        proof {
            assert(chunks@[i as int].deep_view() =~= chunks@[i as int]@);
            assert(all[i as int] == chunks@[i as int].deep_view());
            lemma_concat_take_step(all, i as int);
            lemma_concat_take_len(all, i + 1);
        }
        session.feed(&chunks[i], processor, sink);
        proof {
            lemma_split_append(fed, all[i as int]);
            assert(p0 + concat_bytes(all.take(i + 1)) =~= fed + all[i as int]);
            lemma_delta_chain(lines0, lines_mid, sink.lines());
            lemma_prefix_trans(lines0, lines_mid, sink.lines());
            lemma_prefix_trans(flushed0, flushed_mid, sink.flushed@);
            lemma_classifies_append(
                processor.rules.rules@,
                complete_lines(fed),
                complete_lines(trailing(fed) + all[i as int]),
                lines_mid.skip(lines0.len() as int),
                sink.lines().skip(lines_mid.len() as int),
            );
        }
        i += 1;
    }
    proof {
        assert(all.take(n as int) =~= all);
    }
}

} // verus!
