use vstd::prelude::*;

use crate::highlight::{classifies, HighlightProcessor};
use crate::lines::{complete_lines, lemma_no_terminator, lemma_trailing_no_terminator, trailing,
    LINE_FEED};
use crate::sink::SinkWriter;

verus! {

/// A prefix of a sequence is still a prefix after a push.
pub(crate) proof fn lemma_prefix_push<T>(a: Seq<T>, b: Seq<T>, e: T)
    requires
        a.is_prefix_of(b),
    ensures
        a.is_prefix_of(b.push(e)),
{
    assert(a =~= b.push(e).subrange(0, a.len() as int));
}

/// Being a prefix is transitive.
pub(crate) proof fn lemma_prefix_trans<T>(a: Seq<T>, b: Seq<T>, c: Seq<T>)
    requires
        a.is_prefix_of(b),
        b.is_prefix_of(c),
    ensures
        a.is_prefix_of(c),
{
    assert(a =~= c.subrange(0, a.len() as int));
}

/// What the driving loop should do next with the source file.
#[derive(Clone, Copy, Debug, PartialEq, Eq, Structural)]
pub enum TailStep {
    /// Read the bytes from offset `from` to the end of the file and
    /// feed them to the session.
    Read { from: u64 },
    /// Nothing new to read: wait for the poll interval, then ask again.
    Idle,
    /// The backlog is drained and follow mode is off: the reader is
    /// finished.
    Stop,
}

/// The tail reader's state: a cursor into the source file, the file
/// length observed when the session started (the backlog), the
/// incomplete trailing line held back until its terminator arrives, and
/// the latch that makes the completion signal one-shot.
///
/// On truncation (file now shorter than the cursor) the cursor is reset
/// to the new length and the held trailing bytes are dropped, so only
/// content appended after the truncation is ever emitted again; the
/// backlog mark is lowered with it, so a truncated file still counts as
/// drained once the cursor reaches its new end.
pub struct TailSession {
    pub cursor: u64,
    pub backlog_len: u64,
    pub follow: bool,
    pub pending: Vec<u8>,
    pub signaled: bool,
}

impl TailSession {
    /// The held trailing bytes never contain a line terminator: they
    /// are exactly the bytes after the last terminator fed so far.
    pub open spec fn wf(self) -> bool {
        forall|i: int| 0 <= i < self.pending@.len() ==> self.pending@[i] != LINE_FEED
    }

    /// Start a session on a file whose length at this instant is
    /// `backlog_len`. The cursor starts at the beginning of the file.
    pub fn new(follow: bool, backlog_len: u64) -> (s: Self)
        ensures
            s.wf(),
            s.cursor == 0,
            s.backlog_len == backlog_len,
            s.follow == follow,
            s.pending@ == Seq::<u8>::empty(),
            !s.signaled,
    {
        TailSession { cursor: 0, backlog_len, follow, pending: Vec::new(), signaled: false }
    }

    /// Feed the bytes read at the cursor. Every line completed by these
    /// bytes — including the one the held trailing bytes start — is
    /// classified and appended to the sink, in file order; the new
    /// trailing segment is held back for the next read.
    pub fn feed(&mut self, chunk: &Vec<u8>, processor: &HighlightProcessor, sink: &mut SinkWriter)
        requires
            old(self).wf(),
            old(self).cursor + chunk@.len() <= u64::MAX,
        ensures
            final(self).wf(),
            final(self).cursor == old(self).cursor + chunk@.len(),
            final(self).backlog_len == old(self).backlog_len,
            final(self).follow == old(self).follow,
            final(self).signaled == old(self).signaled,
            final(self).pending@ == trailing(old(self).pending@ + chunk@),
            old(sink).lines().is_prefix_of(final(sink).lines()),
            old(sink).flushed@.is_prefix_of(final(sink).flushed@),
            final(sink).lines().len() == old(sink).lines().len() + complete_lines(
                old(self).pending@ + chunk@,
            ).len(),
            classifies(
                processor.rules.rules@,
                complete_lines(old(self).pending@ + chunk@),
                final(sink).lines().skip(old(sink).lines().len() as int),
            ),
    {
        let ghost p0 = self.pending@;
        let ghost lines0 = sink.lines();
        let ghost flushed0 = sink.flushed@;

        let mut cur: Vec<u8> = Vec::new();
        let mut k: usize = 0;
        while k < self.pending.len()
            invariant
                k <= self.pending@.len(),
                cur@ == self.pending@.subrange(0, k as int),
            decreases self.pending@.len() - k,
        {
            cur.push(self.pending[k]);
            proof {
                assert(self.pending@.subrange(0, k + 1) =~= self.pending@.subrange(
                    0,
                    k as int,
                ).push(self.pending@[k as int]));
            }
            k += 1;
        }
        proof {
            assert(p0.subrange(0, p0.len() as int) =~= p0);
            lemma_no_terminator(p0);
            assert(p0 + chunk@.subrange(0, 0) =~= p0);
        }

        let n = chunk.len();
        let mut j: usize = 0;
        while j < n
            invariant
                j <= n,
                n == chunk@.len(),
                self.wf(),
                self.pending@ == p0,
                self.cursor == old(self).cursor,
                self.backlog_len == old(self).backlog_len,
                self.follow == old(self).follow,
                self.signaled == old(self).signaled,
                cur@ == trailing(p0 + chunk@.subrange(0, j as int)),
                lines0.is_prefix_of(sink.lines()),
                flushed0.is_prefix_of(sink.flushed@),
                sink.lines().len() == lines0.len() + complete_lines(
                    p0 + chunk@.subrange(0, j as int),
                ).len(),
                classifies(
                    processor.rules.rules@,
                    complete_lines(p0 + chunk@.subrange(0, j as int)),
                    sink.lines().skip(lines0.len() as int),
                ),
            decreases n - j,
        {
            let ghost fed = p0 + chunk@.subrange(0, j as int);
            let b = chunk[j];
            proof {
                assert(p0 + chunk@.subrange(0, j + 1) =~= fed.push(b));
                assert(fed.push(b).drop_last() =~= fed);
            }
            if b == LINE_FEED {
                let ghost before = sink.lines();
                let ghost before_flushed = sink.flushed@;
                let styled = processor.process(&cur);
                sink.write(styled);
                cur = Vec::new();
                proof {
                    assert(complete_lines(fed.push(b)) == complete_lines(fed).push(trailing(fed)));
                    assert(trailing(fed.push(b)) =~= Seq::<u8>::empty());
                    assert(sink.lines() == before.push(styled));
                    lemma_prefix_push(lines0, before, styled);
                    lemma_prefix_trans(flushed0, before_flushed, sink.flushed@);
                    let prev = complete_lines(fed);
                    let now = complete_lines(fed.push(b));
                    let out_prev = before.skip(lines0.len() as int);
                    let out_now = sink.lines().skip(lines0.len() as int);
                    assert(out_now =~= out_prev.push(styled));
                    assert forall|i: int| 0 <= i < out_now.len() implies (#[trigger] out_now[i]).text_spec()
                        == now[i] && out_now[i].style_spec() == crate::highlight::first_match(
                        processor.rules.rules@,
                        now[i],
                    ) by {
                        if i < prev.len() {
                            assert(out_now[i] == out_prev[i]);
                            assert(now[i] == prev[i]);
                        } else {
                            assert(out_now[i] == styled);
                            assert(now[i] == trailing(fed));
                        }
                    }
                }
            } else {
                cur.push(b);
                proof {
                    assert(complete_lines(fed.push(b)) == complete_lines(fed));
                    assert(trailing(fed.push(b)) == trailing(fed).push(b));
                }
            }
            j += 1;
        }
        proof {
            assert(chunk@.subrange(0, n as int) =~= chunk@);
            lemma_trailing_no_terminator(p0 + chunk@);
        }
        self.pending = cur;
        self.cursor = self.cursor + chunk.len() as u64;
    }

    /// Report, after a feed, whether the initial backlog has just been
    /// drained. Returns true at most once per session: the first time
    /// the cursor has reached the backlog mark. The caller fires the
    /// completion signal exactly when this returns true.
    pub fn note_backlog_drained(&mut self) -> (fired: bool)
        ensures
            fired == (!old(self).signaled && old(self).cursor >= old(self).backlog_len),
            final(self).signaled == (old(self).signaled || old(self).cursor >= old(
                self,
            ).backlog_len),
            final(self).cursor == old(self).cursor,
            final(self).backlog_len == old(self).backlog_len,
            final(self).follow == old(self).follow,
            final(self).pending@ == old(self).pending@,
            final(self).wf() == old(self).wf(),
    {
        if !self.signaled && self.cursor >= self.backlog_len {
            self.signaled = true;
            true
        } else {
            false
        }
    }

    /// One-shot law: across any two backlog-drained reports, at most
    /// one fires. The first report that finds the cursor at the backlog
    /// mark sets the latch; every operation between two reports keeps
    /// the latch set, so the second report never fires.
    pub proof fn lemma_report_one_shot(
        s0: TailSession,
        s1: TailSession,
        s2: TailSession,
        fired1: bool,
        fired2: bool,
    )
        requires
            fired1 == (!s0.signaled && s0.cursor >= s0.backlog_len),
            s1.signaled == (s0.signaled || s0.cursor >= s0.backlog_len),
            s2.signaled == s1.signaled,
            fired2 == (!s2.signaled && s2.cursor >= s2.backlog_len),
        ensures
            !(fired1 && fired2),
    {
    }

    /// Decide what to do next, given the file's current length. Growth
    /// past the cursor asks for a read; an unchanged length asks the
    /// driver to wait (or to stop, once the backlog is drained and
    /// follow mode is off); a length below the cursor is a truncation
    /// and resets the session as documented on the type.
    pub fn next_step(&mut self, file_len: u64) -> (r: TailStep)
        requires
            old(self).wf(),
        ensures
            final(self).wf(),
            final(self).follow == old(self).follow,
            final(self).signaled == old(self).signaled,
            !old(self).follow && old(self).signaled ==> r == TailStep::Stop && *final(self) == *old(
                self,
            ),
            old(self).follow || !old(self).signaled ==> {
                &&& file_len < old(self).cursor ==> {
                    &&& final(self).cursor == file_len
                    &&& final(self).pending@ == Seq::<u8>::empty()
                    &&& final(self).backlog_len == (if old(self).backlog_len <= file_len {
                        old(self).backlog_len
                    } else {
                        file_len
                    })
                    &&& r == TailStep::Idle
                }
                &&& file_len >= old(self).cursor ==> *final(self) == *old(self)
                &&& file_len > old(self).cursor ==> r == (TailStep::Read {
                    from: old(self).cursor,
                })
                &&& file_len == old(self).cursor ==> r == TailStep::Idle
            },
    {
        if !self.follow && self.signaled {
            return TailStep::Stop;
        }
        if file_len < self.cursor {
            self.cursor = file_len;
            self.pending = Vec::new();
            if self.backlog_len > file_len {
                self.backlog_len = file_len;
            }
            return TailStep::Idle;
        }
        if file_len > self.cursor {
            return TailStep::Read { from: self.cursor };
        }
        TailStep::Idle
    }
}

} // verus!
