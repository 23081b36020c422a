use vstd::prelude::*;

use crate::style::StyledLine;

verus! {

/// How many lines may sit in the write buffer before a write forces a
/// flush, so that many small line-writes do not each flush separately.
pub const FLUSH_THRESHOLD: usize = 64;

/// The sink the processed lines are appended to: strictly append-only,
/// no seeking, no overwrite. Writes are buffered; `flush` moves the
/// buffer into the flushed region, which is what the surrounding
/// program hands on to the scratch destination. The flushed region only
/// ever grows, and a final flush is guaranteed before the viewer is
/// launched.
pub struct SinkWriter {
    pub flushed: Vec<StyledLine>,
    pub buffered: Vec<StyledLine>,
}

impl SinkWriter {
    /// Every line written so far, flushed or still buffered, in write
    /// order.
    pub open spec fn lines(self) -> Seq<StyledLine> {
        self.flushed@ + self.buffered@
    }

    /// An empty sink.
    pub fn new() -> (s: Self)
        ensures
            s.lines() == Seq::<StyledLine>::empty(),
            s.flushed@ == Seq::<StyledLine>::empty(),
    {
        let s = SinkWriter { flushed: Vec::new(), buffered: Vec::new() };
        proof {
            assert(s.lines() =~= Seq::<StyledLine>::empty());
        }
        s
    }

    /// Append one line. The line order is exactly the write order; the
    /// already-flushed region is never rewritten.
    pub fn write(&mut self, line: StyledLine)
        ensures
            final(self).lines() == old(self).lines().push(line),
            old(self).flushed@.is_prefix_of(final(self).flushed@),
    {
        self.buffered.push(line);
        proof {
            assert(self.lines() =~= old(self).lines().push(line));
        }
        if self.buffered.len() >= FLUSH_THRESHOLD {
            self.flush();
        }
    }

    /// Move every buffered line into the flushed region. Afterwards the
    /// flushed region holds every line written so far.
    pub fn flush(&mut self)
        ensures
            final(self).lines() == old(self).lines(),
            final(self).flushed@ == old(self).lines(),
            final(self).buffered@ == Seq::<StyledLine>::empty(),
            old(self).flushed@.is_prefix_of(final(self).flushed@),
    {
        self.flushed.append(&mut self.buffered);
        proof {
            assert(self.lines() =~= old(self).lines());
        }
    }

    /// The number of lines written so far.
    pub fn line_count(&self) -> (n: usize)
        requires
            self.lines().len() <= usize::MAX,
        ensures
            n == self.lines().len(),
    {
        self.flushed.len() + self.buffered.len()
    }
}

} // verus!
