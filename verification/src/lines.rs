use vstd::prelude::*;

verus! {

/// The line terminator the reader splits on.
pub const LINE_FEED: u8 = 10;

/// The bytes after the last line terminator of `s`: the incomplete
/// trailing line that may not be emitted yet. Empty when `s` ends with
/// a terminator (or is empty).
pub open spec fn trailing(s: Seq<u8>) -> Seq<u8>
    decreases s.len(),
{
    if s.len() == 0 {
        Seq::empty()
    } else if s.last() == LINE_FEED {
        Seq::empty()
    } else {
        trailing(s.drop_last()).push(s.last())
    }
}

/// The complete lines of `s`, in order: every maximal run of bytes
/// closed off by a line terminator, with the terminator removed.
pub open spec fn complete_lines(s: Seq<u8>) -> Seq<Seq<u8>>
    decreases s.len(),
{
    if s.len() == 0 {
        Seq::empty()
    } else if s.last() == LINE_FEED {
        complete_lines(s.drop_last()).push(trailing(s.drop_last()))
    } else {
        complete_lines(s.drop_last())
    }
}

/// A byte sequence without a line terminator has no complete line and
/// is all trailing.
pub proof fn lemma_no_terminator(s: Seq<u8>)
    requires
        forall|i: int| 0 <= i < s.len() ==> s[i] != LINE_FEED,
    ensures
        complete_lines(s) == Seq::<Seq<u8>>::empty(),
        trailing(s) == s,
    decreases s.len(),
{
    if s.len() == 0 {
        assert(trailing(s) =~= s);
    } else {
        lemma_no_terminator(s.drop_last());
        assert(trailing(s) =~= s.drop_last().push(s.last()));
        assert(s.drop_last().push(s.last()) =~= s);
    }
}

/// The trailing segment never contains a line terminator.
pub proof fn lemma_trailing_no_terminator(s: Seq<u8>)
    ensures
        forall|i: int| 0 <= i < trailing(s).len() ==> trailing(s)[i] != LINE_FEED,
    decreases s.len(),
{
    if s.len() == 0 {
    } else if s.last() == LINE_FEED {
    } else {
        lemma_trailing_no_terminator(s.drop_last());
        assert forall|i: int| 0 <= i < trailing(s).len() implies trailing(s)[i] != LINE_FEED by {
            if i < trailing(s.drop_last()).len() {
                assert(trailing(s)[i] == trailing(s.drop_last())[i]);
            } else {
                assert(trailing(s)[i] == s.last());
            }
        }
    }
}

/// Chunk boundaries do not matter: the complete lines of `s + t` are
/// the complete lines of `s` followed by the lines completed once the
/// trailing segment of `s` is continued by `t`, and the new trailing
/// segment depends only on that continuation. This is what lets the
/// reader feed the file in arbitrary chunks without losing,
/// duplicating, or reordering lines.
pub proof fn lemma_split_append(s: Seq<u8>, t: Seq<u8>)
    ensures
        complete_lines(s + t) == complete_lines(s) + complete_lines(trailing(s) + t),
        trailing(s + t) == trailing(trailing(s) + t),
    decreases t.len(),
{
    if t.len() == 0 {
        assert(s + t =~= s);
        assert(trailing(s) + t =~= trailing(s));
        lemma_trailing_no_terminator(s);
        lemma_no_terminator(trailing(s));
        assert(complete_lines(s + t) =~= complete_lines(s) + complete_lines(trailing(s) + t));
    } else {
        let t0 = t.drop_last();
        let c = t.last();
        lemma_split_append(s, t0);
        assert((s + t).drop_last() =~= s + t0);
        assert((s + t).last() == c);
        assert((trailing(s) + t).drop_last() =~= trailing(s) + t0);
        assert((trailing(s) + t).last() == c);
        if c == LINE_FEED {
            assert(complete_lines(s + t) == complete_lines(s + t0).push(trailing(s + t0)));
            assert(complete_lines(trailing(s) + t) == complete_lines(trailing(s) + t0).push(
                trailing(trailing(s) + t0),
            ));
            assert(complete_lines(s + t) =~= complete_lines(s) + complete_lines(trailing(s) + t));
            assert(trailing(s + t) =~= trailing(trailing(s) + t));
        } else {
            assert(complete_lines(s + t) == complete_lines(s + t0));
            assert(trailing(s + t) == trailing(s + t0).push(c));
            assert(complete_lines(trailing(s) + t) == complete_lines(trailing(s) + t0));
            assert(trailing(trailing(s) + t) == trailing(trailing(s) + t0).push(c));
        }
    }
}

} // verus!
