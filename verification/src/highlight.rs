use vstd::prelude::*;

use crate::style::{Style, StyledLine};

verus! {

/// A textual pattern a rule can match a line against: a required line
/// prefix, or a substring anywhere in the line. An empty pattern
/// matches every line, so a catch-all rule can stand last.
pub enum Pattern {
    Prefix { bytes: Vec<u8> },
    Contains { bytes: Vec<u8> },
}

/// One highlighting rule: a pattern plus the style to wrap a line in
/// when the pattern matches the line.
pub struct Rule {
    pub pattern: Pattern,
    pub style: Style,
}

/// The ordered rule sequence, constructed once from configuration and
/// read-only thereafter. Earlier rules take precedence.
pub struct HighlightSet {
    pub rules: Vec<Rule>,
}

/// Whether `needle` occurs in `hay` starting at position `i`.
pub open spec fn occurs_at(needle: Seq<u8>, hay: Seq<u8>, i: int) -> bool {
    0 <= i && i + needle.len() <= hay.len() && needle =~= hay.subrange(i, i + needle.len())
}

/// Whether `needle` occurs somewhere in `hay`.
pub open spec fn occurs_in(needle: Seq<u8>, hay: Seq<u8>) -> bool {
    exists|i: int| occurs_at(needle, hay, i)
}

/// Whether a pattern matches a line.
pub open spec fn pattern_matches(pattern: Pattern, line: Seq<u8>) -> bool {
    match pattern {
        Pattern::Prefix { bytes } => bytes@.is_prefix_of(line),
        Pattern::Contains { bytes } => occurs_in(bytes@, line),
    }
}

/// The style the ordered rule sequence assigns to a line: the style of
/// the first rule whose pattern matches the line, if any.
pub open spec fn first_match(rules: Seq<Rule>, line: Seq<u8>) -> Option<Style>
    decreases rules.len(),
{
    if rules.len() == 0 {
        None
    } else if pattern_matches(rules[0].pattern, line) {
        Some(rules[0].style)
    } else {
        first_match(rules.drop_first(), line)
    }
}

/// What classification of `line` under `rules` promises of its result:
/// the character content is carried unchanged, and the style is the one
/// of the first matching rule, or absent when no rule matches.
pub open spec fn is_classification(rules: Seq<Rule>, line: Seq<u8>, out: StyledLine) -> bool {
    out.text_spec() == line && out.style_spec() == first_match(rules, line)
}

/// True when `out` is, element for element, the classification of the
/// line texts in `texts` under `rules`.
pub open spec fn classifies(rules: Seq<Rule>, texts: Seq<Seq<u8>>, out: Seq<StyledLine>) -> bool {
    &&& out.len() == texts.len()
    &&& forall|i: int|
        0 <= i < out.len() ==> is_classification(rules, texts[i], #[trigger] out[i])
}

/// Whether `pattern` is a prefix of `line`.
pub fn starts_with(line: &Vec<u8>, pattern: &Vec<u8>) -> (r: bool)
    ensures
        r == pattern@.is_prefix_of(line@),
{
    if pattern.len() > line.len() {
        return false;
    }
    let mut i: usize = 0;
    while i < pattern.len()
        invariant
            i <= pattern@.len() <= line@.len(),
            forall|j: int| 0 <= j < i ==> pattern@[j] == line@[j],
        decreases pattern@.len() - i,
    {
        if pattern[i] != line[i] {
            proof {
                assert(pattern@[i as int] != line@.subrange(0, pattern@.len() as int)[i as int]);
            }
            return false;
        }
        i += 1;
    }
    proof {
        assert(pattern@ =~= line@.subrange(0, pattern@.len() as int));
    }
    true
}

/// Whether `pattern` occurs in `line` starting at `at`.
fn matches_at(line: &Vec<u8>, pattern: &Vec<u8>, at: usize) -> (r: bool)
    requires
        at + pattern@.len() <= line@.len(),
    ensures
        r == occurs_at(pattern@, line@, at as int),
{
    let n = line.len();
    let mut i: usize = 0;
    while i < pattern.len()
        invariant
            i <= pattern@.len(),
            n == line@.len(),
            at + pattern@.len() <= n,
            forall|j: int| 0 <= j < i ==> pattern@[j] == line@[at + j],
        decreases pattern@.len() - i,
    {
        if pattern[i] != line[at + i] {
            proof {
                assert(pattern@[i as int] != line@.subrange(
                    at as int,
                    at + pattern@.len(),
                )[i as int]);
            }
            return false;
        }
        i += 1;
    }
    proof {
        assert(pattern@ =~= line@.subrange(at as int, at + pattern@.len()));
    }
    true
}

/// Whether `pattern` occurs anywhere in `line`.
pub fn has_substring(line: &Vec<u8>, pattern: &Vec<u8>) -> (r: bool)
    ensures
        r == occurs_in(pattern@, line@),
{
    if pattern.len() == 0 {
        proof {
            assert(occurs_at(pattern@, line@, 0));
        }
        return true;
    }
    if pattern.len() > line.len() {
        proof {
            assert forall|k: int| !occurs_at(pattern@, line@, k) by {}
        }
        return false;
    }
    let count = line.len() - pattern.len() + 1;
    let mut i: usize = 0;
    while i < count
        invariant
            i <= count,
            count == line@.len() - pattern@.len() + 1,
            forall|k: int| 0 <= k < i ==> !occurs_at(pattern@, line@, k),
        decreases count - i,
    {
        if matches_at(line, pattern, i) {
            return true;
        }
        i += 1;
    }
    proof {
        assert forall|k: int| !occurs_at(pattern@, line@, k) by {
            if 0 <= k && k + pattern@.len() <= line@.len() {
                assert(k < i);
            }
        }
    }
    false
}

/// Whether a pattern matches a line.
pub fn pattern_match(pattern: &Pattern, line: &Vec<u8>) -> (r: bool)
    ensures
        r == pattern_matches(*pattern, line@),
{
    match pattern {
        Pattern::Prefix { bytes } => starts_with(line, bytes),
        Pattern::Contains { bytes } => has_substring(line, bytes),
    }
}

/// Copy the bytes of a line.
fn copy_bytes(src: &Vec<u8>) -> (r: Vec<u8>)
    ensures
        r@ == src@,
{
    let mut r: Vec<u8> = Vec::new();
    let mut i: usize = 0;
    while i < src.len()
        invariant
            i <= src@.len(),
            r@ == src@.subrange(0, i as int),
        decreases src@.len() - i,
    {
        r.push(src[i]);
        proof {
            assert(src@.subrange(0, i + 1) =~= src@.subrange(0, i as int).push(src@[i as int]));
        }
        i += 1;
    }
    proof {
        assert(src@.subrange(0, src@.len() as int) =~= src@);
    }
    r
}

/// Classify one line against the ordered rule sequence: wrap it in the
/// style of the first rule whose pattern matches, or return it plain
/// when no rule matches. The character content is preserved exactly.
pub fn classify(line: &Vec<u8>, rules: &HighlightSet) -> (r: StyledLine)
    ensures
        is_classification(rules.rules@, line@, r),
{
    let n = rules.rules.len();
    let mut i: usize = 0;
    proof {
        assert(rules.rules@.skip(0) =~= rules.rules@);
    }
    while i < n
        invariant
            i <= n,
            n == rules.rules@.len(),
            first_match(rules.rules@, line@) == first_match(rules.rules@.skip(i as int), line@),
        decreases n - i,
    {
        if pattern_match(&rules.rules[i].pattern, line) {
            proof {
                assert(rules.rules@.skip(i as int)[0] == rules.rules@[i as int]);
            }
            return StyledLine::Styled { style: rules.rules[i].style, text: copy_bytes(line) };
        }
        proof {
            assert(rules.rules@.skip(i as int).drop_first() =~= rules.rules@.skip(i + 1));
            assert(rules.rules@.skip(i as int)[0] == rules.rules@[i as int]);
        }
        i += 1;
    }
    proof {
        assert(rules.rules@.skip(n as int).len() == 0);
    }
    StyledLine::Plain { text: copy_bytes(line) }
}

/// The highlight processor: owns the ordered rule set for the lifetime
/// of the pipeline and classifies one line at a time. It is the seam
/// where cross-line state would live if a rule set needed lookback; the
/// rule sets here are line-local, so it delegates to `classify`.
pub struct HighlightProcessor {
    pub rules: HighlightSet,
}

impl HighlightProcessor {
    /// Build a processor around an already-constructed rule sequence.
    pub fn new(rules: HighlightSet) -> (p: Self)
        ensures
            p.rules.rules@ == rules.rules@,
    {
        HighlightProcessor { rules }
    }

    /// Classify one line under the processor's rule set.
    pub fn process(&self, line: &Vec<u8>) -> (r: StyledLine)
        ensures
            is_classification(self.rules.rules@, line@, r),
    {
        classify(line, &self.rules)
    }
}

/// Round-trip law: classification never touches the character content,
/// so stripping the styling from any classified line gives back exactly
/// the line that was classified.
pub proof fn lemma_strip_round_trip(rules: Seq<Rule>, line: Seq<u8>, out: StyledLine)
    requires
        is_classification(rules, line, out),
    ensures
        out.text_spec() == line,
{
}

/// Idempotence law: reclassifying the stripped text of a classified
/// line picks the same style and the same content as the original
/// classification, so strip-then-classify is a fixed point.
pub proof fn lemma_classify_idempotent(
    rules: Seq<Rule>,
    line: Seq<u8>,
    once: StyledLine,
    again: StyledLine,
)
    requires
        is_classification(rules, line, once),
        is_classification(rules, once.text_spec(), again),
    ensures
        again.text_spec() == once.text_spec(),
        again.style_spec() == once.style_spec(),
{
}

} // verus!
