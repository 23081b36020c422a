use vstd::prelude::*;

verus! {

/// A color/style tag attached to a whole line. How a tag is rendered
/// (ANSI escape codes or anything else) is the surrounding program's
/// concern; the pipeline only tracks which style was chosen.
#[derive(Clone, Copy, Debug, PartialEq, Eq, Structural)]
pub struct Style {
    pub code: u32,
}

/// One line of text after classification: either left plain, or wrapped
/// in the styling markers of one `Style`. The character content of the
/// line is carried unchanged in either case, so stripping the styling
/// always recovers the original line.
#[derive(Clone, Debug, PartialEq, Eq)]
pub enum StyledLine {
    Plain { text: Vec<u8> },
    Styled { style: Style, text: Vec<u8> },
}

impl StyledLine {
    /// The character content of the line, without any styling.
    pub open spec fn text_spec(self) -> Seq<u8> {
        match self {
            StyledLine::Plain { text } => text@,
            StyledLine::Styled { style, text } => text@,
        }
    }

    /// The style the line was wrapped in, if any.
    pub open spec fn style_spec(self) -> Option<Style> {
        match self {
            StyledLine::Plain { .. } => None,
            StyledLine::Styled { style, .. } => Some(style),
        }
    }

    /// Strip all styling markers from the line, recovering exactly the
    /// character content that went into classification.
    pub fn strip(&self) -> (r: &Vec<u8>)
        ensures
            r@ == self.text_spec(),
    {
        match self {
            StyledLine::Plain { text } => text,
            StyledLine::Styled { text, .. } => text,
        }
    }
}

} // verus!
