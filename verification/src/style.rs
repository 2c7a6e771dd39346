//! The text style that inline tags switch on and off.
use vstd::prelude::*;

verus! {

/// The style of the text being drawn. A heading carries its level counted
/// from 0 (`#` is 0, `######` is 5).
#[derive(Clone, Copy, Debug, PartialEq, Eq, Structural)]
pub struct TextStyle {
    pub heading: Option<u8>,
    pub strong: bool,
    pub emphasis: bool,
    pub strikethrough: bool,
    pub quote: bool,
    pub code: bool,
}

impl TextStyle {
    /// Plain body text.
    pub open spec fn plain() -> TextStyle {
        TextStyle {
            heading: None,
            strong: false,
            emphasis: false,
            strikethrough: false,
            quote: false,
            code: false,
        }
    }
}

impl Default for TextStyle {
    fn default() -> (r: Self)
        ensures
            r == TextStyle::plain(),
    {
        TextStyle {
            heading: None,
            strong: false,
            emphasis: false,
            strikethrough: false,
            quote: false,
            code: false,
        }
    }
}

/// A piece of text with the style it is drawn in.
#[derive(Clone, Debug)]
pub struct TextRun {
    pub text: String,
    pub style: TextStyle,
}

/// The value of a text run: its characters and its style.
pub struct RunView {
    pub text: Seq<char>,
    pub style: TextStyle,
}

impl View for TextRun {
    type V = RunView;

    open spec fn view(&self) -> RunView {
        RunView { text: self.text@, style: self.style }
    }
}

/// The values of a sequence of text runs.
pub open spec fn runs_view(runs: Seq<TextRun>) -> Seq<RunView> {
    runs.map_values(|r: TextRun| r@)
}

impl TextRun {
    /// A copy, equal to `self`.
    pub fn duplicate(&self) -> (r: TextRun)
        ensures
            r == *self,
    {
        TextRun { text: self.text.clone(), style: self.style }
    }
}

} // verus!
