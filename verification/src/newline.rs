//! When an element may open or close its own line.
use vstd::prelude::*;

verus! {

/// Newline logic: all elements try to insert a newline before them (if they
/// are allowed) and end their own line.
#[derive(Clone, Copy, Debug, PartialEq, Eq, Structural)]
pub struct Newline {
    /// Whether a newline should not be inserted before a widget. This is only
    /// for the first widget.
    pub should_not_start_newline_forced: bool,
    /// Whether an element should insert a newline before it.
    pub should_start_newline: bool,
    /// Whether an element should end its own line using a newline. This is
    /// false for blocks that sit within a list.
    pub should_end_newline: bool,
    /// Only false when the widget is the last one.
    pub should_end_newline_forced: bool,
}

impl Newline {
    /// Whether a newline may be inserted after an element.
    pub open spec fn spec_can_insert_end(&self) -> bool {
        self.should_end_newline && self.should_end_newline_forced
    }

    /// Whether a newline may be inserted before an element.
    pub open spec fn spec_can_insert_start(&self) -> bool {
        self.should_start_newline && !self.should_not_start_newline_forced
    }

    /// The state before the first widget: every newline is allowed except one
    /// in front of the very first widget.
    pub fn new() -> (r: Self)
        ensures
            r.should_not_start_newline_forced,
            r.should_start_newline,
            r.should_end_newline,
            r.should_end_newline_forced,
    {
        Newline {
            should_not_start_newline_forced: true,
            should_start_newline: true,
            should_end_newline: true,
            should_end_newline_forced: true,
        }
    }

    #[verifier::when_used_as_spec(spec_can_insert_end)]
    pub fn can_insert_end(&self) -> (r: bool)
        ensures
            r == self.spec_can_insert_end(),
    {
        self.should_end_newline && self.should_end_newline_forced
    }

    #[verifier::when_used_as_spec(spec_can_insert_start)]
    pub fn can_insert_start(&self) -> (r: bool)
        ensures
            r == self.spec_can_insert_start(),
    {
        self.should_start_newline && !self.should_not_start_newline_forced
    }

    /// Whether the element about to be drawn starts with a newline.
    pub fn try_insert_start(&self) -> (r: bool)
        ensures
            r == self.spec_can_insert_start(),
    {
        self.can_insert_start()
    }

    /// Whether the element just drawn ends with a newline.
    pub fn try_insert_end(&self) -> (r: bool)
        ensures
            r == self.spec_can_insert_end(),
    {
        self.can_insert_end()
    }
}

impl Default for Newline {
    fn default() -> (r: Self)
        ensures
            r == Newline::spec_initial(),
    {
        Newline::new()
    }
}

impl Newline {
    pub open spec fn spec_initial() -> Newline {
        Newline {
            should_not_start_newline_forced: true,
            should_start_newline: true,
            should_end_newline: true,
            should_end_newline_forced: true,
        }
    }
}

} // verus!
