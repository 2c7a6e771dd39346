//! Nesting and numbering of lists.
use vstd::prelude::*;

verus! {

/// The marker drawn in front of a list item.
#[derive(Clone, Copy, Debug, PartialEq, Eq, Structural)]
pub enum ListMarker {
    /// The number of an item in an ordered list.
    Number(u64),
    /// A filled bullet, used at the outermost level.
    Bullet,
    /// A hollow bullet, used in nested unordered lists.
    HollowBullet,
}

/// What to draw when a list item begins.
#[derive(Clone, Copy, Debug, PartialEq, Eq, Structural)]
pub struct ListItemStart {
    /// Whether the item starts on a new line (every item but the first one).
    pub newline_before: bool,
    /// How many indentation steps go before the marker.
    pub indent_levels: usize,
    pub marker: ListMarker,
}

/// The lists that are open: one entry per nesting level, holding the number
/// of the next item for ordered lists.
#[derive(Debug)]
pub struct List {
    pub levels: Vec<Option<u64>>,
    /// Whether an item has been started since the list state was created.
    pub has_list_begun: bool,
}

/// The view of a list state: its levels and whether an item was started.
pub struct ListState {
    pub levels: Seq<Option<u64>>,
    pub begun: bool,
}

impl View for List {
    type V = ListState;

    open spec fn view(&self) -> ListState {
        ListState { levels: self.levels@, begun: self.has_list_begun }
    }
}

impl ListState {
    /// No list is open.
    pub open spec fn empty() -> ListState {
        ListState { levels: Seq::empty(), begun: false }
    }

    /// A new, innermost level was opened.
    pub open spec fn start_level(self, first: Option<u64>) -> ListState {
        ListState { levels: self.levels.push(first), begun: self.begun }
    }

    /// The innermost level was closed (nothing happens when none is open).
    pub open spec fn end_level(self) -> ListState {
        ListState {
            levels: if self.levels.len() == 0 {
                self.levels
            } else {
                self.levels.drop_last()
            },
            begun: self.begun,
        }
    }

    /// An item can be started: some level is open, and an ordered level can
    /// still count one further.
    pub open spec fn can_start_item(self) -> bool {
        &&& self.levels.len() > 0
        &&& (self.levels.last() matches Some(n) ==> n < u64::MAX)
    }

    /// The marker of the next item at the innermost level.
    pub open spec fn next_marker(self) -> ListMarker {
        match self.levels.last() {
            Some(n) => ListMarker::Number(n),
            None => if self.levels.len() > 1 {
                ListMarker::HollowBullet
            } else {
                ListMarker::Bullet
            },
        }
    }

    /// The state after an item was started at the innermost level.
    pub open spec fn start_item(self) -> ListState {
        ListState {
            levels: match self.levels.last() {
                Some(n) => self.levels.update(self.levels.len() - 1, Some((n + 1) as u64)),
                None => self.levels,
            },
            begun: true,
        }
    }

    /// What is drawn when an item is started at the innermost level.
    pub open spec fn item_start(self) -> ListItemStart {
        ListItemStart {
            newline_before: self.begun,
            indent_levels: (self.levels.len() - 1) as usize,
            marker: self.next_marker(),
        }
    }
}

impl List {
    /// No list is open and no item has been started.
    pub fn new() -> (r: List)
        ensures
            r@ == ListState::empty(),
    {
        List { levels: Vec::new(), has_list_begun: false }
    }

    /// Opens an ordered list whose first item has number `start_number`.
    pub fn start_level_with_number(&mut self, start_number: u64)
        ensures
            final(self)@ == old(self)@.start_level(Some(start_number)),
    {
        self.levels.push(Some(start_number));
    }

    /// Opens an unordered list.
    pub fn start_level_without_number(&mut self)
        ensures
            final(self)@ == old(self)@.start_level(None),
    {
        self.levels.push(None);
    }

    pub fn is_inside_a_list(&self) -> (r: bool)
        ensures
            r == (self@.levels.len() > 0),
    {
        self.levels.len() > 0
    }

    /// Whether exactly one level is open.
    pub fn is_last_level(&self) -> (r: bool)
        ensures
            r == (self@.levels.len() == 1),
    {
        self.levels.len() == 1
    }

    /// Whether `start_item` may be called.
    pub fn can_start_item(&self) -> (r: bool)
        ensures
            r == self@.can_start_item(),
    {
        let n = self.levels.len();
        if n == 0 {
            false
        } else {
            match self.levels[n - 1] {
                Some(k) => k < u64::MAX,
                None => true,
            }
        }
    }

    /// Starts an item at the innermost level: says what to draw, and counts
    /// the item in an ordered list.
    pub fn start_item(&mut self) -> (r: ListItemStart)
        requires
            old(self)@.can_start_item(),
        ensures
            r == old(self)@.item_start(),
            final(self)@ == old(self)@.start_item(),
    {
        let newline_before = self.has_list_begun;
        self.has_list_begun = true;
        let len = self.levels.len();
        let last = len - 1;
        let marker = match self.levels[last] {
            Some(k) => {
                self.levels.set(last, Some(k + 1));
                ListMarker::Number(k)
            },
            None => if len > 1 {
                ListMarker::HollowBullet
            } else {
                ListMarker::Bullet
            },
        };
        ListItemStart { newline_before, indent_levels: last, marker }
    }

    /// Closes the innermost level. Returns whether a newline follows, which
    /// is when no level is left open and `insert_newline` allows it.
    pub fn end_level(&mut self, insert_newline: bool) -> (r: bool)
        ensures
            final(self)@ == old(self)@.end_level(),
            r == (final(self)@.levels.len() == 0 && insert_newline),
    {
        self.levels.pop();
        self.levels.len() == 0 && insert_newline
    }
}

/// Opening a level and closing it again gives back the levels that were open.
pub proof fn lemma_level_roundtrip(s: ListState, first: Option<u64>)
    ensures
        s.start_level(first).end_level() == s,
{
    assert(s.start_level(first).levels.drop_last() =~= s.levels);
}

/// An ordered list that starts at `n` numbers its items `n`, `n + 1`, ...:
/// after `k` items at that level, the next item shows `n + k`.
pub proof fn lemma_numbering(s: ListState, n: u64, k: nat)
    requires
        n + k <= u64::MAX,
    ensures
        items_started(s.start_level(Some(n)), k).levels.last() == Some((n + k) as u64),
        items_started(s.start_level(Some(n)), k).levels.len() == s.levels.len() + 1,
        items_started(s.start_level(Some(n)), k).levels.drop_last() == s.levels,
    decreases k,
{
    if k > 0 {
        lemma_numbering(s, n, (k - 1) as nat);
        let p = items_started(s.start_level(Some(n)), (k - 1) as nat);
        assert(p.start_item().levels.drop_last() =~= p.levels.drop_last());
    } else {
        assert(s.start_level(Some(n)).levels.drop_last() =~= s.levels);
    }
}

/// The state after `k` items were started at the innermost level.
pub open spec fn items_started(s: ListState, k: nat) -> ListState
    decreases k,
{
    if k == 0 {
        s
    } else {
        items_started(s, (k - 1) as nat).start_item()
    }
}

} // verus!
