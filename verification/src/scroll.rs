//! Scrolling: the split points where drawing may start or stop, and which
//! events fall inside the visible part of a document.
use vstd::prelude::*;

verus! {

/// Whether a split point for the event with this index is recorded.
pub open spec fn has_split_point<P>(s: Seq<(usize, P, P)>, index: usize) -> bool {
    exists|i: int| 0 <= i < s.len() && (#[trigger] s[i]).0 == index
}

/// The split points after recording one for `index`: unchanged when one for
/// that index is recorded already, else with the new one at the end.
pub open spec fn with_split_point<P>(s: Seq<(usize, P, P)>, index: usize, start: P, end: P) -> Seq<
    (usize, P, P),
> {
    if has_split_point(s, index) {
        s
    } else {
        s.push((index, start, end))
    }
}

/// Records the start and end positions of the event with this index as a
/// split point, unless one is recorded for that index already.
pub fn record_split_point<P>(points: &mut Vec<(usize, P, P)>, index: usize, start: P, end: P)
    ensures
        final(points)@ == with_split_point(old(points)@, index, start, end),
{
    let mut i: usize = 0;
    while i < points.len()
        invariant
            i <= points.len(),
            points@ == old(points)@,
            forall|j: int| 0 <= j < i ==> (#[trigger] points@[j]).0 != index,
        decreases points.len() - i,
    {
        if points[i].0 == index {
            assert(has_split_point(points@, index));
            return;
        }
        i = i + 1;
    }
    points.push((index, start, end));
}

/// Recording the same split point twice records it once.
pub proof fn lemma_split_point_once<P>(s: Seq<(usize, P, P)>, index: usize, a: P, b: P, c: P, d: P)
    ensures
        with_split_point(with_split_point(s, index, a, b), index, c, d) == with_split_point(
            s,
            index,
            a,
            b,
        ),
{
    if !has_split_point(s, index) {
        let t = s.push((index, a, b));
        assert(t[s.len() as int].0 == index);
    }
}

/// How many of the flags are set.
pub open spec fn count_set(f: Seq<bool>) -> nat
    decreases f.len(),
{
    if f.len() == 0 {
        0
    } else {
        count_set(f.drop_last()) + if f.last() {
            1nat
        } else {
            0nat
        }
    }
}

/// Counting the set flags of a sequence extended by one flag.
proof fn lemma_count_prefix(f: Seq<bool>, i: int)
    requires
        0 <= i < f.len(),
    ensures
        count_set(f.subrange(0, i + 1)) == count_set(f.subrange(0, i)) + if f[i] {
            1nat
        } else {
            0nat
        },
{
    assert(f.subrange(0, i + 1).drop_last() =~= f.subrange(0, i));
}

/// A prefix holds no more set flags than the whole.
proof fn lemma_count_prefix_le(f: Seq<bool>, i: int)
    requires
        0 <= i <= f.len(),
    ensures
        count_set(f.subrange(0, i)) <= count_set(f),
    decreases f.len() - i,
{
    if i == f.len() {
        assert(f.subrange(0, i) =~= f);
    } else {
        lemma_count_prefix(f, i);
        lemma_count_prefix_le(f, i + 1);
    }
}

/// The position of the set flag with `n` set flags before it, if there is
/// one (the `n`-th set flag, counting from 0).
pub fn nth_set(flags: &Vec<bool>, n: usize) -> (r: Option<usize>)
    ensures
        r matches Some(i) ==> i < flags.len() && flags@[i as int] && count_set(
            flags@.subrange(0, i as int),
        ) == n,
        r is None <==> count_set(flags@) <= n,
{
    let mut seen: usize = 0;
    let mut i: usize = 0;
    while i < flags.len()
        invariant
            i <= flags.len(),
            seen == count_set(flags@.subrange(0, i as int)),
            seen <= n,
        decreases flags.len() - i,
    {
        proof {
            lemma_count_prefix(flags@, i as int);
        }
        if flags[i] {
            if seen == n {
                proof {
                    lemma_count_prefix_le(flags@, i + 1);
                }
                return Some(i);
            }
            seen = seen + 1;
        }
        i = i + 1;
    }
    assert(flags@.subrange(0, i as int) =~= flags@);
    None
}

/// How many of the flags from position `i` on are set.
pub open spec fn count_set_from(f: Seq<bool>, i: int) -> nat {
    count_set(f.subrange(i, f.len() as int))
}

/// Counting the set flags of a suffix extended by one flag at its front.
proof fn lemma_count_suffix(f: Seq<bool>, i: int)
    requires
        0 <= i < f.len(),
    ensures
        count_set_from(f, i) == count_set_from(f, i + 1) + if f[i] {
            1nat
        } else {
            0nat
        },
    decreases f.len() - i,
{
    let s = f.subrange(i, f.len() as int);
    if i + 1 == f.len() {
        assert(s.drop_last() =~= Seq::<bool>::empty());
        assert(f.subrange(i + 1, f.len() as int) =~= Seq::<bool>::empty());
    } else {
        let g = f.drop_last();
        lemma_count_suffix(g, i);
        assert(s.drop_last() =~= g.subrange(i, g.len() as int));
        assert(f.subrange(i + 1, f.len() as int).drop_last() =~= g.subrange(i + 1, g.len() as int));
    }
}

/// A suffix holds no more set flags than the whole.
proof fn lemma_count_suffix_le(f: Seq<bool>, i: int)
    requires
        0 <= i <= f.len(),
    ensures
        count_set_from(f, i) <= count_set(f),
    decreases i,
{
    if i == 0 {
        assert(f.subrange(0, f.len() as int) =~= f);
    } else {
        lemma_count_suffix(f, i - 1);
        lemma_count_suffix_le(f, i - 1);
    }
}

/// The position of the set flag with `n` set flags after it, if there is
/// one (the `n`-th set flag, counting from the back and from 0).
pub fn nth_set_back(flags: &Vec<bool>, n: usize) -> (r: Option<usize>)
    ensures
        r matches Some(i) ==> i < flags.len() && flags@[i as int] && count_set_from(
            flags@,
            i + 1,
        ) == n,
        r is None <==> count_set(flags@) <= n,
{
    let mut seen: usize = 0;
    let mut i: usize = flags.len();
    assert(flags@.subrange(flags.len() as int, flags.len() as int) =~= Seq::<bool>::empty());
    while i > 0
        invariant
            i <= flags.len(),
            seen == count_set_from(flags@, i as int),
            seen <= n,
        decreases i,
    {
        proof {
            lemma_count_suffix(flags@, i - 1);
        }
        if flags[i - 1] {
            if seen == n {
                proof {
                    lemma_count_suffix_le(flags@, i - 1);
                }
                return Some(i - 1);
            }
            seen = seen + 1;
        }
        i = i - 1;
    }
    assert(flags@.subrange(0, flags.len() as int) =~= flags@);
    None
}

/// The window of events to draw when scrolled: it starts at the split
/// point before the last one that ends above the visible part (or at 0),
/// and ends at the split point after the first one that starts below it
/// (`None`: at the end of the document). `split_index` holds the event
/// index of each split point; `ends_above` and `starts_below` say, per split
/// point, where it lies. Returns the position of the starting split point
/// (if any), the first event and the end of the window.
pub fn scroll_window(
    split_index: &Vec<usize>,
    ends_above: &Vec<bool>,
    starts_below: &Vec<bool>,
) -> (r: (Option<usize>, usize, Option<usize>))
    requires
        split_index.len() == ends_above.len(),
        split_index.len() == starts_below.len(),
    ensures
        r.0 matches Some(k) ==> k < split_index.len() && ends_above@[k as int] && count_set_from(
            ends_above@,
            k + 1,
        ) == 1 && r.1 == split_index@[k as int],
        r.0 is None <==> count_set(ends_above@) <= 1,
        r.0 is None ==> r.1 == 0,
        r.2 is None <==> count_set(starts_below@) <= 1,
        r.2 matches Some(e) ==> exists|k: int|
            0 <= k < split_index.len() && starts_below@[k] && count_set(
                starts_below@.subrange(0, k),
            ) == 1 && e == split_index@[k],
{
    let first = nth_set_back(ends_above, 1);
    let first_event = match first {
        Some(k) => split_index[k],
        None => 0,
    };
    let last_event = match nth_set(starts_below, 1) {
        Some(k) => Some(split_index[k]),
        None => None,
    };
    (first, first_event, last_event)
}

/// The range of events that a window from `first` to `last` covers within
/// `num_events` events, or `None` when `last` comes before `first`.
pub fn event_window(first: usize, last: usize, num_events: usize) -> (r: Option<(usize, usize)>)
    ensures
        r is None <==> last < first,
        r matches Some((s, e)) ==> s == (if first < num_events {
            first
        } else {
            num_events
        }) && e == (if last < num_events {
            last
        } else {
            num_events
        }) && s <= e <= num_events,
{
    if last < first {
        None
    } else {
        let s = if first < num_events {
            first
        } else {
            num_events
        };
        let e = if last < num_events {
            last
        } else {
            num_events
        };
        Some((s, e))
    }
}

} // verus!
