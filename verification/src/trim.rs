//! Removing the whitespace around a piece of text, as `str::trim_start` and
//! `str::trim_end` do: whitespace is the Unicode `White_Space` property.
use vstd::prelude::*;

verus! {

/// The characters with the Unicode `White_Space` property.
pub open spec fn is_white_space(c: char) -> bool {
    let u = c as u32;
    ||| 0x09 <= u <= 0x0d
    ||| u == 0x20
    ||| u == 0x85
    ||| u == 0xa0
    ||| u == 0x1680
    ||| 0x2000 <= u <= 0x200a
    ||| u == 0x2028
    ||| u == 0x2029
    ||| u == 0x202f
    ||| u == 0x205f
    ||| u == 0x3000
}

/// `s` without its leading whitespace.
pub open spec fn trim_start_spec(s: Seq<char>) -> Seq<char>
    decreases s.len(),
{
    if s.len() > 0 && is_white_space(s[0]) {
        trim_start_spec(s.drop_first())
    } else {
        s
    }
}

/// `s` without its trailing whitespace.
pub open spec fn trim_end_spec(s: Seq<char>) -> Seq<char>
    decreases s.len(),
{
    if s.len() > 0 && is_white_space(s.last()) {
        trim_end_spec(s.drop_last())
    } else {
        s
    }
}

/// Whether `c` has the Unicode `White_Space` property.
pub fn is_whitespace(c: char) -> (r: bool)
    ensures
        r == is_white_space(c),
{
    let u = c as u32;
    (0x09 <= u && u <= 0x0d) || u == 0x20 || u == 0x85 || u == 0xa0 || u == 0x1680 || (0x2000
        <= u && u <= 0x200a) || u == 0x2028 || u == 0x2029 || u == 0x202f || u == 0x205f || u
        == 0x3000
}

/// Trimming the front of a suffix that starts after leading whitespace gives
/// the same result.
proof fn lemma_trim_start_skip(s: Seq<char>, i: int)
    requires
        0 <= i <= s.len(),
        forall|j: int| 0 <= j < i ==> is_white_space(#[trigger] s[j]),
    ensures
        trim_start_spec(s) == trim_start_spec(s.subrange(i, s.len() as int)),
    decreases i,
{
    if i == 0 {
        assert(s.subrange(0, s.len() as int) =~= s);
    } else {
        let t = s.drop_first();
        assert forall|j: int| 0 <= j < i - 1 implies is_white_space(#[trigger] t[j]) by {
            assert(t[j] == s[j + 1]);
        }
        lemma_trim_start_skip(t, i - 1);
        assert(t.subrange(i - 1, t.len() as int) =~= s.subrange(i, s.len() as int));
    }
}

/// Trimming the back of a prefix that ends before trailing whitespace gives
/// the same result.
proof fn lemma_trim_end_skip(s: Seq<char>, k: int)
    requires
        0 <= k <= s.len(),
        forall|j: int| k <= j < s.len() ==> is_white_space(#[trigger] s[j]),
    ensures
        trim_end_spec(s) == trim_end_spec(s.subrange(0, k)),
    decreases s.len() - k,
{
    if k == s.len() {
        assert(s.subrange(0, k) =~= s);
    } else {
        let t = s.drop_last();
        assert forall|j: int| k <= j < t.len() implies is_white_space(#[trigger] t[j]) by {
            assert(t[j] == s[j]);
        }
        lemma_trim_end_skip(t, k);
        assert(t.subrange(0, k) =~= s.subrange(0, k));
    }
}

/// `s` without its leading whitespace.
pub fn trim_start(s: &str) -> (r: String)
    ensures
        r@ == trim_start_spec(s@),
{
    let n = s.unicode_len();
    let mut i: usize = 0;
    while i < n && is_whitespace(s.get_char(i))
        invariant
            n == s@.len(),
            0 <= i <= n,
            forall|j: int| 0 <= j < i ==> is_white_space(#[trigger] s@[j]),
        decreases n - i,
    {
        i = i + 1;
    }
    proof {
        lemma_trim_start_skip(s@, i as int);
        let rest = s@.subrange(i as int, n as int);
        if rest.len() > 0 {
            assert(rest[0] == s@[i as int]);
        }
    }
    let rest = s.substring_char(i, n);
    String::from_str(rest)
}

/// `s` without its trailing whitespace.
pub fn trim_end(s: &str) -> (r: String)
    ensures
        r@ == trim_end_spec(s@),
{
    let n = s.unicode_len();
    let mut k: usize = n;
    while k > 0 && is_whitespace(s.get_char(k - 1))
        invariant
            n == s@.len(),
            0 <= k <= n,
            forall|j: int| k <= j < n ==> is_white_space(#[trigger] s@[j]),
        decreases k,
    {
        k = k - 1;
    }
    proof {
        lemma_trim_end_skip(s@, k as int);
        let head = s@.subrange(0, k as int);
        if head.len() > 0 {
            assert(head.last() == s@[k - 1]);
        }
    }
    let head = s.substring_char(0, k);
    String::from_str(head)
}

/// Whether `s` holds a character that is not whitespace.
pub open spec fn has_content(s: Seq<char>) -> bool {
    exists|j: int| 0 <= j < s.len() && !is_white_space(#[trigger] s[j])
}

/// Trimming the front drops the whitespace before the first character that
/// is not whitespace, or all of `s` when there is none.
proof fn lemma_trim_start_at(s: Seq<char>) -> (i: int)
    ensures
        0 <= i <= s.len(),
        trim_start_spec(s) == s.subrange(i, s.len() as int),
        forall|j: int| 0 <= j < i ==> is_white_space(#[trigger] s[j]),
        i < s.len() ==> !is_white_space(s[i]),
    decreases s.len(),
{
    if s.len() > 0 && is_white_space(s[0]) {
        let i1 = lemma_trim_start_at(s.drop_first());
        assert(s.drop_first().subrange(i1, s.drop_first().len() as int) =~= s.subrange(i1 + 1, s.len() as int));
        assert forall|j: int| 0 <= j < i1 + 1 implies is_white_space(#[trigger] s[j]) by {
            if j > 0 {
                assert(s[j] == s.drop_first()[j - 1]);
            }
        }
        i1 + 1
    } else {
        assert(s.subrange(0, s.len() as int) =~= s);
        0
    }
}

/// Trimming the back drops the whitespace after the last character that is
/// not whitespace, or all of `s` when there is none.
proof fn lemma_trim_end_at(s: Seq<char>) -> (k: int)
    ensures
        0 <= k <= s.len(),
        trim_end_spec(s) == s.subrange(0, k),
        forall|j: int| k <= j < s.len() ==> is_white_space(#[trigger] s[j]),
        k > 0 ==> !is_white_space(s[k - 1]),
    decreases s.len(),
{
    if s.len() > 0 && is_white_space(s.last()) {
        let k1 = lemma_trim_end_at(s.drop_last());
        assert(s.drop_last().subrange(0, k1) =~= s.subrange(0, k1));
        assert forall|j: int| k1 <= j < s.len() implies is_white_space(#[trigger] s[j]) by {
            if j < s.len() - 1 {
                assert(s[j] == s.drop_last()[j]);
            }
        }
        k1
    } else {
        assert(s.subrange(0, s.len() as int) =~= s);
        s.len() as int
    }
}

/// Trimming the front leaves some text exactly when `s` has content, and
/// keeps the content.
pub proof fn lemma_trim_start_content(s: Seq<char>)
    ensures
        trim_start_spec(s).len() > 0 <==> has_content(s),
        has_content(trim_start_spec(s)) == has_content(s),
{
    let i = lemma_trim_start_at(s);
    let t = s.subrange(i, s.len() as int);
    if has_content(s) {
        let j = choose|j: int| 0 <= j < s.len() && !is_white_space(#[trigger] s[j]);
        assert(t[j - i] == s[j]);
    }
    if has_content(t) {
        let j = choose|j: int| 0 <= j < t.len() && !is_white_space(#[trigger] t[j]);
        assert(s[j + i] == t[j]);
    }
}

/// Trimming the back leaves some text exactly when `s` has content, and
/// keeps the content.
pub proof fn lemma_trim_end_content(s: Seq<char>)
    ensures
        trim_end_spec(s).len() > 0 <==> has_content(s),
        has_content(trim_end_spec(s)) == has_content(s),
{
    let k = lemma_trim_end_at(s);
    let t = s.subrange(0, k);
    if has_content(s) {
        let j = choose|j: int| 0 <= j < s.len() && !is_white_space(#[trigger] s[j]);
        assert(t[j] == s[j]);
    }
    if has_content(t) {
        let j = choose|j: int| 0 <= j < t.len() && !is_white_space(#[trigger] t[j]);
        assert(s[j] == t[j]);
    }
}

/// Trimming the front and trimming the back can be done in either order.
pub proof fn lemma_trim_commute(s: Seq<char>)
    ensures
        trim_start_spec(trim_end_spec(s)) == trim_end_spec(trim_start_spec(s)),
{
    let i = lemma_trim_start_at(s);
    let k = lemma_trim_end_at(s);
    let e = s.subrange(0, k);
    let b = s.subrange(i, s.len() as int);
    let i2 = lemma_trim_start_at(e);
    let k2 = lemma_trim_end_at(b);
    if i < s.len() {
        // `s[i]` is not whitespace, so the back is trimmed after it.
        assert(k > i) by {
            if k <= i {
                assert(is_white_space(s[i]));
            }
        }
        assert(i2 == i) by {
            if i2 < i {
                assert(e[i2] == s[i2]);
            } else if i2 > i {
                assert(e[i] == s[i]);
            }
        }
        assert(k2 == k - i) by {
            if k2 < k - i {
                assert(b[k - i - 1] == s[k - 1]);
            } else if k2 > k - i {
                assert(b[k2 - 1] == s[k2 - 1 + i]);
            }
        }
        assert(e.subrange(i, k) =~= b.subrange(0, k - i));
    } else {
        assert(k == 0) by {
            if k > 0 {
                assert(is_white_space(s[k - 1]));
            }
        }
        assert(e.len() == 0);
        assert(b.len() == 0);
        assert(e.subrange(i2, e.len() as int) =~= b.subrange(0, k2));
    }
}

/// Trimming the front twice removes nothing more than trimming it once.
pub proof fn lemma_trim_start_idempotent(s: Seq<char>)
    ensures
        trim_start_spec(trim_start_spec(s)) == trim_start_spec(s),
    decreases s.len(),
{
    if s.len() > 0 && is_white_space(s[0]) {
        lemma_trim_start_idempotent(s.drop_first());
    }
}

/// Trimming the back twice removes nothing more than trimming it once.
pub proof fn lemma_trim_end_idempotent(s: Seq<char>)
    ensures
        trim_end_spec(trim_end_spec(s)) == trim_end_spec(s),
    decreases s.len(),
{
    if s.len() > 0 && is_white_space(s.last()) {
        lemma_trim_end_idempotent(s.drop_last());
    }
}

} // verus!
