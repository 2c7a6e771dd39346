//! Alerts: a block quote whose first paragraph starts with a marker such as
//! `[!NOTE]` is drawn as that alert, without the marker. The marker is
//! looked up upper-cased, so `[!note]` works as well.
use vstd::prelude::*;
use crate::events::{MdEvent, MdTag, SpannedEvent};

verus! {

/// The upper-case form of a text, as `str::to_uppercase` gives it (by the
/// Unicode `Uppercase` property, characters may become several).
pub uninterp spec fn uppercase_of(s: Seq<char>) -> Seq<char>;

/// `str::to_uppercase`: the text in upper case. Its result is a function of
/// the text alone; what it is, character by character, is left to Unicode
/// and not stated here.
#[verifier::external_body]
fn to_uppercase(s: &str) -> (r: String)
    ensures
        r@ == uppercase_of(s@),
{
    s.to_uppercase()
}

/// The marker of an alert as it stands in the text: `[!` and its identifier
/// and `]`.
pub open spec fn alert_key(id: Seq<char>) -> Seq<char> {
    seq!['[', '!'] + id + seq![']']
}

/// The alert whose marker is `upper`: the last one with that marker, as a
/// later alert with the same identifier replaces an earlier one.
pub open spec fn alert_match(upper: Seq<char>, alerts: Seq<Seq<char>>) -> Option<usize>
    decreases alerts.len(),
{
    if alerts.len() == 0 {
        None
    } else if alert_key(alerts.last()) == upper {
        Some((alerts.len() - 1) as usize)
    } else {
        alert_match(upper, alerts.drop_last())
    }
}

/// The identifiers of the alerts, as sequences of characters.
pub open spec fn alerts_view(alerts: Seq<String>) -> Seq<Seq<char>> {
    alerts.map_values(|a: String| a@)
}

/// The alert that a block quote's events announce: one whose marker, after
/// upper-casing, is the text that follows the opening of its first
/// paragraph.
pub open spec fn quote_alert(col: Seq<SpannedEvent>, alerts: Seq<Seq<char>>) -> Option<usize> {
    if col.len() >= 2 && col[0].0 matches MdEvent::Start(MdTag::Paragraph) {
        match col[1].0 {
            MdEvent::Text(t) => alert_match(uppercase_of(t@), alerts),
            _ => None,
        }
    } else {
        None
    }
}

/// Whether `text` is the marker of the alert with identifier `id`.
pub fn is_alert_key(text: &str, id: &str) -> (r: bool)
    ensures
        r == (text@ == alert_key(id@)),
{
    let n = text.unicode_len();
    let m = id.unicode_len();
    if n < 3 || n - 3 != m {
        proof {
            if text@ == alert_key(id@) {
                assert(text@.len() == id@.len() + 3);
            }
        }
        return false;
    }
    if text.get_char(0) != '[' || text.get_char(1) != '!' || text.get_char(n - 1) != ']' {
        proof {
            if text@ == alert_key(id@) {
                assert(text@[0] == alert_key(id@)[0]);
                assert(text@[1] == alert_key(id@)[1]);
                assert(text@[n - 1] == alert_key(id@)[n - 1]);
            }
        }
        return false;
    }
    let mut i: usize = 0;
    while i < m
        invariant
            n == text@.len(),
            m == id@.len(),
            n == m + 3,
            text@[0] == '[',
            text@[1] == '!',
            text@[n - 1] == ']',
            i <= m,
            forall|j: int| 0 <= j < i ==> text@[j + 2] == id@[j],
        decreases m - i,
    {
        if text.get_char(i + 2) != id.get_char(i) {
            proof {
                if text@ == alert_key(id@) {
                    assert(text@[i + 2] == alert_key(id@)[i + 2]);
                }
            }
            return false;
        }
        i = i + 1;
    }
    assert(text@ =~= alert_key(id@));
    true
}

/// The alert whose marker is `upper`, as `alert_match` says.
pub fn alert_index(upper: &str, alerts: &Vec<String>) -> (r: Option<usize>)
    ensures
        r == alert_match(upper@, alerts_view(alerts@)),
{
    let ghost all = alerts_view(alerts@);
    let mut k: usize = alerts.len();
    assert(all.take(k as int) =~= all);
    while k > 0
        invariant
            k <= alerts.len(),
            all == alerts_view(alerts@),
            alert_match(upper@, all) == alert_match(upper@, all.take(k as int)),
        decreases k,
    {
        let ghost front = all.take(k as int);
        assert(front.last() == alerts@[k - 1]@);
        assert(front.drop_last() =~= all.take(k - 1));
        if is_alert_key(upper, alerts[k - 1].as_str()) {
            return Some(k - 1);
        }
        k = k - 1;
    }
    assert(all.take(0) =~= Seq::<Seq<char>>::empty());
    None
}

/// The alert that the text announces: its marker looked up upper-cased.
pub fn find_alert(text: &str, alerts: &Vec<String>) -> (r: Option<usize>)
    ensures
        r == alert_match(uppercase_of(text@), alerts_view(alerts@)),
{
    let upper = to_uppercase(text);
    alert_index(upper.as_str(), alerts)
}

/// Looks for the alert that a block quote's events announce; when there is
/// one, the marker is taken out of the events.
pub fn parse_alerts(alerts: &Vec<String>, col: &mut Vec<SpannedEvent>) -> (r: Option<usize>)
    ensures
        r == quote_alert(old(col)@, alerts_view(alerts@)),
        r is Some ==> final(col)@ == old(col)@.remove(1),
        r is None ==> final(col)@ == old(col)@,
{
    if col.len() < 2 {
        return None;
    }
    if !matches!(col[0].0, MdEvent::Start(MdTag::Paragraph)) {
        return None;
    }
    let found = match &col[1].0 {
        MdEvent::Text(t) => find_alert(t.as_str(), alerts),
        _ => None,
    };
    if found.is_some() {
        col.remove(1);
    }
    found
}

} // verus!
