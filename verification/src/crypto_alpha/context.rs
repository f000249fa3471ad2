//! What is known of the event around a market.
use crate::crypto_alpha::decisions::EventContext;
use crate::crypto_alpha::labels::{
    classify_crypto_event_subtype, classify_lowercase_title, CalendarEvent, CryptoEventSubtype,
    EventCategory,
};
use crate::text;
use vstd::prelude::*;

verus! {

use crate::crypto_alpha::decisions::EventNotes;
use crate::crypto_alpha::labels::{subtype_of, subtype_of_title};
use crate::crypto_alpha::thresholds::event_at;

/// The name of a subtype in a record, which the unnamed ones do not have.
pub open spec fn subtype_name(subtype: CryptoEventSubtype) -> Option<Seq<char>> {
    match subtype {
        CryptoEventSubtype::Unlock => Some("unlock"@),
        CryptoEventSubtype::Upgrade => Some("upgrade"@),
        CryptoEventSubtype::Regulatory => Some("regulatory"@),
        CryptoEventSubtype::Other => None,
    }
}

/// The text speaks of the economy at large.
pub open spec fn mentions_macro(lower: Seq<char>) -> bool {
    ||| text::occurs_in(lower, "fomc"@)
    ||| text::occurs_in(lower, "cpi"@)
    ||| text::occurs_in(lower, "fed"@)
    ||| text::occurs_in(lower, "inflation"@)
    ||| text::occurs_in(lower, "nonfarm"@)
    ||| text::occurs_in(lower, "gdp"@)
}

/// The category and the subtype that the words of a market, in lower case, suggest.
pub open spec fn suggested_in(lower: Seq<char>) -> (Option<Seq<char>>, Option<Seq<char>>) {
    if mentions_macro(lower) {
        (Some("Macro"@), None)
    } else {
        let subtype = subtype_name(subtype_of(lower));
        if subtype is Some {
            (Some("Crypto"@), subtype)
        } else {
            (None, None)
        }
    }
}

/// The category and the subtype that the words of a market suggest.
pub open spec fn suggested_event(market_text: Seq<char>) -> (Option<Seq<char>>, Option<Seq<char>>) {
    suggested_in(text::lowercase(market_text))
}

/// What is known of the event around a market: the calendar's entry, or what its words suggest.
pub open spec fn event_notes(market_text: Seq<char>, event: Option<CalendarEvent>) -> EventNotes {
    match event {
        Some(e) => EventNotes {
            source: Some("calendar"@),
            title: Some(e.title@),
            category: match e.category {
                EventCategory::Macro => Some("Macro"@),
                EventCategory::Crypto => Some("Crypto"@),
                _ => None,
            },
            subtype: if e.category == EventCategory::Crypto {
                subtype_name(subtype_of_title(e.title@))
            } else {
                None
            },
        },
        None => {
            let (category, subtype) = suggested_event(market_text);
            EventNotes {
                source: if category is Some {
                    Some("heuristic"@)
                } else {
                    None
                },
                title: None,
                category,
                subtype,
            }
        },
    }
}

fn name_of(subtype: CryptoEventSubtype) -> (r: Option<&'static str>)
    ensures
        subtype_name(subtype) == (match r {
            Some(t) => Some(t@),
            None => None,
        }),
{
    match subtype {
        CryptoEventSubtype::Unlock => Some("unlock"),
        CryptoEventSubtype::Upgrade => Some("upgrade"),
        CryptoEventSubtype::Regulatory => Some("regulatory"),
        CryptoEventSubtype::Other => None,
    }
}

fn owned(t: Option<&'static str>) -> (r: Option<String>)
    ensures
        crate::types::text_of(r) == (match t {
            Some(s) => Some(s@),
            None => None,
        }),
{
    match t {
        Some(s) => Some(s.to_owned()),
        None => None,
    }
}

/// The category and the subtype that the words of a market, in lower case, suggest.
pub fn infer_event_in(lower: &Vec<char>) -> (r: (Option<&'static str>, Option<&'static str>))
    ensures
        suggested_in(lower@).0 == (match r.0 {
            Some(t) => Some(t@),
            None => None,
        }),
        suggested_in(lower@).1 == (match r.1 {
            Some(t) => Some(t@),
            None => None,
        }),
{
    if text::contains(lower, "fomc") || text::contains(lower, "cpi") || text::contains(lower, "fed")
        || text::contains(lower, "inflation") || text::contains(lower, "nonfarm")
        || text::contains(lower, "gdp") {
        return (Some("Macro"), None);
    }
    let subtype = name_of(classify_lowercase_title(lower));
    if subtype.is_some() {
        (Some("Crypto"), subtype)
    } else {
        (None, None)
    }
}

/// The category and the subtype that the words of a market suggest.
pub fn infer_decision_event_context(market_text: &str) -> (r: (
    Option<&'static str>,
    Option<&'static str>,
))
    ensures
        suggested_event(market_text@).0 == (match r.0 {
            Some(t) => Some(t@),
            None => None,
        }),
        suggested_event(market_text@).1 == (match r.1 {
            Some(t) => Some(t@),
            None => None,
        }),
{
    infer_event_in(&text::lowercase_chars(market_text))
}

/// What is known of the event around a market. The event is the calendar's entry that matches the
/// text.
pub fn decision_event_context(market_text: &str, event: Option<&CalendarEvent>) -> (r: EventContext)
    ensures
        r@ == event_notes(market_text@, event_at(event)),
{
    match event {
        Some(e) => {
            let category: Option<&'static str> = match e.category {
                EventCategory::Macro => Some("Macro"),
                EventCategory::Crypto => Some("Crypto"),
                _ => None,
            };
            let subtype: Option<&'static str> = match e.category {
                EventCategory::Crypto => name_of(classify_crypto_event_subtype(e.title.as_str())),
                _ => None,
            };
            EventContext {
                source: Some("calendar".to_owned()),
                title: Some(e.title.clone()),
                category: owned(category),
                subtype: owned(subtype),
            }
        },
        None => {
            let (category, subtype) = infer_decision_event_context(market_text);
            EventContext {
                source: if category.is_some() {
                    Some("heuristic".to_owned())
                } else {
                    None
                },
                title: None,
                category: owned(category),
                subtype: owned(subtype),
            }
        },
    }
}

/// Two texts with another between them.
pub fn join(first: &str, between: &str, second: &str) -> (r: String)
    ensures
        r@ == first@ + between@ + second@,
{
    first.to_owned().concat(between).concat(second)
}

/// The text of a market, with the title of its event before the question where it has one.
pub open spec fn titled(title: Option<Seq<char>>, question: Seq<char>) -> Seq<char> {
    match title {
        Some(t) => t + " "@ + question,
        None => question,
    }
}

pub fn market_text(title: &Option<String>, question: &str) -> (r: String)
    ensures
        r@ == titled(crate::types::text_of(*title), question@),
{
    match title {
        Some(t) => join(t.as_str(), " ", question),
        None => question.to_owned(),
    }
}

} // verus!
