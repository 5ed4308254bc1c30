//! Announcing new units: one message for each publication and check.

use vstd::prelude::*;

use crate::config::NotifyConfig;
use crate::domain::publication::ReadingUnit;
use crate::numerals::{decimal, decimal_text};
use crate::text::{join3, text_opt};
use vstd::utf8::encode_utf8;

verus! {

/// What a message says: the unit's title where there is one, and otherwise how many there
/// are, with the first and the last.
pub open spec fn message_text(units: Seq<ReadingUnit>) -> Seq<char> {
    if units.len() == 1 {
        units[0].title@
    } else {
        decimal(units.len()) + " new chapters — "@ + units[0].title@ + " … "@ + units.last().title@
    }
}

/// Writes the message about units.
pub fn message(units: &Vec<ReadingUnit>) -> (r: String)
    requires
        units@.len() > 0,
    ensures
        r@ == message_text(units@),
{
    let n: usize = units.len();
    if n == 1 {
        return units[0].title.clone();
    }
    let number = decimal_text(n as u64);
    let front = join3(number.as_str(), " new chapters — ", units[0].title.as_str());
    join3(front.as_str(), " … ", units[n - 1].title.as_str())
}

/// A byte that a header's value may hold: no control character but the tab.
pub open spec fn header_byte(b: u8) -> bool {
    (b >= 32 && b != 127) || b == 9
}

/// A text that can be a header's value.
pub open spec fn header_value(text: Seq<char>) -> bool {
    forall|i: int| 0 <= i < encode_utf8(text).len() ==> header_byte(#[trigger] encode_utf8(text)[i])
}

/// `http::HeaderValue::from_str`, of the `http` that `axum` brings: whether a text can be
/// a header's value. The claim is that every byte has to be a tab, or at least 32 and
/// not 127.
#[verifier::external_body]
pub(crate) fn fits_header(text: &str) -> (r: bool)
    ensures
        r == header_value(text@),
{
    axum::http::HeaderValue::from_str(text).is_ok()
}

/// A message, ready to be posted.
#[derive(Debug, PartialEq, Eq)]
pub struct Push {
    pub url: String,
    pub tags: &'static str,
    /// The title's header, where the title can be one.
    pub title: Option<String>,
    pub body: String,
    /// What the post is authorized with.
    pub token: Option<String>,
}

/// The post about new units: the publication's title stands in the header, and moves
/// into the body where it cannot.
pub open spec fn is_push(p: Push, config: NotifyConfig, title: Seq<char>, units: Seq<ReadingUnit>) -> bool {
    &&& p.url == config.url
    &&& p.token == config.token
    &&& p.tags@ == "books"@
    &&& if header_value(title) {
        text_opt(p.title) == Some(title) && p.body@ == message_text(units)
    } else {
        p.title is None && p.body@ == title + "\n"@ + message_text(units)
    }
}

/// Prepares the post about new units. There is none where no address is configured, or
/// nothing is new.
pub fn notify_new_chapters(
    config: &Option<NotifyConfig>,
    title: &str,
    units: &Vec<ReadingUnit>,
) -> (r: Option<Push>)
    ensures
        match config {
            None => r is None,
            Some(c) => if units@.len() == 0 {
                r is None
            } else {
                r matches Some(p) && is_push(p, *c, title@, units@)
            },
        },
{
    match config {
        None => None,
        Some(c) => {
            if units.len() == 0 {
                return None;
            }
            let said = message(units);
            let (head, body) = if fits_header(title) {
                (Some(title.to_owned()), said)
            } else {
                (None, join3(title, "\n", said.as_str()))
            };
            Some(
                Push { url: c.url.clone(), tags: "books", title: head, body, token: c.token.clone() },
            )
        },
    }
}

}
