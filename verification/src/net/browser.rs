//! Opening the player's web browser for the Discord login.

use crate::text;
use vstd::prelude::*;

verus! {

/// Why a URL is not opened.
#[derive(Debug, Clone, Copy, PartialEq, Eq, Structural)]
pub enum UrlRefusal {
    NotHttp,
    Quotes,
}

impl UrlRefusal {
    /// What is reported.
    pub fn message(&self) -> (r: String)
        ensures
            r@ == (match *self {
                UrlRefusal::NotHttp => "refusing to open a non-http URL"@,
                UrlRefusal::Quotes => "refusing to open a URL containing quotes or newlines"@,
            }),
    {
        match *self {
            UrlRefusal::NotHttp => "refusing to open a non-http URL".to_owned(),
            UrlRefusal::Quotes => "refusing to open a URL containing quotes or newlines".to_owned(),
        }
    }
}

/// The URL is of the web.
pub open spec fn is_http(url: Seq<char>) -> bool {
    text::has_at(url, "https://"@, 0) || text::has_at(url, "http://"@, 0)
}

/// The URL holds a character that a shell could take for something else.
pub open spec fn is_tricky(url: Seq<char>) -> bool {
    ||| text::index_from(url, '"', 0) is Some
    ||| text::index_from(url, '\n', 0) is Some
    ||| text::index_from(url, '\r', 0) is Some
}

/// Decides whether a URL may be launched in the default browser.
///
/// Only http(s) URLs are accepted. The URL originates from the server, but a compromised or
/// misconfigured server should not be able to hand over a `file:` or shell-interpreted target.
pub fn open(url: &str) -> (r: Result<(), UrlRefusal>)
    ensures
        r == (if !is_http(url@) {
            Err::<(), UrlRefusal>(UrlRefusal::NotHttp)
        } else if is_tricky(url@) {
            Err::<(), UrlRefusal>(UrlRefusal::Quotes)
        } else {
            Ok::<(), UrlRefusal>(())
        }),
{
    let cs: Vec<char> = text::chars_of(url);
    if !text::starts_with(&cs, "https://") && !text::starts_with(&cs, "http://") {
        return Err(UrlRefusal::NotHttp);
    }
    if text::find_char(&cs, '"').is_some() || text::find_char(&cs, '\n').is_some()
        || text::find_char(&cs, '\r').is_some() {
        return Err(UrlRefusal::Quotes);
    }
    Ok(())
}

} // verus!
