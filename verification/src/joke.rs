//! The joke client's logic around the decoder: render the first joke of
//! a reply, or the fixed messages for an empty list and for a failure.

use vstd::prelude::*;

use crate::json::{parse_jokes, parse_jokes_spec, DecodeError, Joke, JokeView};
use crate::text::{trim, trim_spec};

verus! {

/// The text shown for one joke: its setup, a line break, its punchline,
/// each trimmed of surrounding whitespace.
pub open spec fn joke_text_spec(j: JokeView) -> Seq<char> {
    trim_spec(j.setup) + "\n"@ + trim_spec(j.punchline)
}

/// The fixed message for a reply whose array holds no joke.
pub open spec fn empty_list_spec() -> Seq<char> {
    "The joke API returned an empty list. Try again!"@
}

/// What the client prints for a reply body: the first joke's text, the
/// empty-list message for an empty array, or nothing when the body does
/// not decode.
pub open spec fn reply_spec(body: Seq<char>) -> Option<Seq<char>> {
    match parse_jokes_spec(body) {
        None => None,
        Some(jokes) => Some(
            if jokes.len() > 0 {
                joke_text_spec(jokes[0])
            } else {
                empty_list_spec()
            },
        ),
    }
}

/// Renders one joke as its two trimmed lines.
pub fn joke_text(j: &Joke) -> (r: String)
    ensures
        r@ == joke_text_spec(j@),
{
    let mut r = trim(j.setup.as_str());
    r.append("\n");
    let p = trim(j.punchline.as_str());
    r.append(p.as_str());
    r
}

/// The fixed message for a reply whose array holds no joke.
pub fn empty_list_message() -> (r: String)
    ensures
        r@ == empty_list_spec(),
{
    String::from_str("The joke API returned an empty list. Try again!")
}

/// Decodes a reply body and chooses what to print for it: the first
/// joke's text when the array holds one, the empty-list message when it
/// is empty, and an error exactly when the body is not a JSON array of
/// jokes.
pub fn reply_for_body(body: &str) -> (r: Result<String, DecodeError>)
    ensures
        match r {
            Ok(out) => reply_spec(body@) == Some(out@),
            Err(e) => reply_spec(body@) is None,
        },
{
    match parse_jokes(body) {
        Err(e) => Err(e),
        Ok(jokes) => {
            if jokes.len() > 0 {
                Ok(joke_text(&jokes[0]))
            } else {
                Ok(empty_list_message())
            }
        },
    }
}

/// The fixed status line printed before the fetch.
pub fn status_line() -> (r: String)
    ensures
        r@ == "Fetching a programming joke..."@,
{
    String::from_str("Fetching a programming joke...")
}

/// The fixed endpoint the client fetches from.
pub fn joke_url() -> (r: String)
    ensures
        r@ == "https://official-joke-api.appspot.com/jokes/programming/random"@,
{
    String::from_str("https://official-joke-api.appspot.com/jokes/programming/random")
}

/// The diagnostic for a failed fetch-and-render cycle: the fixed prefix
/// followed by the error's description.
pub fn failure_message(detail: &str) -> (r: String)
    ensures
        r@ == "⚠️  Could not fetch a joke: "@ + detail@,
{
    let mut r = String::from_str("⚠️  Could not fetch a joke: ");
    r.append(detail);
    r
}

} // verus!
