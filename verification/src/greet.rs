//! The greeter's logic: pick a display name from one line of input and
//! build the personalized greeting around it.

use vstd::prelude::*;

use crate::text::{is_space, trim, trim_spec, lemma_trim_ignores_padding};

verus! {

/// The name shown for an input that trims to nothing.
pub open spec fn fallback_spec() -> Seq<char> {
    "Stranger"@
}

/// The display name for a raw input line: the input with surrounding
/// whitespace removed, or the fallback when nothing remains.
pub open spec fn display_name_spec(input: Seq<char>) -> Seq<char> {
    if trim_spec(input).len() == 0 {
        fallback_spec()
    } else {
        trim_spec(input)
    }
}

/// The personalized greeting built around a display name.
pub open spec fn greeting_spec(name: Seq<char>) -> Seq<char> {
    "Hello, "@ + name + "! Welcome to Rust! 🚀"@
}

/// Chooses the display name for one raw line of input.
pub fn display_name(input: &str) -> (r: String)
    ensures
        r@ == display_name_spec(input@),
{
    let t = trim(input);
    if t.as_str().unicode_len() == 0 {
        String::from_str("Stranger")
    } else {
        t
    }
}

/// Builds the personalized greeting for one raw line of input.
pub fn greeting(input: &str) -> (r: String)
    ensures
        r@ == greeting_spec(display_name_spec(input@)),
{
    let name = display_name(input);
    let mut r = String::from_str("Hello, ");
    r.append(name.as_str());
    r.append("! Welcome to Rust! 🚀");
    r
}

/// The fixed banner printed at startup.
pub fn banner() -> (r: String)
    ensures
        r@ == "Hello, World! 👋"@,
{
    String::from_str("Hello, World! 👋")
}

/// The fixed prompt asking for the user's name.
pub fn prompt() -> (r: String)
    ensures
        r@ == "What is your name?"@,
{
    String::from_str("What is your name?")
}

/// Whitespace around the name never changes the greeting: padding the
/// input on either side leaves the display name, and with it the
/// greeting, unchanged.
pub proof fn lemma_greeting_ignores_padding(pre: Seq<char>, s: Seq<char>, post: Seq<char>)
    requires
        forall|k: int| 0 <= k < pre.len() ==> is_space(pre[k]),
        forall|k: int| 0 <= k < post.len() ==> is_space(post[k]),
    ensures
        display_name_spec(pre + s + post) == display_name_spec(s),
        greeting_spec(display_name_spec(pre + s + post)) == greeting_spec(display_name_spec(s)),
{
    lemma_trim_ignores_padding(pre, s, post);
}

} // verus!
