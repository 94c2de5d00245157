//! A pair of small verified cores: a greeter that turns one line of input
//! into a personalized greeting, and a joke client that decodes a JSON
//! array of jokes and renders the first one.

pub mod greet;
pub mod joke;
pub mod json;
pub mod text;
