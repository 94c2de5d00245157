use hello_jokes::greet::{banner, display_name, greeting, prompt};

#[test]
fn greets_nonempty_input() {
    assert_eq!(greeting("Ada\n"), "Hello, Ada! Welcome to Rust! 🚀");
}

#[test]
fn greets_grace() {
    assert_eq!(greeting("Grace\n"), "Hello, Grace! Welcome to Rust! 🚀");
}

#[test]
fn falls_back_on_empty_line() {
    assert_eq!(greeting("\n"), "Hello, Stranger! Welcome to Rust! 🚀");
}

#[test]
fn falls_back_on_blank_line() {
    assert_eq!(greeting("   \n"), "Hello, Stranger! Welcome to Rust! 🚀");
}

#[test]
fn falls_back_on_immediate_end_of_input() {
    assert_eq!(display_name(""), "Stranger");
}

#[test]
fn padding_does_not_change_the_greeting() {
    assert_eq!(greeting("  Ada  \n"), greeting("Ada\n"));
}

#[test]
fn keeps_inner_whitespace() {
    assert_eq!(display_name(" Ada Lovelace \n"), "Ada Lovelace");
}

#[test]
fn strips_unicode_whitespace() {
    assert_eq!(display_name("\u{00A0}\u{2003}Ada\u{3000}\r\n"), "Ada");
}

#[test]
fn fixed_banner() {
    assert_eq!(banner(), "Hello, World! 👋");
}

#[test]
fn fixed_prompt() {
    assert_eq!(prompt(), "What is your name?");
}
