use hello_jokes::joke::{
    empty_list_message, failure_message, joke_text, joke_url, reply_for_body, status_line,
};
use hello_jokes::json::{parse_jokes, DecodeError, Joke};

#[test]
fn happy_path() {
    let r = reply_for_body("[{\"setup\":\"Why?\",\"punchline\":\"Because.\"}]");
    assert_eq!(r, Ok(String::from("Why?\nBecause.")));
}

#[test]
fn renders_first_joke_lines() {
    let r = reply_for_body("[{\"setup\":\"S\",\"punchline\":\"P\"}]").unwrap();
    assert!(r.contains("S\nP"));
}

#[test]
fn empty_array_yields_empty_list_message() {
    let r = reply_for_body("[]");
    assert_eq!(r, Ok(String::from("The joke API returned an empty list. Try again!")));
    assert_eq!(empty_list_message(), "The joke API returned an empty list. Try again!");
}

#[test]
fn malformed_body_is_refused() {
    assert_eq!(reply_for_body("not json"), Err(DecodeError));
    assert_eq!(reply_for_body(""), Err(DecodeError));
    assert_eq!(reply_for_body("{\"setup\":\"a\"}"), Err(DecodeError));
}

#[test]
fn extra_fields_are_ignored() {
    let r = reply_for_body("[{\"setup\":\"a\",\"punchline\":\"b\",\"id\":42,\"type\":\"x\"}]");
    assert_eq!(r, Ok(String::from("a\nb")));
}

#[test]
fn nested_extra_values_are_ignored() {
    let body = "[{\"setup\":\"a\",\"meta\":{\"x\":[1,-2.5e+3,true,false,null,\"s\"],\"y\":{}},\
                \"punchline\":\"b\"}]";
    assert_eq!(reply_for_body(body), Ok(String::from("a\nb")));
}

#[test]
fn only_the_first_joke_is_rendered() {
    let body = "[{\"setup\":\"a\",\"punchline\":\"b\"},{\"setup\":\"c\",\"punchline\":\"d\"}]";
    assert_eq!(reply_for_body(body), Ok(String::from("a\nb")));
}

#[test]
fn every_element_must_decode() {
    let body = "[{\"setup\":\"a\",\"punchline\":\"b\"},5]";
    assert_eq!(reply_for_body(body), Err(DecodeError));
    let body2 = "[{\"setup\":\"a\",\"punchline\":\"b\"},{}]";
    assert_eq!(reply_for_body(body2), Err(DecodeError));
}

#[test]
fn missing_field_is_refused() {
    assert_eq!(reply_for_body("[{\"setup\":\"a\"}]"), Err(DecodeError));
    assert_eq!(reply_for_body("[{\"punchline\":\"b\"}]"), Err(DecodeError));
    assert_eq!(reply_for_body("[{}]"), Err(DecodeError));
}

#[test]
fn repeated_field_is_refused() {
    let body = "[{\"setup\":\"a\",\"setup\":\"b\",\"punchline\":\"c\"}]";
    assert_eq!(reply_for_body(body), Err(DecodeError));
}

#[test]
fn named_field_must_be_a_string() {
    assert_eq!(reply_for_body("[{\"setup\":1,\"punchline\":\"b\"}]"), Err(DecodeError));
}

#[test]
fn trailing_text_is_refused() {
    assert_eq!(reply_for_body("[] x"), Err(DecodeError));
    assert_eq!(reply_for_body("[],"), Err(DecodeError));
}

#[test]
fn surrounding_whitespace_is_allowed() {
    let body = " \t\r\n[ { \"setup\" : \"a\" , \"punchline\" : \"b\" } ] \n";
    assert_eq!(reply_for_body(body), Ok(String::from("a\nb")));
}

#[test]
fn string_escapes_are_decoded() {
    let body = "[{\"setup\":\"say \\\"hi\\\"\\\\now\",\"punchline\":\"a\\/b\\bc\\fd\\ne\\rf\\tg\"}]";
    let jokes = parse_jokes(body).unwrap();
    assert_eq!(jokes[0].setup, "say \"hi\"\\now");
    assert_eq!(jokes[0].punchline, "a/b\u{0008}c\u{000C}d\ne\rf\tg");
}

#[test]
fn unicode_escapes_are_decoded() {
    let body = "[{\"setup\":\"\\u0041\\u00e9\",\"punchline\":\"\\uD83D\\uDE00\"}]";
    let jokes = parse_jokes(body).unwrap();
    assert_eq!(jokes[0].setup, "Aé");
    assert_eq!(jokes[0].punchline, "😀");
}

#[test]
fn lone_surrogate_is_refused() {
    assert_eq!(reply_for_body("[{\"setup\":\"\\uD83D\",\"punchline\":\"b\"}]"), Err(DecodeError));
    assert_eq!(reply_for_body("[{\"setup\":\"\\uDE00\",\"punchline\":\"b\"}]"), Err(DecodeError));
}

#[test]
fn raw_control_character_is_refused() {
    assert_eq!(reply_for_body("[{\"setup\":\"a\nb\",\"punchline\":\"c\"}]"), Err(DecodeError));
}

#[test]
fn number_with_leading_zero_is_refused() {
    assert_eq!(reply_for_body("[{\"setup\":\"a\",\"punchline\":\"b\",\"id\":01}]"), Err(DecodeError));
}

#[test]
fn rendered_joke_is_trimmed() {
    let body = "[{\"setup\":\"  S  \",\"punchline\":\"\\tP\\n\"}]";
    assert_eq!(reply_for_body(body), Ok(String::from("S\nP")));
    let j = Joke { setup: String::from(" a "), punchline: String::from(" b ") };
    assert_eq!(joke_text(&j), "a\nb");
}

#[test]
fn failure_message_has_the_fixed_prefix() {
    let m = failure_message("connection refused");
    assert!(m.starts_with("⚠️  Could not fetch a joke:"));
    assert!(m.ends_with("connection refused"));
}

#[test]
fn decode_error_has_a_description() {
    let m = DecodeError.message();
    assert_eq!(m, "the reply was not a JSON array of jokes");
}

#[test]
fn fixed_status_line_and_url() {
    assert_eq!(status_line(), "Fetching a programming joke...");
    assert_eq!(joke_url(), "https://official-joke-api.appspot.com/jokes/programming/random");
}
