//! A JSON decoder for the joke service's reply: an array of objects,
//! each carrying the string fields `setup` and `punchline` and possibly
//! others, which are ignored.
//!
//! The grammar is stated by spec functions over the character sequence;
//! the executable decoder is proved to return exactly what they say.
//! The functions that walk nested values carry a recursion budget
//! (`fuel`) that only settles their termination: `lemma_budget_is_ample`
//! proves that every budget of at least the input's length decodes the
//! input the same way.

use vstd::prelude::*;

verus! {

/// Whitespace that JSON allows between tokens.
pub open spec fn is_json_ws(c: char) -> bool {
    c == ' ' || c == '\t' || c == '\n' || c == '\r'
}

/// Decides `is_json_ws` for one character.
pub fn char_is_json_ws(c: char) -> (r: bool)
    ensures
        r == is_json_ws(c),
{
    c == ' ' || c == '\t' || c == '\n' || c == '\r'
}

/// An ASCII decimal digit.
pub open spec fn is_digit(c: char) -> bool {
    0x30 <= c as u32 && c as u32 <= 0x39
}

/// Decides `is_digit` for one character.
pub fn char_is_digit(c: char) -> (r: bool)
    ensures
        r == is_digit(c),
{
    let v = c as u32;
    0x30 <= v && v <= 0x39
}

/// A hexadecimal digit, in either case.
pub open spec fn is_hex_digit(c: char) -> bool {
    is_digit(c) || (0x61 <= c as u32 && c as u32 <= 0x66) || (0x41 <= c as u32 && c as u32
        <= 0x46)
}

/// The numeric value of a hexadecimal digit.
pub open spec fn hex_val(c: char) -> int {
    if is_digit(c) {
        c as u32 - 0x30
    } else if 0x61 <= c as u32 && c as u32 <= 0x66 {
        c as u32 - 0x61 + 10
    } else {
        c as u32 - 0x41 + 10
    }
}

/// First index at or after `i` whose character is not JSON whitespace.
pub open spec fn skip_ws(s: Seq<char>, i: int) -> int
    decreases s.len() - i,
{
    if 0 <= i < s.len() && is_json_ws(s[i]) {
        skip_ws(s, i + 1)
    } else {
        i
    }
}

/// First index at or after `i` whose character is not a digit.
pub open spec fn skip_digits(s: Seq<char>, i: int) -> int
    decreases s.len() - i,
{
    if 0 <= i < s.len() && is_digit(s[i]) {
        skip_digits(s, i + 1)
    } else {
        i
    }
}

/// True when four hexadecimal digits stand at `i`.
pub open spec fn hex4_at(s: Seq<char>, i: int) -> bool {
    0 <= i && i + 4 <= s.len() && is_hex_digit(s[i]) && is_hex_digit(s[i + 1]) && is_hex_digit(
        s[i + 2],
    ) && is_hex_digit(s[i + 3])
}

/// The value of the four hexadecimal digits at `i`.
pub open spec fn hex4_val(s: Seq<char>, i: int) -> int {
    hex_val(s[i]) * 0x1000 + hex_val(s[i + 1]) * 0x100 + hex_val(s[i + 2]) * 0x10 + hex_val(
        s[i + 3],
    )
}

/// One escape sequence starting at the backslash at `i`: the character
/// it denotes and the index just past it. A `\u` escape in the high
/// surrogate range must be followed by one in the low surrogate range,
/// as JSON requires; a lone surrogate is refused.
pub open spec fn parse_escape(s: Seq<char>, i: int) -> Option<(char, int)> {
    if !(0 <= i && i + 2 <= s.len() && s[i] == '\\') {
        None
    } else {
        let e = s[i + 1];
        if e == '"' {
            Some(('"', i + 2))
        } else if e == '\\' {
            Some(('\\', i + 2))
        } else if e == '/' {
            Some(('/', i + 2))
        } else if e == 'b' {
            Some(('\u{0008}', i + 2))
        } else if e == 'f' {
            Some(('\u{000C}', i + 2))
        } else if e == 'n' {
            Some(('\n', i + 2))
        } else if e == 'r' {
            Some(('\r', i + 2))
        } else if e == 't' {
            Some(('\t', i + 2))
        } else if e == 'u' {
            if !hex4_at(s, i + 2) {
                None
            } else {
                let v = hex4_val(s, i + 2);
                if 0xD800 <= v && v <= 0xDBFF {
                    if i + 12 <= s.len() && s[i + 6] == '\\' && s[i + 7] == 'u' && hex4_at(
                        s,
                        i + 8,
                    ) {
                        let w = hex4_val(s, i + 8);
                        if 0xDC00 <= w && w <= 0xDFFF {
                            Some(
                                (
                                    ((0x10000 + (v - 0xD800) * 0x400 + (w - 0xDC00)) as u32) as char,
                                    i + 12,
                                ),
                            )
                        } else {
                            None
                        }
                    } else {
                        None
                    }
                } else if 0xDC00 <= v && v <= 0xDFFF {
                    None
                } else {
                    Some(((v as u32) as char, i + 6))
                }
            }
        } else {
            None
        }
    }
}

/// The rest of a JSON string after its opening quote: the decoded
/// content and the index just past the closing quote.
pub open spec fn parse_string_tail(s: Seq<char>, i: int) -> Option<(Seq<char>, int)>
    decreases s.len() - i,
{
    if !(0 <= i && i < s.len()) {
        None
    } else if s[i] == '"' {
        Some((Seq::empty(), i + 1))
    } else if s[i] == '\\' {
        match parse_escape(s, i) {
            None => None,
            Some((c, j)) => match parse_string_tail(s, j) {
                None => None,
                Some((t, k)) => Some((seq![c] + t, k)),
            },
        }
    } else if (s[i] as u32) < 0x20 {
        None
    } else {
        match parse_string_tail(s, i + 1) {
            None => None,
            Some((t, k)) => Some((seq![s[i]] + t, k)),
        }
    }
}

/// A whole JSON string starting at the opening quote at `i`.
pub open spec fn parse_string(s: Seq<char>, i: int) -> Option<(Seq<char>, int)> {
    if 0 <= i && i < s.len() && s[i] == '"' {
        parse_string_tail(s, i + 1)
    } else {
        None
    }
}

/// The fraction part at `k`, if any: the index just past it.
pub open spec fn skip_frac(s: Seq<char>, k: int) -> Option<int> {
    if 0 <= k && k < s.len() && s[k] == '.' {
        if k + 1 < s.len() && is_digit(s[k + 1]) {
            Some(skip_digits(s, k + 1))
        } else {
            None
        }
    } else {
        Some(k)
    }
}

/// The exponent part at `k`, if any: the index just past it.
pub open spec fn skip_exp(s: Seq<char>, k: int) -> Option<int> {
    if 0 <= k && k < s.len() && (s[k] == 'e' || s[k] == 'E') {
        let m = if k + 1 < s.len() && (s[k + 1] == '+' || s[k + 1] == '-') {
            k + 2
        } else {
            k + 1
        };
        if m < s.len() && is_digit(s[m]) {
            Some(skip_digits(s, m))
        } else {
            None
        }
    } else {
        Some(k)
    }
}

/// A JSON number starting at `i`: the index just past it. Only its
/// extent matters; no numeric value is computed.
pub open spec fn skip_number(s: Seq<char>, i: int) -> Option<int> {
    let j = if 0 <= i && i < s.len() && s[i] == '-' {
        i + 1
    } else {
        i
    };
    if !(0 <= j && j < s.len() && is_digit(s[j])) {
        None
    } else {
        let k = if s[j] == '0' {
            j + 1
        } else {
            skip_digits(s, j)
        };
        match skip_frac(s, k) {
            None => None,
            Some(k2) => skip_exp(s, k2),
        }
    }
}

/// Any JSON value starting at `i`: the index just past it. Used to pass
/// over the fields of a joke object that the data model does not name.
pub open spec fn skip_value(s: Seq<char>, i: int, fuel: nat) -> Option<int>
    decreases fuel, s.len() - i, 0int,
{
    if !(0 <= i && i < s.len()) {
        None
    } else if s[i] == '"' {
        match parse_string(s, i) {
            None => None,
            Some((t, j)) => Some(j),
        }
    } else if s[i] == 't' {
        if i + 4 <= s.len() && s[i + 1] == 'r' && s[i + 2] == 'u' && s[i + 3] == 'e' {
            Some(i + 4)
        } else {
            None
        }
    } else if s[i] == 'f' {
        if i + 5 <= s.len() && s[i + 1] == 'a' && s[i + 2] == 'l' && s[i + 3] == 's' && s[i + 4]
            == 'e' {
            Some(i + 5)
        } else {
            None
        }
    } else if s[i] == 'n' {
        if i + 4 <= s.len() && s[i + 1] == 'u' && s[i + 2] == 'l' && s[i + 3] == 'l' {
            Some(i + 4)
        } else {
            None
        }
    } else if s[i] == '-' || is_digit(s[i]) {
        skip_number(s, i)
    } else if s[i] == '[' {
        if fuel == 0 {
            None
        } else {
            skip_elements(s, skip_ws(s, i + 1), (fuel - 1) as nat)
        }
    } else if s[i] == '{' {
        if fuel == 0 {
            None
        } else {
            skip_members(s, skip_ws(s, i + 1), (fuel - 1) as nat)
        }
    } else {
        None
    }
}

/// The elements of an array, starting after its `[` and any whitespace:
/// the index just past the closing `]`.
pub open spec fn skip_elements(s: Seq<char>, i: int, fuel: nat) -> Option<int>
    decreases fuel, s.len() - i, 1int,
{
    if !(0 <= i && i < s.len()) {
        None
    } else if s[i] == ']' {
        Some(i + 1)
    } else {
        match skip_value(s, i, fuel) {
            None => None,
            Some(m) => {
                let p = skip_ws(s, m);
                if p < s.len() && s[p] == ',' {
                    if fuel == 0 {
                        None
                    } else {
                        skip_elements(s, skip_ws(s, p + 1), (fuel - 1) as nat)
                    }
                } else if p < s.len() && s[p] == ']' {
                    Some(p + 1)
                } else {
                    None
                }
            },
        }
    }
}

/// The members of an object, starting after its `{` and any whitespace:
/// the index just past the closing `}`.
pub open spec fn skip_members(s: Seq<char>, i: int, fuel: nat) -> Option<int>
    decreases fuel, s.len() - i, 1int,
{
    if !(0 <= i && i < s.len()) {
        None
    } else if s[i] == '}' {
        Some(i + 1)
    } else {
        match parse_string(s, i) {
            None => None,
            Some((key, j)) => {
                let k = skip_ws(s, j);
                if !(k < s.len() && s[k] == ':') {
                    None
                } else if fuel == 0 {
                    None
                } else {
                    match skip_value(s, skip_ws(s, k + 1), (fuel - 1) as nat) {
                        None => None,
                        Some(m) => {
                            let p = skip_ws(s, m);
                            if p < s.len() && s[p] == ',' {
                                skip_members(s, skip_ws(s, p + 1), (fuel - 1) as nat)
                            } else if p < s.len() && s[p] == '}' {
                                Some(p + 1)
                            } else {
                                None
                            }
                        },
                    }
                }
            },
        }
    }
}

/// What one decoded joke holds: its two texts.
pub struct JokeView {
    pub setup: Seq<char>,
    pub punchline: Seq<char>,
}

/// The members of one joke object, starting after its `{` and any
/// whitespace. `setup` and `punchline` carry what the fields of those
/// names held so far; a member of any other name is passed over. The
/// result is the joke and the index just past the closing `}`. Decoding
/// fails when a named field is repeated, is not a string, or is missing
/// at the closing brace.
pub open spec fn parse_joke_members(
    s: Seq<char>,
    i: int,
    fuel: nat,
    setup: Option<Seq<char>>,
    punchline: Option<Seq<char>>,
) -> Option<(JokeView, int)>
    decreases fuel, s.len() - i, 1int,
{
    if !(0 <= i && i < s.len()) {
        None
    } else if s[i] == '}' {
        match (setup, punchline) {
            (Some(a), Some(b)) => Some((JokeView { setup: a, punchline: b }, i + 1)),
            _ => None,
        }
    } else {
        match parse_string(s, i) {
            None => None,
            Some((key, j)) => {
                let k = skip_ws(s, j);
                if !(k < s.len() && s[k] == ':') {
                    None
                } else if fuel == 0 {
                    None
                } else {
                    let v = skip_ws(s, k + 1);
                    let stepped: Option<(Option<Seq<char>>, Option<Seq<char>>, int)> = if key
                        == "setup"@ {
                        if setup is Some {
                            None
                        } else {
                            match parse_string(s, v) {
                                None => None,
                                Some((text, m)) => Some((Some(text), punchline, m)),
                            }
                        }
                    } else if key == "punchline"@ {
                        if punchline is Some {
                            None
                        } else {
                            match parse_string(s, v) {
                                None => None,
                                Some((text, m)) => Some((setup, Some(text), m)),
                            }
                        }
                    } else {
                        match skip_value(s, v, (fuel - 1) as nat) {
                            None => None,
                            Some(m) => Some((setup, punchline, m)),
                        }
                    };
                    match stepped {
                        None => None,
                        Some((su, pu, m)) => {
                            let p = skip_ws(s, m);
                            if p < s.len() && s[p] == ',' {
                                parse_joke_members(s, skip_ws(s, p + 1), (fuel - 1) as nat, su, pu)
                            } else if p < s.len() && s[p] == '}' {
                                match (su, pu) {
                                    (Some(a), Some(b)) => Some(
                                        (JokeView { setup: a, punchline: b }, p + 1),
                                    ),
                                    _ => None,
                                }
                            } else {
                                None
                            }
                        },
                    }
                }
            },
        }
    }
}

/// The elements of the top-level array, starting after its `[` and any
/// whitespace: each must be a joke object. The result is the jokes in
/// order and the index just past the closing `]`.
pub open spec fn parse_jokes_elements(s: Seq<char>, i: int, fuel: nat) -> Option<
    (Seq<JokeView>, int),
>
    decreases fuel, s.len() - i, 2int,
{
    if !(0 <= i && i < s.len()) {
        None
    } else if s[i] == ']' {
        Some((Seq::empty(), i + 1))
    } else if s[i] == '{' {
        if fuel == 0 {
            None
        } else {
            match parse_joke_members(s, skip_ws(s, i + 1), (fuel - 1) as nat, None, None) {
                None => None,
                Some((first, m)) => {
                    let p = skip_ws(s, m);
                    if p < s.len() && s[p] == ',' {
                        match parse_jokes_elements(s, skip_ws(s, p + 1), (fuel - 1) as nat) {
                            None => None,
                            Some((rest, q)) => Some((seq![first] + rest, q)),
                        }
                    } else if p < s.len() && s[p] == ']' {
                        Some((seq![first], p + 1))
                    } else {
                        None
                    }
                },
            }
        }
    } else {
        None
    }
}

/// The whole reply body under a given recursion budget: a JSON array of
/// joke objects with nothing but whitespace around it, or nothing when
/// the body is not of that form.
pub open spec fn parse_jokes_with(s: Seq<char>, fuel: nat) -> Option<Seq<JokeView>> {
    let i = skip_ws(s, 0);
    if i < s.len() && s[i] == '[' {
        match parse_jokes_elements(s, skip_ws(s, i + 1), fuel) {
            None => None,
            Some((jokes, j)) => if skip_ws(s, j) == s.len() {
                Some(jokes)
            } else {
                None
            },
        }
    } else {
        None
    }
}

/// The whole reply body, with the ample budget of the input's length;
/// `lemma_budget_is_ample` shows that any larger budget decodes the
/// same.
pub open spec fn parse_jokes_spec(s: Seq<char>) -> Option<Seq<JokeView>> {
    parse_jokes_with(s, s.len() as nat)
}

proof fn lemma_skip_ws_bounds(s: Seq<char>, i: int)
    requires
        0 <= i <= s.len(),
    ensures
        i <= skip_ws(s, i) <= s.len(),
    decreases s.len() - i,
{
    if i < s.len() && is_json_ws(s[i]) {
        lemma_skip_ws_bounds(s, i + 1);
    }
}

proof fn lemma_skip_digits_bounds(s: Seq<char>, i: int)
    requires
        0 <= i <= s.len(),
    ensures
        i <= skip_digits(s, i) <= s.len(),
    decreases s.len() - i,
{
    if i < s.len() && is_digit(s[i]) {
        lemma_skip_digits_bounds(s, i + 1);
    }
}

proof fn lemma_parse_string_tail_bounds(s: Seq<char>, i: int)
    requires
        0 <= i <= s.len(),
    ensures
        match parse_string_tail(s, i) {
            Some(p) => i < p.1 <= s.len(),
            None => true,
        },
    decreases s.len() - i,
{
    if i < s.len() {
        if s[i] == '\\' {
            match parse_escape(s, i) {
                None => {},
                Some((c, j)) => {
                    lemma_parse_string_tail_bounds(s, j);
                },
            }
        } else if s[i] != '"' && (s[i] as u32) >= 0x20 {
            lemma_parse_string_tail_bounds(s, i + 1);
        }
    }
}

proof fn lemma_parse_string_bounds(s: Seq<char>, i: int)
    requires
        0 <= i <= s.len(),
    ensures
        match parse_string(s, i) {
            Some(p) => i < p.1 <= s.len(),
            None => true,
        },
{
    if 0 <= i && i < s.len() && s[i] == '"' {
        lemma_parse_string_tail_bounds(s, i + 1);
    }
}

proof fn lemma_skip_number_bounds(s: Seq<char>, i: int)
    requires
        0 <= i <= s.len(),
    ensures
        match skip_number(s, i) {
            Some(k) => i < k <= s.len(),
            None => true,
        },
{
    let j = if 0 <= i && i < s.len() && s[i] == '-' {
        i + 1
    } else {
        i
    };
    if 0 <= j && j < s.len() && is_digit(s[j]) {
        let k = if s[j] == '0' {
            j + 1
        } else {
            skip_digits(s, j)
        };
        if s[j] != '0' {
            assert(skip_digits(s, j) == skip_digits(s, j + 1));
            lemma_skip_digits_bounds(s, j + 1);
        }
        assert(j < k <= s.len());
        if k < s.len() && s[k] == '.' && k + 1 < s.len() && is_digit(s[k + 1]) {
            lemma_skip_digits_bounds(s, k + 1);
        }
        match skip_frac(s, k) {
            None => {},
            Some(k2) => {
                assert(k <= k2 <= s.len());
                if k2 < s.len() && (s[k2] == 'e' || s[k2] == 'E') {
                    let m = if k2 + 1 < s.len() && (s[k2 + 1] == '+' || s[k2 + 1] == '-') {
                        k2 + 2
                    } else {
                        k2 + 1
                    };
                    if m < s.len() && is_digit(s[m]) {
                        lemma_skip_digits_bounds(s, m);
                    }
                }
            },
        }
    }
}

proof fn lemma_value_fuel(s: Seq<char>, i: int, f1: nat, f2: nat)
    requires
        0 <= i <= s.len(),
        f1 >= s.len() - i,
        f2 >= s.len() - i,
    ensures
        skip_value(s, i, f1) == skip_value(s, i, f2),
        match skip_value(s, i, f1) {
            Some(j) => i < j <= s.len(),
            None => true,
        },
    decreases s.len() - i, 0int,
{
    if 0 <= i && i < s.len() {
        if s[i] == '"' {
            lemma_parse_string_bounds(s, i);
        } else if s[i] == '-' || is_digit(s[i]) {
            lemma_skip_number_bounds(s, i);
        } else if s[i] == '[' {
            lemma_skip_ws_bounds(s, i + 1);
            lemma_elements_fuel(s, skip_ws(s, i + 1), (f1 - 1) as nat, (f2 - 1) as nat);
        } else if s[i] == '{' {
            lemma_skip_ws_bounds(s, i + 1);
            lemma_members_fuel(s, skip_ws(s, i + 1), (f1 - 1) as nat, (f2 - 1) as nat);
        }
    }
}

proof fn lemma_elements_fuel(s: Seq<char>, i: int, f1: nat, f2: nat)
    requires
        0 <= i <= s.len(),
        f1 >= s.len() - i,
        f2 >= s.len() - i,
    ensures
        skip_elements(s, i, f1) == skip_elements(s, i, f2),
        match skip_elements(s, i, f1) {
            Some(j) => i < j <= s.len(),
            None => true,
        },
    decreases s.len() - i, 1int,
{
    if 0 <= i && i < s.len() && s[i] != ']' {
        lemma_value_fuel(s, i, f1, f2);
        match skip_value(s, i, f1) {
            None => {},
            Some(m) => {
                lemma_skip_ws_bounds(s, m);
                let p = skip_ws(s, m);
                if p < s.len() && s[p] == ',' {
                    lemma_skip_ws_bounds(s, p + 1);
                    lemma_elements_fuel(s, skip_ws(s, p + 1), (f1 - 1) as nat, (f2 - 1) as nat);
                }
            },
        }
    }
}

proof fn lemma_members_fuel(s: Seq<char>, i: int, f1: nat, f2: nat)
    requires
        0 <= i <= s.len(),
        f1 >= s.len() - i,
        f2 >= s.len() - i,
    ensures
        skip_members(s, i, f1) == skip_members(s, i, f2),
        match skip_members(s, i, f1) {
            Some(j) => i < j <= s.len(),
            None => true,
        },
    decreases s.len() - i, 1int,
{
    if 0 <= i && i < s.len() && s[i] != '}' {
        lemma_parse_string_bounds(s, i);
        match parse_string(s, i) {
            None => {},
            Some((key, j)) => {
                lemma_skip_ws_bounds(s, j);
                let k = skip_ws(s, j);
                if k < s.len() && s[k] == ':' {
                    lemma_skip_ws_bounds(s, k + 1);
                    let v = skip_ws(s, k + 1);
                    lemma_value_fuel(s, v, (f1 - 1) as nat, (f2 - 1) as nat);
                    match skip_value(s, v, (f1 - 1) as nat) {
                        None => {},
                        Some(m) => {
                            lemma_skip_ws_bounds(s, m);
                            let p = skip_ws(s, m);
                            if p < s.len() && s[p] == ',' {
                                lemma_skip_ws_bounds(s, p + 1);
                                lemma_members_fuel(
                                    s,
                                    skip_ws(s, p + 1),
                                    (f1 - 1) as nat,
                                    (f2 - 1) as nat,
                                );
                            }
                        },
                    }
                }
            },
        }
    }
}

proof fn lemma_joke_members_fuel(
    s: Seq<char>,
    i: int,
    f1: nat,
    f2: nat,
    su: Option<Seq<char>>,
    pu: Option<Seq<char>>,
)
    requires
        0 <= i <= s.len(),
        f1 >= s.len() - i,
        f2 >= s.len() - i,
    ensures
        parse_joke_members(s, i, f1, su, pu) == parse_joke_members(s, i, f2, su, pu),
        match parse_joke_members(s, i, f1, su, pu) {
            Some(p) => i < p.1 <= s.len(),
            None => true,
        },
    decreases s.len() - i, 1int,
{
    if 0 <= i && i < s.len() && s[i] != '}' {
        lemma_parse_string_bounds(s, i);
        match parse_string(s, i) {
            None => {},
            Some((key, j)) => {
                lemma_skip_ws_bounds(s, j);
                let k = skip_ws(s, j);
                if k < s.len() && s[k] == ':' {
                    lemma_skip_ws_bounds(s, k + 1);
                    let v = skip_ws(s, k + 1);
                    if key == "setup"@ || key == "punchline"@ {
                        lemma_parse_string_bounds(s, v);
                    } else {
                        lemma_value_fuel(s, v, (f1 - 1) as nat, (f2 - 1) as nat);
                    }
                    let stepped_end: Option<int> = if key == "setup"@ || key == "punchline"@ {
                        match parse_string(s, v) {
                            None => None,
                            Some(p) => Some(p.1),
                        }
                    } else {
                        skip_value(s, v, (f1 - 1) as nat)
                    };
                    match stepped_end {
                        None => {},
                        Some(m) => {
                            lemma_skip_ws_bounds(s, m);
                            let p = skip_ws(s, m);
                            if p < s.len() && s[p] == ',' {
                                lemma_skip_ws_bounds(s, p + 1);
                                let next = skip_ws(s, p + 1);
                                // The fields carried into the rest of the object depend
                                // on which member this was; cover every candidate pair.
                                lemma_joke_members_fuel(
                                    s,
                                    next,
                                    (f1 - 1) as nat,
                                    (f2 - 1) as nat,
                                    su,
                                    pu,
                                );
                                match parse_string(s, v) {
                                    None => {},
                                    Some(q) => {
                                        lemma_joke_members_fuel(
                                            s,
                                            next,
                                            (f1 - 1) as nat,
                                            (f2 - 1) as nat,
                                            Some(q.0),
                                            pu,
                                        );
                                        lemma_joke_members_fuel(
                                            s,
                                            next,
                                            (f1 - 1) as nat,
                                            (f2 - 1) as nat,
                                            su,
                                            Some(q.0),
                                        );
                                    },
                                }
                            }
                        },
                    }
                }
            },
        }
    }
}

proof fn lemma_jokes_elements_fuel(s: Seq<char>, i: int, f1: nat, f2: nat)
    requires
        0 <= i <= s.len(),
        f1 >= s.len() - i,
        f2 >= s.len() - i,
    ensures
        parse_jokes_elements(s, i, f1) == parse_jokes_elements(s, i, f2),
        match parse_jokes_elements(s, i, f1) {
            Some(p) => i < p.1 <= s.len(),
            None => true,
        },
    decreases s.len() - i, 2int,
{
    if 0 <= i && i < s.len() && s[i] == '{' {
        lemma_skip_ws_bounds(s, i + 1);
        let w = skip_ws(s, i + 1);
        lemma_joke_members_fuel(s, w, (f1 - 1) as nat, (f2 - 1) as nat, None, None);
        match parse_joke_members(s, w, (f1 - 1) as nat, None, None) {
            None => {},
            Some((first, m)) => {
                lemma_skip_ws_bounds(s, m);
                let p = skip_ws(s, m);
                if p < s.len() && s[p] == ',' {
                    lemma_skip_ws_bounds(s, p + 1);
                    lemma_jokes_elements_fuel(
                        s,
                        skip_ws(s, p + 1),
                        (f1 - 1) as nat,
                        (f2 - 1) as nat,
                    );
                }
            },
        }
    }
}

/// The recursion budget that `parse_jokes_spec` fixes is ample: every
/// budget of at least the input's length decodes the input the same
/// way. The budget therefore only settles termination; it never turns a
/// decodable body away.
pub proof fn lemma_budget_is_ample(s: Seq<char>, fuel: nat)
    requires
        fuel >= s.len(),
    ensures
        parse_jokes_with(s, fuel) == parse_jokes_spec(s),
{
    lemma_skip_ws_bounds(s, 0);
    let i = skip_ws(s, 0);
    if i < s.len() && s[i] == '[' {
        lemma_skip_ws_bounds(s, i + 1);
        lemma_jokes_elements_fuel(s, skip_ws(s, i + 1), fuel, s.len() as nat);
    }
}

/// Relies on String::push: it appends the given character to the end of
/// the string.
#[verifier::external_body]
fn push_char(s: &mut String, c: char)
    ensures
        final(s)@ == old(s)@.push(c),
{
    s.push(c)
}

/// Relies on char::from_u32: for a value outside the surrogate range and
/// at most 0x10FFFF it returns the character with that scalar value.
#[verifier::external_body]
fn char_from_scalar(v: u32) -> (c: char)
    requires
        v < 0xD800 || (0xE000 <= v && v <= 0x10FFFF),
    ensures
        c as u32 == v,
        c == ((v as int) as char),
{
    char::from_u32(v).unwrap()
}

/// Walks past JSON whitespace starting at `i`.
fn scan_ws(s: &str, n: usize, i: usize) -> (r: usize)
    requires
        n == s@.len(),
        i <= n,
    ensures
        r as int == skip_ws(s@, i as int),
        i <= r <= n,
{
    let mut j = i;
    while j < n && char_is_json_ws(s.get_char(j))
        invariant
            i <= j <= n,
            n == s@.len(),
            skip_ws(s@, i as int) == skip_ws(s@, j as int),
        decreases n - j,
    {
        assert(skip_ws(s@, j as int) == skip_ws(s@, j + 1));
        j = j + 1;
    }
    assert(skip_ws(s@, j as int) == j);
    j
}

/// Walks past decimal digits starting at `i`.
fn scan_digits(s: &str, n: usize, i: usize) -> (r: usize)
    requires
        n == s@.len(),
        i <= n,
    ensures
        r as int == skip_digits(s@, i as int),
        i <= r <= n,
{
    let mut j = i;
    while j < n && char_is_digit(s.get_char(j))
        invariant
            i <= j <= n,
            n == s@.len(),
            skip_digits(s@, i as int) == skip_digits(s@, j as int),
        decreases n - j,
    {
        assert(skip_digits(s@, j as int) == skip_digits(s@, j + 1));
        j = j + 1;
    }
    assert(skip_digits(s@, j as int) == j);
    j
}

/// The value of one hexadecimal digit, or nothing for any other
/// character.
fn hex_digit_val(c: char) -> (r: Option<u32>)
    ensures
        match r {
            Some(v) => is_hex_digit(c) && v as int == hex_val(c) && v < 16,
            None => !is_hex_digit(c),
        },
{
    let v = c as u32;
    if 0x30 <= v && v <= 0x39 {
        Some(v - 0x30)
    } else if 0x61 <= v && v <= 0x66 {
        Some(v - 0x61 + 10)
    } else if 0x41 <= v && v <= 0x46 {
        Some(v - 0x41 + 10)
    } else {
        None
    }
}

/// The value of the four hexadecimal digits at `i`, or nothing when
/// they are not there.
fn read_hex4(s: &str, n: usize, i: usize) -> (r: Option<u32>)
    requires
        n == s@.len(),
        i <= n,
    ensures
        match r {
            Some(v) => hex4_at(s@, i as int) && v as int == hex4_val(s@, i as int) && v < 0x10000,
            None => !hex4_at(s@, i as int),
        },
{
    if n - i >= 4 {
        let r0 = hex_digit_val(s.get_char(i));
        let r1 = hex_digit_val(s.get_char(i + 1));
        let r2 = hex_digit_val(s.get_char(i + 2));
        let r3 = hex_digit_val(s.get_char(i + 3));
        match (r0, r1, r2, r3) {
            (Some(v0), Some(v1), Some(v2), Some(v3)) => Some(
                v0 * 0x1000 + v1 * 0x100 + v2 * 0x10 + v3,
            ),
            _ => None,
        }
    } else {
        None
    }
}

/// One escape sequence starting at the backslash at `i`.
fn read_escape(s: &str, n: usize, i: usize) -> (r: Option<(char, usize)>)
    requires
        n == s@.len(),
        i <= n,
    ensures
        match r {
            Some(p) => parse_escape(s@, i as int) == Some((p.0, p.1 as int)) && i < p.1 <= n,
            None => parse_escape(s@, i as int) is None,
        },
{
    if n - i >= 2 && s.get_char(i) == '\\' {
        let e = s.get_char(i + 1);
        if e == '"' {
            Some(('"', i + 2))
        } else if e == '\\' {
            Some(('\\', i + 2))
        } else if e == '/' {
            Some(('/', i + 2))
        } else if e == 'b' {
            Some(('\u{0008}', i + 2))
        } else if e == 'f' {
            Some(('\u{000C}', i + 2))
        } else if e == 'n' {
            Some(('\n', i + 2))
        } else if e == 'r' {
            Some(('\r', i + 2))
        } else if e == 't' {
            Some(('\t', i + 2))
        } else if e == 'u' {
            match read_hex4(s, n, i + 2) {
                None => None,
                Some(v) => {
                    if 0xD800 <= v && v <= 0xDBFF {
                        if n - i >= 12 && s.get_char(i + 6) == '\\' && s.get_char(i + 7) == 'u' {
                            match read_hex4(s, n, i + 8) {
                                None => None,
                                Some(w) => {
                                    if 0xDC00 <= w && w <= 0xDFFF {
                                        let scalar = 0x10000 + (v - 0xD800) * 0x400 + (w - 0xDC00);
                                        Some((char_from_scalar(scalar), i + 12))
                                    } else {
                                        None
                                    }
                                },
                            }
                        } else {
                            None
                        }
                    } else if 0xDC00 <= v && v <= 0xDFFF {
                        None
                    } else {
                        Some((char_from_scalar(v), i + 6))
                    }
                },
            }
        } else {
            None
        }
    } else {
        None
    }
}

/// The rest of a JSON string after its opening quote, appended in
/// decoded form to `out`; returns the index just past the closing
/// quote.
fn read_string_tail(s: &str, n: usize, i: usize, out: &mut String) -> (r: Option<usize>)
    requires
        n == s@.len(),
        i <= n,
    ensures
        match parse_string_tail(s@, i as int) {
            Some(p) => (r matches Some(k) && k as int == p.1 && k <= n && final(out)@ == old(out)@
                + p.0),
            None => r is None,
        },
    decreases n - i,
{
    if i >= n {
        return None;
    }
    let c = s.get_char(i);
    if c == '"' {
        assert(out@ =~= old(out)@ + Seq::<char>::empty());
        return Some(i + 1);
    }
    if c == '\\' {
        match read_escape(s, n, i) {
            None => None,
            Some((ec, j)) => {
                push_char(out, ec);
                match read_string_tail(s, n, j, out) {
                    None => None,
                    Some(k) => {
                        proof {
                            let p = parse_string_tail(s@, j as int).unwrap();
                            assert(out@ =~= old(out)@ + (seq![ec] + p.0));
                        }
                        Some(k)
                    },
                }
            },
        }
    } else if (c as u32) < 0x20 {
        None
    } else {
        push_char(out, c);
        match read_string_tail(s, n, i + 1, out) {
            None => None,
            Some(k) => {
                proof {
                    let p = parse_string_tail(s@, i + 1).unwrap();
                    assert(out@ =~= old(out)@ + (seq![c] + p.0));
                }
                Some(k)
            },
        }
    }
}

/// Walks past one JSON number starting at `i`.
fn scan_number(s: &str, n: usize, i: usize) -> (r: Option<usize>)
    requires
        n == s@.len(),
        i <= n,
    ensures
        match r {
            Some(k) => skip_number(s@, i as int) == Some(k as int) && k <= n,
            None => skip_number(s@, i as int) is None,
        },
{
    let j = if i < n && s.get_char(i) == '-' {
        i + 1
    } else {
        i
    };
    if !(j < n && char_is_digit(s.get_char(j))) {
        return None;
    }
    let k = if s.get_char(j) == '0' {
        j + 1
    } else {
        scan_digits(s, n, j)
    };
    let k2 = if k < n && s.get_char(k) == '.' {
        if k + 1 < n && char_is_digit(s.get_char(k + 1)) {
            scan_digits(s, n, k + 1)
        } else {
            return None;
        }
    } else {
        k
    };
    assert(skip_frac(s@, k as int) == Some(k2 as int));
    if k2 < n && (s.get_char(k2) == 'e' || s.get_char(k2) == 'E') {
        let m = if k2 + 1 < n && (s.get_char(k2 + 1) == '+' || s.get_char(k2 + 1) == '-') {
            k2 + 2
        } else {
            k2 + 1
        };
        if m < n && char_is_digit(s.get_char(m)) {
            let e = scan_digits(s, n, m);
            assert(skip_exp(s@, k2 as int) == Some(e as int));
            Some(e)
        } else {
            None
        }
    } else {
        Some(k2)
    }
}

/// Walks past any JSON value starting at `i`.
fn pass_value(s: &str, n: usize, i: usize, fuel: usize) -> (r: Option<usize>)
    requires
        n == s@.len(),
        i <= n,
    ensures
        match r {
            Some(k) => skip_value(s@, i as int, fuel as nat) == Some(k as int) && k <= n,
            None => skip_value(s@, i as int, fuel as nat) is None,
        },
    decreases fuel, n - i, 0int,
{
    if i >= n {
        return None;
    }
    let c = s.get_char(i);
    if c == '"' {
        match read_string(s, n, i) {
            None => None,
            Some(p) => Some(p.1),
        }
    } else if c == 't' {
        if n - i >= 4 && s.get_char(i + 1) == 'r' && s.get_char(i + 2) == 'u' && s.get_char(i + 3)
            == 'e' {
            Some(i + 4)
        } else {
            None
        }
    } else if c == 'f' {
        if n - i >= 5 && s.get_char(i + 1) == 'a' && s.get_char(i + 2) == 'l' && s.get_char(i + 3)
            == 's' && s.get_char(i + 4) == 'e' {
            Some(i + 5)
        } else {
            None
        }
    } else if c == 'n' {
        if n - i >= 4 && s.get_char(i + 1) == 'u' && s.get_char(i + 2) == 'l' && s.get_char(i + 3)
            == 'l' {
            Some(i + 4)
        } else {
            None
        }
    } else if c == '-' || char_is_digit(c) {
        scan_number(s, n, i)
    } else if c == '[' {
        if fuel == 0 {
            None
        } else {
            pass_elements(s, n, scan_ws(s, n, i + 1), fuel - 1)
        }
    } else if c == '{' {
        if fuel == 0 {
            None
        } else {
            pass_members(s, n, scan_ws(s, n, i + 1), fuel - 1)
        }
    } else {
        None
    }
}

/// Walks past the elements of an array, starting after its `[` and any
/// whitespace.
fn pass_elements(s: &str, n: usize, i: usize, fuel: usize) -> (r: Option<usize>)
    requires
        n == s@.len(),
        i <= n,
    ensures
        match r {
            Some(k) => skip_elements(s@, i as int, fuel as nat) == Some(k as int) && k <= n,
            None => skip_elements(s@, i as int, fuel as nat) is None,
        },
    decreases fuel, n - i, 1int,
{
    if i >= n {
        return None;
    }
    if s.get_char(i) == ']' {
        return Some(i + 1);
    }
    match pass_value(s, n, i, fuel) {
        None => None,
        Some(m) => {
            let p = scan_ws(s, n, m);
            if p < n && s.get_char(p) == ',' {
                if fuel == 0 {
                    None
                } else {
                    pass_elements(s, n, scan_ws(s, n, p + 1), fuel - 1)
                }
            } else if p < n && s.get_char(p) == ']' {
                Some(p + 1)
            } else {
                None
            }
        },
    }
}

/// Walks past the members of an object, starting after its `{` and any
/// whitespace.
fn pass_members(s: &str, n: usize, i: usize, fuel: usize) -> (r: Option<usize>)
    requires
        n == s@.len(),
        i <= n,
    ensures
        match r {
            Some(k) => skip_members(s@, i as int, fuel as nat) == Some(k as int) && k <= n,
            None => skip_members(s@, i as int, fuel as nat) is None,
        },
    decreases fuel, n - i, 1int,
{
    if i >= n {
        return None;
    }
    if s.get_char(i) == '}' {
        return Some(i + 1);
    }
    match read_string(s, n, i) {
        None => None,
        Some((_key, j)) => {
            let k = scan_ws(s, n, j);
            if !(k < n && s.get_char(k) == ':') {
                None
            } else if fuel == 0 {
                None
            } else {
                match pass_value(s, n, scan_ws(s, n, k + 1), fuel - 1) {
                    None => None,
                    Some(m) => {
                        let p = scan_ws(s, n, m);
                        if p < n && s.get_char(p) == ',' {
                            pass_members(s, n, scan_ws(s, n, p + 1), fuel - 1)
                        } else if p < n && s.get_char(p) == '}' {
                            Some(p + 1)
                        } else {
                            None
                        }
                    },
                }
            }
        },
    }
}

/// A whole JSON string starting at the opening quote at `i`: its
/// decoded content and the index just past the closing quote.
fn read_string(s: &str, n: usize, i: usize) -> (r: Option<(String, usize)>)
    requires
        n == s@.len(),
        i <= n,
    ensures
        match r {
            Some(p) => parse_string(s@, i as int) == Some((p.0@, p.1 as int)) && p.1 <= n,
            None => parse_string(s@, i as int) is None,
        },
{
    if i < n && s.get_char(i) == '"' {
        let mut out = String::new();
        match read_string_tail(s, n, i + 1, &mut out) {
            Some(k) => {
                proof {
                    let p = parse_string_tail(s@, i + 1).unwrap();
                    assert(out@ =~= p.0);
                }
                Some((out, k))
            },
            None => None,
        }
    } else {
        None
    }
}

/// One joke record: the two texts the service promises.
pub struct Joke {
    pub setup: String,
    pub punchline: String,
}

impl View for Joke {
    type V = JokeView;

    open spec fn view(&self) -> JokeView {
        JokeView { setup: self.setup@, punchline: self.punchline@ }
    }
}

/// The texts that a vector of jokes holds, in order.
pub open spec fn jokes_view(jokes: Seq<Joke>) -> Seq<JokeView> {
    jokes.map_values(|j: Joke| j@)
}

/// What an optional decoded field holds.
pub open spec fn opt_text(o: Option<String>) -> Option<Seq<char>> {
    match o {
        Some(t) => Some(t@),
        None => None,
    }
}

/// Decodes the members of one joke object, starting after its `{` and
/// any whitespace.
fn read_joke_members(
    s: &str,
    n: usize,
    i: usize,
    fuel: usize,
    setup: Option<String>,
    punchline: Option<String>,
) -> (r: Option<(Joke, usize)>)
    requires
        n == s@.len(),
        i <= n,
    ensures
        match r {
            Some(p) => parse_joke_members(
                s@,
                i as int,
                fuel as nat,
                opt_text(setup),
                opt_text(punchline),
            ) == Some((p.0@, p.1 as int)) && p.1 <= n,
            None => parse_joke_members(
                s@,
                i as int,
                fuel as nat,
                opt_text(setup),
                opt_text(punchline),
            ) is None,
        },
    decreases fuel, n - i, 1int,
{
    if i >= n {
        return None;
    }
    if s.get_char(i) == '}' {
        return match (setup, punchline) {
            (Some(a), Some(b)) => Some((Joke { setup: a, punchline: b }, i + 1)),
            _ => None,
        };
    }
    match read_string(s, n, i) {
        None => None,
        Some((key, j)) => {
            let k = scan_ws(s, n, j);
            if !(k < n && s.get_char(k) == ':') {
                None
            } else if fuel == 0 {
                None
            } else {
                let v = scan_ws(s, n, k + 1);
                let setup_name = String::from_str("setup");
                let punchline_name = String::from_str("punchline");
                let stepped: Option<(Option<String>, Option<String>, usize)> = if key
                    == setup_name {
                    if setup.is_some() {
                        None
                    } else {
                        match read_string(s, n, v) {
                            None => None,
                            Some((text, m)) => Some((Some(text), punchline, m)),
                        }
                    }
                } else if key == punchline_name {
                    if punchline.is_some() {
                        None
                    } else {
                        match read_string(s, n, v) {
                            None => None,
                            Some((text, m)) => Some((setup, Some(text), m)),
                        }
                    }
                } else {
                    match pass_value(s, n, v, fuel - 1) {
                        None => None,
                        Some(m) => Some((setup, punchline, m)),
                    }
                };
                match stepped {
                    None => None,
                    Some((su, pu, m)) => {
                        let p = scan_ws(s, n, m);
                        if p < n && s.get_char(p) == ',' {
                            read_joke_members(s, n, scan_ws(s, n, p + 1), fuel - 1, su, pu)
                        } else if p < n && s.get_char(p) == '}' {
                            match (su, pu) {
                                (Some(a), Some(b)) => Some(
                                    (Joke { setup: a, punchline: b }, p + 1),
                                ),
                                _ => None,
                            }
                        } else {
                            None
                        }
                    },
                }
            }
        },
    }
}

/// Decodes the elements of the top-level array, starting after its `[`
/// and any whitespace.
fn read_jokes_elements(s: &str, n: usize, i: usize, fuel: usize) -> (r: Option<(Vec<Joke>, usize)>)
    requires
        n == s@.len(),
        i <= n,
    ensures
        match r {
            Some(p) => parse_jokes_elements(s@, i as int, fuel as nat) == Some(
                (jokes_view(p.0@), p.1 as int),
            ) && p.1 <= n,
            None => parse_jokes_elements(s@, i as int, fuel as nat) is None,
        },
    decreases fuel, n - i, 2int,
{
    if i >= n {
        return None;
    }
    if s.get_char(i) == ']' {
        let jokes: Vec<Joke> = Vec::new();
        assert(jokes_view(jokes@) =~= Seq::<JokeView>::empty());
        return Some((jokes, i + 1));
    }
    if s.get_char(i) != '{' {
        return None;
    }
    if fuel == 0 {
        return None;
    }
    match read_joke_members(s, n, scan_ws(s, n, i + 1), fuel - 1, None, None) {
        None => None,
        Some((first, m)) => {
            let p = scan_ws(s, n, m);
            if p < n && s.get_char(p) == ',' {
                match read_jokes_elements(s, n, scan_ws(s, n, p + 1), fuel - 1) {
                    None => None,
                    Some((mut rest, q)) => {
                        let ghost rest_snapshot = rest@;
                        rest.insert(0, first);
                        proof {
                            assert(jokes_view(rest@) =~= seq![first@] + jokes_view(rest_snapshot));
                        }
                        Some((rest, q))
                    },
                }
            } else if p < n && s.get_char(p) == ']' {
                let mut jokes: Vec<Joke> = Vec::new();
                jokes.push(first);
                assert(jokes_view(jokes@) =~= seq![first@]);
                Some((jokes, p + 1))
            } else {
                None
            }
        },
    }
}

/// Error for a reply body that is not a JSON array of jokes.
#[derive(Clone, Copy, PartialEq, Eq, Structural, Debug)]
pub struct DecodeError;

impl DecodeError {
    /// The description printed for a body that did not decode.
    pub fn message(&self) -> (r: String)
        ensures
            r@ == "the reply was not a JSON array of jokes"@,
    {
        String::from_str("the reply was not a JSON array of jokes")
    }
}

/// Decodes the service's reply body: a JSON array of joke objects.
/// Succeeds exactly on the bodies that the grammar admits, and then
/// returns every joke of the array, in order, with its decoded texts.
pub fn parse_jokes(body: &str) -> (r: Result<Vec<Joke>, DecodeError>)
    ensures
        match r {
            Ok(jokes) => parse_jokes_spec(body@) == Some(jokes_view(jokes@)),
            Err(e) => parse_jokes_spec(body@) is None,
        },
{
    let n = body.unicode_len();
    let i = scan_ws(body, n, 0);
    if i < n && body.get_char(i) == '[' {
        match read_jokes_elements(body, n, scan_ws(body, n, i + 1), n) {
            None => Err(DecodeError),
            Some((jokes, j)) => {
                if scan_ws(body, n, j) == n {
                    Ok(jokes)
                } else {
                    Err(DecodeError)
                }
            },
        }
    } else {
        Err(DecodeError)
    }
}

} // verus!
