//! The JSON text of a one-element array of strings, as the version query sends it.

use vstd::prelude::*;

verus! {

/// Lower-case hexadecimal digit for a value below 16.
pub open spec fn hex_digit(n: int) -> char {
    if n < 10 {
        ('0' as int + n) as char
    } else {
        ('a' as int + n - 10) as char
    }
}

/// How the compact JSON writer spells one character inside a string literal:
/// quote and backslash are escaped, the control characters with short forms
/// (`\b \t \n \f \r`) use them, the other characters below U+0020 become
/// `\u00XX` with lower-case hex digits, and everything else stands as it is.
pub open spec fn json_escaped_char(c: char) -> Seq<char> {
    if c == '"' {
        seq!['\\', '"']
    } else if c == '\\' {
        seq!['\\', '\\']
    } else if c == '\x08' {
        seq!['\\', 'b']
    } else if c == '\t' {
        seq!['\\', 't']
    } else if c == '\n' {
        seq!['\\', 'n']
    } else if c == '\x0c' {
        seq!['\\', 'f']
    } else if c == '\r' {
        seq!['\\', 'r']
    } else if (c as int) < 0x20 {
        seq!['\\', 'u', '0', '0', hex_digit(c as int / 16), hex_digit(c as int % 16)]
    } else {
        seq![c]
    }
}

/// The escaped contents of a JSON string literal.
pub open spec fn json_escaped(s: Seq<char>) -> Seq<char>
    decreases s.len(),
{
    if s.len() == 0 {
        Seq::empty()
    } else {
        json_escaped(s.drop_last()) + json_escaped_char(s.last())
    }
}

/// Compact JSON text of an array holding the one string `item`: `["item"]`.
pub open spec fn json_string_array_text(item: Seq<char>) -> Seq<char> {
    seq!['[', '"'] + json_escaped(item) + seq!['"', ']']
}

/// Calls `serde_json::Value::to_string` (its `Display`, the compact writer) on
/// `Value::Array(vec![Value::String(item)])`. The contract claims that the text
/// is `[`, the string literal as serde_json's `format_escaped_str` writes it,
/// and `]`, with no whitespace.
#[verifier::external_body]
pub(crate) fn json_single_string_array(item: &str) -> (r: String)
    ensures
        r@ == json_string_array_text(item@),
{
    serde_json::Value::Array(vec![serde_json::Value::String(item.to_string())]).to_string()
}

} // verus!
