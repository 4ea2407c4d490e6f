//! The JSON text of a comment: which members an object has, in which order,
//! and how a list of objects is joined. A single string or number is
//! written by `serde_json`; what it writes is stated here.

use vstd::prelude::*;
use vstd::string::*;

verus! {

/// The sixteen hexadecimal digits, letters in lower case.
pub open spec fn hex_digit(d: int) -> char {
    seq!['0', '1', '2', '3', '4', '5', '6', '7', '8', '9', 'a', 'b', 'c', 'd', 'e', 'f'][d]
}

/// One character as it stands inside a JSON string: the quote, the
/// backslash and the control characters are escaped, every other character
/// stands for itself.
pub open spec fn escaped(c: char) -> Seq<char> {
    if c == '"' {
        seq!['\\', '"']
    } else if c == '\\' {
        seq!['\\', '\\']
    } else if c == '\u{8}' {
        seq!['\\', 'b']
    } else if c == '\u{c}' {
        seq!['\\', 'f']
    } else if c == '\n' {
        seq!['\\', 'n']
    } else if c == '\r' {
        seq!['\\', 'r']
    } else if c == '\t' {
        seq!['\\', 't']
    } else if (c as u32) < 0x20 {
        seq![
            '\\',
            'u',
            '0',
            '0',
            hex_digit((c as u32 / 16) as int),
            hex_digit((c as u32 % 16) as int),
        ]
    } else {
        seq![c]
    }
}

/// The characters of `s`, each as `escaped` writes it.
pub open spec fn escaped_text(s: Seq<char>) -> Seq<char>
    decreases s.len(),
{
    if s.len() == 0 {
        Seq::empty()
    } else {
        escaped_text(s.drop_last()) + escaped(s.last())
    }
}

/// The JSON text of the string `s`: its escaped characters between two
/// quotes.
pub open spec fn json_string(s: Seq<char>) -> Seq<char> {
    seq!['"'] + escaped_text(s) + seq!['"']
}

/// The ten digits.
pub open spec fn digit(d: int) -> char {
    seq!['0', '1', '2', '3', '4', '5', '6', '7', '8', '9'][d]
}

/// `n` in decimal, without leading zeros.
pub open spec fn digits(n: nat) -> Seq<char>
    decreases n,
{
    if n < 10 {
        seq![digit(n as int)]
    } else {
        digits(n / 10).push(digit((n % 10) as int))
    }
}

/// `n` in decimal, with a minus sign where it is negative.
pub open spec fn decimal(n: int) -> Seq<char> {
    if n < 0 {
        seq!['-'] + digits((-n) as nat)
    } else {
        digits(n as nat)
    }
}

/// The JSON text of a boolean.
pub open spec fn json_bool(b: bool) -> Seq<char> {
    if b {
        "true"@
    } else {
        "false"@
    }
}

/// The JSON text of an optional string whose own text is `quoted`: `null`
/// where there is none.
pub open spec fn json_optional(quoted: Option<Seq<char>>) -> Seq<char> {
    match quoted {
        Some(text) => text,
        None => "null"@,
    }
}

/// The JSON object of one comment, from the JSON text of each member.
pub open spec fn framed(
    author: Seq<char>,
    body: Seq<char>,
    body_html: Seq<char>,
    created_utc: Seq<char>,
    distinguished: Seq<char>,
    edited: Seq<char>,
    id: Seq<char>,
    is_submitter: bool,
    link_id: Seq<char>,
    parent_id: Seq<char>,
    score: Seq<char>,
    stickied: bool,
    replies: Seq<char>,
) -> Seq<char> {
    "{\"author\":"@ + author + ",\"body\":"@ + body + ",\"body_html\":"@ + body_html
        + ",\"created_utc\":"@ + created_utc + ",\"distinguished\":"@ + distinguished
        + ",\"edited\":"@ + edited + ",\"id\":"@ + id + ",\"is_submitter\":"@ + json_bool(
        is_submitter,
    ) + ",\"link_id\":"@ + link_id + ",\"parent_id\":"@ + parent_id + ",\"score\":"@ + score
        + ",\"stickied\":"@ + json_bool(stickied) + ",\"replies\":"@ + replies + "}"@
}

/// The first `upto` of `items`, with a comma between each two.
pub open spec fn joined(items: Seq<Seq<char>>, upto: nat) -> Seq<char>
    decreases upto,
{
    if upto == 0 || upto > items.len() {
        Seq::empty()
    } else if upto == 1 {
        items[0]
    } else {
        joined(items, (upto - 1) as nat) + ","@ + items[upto - 1]
    }
}

/// The JSON array of `items`, each of them JSON text already.
pub open spec fn bracketed(items: Seq<Seq<char>>) -> Seq<char> {
    "["@ + joined(items, items.len()) + "]"@
}

/// Calls `serde_json::to_string` on a string slice. Trusted: the result is
/// a quote, then each character of the string, escaped where it is a quote,
/// a backslash or a control character below U+0020 and as it is otherwise,
/// then a quote; writing a string into memory does not fail.
#[verifier::external_body]
pub(crate) fn quote(s: &str) -> (text: String)
    ensures
        text@ == json_string(s@),
{
    serde_json::to_string(s).unwrap_or_default()
}

/// Calls `serde_json::to_string` on a 32-bit integer. Trusted: the result
/// is the integer in decimal, with a minus sign where it is negative and
/// without leading zeros.
#[verifier::external_body]
pub(crate) fn number(n: i32) -> (text: String)
    ensures
        text@ == decimal(n as int),
{
    serde_json::to_string(&n).unwrap_or_default()
}

/// The JSON text of a boolean: `true` or `false`.
pub fn flag(b: bool) -> (text: &'static str)
    ensures
        text@ == json_bool(b),
{
    if b {
        "true"
    } else {
        "false"
    }
}

/// Frames one comment as a JSON object. Each string argument is the JSON
/// text of one member; the members stand in the order of the parameters.
pub fn frame_comment(
    author: &str,
    body: &str,
    body_html: &str,
    created_utc: &str,
    distinguished: &str,
    edited: &str,
    id: &str,
    is_submitter: bool,
    link_id: &str,
    parent_id: &str,
    score: &str,
    stickied: bool,
    replies: &str,
) -> (text: String)
    ensures
        text@ == framed(
            author@,
            body@,
            body_html@,
            created_utc@,
            distinguished@,
            edited@,
            id@,
            is_submitter,
            link_id@,
            parent_id@,
            score@,
            stickied,
            replies@,
        ),
{
    let mut text = String::from_str("{\"author\":");
    text.append(author);
    text.append(",\"body\":");
    text.append(body);
    text.append(",\"body_html\":");
    text.append(body_html);
    text.append(",\"created_utc\":");
    text.append(created_utc);
    text.append(",\"distinguished\":");
    text.append(distinguished);
    text.append(",\"edited\":");
    text.append(edited);
    text.append(",\"id\":");
    text.append(id);
    text.append(",\"is_submitter\":");
    text.append(flag(is_submitter));
    text.append(",\"link_id\":");
    text.append(link_id);
    text.append(",\"parent_id\":");
    text.append(parent_id);
    text.append(",\"score\":");
    text.append(score);
    text.append(",\"stickied\":");
    text.append(flag(stickied));
    text.append(",\"replies\":");
    text.append(replies);
    text.append("}");
    text
}

/// Frames JSON texts as a JSON array: a comma between each two, square
/// brackets round the whole.
pub fn frame_list(items: &Vec<String>) -> (text: String)
    ensures
        text@ == bracketed(items@.map_values(|item: String| item@)),
{
    let ghost texts = items@.map_values(|item: String| item@);
    let mut body = String::new();
    let mut i: usize = 0;
    while i < items.len()
        invariant
            i <= items.len(),
            texts == items@.map_values(|item: String| item@),
            body@ == joined(texts, i as nat),
        decreases items.len() - i,
    {
        if i > 0 {
            body.append(",");
        }
        body.append(items[i].as_str());
        assert(body@ =~= joined(texts, (i + 1) as nat));
        i = i + 1;
    }
    let mut text = String::from_str("[");
    text.append(body.as_str());
    text.append("]");
    text
}

} // verus!
