//! The responses that the server words itself.

use vstd::prelude::*;
use vstd::utf8::encode_utf8;

verus! {

/// The response to a request whose path no route takes.
pub open spec fn not_found_text() -> Seq<char> {
    "HTTP/1.1 404 NOT FOUND\n\nPath Not Found"@
}

/// The response to a text that is no request.
pub open spec fn bad_request_text() -> Seq<char> {
    "HTTP/1.1 400 BAD REQUEST\n\nMalformed Request"@
}

/// The character of a decimal digit.
pub open spec fn digit(d: nat) -> char {
    if d == 0 {
        '0'
    } else if d == 1 {
        '1'
    } else if d == 2 {
        '2'
    } else if d == 3 {
        '3'
    } else if d == 4 {
        '4'
    } else if d == 5 {
        '5'
    } else if d == 6 {
        '6'
    } else if d == 7 {
        '7'
    } else if d == 8 {
        '8'
    } else {
        '9'
    }
}

/// The number that a decimal digit's character stands for.
pub open spec fn digit_value(c: char) -> nat {
    if c == '1' {
        1
    } else if c == '2' {
        2
    } else if c == '3' {
        3
    } else if c == '4' {
        4
    } else if c == '5' {
        5
    } else if c == '6' {
        6
    } else if c == '7' {
        7
    } else if c == '8' {
        8
    } else if c == '9' {
        9
    } else {
        0
    }
}

/// `n` written in decimal, without leading zeros.
pub open spec fn decimal(n: nat) -> Seq<char>
    decreases n,
{
    if n < 10 {
        seq![digit(n)]
    } else {
        decimal(n / 10).push(digit(n % 10))
    }
}

/// The number that a run of decimal digits stands for.
pub open spec fn decimal_value(digits: Seq<char>) -> nat
    decreases digits.len(),
{
    if digits.len() == 0 {
        0
    } else {
        decimal_value(digits.drop_last()) * 10 + digit_value(digits.last())
    }
}

/// Reading a number's decimal form gives the number back.
pub proof fn lemma_decimal_value(n: nat)
    ensures
        decimal_value(decimal(n)) == n,
        decimal(n).len() >= 1,
    decreases n,
{
    if n < 10 {
        assert(decimal(n).drop_last() =~= Seq::<char>::empty());
        assert(decimal_value(decimal(n).drop_last()) == 0);
    } else {
        lemma_decimal_value(n / 10);
        assert(decimal(n).drop_last() =~= decimal(n / 10));
    }
}

/// The response that carries the text of a file: a status line, the length
/// of the text in bytes of UTF-8, a blank line, and the text.
pub open spec fn file_response_text(content: Seq<char>) -> Seq<char> {
    "HTTP/1.1 200 OK\r\nContent-Length: "@ + decimal(encode_utf8(content).len()) + "\r\n\r\n"@
        + content
}

/// The response to a request whose path no route takes.
pub fn not_found() -> (response: String)
    ensures
        response@ == not_found_text(),
{
    "HTTP/1.1 404 NOT FOUND\n\nPath Not Found".to_owned()
}

/// The response to a text that is no request.
pub fn bad_request() -> (response: String)
    ensures
        response@ == bad_request_text(),
{
    "HTTP/1.1 400 BAD REQUEST\n\nMalformed Request".to_owned()
}

/// The text of one decimal digit.
fn digit_text(d: usize) -> (text: &'static str)
    requires
        d < 10,
    ensures
        text@ == seq![digit(d as nat)],
{
    proof {
        reveal_strlit("0");
        reveal_strlit("1");
        reveal_strlit("2");
        reveal_strlit("3");
        reveal_strlit("4");
        reveal_strlit("5");
        reveal_strlit("6");
        reveal_strlit("7");
        reveal_strlit("8");
        reveal_strlit("9");
    }
    let text: &'static str = if d == 0 {
        "0"
    } else if d == 1 {
        "1"
    } else if d == 2 {
        "2"
    } else if d == 3 {
        "3"
    } else if d == 4 {
        "4"
    } else if d == 5 {
        "5"
    } else if d == 6 {
        "6"
    } else if d == 7 {
        "7"
    } else if d == 8 {
        "8"
    } else {
        "9"
    };
    assert(text@ =~= seq![digit(d as nat)]);
    text
}

/// `n` written in decimal; see `decimal`.
pub fn decimal_text(n: usize) -> (text: String)
    ensures
        text@ == decimal(n as nat),
    decreases n,
{
    if n < 10 {
        digit_text(n).to_owned()
    } else {
        let mut text = decimal_text(n / 10);
        text.append(digit_text(n % 10));
        text
    }
}

/// The response that carries the text of a file; see `file_response_text`.
pub fn file_response(content: &str) -> (response: String)
    ensures
        response@ == file_response_text(content@),
{
    let mut response = "HTTP/1.1 200 OK\r\nContent-Length: ".to_owned();
    let length = decimal_text(content.as_bytes().len());
    response.append(length.as_str());
    response.append("\r\n\r\n");
    response.append(content);
    response
}

} // verus!
