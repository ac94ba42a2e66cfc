//! JSON encoding of the outgoing message body.
//!
//! The body posted for an outgoing message is the object
//! `{"text": "<message>"}`. The message text goes through a correct JSON
//! string encoding — quotation mark, backslash and control characters are
//! escaped — rather than being spliced into the object verbatim.

use vstd::prelude::*;

verus! {

/// The hexadecimal digit for a value below 16.
pub open spec fn hex_digit(n: int) -> char {
    seq![
        '0',
        '1',
        '2',
        '3',
        '4',
        '5',
        '6',
        '7',
        '8',
        '9',
        'a',
        'b',
        'c',
        'd',
        'e',
        'f',
    ][n]
}

/// How one character appears inside a JSON string: itself, a two
/// character escape, or a `\u00..` escape for the remaining control
/// characters.
pub open spec fn escape_char(c: char) -> Seq<char> {
    if c == '"' {
        seq!['\\', '"']
    } else if c == '\\' {
        seq!['\\', '\\']
    } else if c == '\x08' {
        seq!['\\', 'b']
    } else if c == '\x0C' {
        seq!['\\', 'f']
    } else if c == '\n' {
        seq!['\\', 'n']
    } else if c == '\r' {
        seq!['\\', 'r']
    } else if c == '\t' {
        seq!['\\', 't']
    } else if (c as u32) < 0x20 {
        seq!['\\', 'u', '0', '0', hex_digit((c as u32) as int / 16), hex_digit(
            (c as u32) as int % 16,
        )]
    } else {
        seq![c]
    }
}

/// A whole string, JSON escaped.
pub open spec fn escape_string(s: Seq<char>) -> Seq<char>
    decreases s.len(),
{
    if s.len() == 0 {
        Seq::empty()
    } else {
        escape_string(s.drop_last()) + escape_char(s.last())
    }
}

/// The outgoing body for a message text.
pub open spec fn text_body(text: Seq<char>) -> Seq<char> {
    "{\"text\": \""@ + escape_string(text) + "\"}"@
}

/// Relies on String::push: appends exactly the one character.
#[verifier::external_body]
fn push_char(out: &mut String, c: char)
    ensures
        final(out)@ == old(out)@ + seq![c],
{
    out.push(c);
}

/// The hexadecimal digit for a value below 16.
fn hex_digit_char(n: u32) -> (c: char)
    requires
        n < 16,
    ensures
        c == hex_digit(n as int),
{
    if n == 0 {
        '0'
    } else if n == 1 {
        '1'
    } else if n == 2 {
        '2'
    } else if n == 3 {
        '3'
    } else if n == 4 {
        '4'
    } else if n == 5 {
        '5'
    } else if n == 6 {
        '6'
    } else if n == 7 {
        '7'
    } else if n == 8 {
        '8'
    } else if n == 9 {
        '9'
    } else if n == 10 {
        'a'
    } else if n == 11 {
        'b'
    } else if n == 12 {
        'c'
    } else if n == 13 {
        'd'
    } else if n == 14 {
        'e'
    } else {
        'f'
    }
}

/// Appends the JSON escape of one character.
fn push_escaped(out: &mut String, c: char)
    ensures
        final(out)@ == old(out)@ + escape_char(c),
{
    if c == '"' {
        out.append("\\\"");
        proof {
            reveal_strlit("\\\"");
            assert(("\\\"")@ =~= seq!['\\', '"']);
        }
    } else if c == '\\' {
        out.append("\\\\");
        proof {
            reveal_strlit("\\\\");
            assert(("\\\\")@ =~= seq!['\\', '\\']);
        }
    } else if c == '\x08' {
        out.append("\\b");
        proof {
            reveal_strlit("\\b");
            assert(("\\b")@ =~= seq!['\\', 'b']);
        }
    } else if c == '\x0C' {
        out.append("\\f");
        proof {
            reveal_strlit("\\f");
            assert(("\\f")@ =~= seq!['\\', 'f']);
        }
    } else if c == '\n' {
        out.append("\\n");
        proof {
            reveal_strlit("\\n");
            assert(("\\n")@ =~= seq!['\\', 'n']);
        }
    } else if c == '\r' {
        out.append("\\r");
        proof {
            reveal_strlit("\\r");
            assert(("\\r")@ =~= seq!['\\', 'r']);
        }
    } else if c == '\t' {
        out.append("\\t");
        proof {
            reveal_strlit("\\t");
            assert(("\\t")@ =~= seq!['\\', 't']);
        }
    } else if (c as u32) < 0x20 {
        out.append("\\u00");
        let hi = hex_digit_char((c as u32) / 16);
        let lo = hex_digit_char((c as u32) % 16);
        push_char(out, hi);
        push_char(out, lo);
        proof {
            reveal_strlit("\\u00");
            assert(("\\u00")@ =~= seq!['\\', 'u', '0', '0']);
            assert(old(out)@ + ("\\u00")@ + seq![hi] + seq![lo] =~= old(out)@ + escape_char(c));
        }
    } else {
        push_char(out, c);
    }
}

/// Builds the outgoing JSON body `{"text": "<escaped text>"}`.
pub fn encode_text_body(text: &str) -> (body: String)
    ensures
        body@ == text_body(text@),
{
    let mut out = String::from_str("{\"text\": \"");
    let n = text.unicode_len();
    let mut i: usize = 0;
    proof {
        assert(text@.take(0) =~= Seq::<char>::empty());
    }
    while i < n
        invariant
            n == text@.len(),
            i <= n,
            out@ == "{\"text\": \""@ + escape_string(text@.take(i as int)),
        decreases n - i,
    {
        let c = text.get_char(i);
        push_escaped(&mut out, c);
        proof {
            assert(text@.take(i + 1).drop_last() =~= text@.take(i as int));
            assert(text@.take(i + 1).last() == text@[i as int]);
        }
        i = i + 1;
    }
    out.append("\"}");
    proof {
        assert(text@.take(n as int) =~= text@);
        assert(out@ =~= text_body(text@));
    }
    out
}

} // verus!
