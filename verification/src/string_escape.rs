//! Escaping of quoted string values in the protocol, and its inverse.

use vstd::prelude::*;
use crate::text::{chars_of, exec_hex_digit, exec_hex_pair_value, hex_digit, hex_pair_value, push_char};

verus! {

/// `char::is_ascii_control`: U+0000 to U+001F, and U+007F.
pub open spec fn is_ascii_control(c: char) -> bool {
    (c as u32) < 0x20 || (c as u32) == 0x7f
}

/// The escape sequence written for one character of a value.
pub open spec fn escape_char(c: char) -> Seq<char> {
    if c == '\\' {
        seq!['\\', '\\']
    } else if c == '"' {
        seq!['\\', '"']
    } else if c == '\n' {
        seq!['\\', 'n']
    } else if c == '\r' {
        seq!['\\', 'r']
    } else if c == '\t' {
        seq!['\\', 't']
    } else if is_ascii_control(c) {
        seq!['\\', 'x', hex_digit((c as u32) as int / 16), hex_digit((c as u32) as int % 16)]
    } else {
        seq![c]
    }
}

/// The escaped form of a whole value: each character replaced by its escape sequence.
pub open spec fn escaped(s: Seq<char>) -> Seq<char>
    decreases s.len(),
{
    if s.len() == 0 {
        Seq::empty()
    } else {
        escape_char(s[0]) + escaped(s.drop_first())
    }
}

/// The character that follows a backslash for the single-character escapes.
pub open spec fn simple_unescape(c: char) -> Option<char> {
    if c == '\\' {
        Some('\\')
    } else if c == '"' {
        Some('"')
    } else if c == 'n' {
        Some('\n')
    } else if c == 'r' {
        Some('\r')
    } else if c == 't' {
        Some('\t')
    } else {
        None
    }
}

/// The value that an escaped text stands for, or `None` where the text holds a
/// backslash that does not start a valid escape sequence.
pub open spec fn unescaped(s: Seq<char>) -> Option<Seq<char>>
    decreases s.len(),
{
    if s.len() == 0 {
        Some(Seq::empty())
    } else if s[0] != '\\' {
        match unescaped(s.drop_first()) {
            Some(rest) => Some(seq![s[0]] + rest),
            None => None,
        }
    } else if s.len() < 2 {
        None
    } else if simple_unescape(s[1]) is Some {
        match unescaped(s.skip(2)) {
            Some(rest) => Some(seq![simple_unescape(s[1])->0] + rest),
            None => None,
        }
    } else if s[1] == 'x' && s.len() >= 4 && hex_pair_value(s[2], s[3]) is Some {
        match unescaped(s.skip(4)) {
            Some(rest) => Some(seq![(hex_pair_value(s[2], s[3])->0) as char] + rest),
            None => None,
        }
    } else {
        None
    }
}

proof fn lemma_escaped_push(s: Seq<char>, c: char)
    ensures
        escaped(s.push(c)) == escaped(s) + escape_char(c),
    decreases s.len(),
{
    if s.len() == 0 {
        assert(s.push(c).drop_first() =~= Seq::<char>::empty());
        assert(escaped(s.push(c).drop_first()) == Seq::<char>::empty());
    } else {
        lemma_escaped_push(s.drop_first(), c);
        assert(s.push(c).drop_first() =~= s.drop_first().push(c));
        assert(s.push(c)[0] == s[0]);
    }
}

fn push_escaped_char(out: &mut String, c: char)
    ensures
        final(out)@ == old(out)@ + escape_char(c),
{
    if c == '\\' {
        push_char(out, '\\');
        push_char(out, '\\');
    } else if c == '"' {
        push_char(out, '\\');
        push_char(out, '"');
    } else if c == '\n' {
        push_char(out, '\\');
        push_char(out, 'n');
    } else if c == '\r' {
        push_char(out, '\\');
        push_char(out, 'r');
    } else if c == '\t' {
        push_char(out, '\\');
        push_char(out, 't');
    } else if (c as u32) < 0x20 || (c as u32) == 0x7f {
        let code: u8 = c as u8;
        assert(code as u32 == c as u32);
        push_char(out, '\\');
        push_char(out, 'x');
        push_char(out, exec_hex_digit(code / 16));
        push_char(out, exec_hex_digit(code % 16));
    } else {
        push_char(out, c);
    }
    assert(final(out)@ =~= old(out)@ + escape_char(c));
}

/// Escapes a value for use between double quotes: backslash, double quote,
/// newline, carriage return and tab become two-character escapes, every other
/// ASCII control character becomes `\x` and two lowercase hexadecimal digits,
/// and all other characters stay as they are.
pub fn escape_string_value(value: &str) -> (escaped_value: String)
    ensures
        escaped_value@ == escaped(value@),
{
    let chars = chars_of(value);
    let mut escaped_value = String::new();
    let mut i: usize = 0;
    while i < chars.len()
        invariant
            0 <= i <= chars.len(),
            chars@ == value@,
            escaped_value@ == escaped(chars@.take(i as int)),
        decreases chars.len() - i,
    {
        proof {
            lemma_escaped_push(chars@.take(i as int), chars@[i as int]);
            assert(chars@.take(i as int).push(chars@[i as int]) =~= chars@.take(i + 1));
        }
        push_escaped_char(&mut escaped_value, chars[i]);
        i = i + 1;
    }
    assert(chars@.take(chars.len() as int) =~= chars@);
    escaped_value
}

/// Reads back an escaped value. Returns `None` where a backslash is the last
/// character, is followed by a character that starts no escape, or starts a
/// `\x` escape whose next two characters are missing or are no base-16 byte.
pub fn unescape_string_value(escaped_value: &str) -> (value: Option<String>)
    ensures
        value matches Some(v) ==> unescaped(escaped_value@) == Some(v@),
        value is None ==> unescaped(escaped_value@) is None,
{
    let chars = chars_of(escaped_value);
    let ghost s = chars@;
    // The characters decoded so far; `unescaped` of the whole text is them
    // followed by `unescaped` of the rest.
    let mut value = String::new();
    let mut i: usize = 0;
    proof {
        assert(s.skip(0) =~= s);
        match unescaped(s) {
            Some(all) => assert(value@ + all =~= all),
            None => {},
        }
    }
    while i < chars.len()
        invariant
            0 <= i <= chars.len(),
            chars@ == s,
            s == escaped_value@,
            unescaped(s) == (match unescaped(s.skip(i as int)) {
                Some(rest) => Some(value@ + rest),
                None => None::<Seq<char>>,
            }),
        decreases chars.len() - i,
    {
        let ghost t = s.skip(i as int);
        assert(t[0] == chars@[i as int]);
        let c = chars[i];
        if c != '\\' {
            assert(t.drop_first() =~= s.skip(i + 1));
            let ghost before = value@;
            push_char(&mut value, c);
            proof {
                match unescaped(s.skip(i + 1)) {
                    Some(rest) => {
                        assert(before + (seq![c] + rest) =~= value@ + rest);
                    },
                    None => {},
                }
            }
            i = i + 1;
        } else {
            if i + 1 >= chars.len() {
                return None;
            }
            let n = chars[i + 1];
            assert(t[1] == n);
            let simple = if n == '\\' {
                Some('\\')
            } else if n == '"' {
                Some('"')
            } else if n == 'n' {
                Some('\n')
            } else if n == 'r' {
                Some('\r')
            } else if n == 't' {
                Some('\t')
            } else {
                None
            };
            assert(simple == simple_unescape(n));
            match simple {
                Some(decoded) => {
                    assert(t.skip(2) =~= s.skip(i + 2));
                    let ghost before = value@;
                    push_char(&mut value, decoded);
                    proof {
                        match unescaped(s.skip(i + 2)) {
                            Some(rest) => {
                                assert(before + (seq![decoded] + rest) =~= value@ + rest);
                            },
                            None => {},
                        }
                    }
                    i = i + 2;
                },
                None => {
                    if n != 'x' || chars.len() - i < 4 {
                        return None;
                    }
                    assert(t[2] == chars@[i + 2]);
                    assert(t[3] == chars@[i + 3]);
                    match exec_hex_pair_value(chars[i + 2], chars[i + 3]) {
                        Some(byte) => {
                            assert(t.skip(4) =~= s.skip(i + 4));
                            let ghost before = value@;
                            push_char(&mut value, byte as char);
                            proof {
                                match unescaped(s.skip(i + 4)) {
                                    Some(rest) => {
                                        assert(before + (seq![byte as char] + rest) =~= value@
                                            + rest);
                                    },
                                    None => {},
                                }
                            }
                            i = i + 4;
                        },
                        None => {
                            return None;
                        },
                    }
                },
            }
        }
    }
    assert(s.skip(i as int) =~= Seq::<char>::empty());
    assert(value@ + Seq::<char>::empty() =~= value@);
    Some(value)
}

} // verus!

verus! {

proof fn lemma_unescape_escape_char(c: char, t: Seq<char>)
    ensures
        unescaped(escape_char(c) + t) == (match unescaped(t) {
            Some(rest) => Some(seq![c] + rest),
            None => None::<Seq<char>>,
        }),
{
    let e = escape_char(c) + t;
    if c == '\\' || c == '"' || c == '\n' || c == '\r' || c == '\t' {
        assert(e.skip(2) =~= t);
    } else if is_ascii_control(c) {
        let v = (c as u32) as int;
        assert(e.skip(4) =~= t);
        assert(e[2] == hex_digit(v / 16));
        assert(e[3] == hex_digit(v % 16));
        assert(hex_pair_value(e[2], e[3]) == Some(v as u8));
        assert((v as u8) as char == c);
    } else {
        assert(e.drop_first() =~= t);
    }
}

/// Reading back an escaped value gives the value itself: `unescape_string_value`
/// undoes `escape_string_value` on every string.
pub proof fn lemma_unescape_inverts_escape(s: Seq<char>)
    ensures
        unescaped(escaped(s)) == Some(s),
    decreases s.len(),
{
    if s.len() == 0 {
        assert(escaped(s) =~= Seq::<char>::empty());
    } else {
        lemma_unescape_inverts_escape(s.drop_first());
        lemma_unescape_escape_char(s[0], escaped(s.drop_first()));
        assert(seq![s[0]] + s.drop_first() =~= s);
    }
}

proof fn lemma_escape_char_no_control_chars(c: char)
    ensures
        forall|i: int| 0 <= i < escape_char(c).len() ==> !is_ascii_control(#[trigger] escape_char(c)[i]),
{
    if is_ascii_control(c) && c != '\n' && c != '\r' && c != '\t' {
        let hi = (c as u32) as int / 16;
        let lo = (c as u32) as int % 16;
        assert(0 <= hi < 16 && 0 <= lo < 16);
        assert(!is_ascii_control(hex_digit(hi)));
        assert(!is_ascii_control(hex_digit(lo)));
    }
}

/// An escaped value holds no ASCII control character, so it stays on one line
/// of the protocol.
pub proof fn lemma_escaped_has_no_control_chars(s: Seq<char>)
    ensures
        forall|i: int| 0 <= i < escaped(s).len() ==> !is_ascii_control(#[trigger] escaped(s)[i]),
    decreases s.len(),
{
    if s.len() > 0 {
        lemma_escape_char_no_control_chars(s[0]);
        lemma_escaped_has_no_control_chars(s.drop_first());
        let head = escape_char(s[0]);
        let tail = escaped(s.drop_first());
        assert forall|i: int| 0 <= i < escaped(s).len() implies !is_ascii_control(#[trigger] escaped(s)[i]) by {
            if i < head.len() {
                assert(escaped(s)[i] == head[i]);
            } else {
                assert(escaped(s)[i] == tail[i - head.len()]);
            }
        }
    }
}

} // verus!

verus! {

/// A character that escaping leaves as it is: neither a backslash, nor a
/// double quote, nor an ASCII control character (U+0000 to U+001F, U+007F).
pub open spec fn is_plain_char(c: char) -> bool {
    c != '\\' && c != '"' && (c as u32) >= 0x20 && (c as u32) != 0x7f
}

/// Escaping writes every plain character as itself, so a value made only of
/// plain characters (any text without backslash, double quote or ASCII
/// control character, accented and non-Latin letters included) escapes to
/// itself.
pub proof fn lemma_escape_keeps_plain_chars(s: Seq<char>)
    ensures
        forall|c: char| is_plain_char(c) ==> #[trigger] escape_char(c) == seq![c],
        (forall|i: int| 0 <= i < s.len() ==> is_plain_char(#[trigger] s[i])) ==> escaped(s) == s,
    decreases s.len(),
{
    if s.len() > 0 && (forall|i: int| 0 <= i < s.len() ==> is_plain_char(#[trigger] s[i])) {
        let rest = s.drop_first();
        assert forall|i: int| 0 <= i < rest.len() implies is_plain_char(#[trigger] rest[i]) by {
            assert(rest[i] == s[i + 1]);
        }
        lemma_escape_keeps_plain_chars(rest);
        assert(is_plain_char(s[0]));
        assert(escape_char(s[0]) == seq![s[0]]);
        assert(s =~= seq![s[0]] + rest);
    }
}

/// Escaping a character that is not plain writes a backslash first and at
/// least one more character: a backslash, double quote, newline, carriage
/// return or tab as the backslash and one letter, any other ASCII control
/// character as `\x` and its two lowercase hexadecimal digits.
pub proof fn lemma_escape_marks_special_chars(c: char)
    ensures
        !is_plain_char(c) ==> escape_char(c)[0] == '\\' && escape_char(c).len() >= 2,
        !is_plain_char(c) && c != '\\' && c != '"' && c != '\n' && c != '\r' && c != '\t' ==> escape_char(c)
            == seq!['\\', 'x', hex_digit((c as u32) as int / 16), hex_digit((c as u32) as int % 16)],
{
}

} // verus!
