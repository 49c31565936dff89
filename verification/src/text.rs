//! Building protocol text: characters, decimal numbers and hexadecimal digits.

use vstd::prelude::*;

verus! {

/// Appends one character to a string (`String::push`).
#[verifier::external_body]
pub(crate) fn push_char(s: &mut String, c: char)
    ensures
        final(s)@ == old(s)@.push(c),
{
    s.push(c);
}

/// The lowercase hexadecimal digit for a value below 16.
pub open spec fn hex_digit(v: int) -> char {
    if v < 10 {
        (('0' as int) + v) as char
    } else {
        (('a' as int) + (v - 10)) as char
    }
}

pub fn exec_hex_digit(v: u8) -> (c: char)
    requires
        v < 16,
    ensures
        c == hex_digit(v as int),
{
    if v < 10 {
        (('0' as u8) + v) as char
    } else {
        (('a' as u8) + (v - 10)) as char
    }
}

} // verus!

verus! {

pub fn chars_of(s: &str) -> (v: Vec<char>)
    ensures
        v@ == s@,
{
    broadcast use vstd::string::group_string_axioms;
    let mut v: Vec<char> = Vec::new();
    for c in it: s.chars()
        invariant
            it.seq() == s@,
            v@ == it.seq().take(it.index()),
    {
        v.push(c);
    }
    v
}

} // verus!

verus! {

/// The value of a hexadecimal digit, in either case.
pub open spec fn hex_value(c: char) -> Option<int> {
    if '0' <= c && c <= '9' {
        Some(c as int - '0' as int)
    } else if 'a' <= c && c <= 'f' {
        Some(c as int - 'a' as int + 10)
    } else if 'A' <= c && c <= 'F' {
        Some(c as int - 'A' as int + 10)
    } else {
        None
    }
}

pub fn exec_hex_value(c: char) -> (r: Option<u8>)
    ensures
        r matches Some(v) ==> hex_value(c) == Some(v as int),
        r is None ==> hex_value(c) is None,
{
    if '0' <= c && c <= '9' {
        Some(((c as u32) - ('0' as u32)) as u8)
    } else if 'a' <= c && c <= 'f' {
        Some(((c as u32) - ('a' as u32) + 10) as u8)
    } else if 'A' <= c && c <= 'F' {
        Some(((c as u32) - ('A' as u32) + 10) as u8)
    } else {
        None
    }
}

/// The byte that a two-character text denotes when read as a base-16 `u8`
/// the way `u8::from_str_radix(text, 16)` reads it: an optional leading `+`
/// followed by digits of either case.
pub open spec fn hex_pair_value(a: char, b: char) -> Option<u8> {
    if a == '+' {
        match hex_value(b) {
            Some(v) => Some(v as u8),
            None => None,
        }
    } else {
        match (hex_value(a), hex_value(b)) {
            (Some(x), Some(y)) => Some((16 * x + y) as u8),
            _ => None,
        }
    }
}

pub fn exec_hex_pair_value(a: char, b: char) -> (r: Option<u8>)
    ensures
        r == hex_pair_value(a, b),
{
    if a == '+' {
        exec_hex_value(b)
    } else {
        match (exec_hex_value(a), exec_hex_value(b)) {
            (Some(x), Some(y)) => Some(16 * x + y),
            _ => None,
        }
    }
}

/// The decimal digit character for a value below 10.
pub open spec fn decimal_digit(v: int) -> char {
    (('0' as int) + v) as char
}

/// The decimal rendering of a natural number, without sign or leading zeros.
pub open spec fn decimal(n: nat) -> Seq<char>
    decreases n,
{
    if n < 10 {
        seq![decimal_digit(n as int)]
    } else {
        decimal(n / 10).push(decimal_digit((n % 10) as int))
    }
}

/// Renders an unsigned integer in decimal, as `Display` for the integer types does.
pub fn decimal_string(n: u64) -> (s: String)
    ensures
        s@ == decimal(n as nat),
{
    let mut x: u64 = n;
    let mut suffix: Vec<char> = Vec::new();
    while x >= 10
        invariant
            decimal(n as nat) == decimal(x as nat) + suffix@,
        decreases x,
    {
        let d: u8 = (x % 10) as u8;
        let c: char = (('0' as u8) + d) as char;
        suffix.insert(0, c);
        assert(decimal(x as nat) == decimal((x / 10) as nat).push(c));
        assert(decimal(x as nat) + suffix@.drop_first() == decimal((x / 10) as nat) + suffix@);
        x = x / 10;
    }
    let mut s = String::new();
    push_char(&mut s, (('0' as u8) + (x as u8)) as char);
    assert(s@ == decimal(x as nat));
    let mut i: usize = 0;
    while i < suffix.len()
        invariant
            0 <= i <= suffix.len(),
            s@ == decimal(x as nat) + suffix@.take(i as int),
            decimal(n as nat) == decimal(x as nat) + suffix@,
        decreases suffix.len() - i,
    {
        push_char(&mut s, suffix[i]);
        assert(suffix@.take(i as int).push(suffix@[i as int]) == suffix@.take(i + 1));
        i = i + 1;
    }
    assert(suffix@.take(suffix.len() as int) == suffix@);
    s
}

} // verus!

verus! {

/// A copy of a vector of plain values.
pub fn copy_vec<T: Copy>(v: &Vec<T>) -> (r: Vec<T>)
    ensures
        r@ == v@,
{
    let mut r: Vec<T> = Vec::new();
    let mut i: usize = 0;
    while i < v.len()
        invariant
            i <= v.len(),
            r@ == v@.take(i as int),
        decreases v.len() - i,
    {
        r.push(v[i]);
        assert(v@.take(i as int).push(v@[i as int]) =~= v@.take(i + 1));
        i = i + 1;
    }
    assert(v@.take(v.len() as int) =~= v@);
    r
}

} // verus!

verus! {

/// The number that a sequence of decimal digits denotes, the last digit the
/// least significant.
pub open spec fn digits_value(s: Seq<char>) -> int
    decreases s.len(),
{
    if s.len() == 0 {
        0
    } else {
        digits_value(s.drop_last()) * 10 + ((s.last() as int) - ('0' as int))
    }
}

/// The decimal rendering of a number is a non-empty sequence of the digits
/// `0` to `9` that denotes the number in base ten, without a leading zero
/// (so zero renders as the single digit `0`).
pub proof fn lemma_decimal_denotes_the_number(n: nat)
    ensures
        decimal(n).len() > 0,
        forall|i: int| 0 <= i < decimal(n).len() ==> '0' <= #[trigger] decimal(n)[i] && decimal(n)[i] <= '9',
        digits_value(decimal(n)) == n,
        n > 0 ==> decimal(n)[0] != '0',
        n == 0 ==> decimal(n) == seq!['0'],
    decreases n,
{
    if n < 10 {
        let d = decimal(n);
        assert(d == seq![decimal_digit(n as int)]);
        assert(d.drop_last() =~= Seq::<char>::empty());
        assert(decimal_digit(n as int) as int == '0' as int + n);
        assert(digits_value(d.drop_last()) == 0);
        assert(d.last() == decimal_digit(n as int));
        assert(digits_value(d) == digits_value(d.drop_last()) * 10 + ((d.last() as int) - ('0' as int)));
    } else {
        let q = n / 10;
        let r = n % 10;
        lemma_decimal_denotes_the_number(q);
        let d = decimal(n);
        assert(d == decimal(q).push(decimal_digit(r as int)));
        assert(d.drop_last() =~= decimal(q));
        assert(decimal_digit(r as int) as int == '0' as int + r);
        assert(n == q * 10 + r);
        assert(d.last() == decimal_digit(r as int));
        assert(digits_value(d) == digits_value(decimal(q)) * 10 + ((d.last() as int) - ('0' as int)));
        assert forall|i: int| 0 <= i < d.len() implies '0' <= #[trigger] d[i] && d[i] <= '9' by {
            if i < decimal(q).len() {
                assert(d[i] == decimal(q)[i]);
            }
        }
        assert(d[0] == decimal(q)[0]);
    }
}

} // verus!
