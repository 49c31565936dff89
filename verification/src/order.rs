//! The lexicographic order in which texts and byte strings are sorted, as
//! `Ord` for `str` and `CStr` sorts them: code point by code point (which is
//! byte by byte in UTF-8), a proper prefix first.

use vstd::prelude::*;

verus! {

/// Whether `a` comes strictly before `b`, element by element, a proper prefix
/// first.
pub open spec fn lex_less(a: Seq<int>, b: Seq<int>) -> bool
    decreases a.len(),
{
    if a.len() == 0 {
        b.len() > 0
    } else if b.len() == 0 {
        false
    } else if a[0] != b[0] {
        a[0] < b[0]
    } else {
        lex_less(a.drop_first(), b.drop_first())
    }
}

/// No sequence comes before itself.
pub proof fn lemma_lex_less_irreflexive(a: Seq<int>)
    ensures
        !lex_less(a, a),
    decreases a.len(),
{
    if a.len() > 0 {
        lemma_lex_less_irreflexive(a.drop_first());
    }
}

/// The order is transitive.
pub proof fn lemma_lex_less_transitive(a: Seq<int>, b: Seq<int>, c: Seq<int>)
    requires
        lex_less(a, b),
        lex_less(b, c),
    ensures
        lex_less(a, c),
    decreases a.len(),
{
    if a.len() > 0 && b.len() > 0 && c.len() > 0 && a[0] == b[0] && b[0] == c[0] {
        lemma_lex_less_transitive(a.drop_first(), b.drop_first(), c.drop_first());
    }
}

/// Of two different sequences, one comes before the other.
pub proof fn lemma_lex_less_total(a: Seq<int>, b: Seq<int>)
    requires
        a != b,
    ensures
        lex_less(a, b) || lex_less(b, a),
    decreases a.len(),
{
    if a.len() > 0 && b.len() > 0 && a[0] == b[0] {
        if a.drop_first() == b.drop_first() {
            assert(a =~= seq![a[0]] + a.drop_first());
            assert(b =~= seq![b[0]] + b.drop_first());
        }
        lemma_lex_less_total(a.drop_first(), b.drop_first());
    } else if a.len() == 0 && b.len() == 0 {
        assert(a =~= b);
    }
}

/// The code points of a text.
pub open spec fn char_codes(s: Seq<char>) -> Seq<int> {
    s.map_values(|c: char| c as int)
}

/// The values of a byte string.
pub open spec fn byte_codes(s: Seq<u8>) -> Seq<int> {
    s.map_values(|b: u8| b as int)
}

/// Texts with the same code points are the same text.
pub proof fn lemma_char_codes_injective(a: Seq<char>, b: Seq<char>)
    requires
        char_codes(a) == char_codes(b),
    ensures
        a == b,
{
    assert(a.len() == char_codes(a).len());
    assert(b.len() == char_codes(b).len());
    assert forall|i: int| 0 <= i < a.len() implies a[i] == b[i] by {
        assert(char_codes(a)[i] == a[i] as int);
        assert(char_codes(b)[i] == b[i] as int);
    }
    assert(a =~= b);
}

/// Byte strings with the same values are the same byte string.
pub proof fn lemma_byte_codes_injective(a: Seq<u8>, b: Seq<u8>)
    requires
        byte_codes(a) == byte_codes(b),
    ensures
        a == b,
{
    assert(a.len() == byte_codes(a).len());
    assert(b.len() == byte_codes(b).len());
    assert forall|i: int| 0 <= i < a.len() implies a[i] == b[i] by {
        assert(byte_codes(a)[i] == a[i] as int);
        assert(byte_codes(b)[i] == b[i] as int);
    }
    assert(a =~= b);
}

/// Whether text `a` comes strictly before text `b`.
pub fn text_less(a: &str, b: &str) -> (r: bool)
    ensures
        r == lex_less(char_codes(a@), char_codes(b@)),
{
    let av = crate::text::chars_of(a);
    let bv = crate::text::chars_of(b);
    let ghost ca = char_codes(a@);
    let ghost cb = char_codes(b@);
    assert(ca.skip(0) =~= ca);
    assert(cb.skip(0) =~= cb);
    let mut i: usize = 0;
    while i < av.len() && i < bv.len()
        invariant
            i <= av.len(),
            i <= bv.len(),
            av@ == a@,
            bv@ == b@,
            ca == char_codes(a@),
            cb == char_codes(b@),
            lex_less(ca, cb) == lex_less(ca.skip(i as int), cb.skip(i as int)),
        decreases av.len() - i,
    {
        let x = av[i];
        let y = bv[i];
        assert(ca.skip(i as int).len() > 0 && ca.skip(i as int)[0] == x as int);
        assert(cb.skip(i as int).len() > 0 && cb.skip(i as int)[0] == y as int);
        if x < y {
            return true;
        }
        if y < x {
            return false;
        }
        assert(ca.skip(i as int).drop_first() =~= ca.skip(i + 1));
        assert(cb.skip(i as int).drop_first() =~= cb.skip(i + 1));
        i = i + 1;
    }
    assert(ca.skip(i as int).len() == av.len() - i);
    assert(cb.skip(i as int).len() == bv.len() - i);
    i < bv.len()
}

/// Whether byte string `a` comes strictly before byte string `b`.
pub fn bytes_less(a: &Vec<u8>, b: &Vec<u8>) -> (r: bool)
    ensures
        r == lex_less(byte_codes(a@), byte_codes(b@)),
{
    let ghost ca = byte_codes(a@);
    let ghost cb = byte_codes(b@);
    assert(ca.skip(0) =~= ca);
    assert(cb.skip(0) =~= cb);
    let mut i: usize = 0;
    while i < a.len() && i < b.len()
        invariant
            i <= a.len(),
            i <= b.len(),
            ca == byte_codes(a@),
            cb == byte_codes(b@),
            lex_less(ca, cb) == lex_less(ca.skip(i as int), cb.skip(i as int)),
        decreases a.len() - i,
    {
        let x = a[i];
        let y = b[i];
        assert(ca.skip(i as int).len() > 0 && ca.skip(i as int)[0] == x as int);
        assert(cb.skip(i as int).len() > 0 && cb.skip(i as int)[0] == y as int);
        if x < y {
            return true;
        }
        if y < x {
            return false;
        }
        assert(ca.skip(i as int).drop_first() =~= ca.skip(i + 1));
        assert(cb.skip(i as int).drop_first() =~= cb.skip(i + 1));
        i = i + 1;
    }
    assert(ca.skip(i as int).len() == a.len() - i);
    assert(cb.skip(i as int).len() == b.len() - i);
    i < b.len()
}

} // verus!
