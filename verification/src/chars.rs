use vstd::prelude::*;
use vstd::string::StringSliceAdditionalSpecFns;

verus! {

/// The characters of `s`, in order.
pub fn chars_of(s: &str) -> (v: Vec<char>)
    ensures
        v@ == s@,
{
    let mut v: Vec<char> = Vec::new();
    for c in it: s.chars()
        invariant
            it.seq() == s@,
            v@ == s@.take(it.index() as int),
    {
        v.push(c);
        assert(s@.take(it.index() + 1) =~= s@.take(it.index() as int).push(c));
    }
    assert(v@ =~= s@);
    v
}

} // verus!

verus! {

/// `std::str::from_utf8`: the bytes as text exactly when they are valid UTF-8 (std returns
/// an error otherwise); the text is the bytes decoded.
#[verifier::external_body]
pub(crate) fn utf8_text(bytes: &[u8]) -> (r: Option<&str>)
    ensures
        r is Some <==> vstd::utf8::valid_utf8(bytes@),
        r matches Some(s) ==> s.spec_bytes() == bytes@ && s@ == vstd::utf8::decode_utf8(bytes@),
{
    std::str::from_utf8(bytes).ok()
}

/// `char::from_u32`: the character with code point `u`, if `u` is a Unicode scalar value
/// (at most `0x10FFFF` and not a surrogate, as std documents); `None` otherwise.
#[verifier::external_body]
pub(crate) fn char_from_code(u: u32) -> (r: Option<char>)
    ensures
        r matches Some(c) ==> c as u32 == u,
        r is Some <==> (u <= 0x10FFFF && (u < 0xD800 || u > 0xDFFF)),
{
    char::from_u32(u)
}

/// Does `cs` hold `lit` at `pos`?
pub fn at_lit(cs: &Vec<char>, pos: usize, lit: &str) -> (r: bool)
    ensures
        r == (pos + lit@.len() <= cs@.len() && cs@.subrange(pos as int, pos + lit@.len()) == lit@),
{
    let n = lit.unicode_len();
    if pos > cs.len() || n > cs.len() - pos {
        return false;
    }
    let mut i: usize = 0;
    while i < n
        invariant
            n == lit@.len(),
            pos + n <= cs.len(),
            i <= n,
            forall|j: int| 0 <= j < i ==> cs@[pos + j] == lit@[j],
        decreases n - i,
    {
        if cs[pos + i] != lit.get_char(i) {
            assert(cs@.subrange(pos as int, pos + n)[i as int] != lit@[i as int]);
            return false;
        }
        i = i + 1;
    }
    assert(cs@.subrange(pos as int, pos + n) =~= lit@);
    true
}

/// Are the characters of `v` exactly those of `lit`?
pub fn chars_eq(v: &Vec<char>, lit: &str) -> (r: bool)
    ensures
        r == (v@ == lit@),
{
    let n = lit.unicode_len();
    if v.len() != n {
        return false;
    }
    let r = at_lit(v, 0, lit);
    assert(v@.subrange(0, v@.len() as int) =~= v@);
    r
}

/// Are `a` and `b` the same characters?
pub fn vec_eq(a: &Vec<char>, b: &Vec<char>) -> (r: bool)
    ensures
        r == (a@ == b@),
{
    if a.len() != b.len() {
        return false;
    }
    for i in 0..a.len()
        invariant
            a@.len() == b@.len(),
            forall|j: int| 0 <= j < i ==> a@[j] == b@[j],
    {
        if a[i] != b[i] {
            return false;
        }
    }
    assert(a@ =~= b@);
    true
}

/// Do `a` and `b` hold the same characters?
pub fn str_eq(a: &str, b: &str) -> (r: bool)
    ensures
        r == (a@ == b@),
{
    let va = chars_of(a);
    chars_eq(&va, b)
}

/// A `String` holding `cs[from..to]`.
pub fn string_of(cs: &Vec<char>, from: usize, to: usize) -> (s: String)
    requires
        from <= to <= cs@.len(),
    ensures
        s@ == cs@.subrange(from as int, to as int),
{
    let mut s = String::new();
    let mut i = from;
    while i < to
        invariant
            from <= i <= to <= cs@.len(),
            s@ == cs@.subrange(from as int, i as int),
        decreases to - i,
    {
        crate::text::push_char(&mut s, cs[i]);
        assert(cs@.subrange(from as int, i + 1) =~= cs@.subrange(from as int, i as int).push(cs@[i as int]));
        i = i + 1;
    }
    s
}

} // verus!
