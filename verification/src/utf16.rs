use vstd::prelude::*;
use vstd::string::StringSliceAdditionalSpecFns;
use crate::diag::{DiagCode, Error, text};
use crate::position::Utf16Offset;

verus! {

/// UTF-16 width of a character.
pub open spec fn utf16_w(c: char) -> int {
    if (c as u32) >= 0x10000 {
        2
    } else {
        1
    }
}

/// UTF-8 width of a character.
pub open spec fn utf8_w(c: char) -> int {
    if (c as u32) <= 0x7F {
        1
    } else if (c as u32) <= 0x7FF {
        2
    } else if (c as u32) <= 0xFFFF {
        3
    } else {
        4
    }
}

/// UTF-16 length of a character sequence.
pub open spec fn utf16_len_of(s: Seq<char>) -> int
    decreases s.len(),
{
    if s.len() == 0 {
        0
    } else {
        utf16_w(s[0]) + utf16_len_of(s.drop_first())
    }
}

/// UTF-8 length of a character sequence.
pub open spec fn utf8_len_of(s: Seq<char>) -> int
    decreases s.len(),
{
    if s.len() == 0 {
        0
    } else {
        utf8_w(s[0]) + utf8_len_of(s.drop_first())
    }
}

/// The UTF-8 byte offset of the UTF-16 offset `units` in `s`: an error when `units` falls
/// between the two halves of a surrogate pair, or past the end.
pub open spec fn byte_offset(s: Seq<char>, units: int) -> Result<int, DiagCode>
    decreases s.len(),
{
    if units == 0 {
        Ok(0)
    } else if s.len() == 0 {
        Err(DiagCode::EditBadPosition)
    } else if utf16_w(s[0]) > units {
        Err(DiagCode::EditSplitSurrogate)
    } else {
        match byte_offset(s.drop_first(), units - utf16_w(s[0])) {
            Ok(b) => Ok(b + utf8_w(s[0])),
            Err(e) => Err(e),
        }
    }
}

pub open spec fn shift(r: Result<int, DiagCode>, b: int) -> Result<int, DiagCode> {
    match r {
        Ok(x) => Ok(x + b),
        Err(e) => Err(e),
    }
}

pub proof fn lemma_utf8_len_is_encoding_len(s: Seq<char>)
    ensures
        utf8_len_of(s) == vstd::utf8::encode_utf8(s).len(),
    decreases s.len(),
{
    if s.len() > 0 {
        lemma_utf8_len_is_encoding_len(s.drop_first());
        let c = s[0];
        vstd::utf8::char_is_scalar(c);
    }
}

pub proof fn lemma_utf8_len_split(s: Seq<char>, i: int)
    requires
        0 <= i <= s.len(),
    ensures
        utf8_len_of(s) == utf8_len_of(s.take(i)) + utf8_len_of(s.skip(i)),
        utf8_len_of(s.take(i)) >= 0,
        utf8_len_of(s.skip(i)) >= 0,
    decreases i,
{
    if i == 0 {
        assert(s.skip(0) =~= s);
        assert(s.take(0) =~= Seq::<char>::empty());
        lemma_utf8_len_nonneg(s);
    } else {
        lemma_utf8_len_split(s.drop_first(), i - 1);
        assert(s.drop_first().take(i - 1) =~= s.take(i).drop_first());
        assert(s.drop_first().skip(i - 1) =~= s.skip(i));
    }
}

pub proof fn lemma_utf8_len_nonneg(s: Seq<char>)
    ensures
        utf8_len_of(s) >= 0,
    decreases s.len(),
{
    if s.len() > 0 {
        lemma_utf8_len_nonneg(s.drop_first());
    }
}

pub proof fn lemma_utf8_len_push(s: Seq<char>, c: char)
    ensures
        utf8_len_of(s.push(c)) == utf8_len_of(s) + utf8_w(c),
    decreases s.len(),
{
    if s.len() == 0 {
        assert(s.push(c).drop_first() =~= Seq::<char>::empty());
        assert(s.push(c)[0] == c);
        assert(utf8_len_of(s.push(c).drop_first()) == 0);
    } else {
        lemma_utf8_len_push(s.drop_first(), c);
        assert(s.push(c).drop_first() =~= s.drop_first().push(c));
        assert(s.push(c)[0] == s[0]);
    }
}

pub proof fn lemma_len_le_utf8_len(s: Seq<char>)
    ensures
        s.len() <= utf8_len_of(s),
    decreases s.len(),
{
    if s.len() > 0 {
        lemma_len_le_utf8_len(s.drop_first());
    }
}

/// The length of `s` in bytes, which bounds its length in characters.
pub fn byte_len(s: &str) -> (n: usize)
    ensures
        n == s.spec_bytes().len(),
        s@.len() <= n,
{
    let bytes: &[u8] = s.as_bytes();
    let n: usize = bytes.len();
    proof {
        vstd::slice::axiom_spec_len(bytes);
        lemma_utf8_len_is_encoding_len(s@);
        lemma_len_le_utf8_len(s@);
    }
    n
}

fn utf16_width(c: char) -> (r: u64)
    ensures
        r == utf16_w(c),
{
    if (c as u32) >= 0x10000 {
        2
    } else {
        1
    }
}

fn utf8_width(c: char) -> (r: u64)
    ensures
        r == utf8_w(c),
{
    let u = c as u32;
    if u <= 0x7F {
        1
    } else if u <= 0x7FF {
        2
    } else if u <= 0xFFFF {
        3
    } else {
        4
    }
}

/// A UTF-16 position in a borrowed segment text.
#[derive(Debug, Clone, Copy)]
pub struct Utf16TextOffset<'a> {
    /// The segment text the position belongs to.
    pub text: &'a str,
    /// UTF-16 code units into the text.
    pub offset: Utf16Offset,
}

/// The message of a refused offset: inside a surrogate pair, or past the end of the text.
pub open spec fn offset_message(c: DiagCode) -> Seq<char> {
    if c == DiagCode::EditSplitSurrogate { "偏移落在代理对中间"@ } else { "偏移超出段文本"@ }
}

impl<'a> Utf16TextOffset<'a> {
    /// The UTF-8 byte offset of this position: `EditSplitSurrogate` inside a surrogate pair,
    /// `EditBadPosition` past the end of the text.
    pub fn byte_offset(self) -> (r: Result<usize, Error>)
        ensures
            match byte_offset(self.text@, self.offset.0 as int) {
                Ok(b) => r matches Ok(x) && x == b,
                Err(c) => r matches Err(e) && e.has_code(c) && (e matches Error::Edit { message, .. }
                    && message@ == offset_message(c)),
            },
    {
        let bytes: &[u8] = self.text.as_bytes();
        let nbytes: usize = bytes.len();
        proof {
            vstd::slice::axiom_spec_len(bytes);
        }
        let total = nbytes as u64;
        let units = self.offset.0 as u64;
        let s = self.text;
        let mut cum: u64 = 0;
        let mut b: u64 = 0;
        proof {
            lemma_utf8_len_is_encoding_len(s@);
            assert(s@.skip(0) =~= s@);
            assert(s@.take(0) =~= Seq::<char>::empty());
        }
        for c in it: s.chars()
            invariant
                it.seq() == s@,
                s == self.text,
                cum <= units,
                units == self.offset.0,
                b == utf8_len_of(s@.take(it.index() as int)),
                utf8_len_of(s@) == s.spec_bytes().len(),
                total == s.spec_bytes().len(),
                total <= usize::MAX,
                byte_offset(s@, units as int) == shift(byte_offset(s@.skip(it.index() as int), units - cum), b as int),
        {
            let ghost i = it.index() as int;
            assert(c == s@[i]);
            proof {
                lemma_utf8_len_split(s@, i);
                lemma_utf8_len_split(s@, i + 1);
                lemma_utf8_len_push(s@.take(i), c);
                assert(s@.take(i + 1) =~= s@.take(i).push(c));
                assert(s@.skip(i).drop_first() =~= s@.skip(i + 1));
                assert(s@.skip(i)[0] == c);
            }
            if cum == units {
                if b > total {
                    return Err(Error::edit(DiagCode::EditBadPosition, text("偏移超出段文本")));
                }
                return Ok(b as usize);
            }
            let n = utf16_width(c);
            if cum + n > units {
                return Err(Error::edit(DiagCode::EditSplitSurrogate, text("偏移落在代理对中间")));
            }
            cum = cum + n;
            b = match b.checked_add(utf8_width(c)) {
                Some(x) => x,
                None => {
                    return Err(Error::edit(DiagCode::EditBadPosition, text("偏移超出段文本")));
                },
            };
        }
        proof {
            assert(s@.skip(s@.len() as int) =~= Seq::<char>::empty());
            assert(s@.take(s@.len() as int) =~= s@);
        }
        if cum == units && b <= total {
            return Ok(b as usize);
        }
        Err(Error::edit(DiagCode::EditBadPosition, text("偏移超出段文本")))
    }
}

impl<'a> vstd::std_specs::convert::TryFromSpecImpl<Utf16TextOffset<'a>> for usize {
    open spec fn obeys_try_from_spec() -> bool {
        false
    }

    open spec fn try_from_spec(v: Utf16TextOffset<'a>) -> Result<usize, Error> {
        arbitrary()
    }
}

impl<'a> TryFrom<Utf16TextOffset<'a>> for usize {
    type Error = Error;

    /// The UTF-8 byte offset of the position (see [`Utf16TextOffset::byte_offset`]).
    fn try_from(value: Utf16TextOffset<'a>) -> (r: Result<usize, Error>)
        ensures
            match byte_offset(value.text@, value.offset.0 as int) {
                Ok(b) => r matches Ok(x) && x == b,
                Err(c) => r matches Err(e) && e.has_code(c) && (e matches Error::Edit { message, .. }
                    && message@ == offset_message(c)),
            },
    {
        value.byte_offset()
    }
}

} // verus!
