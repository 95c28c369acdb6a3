//! Line splitting and UTF-16 encoding of text, as std performs them.
use vstd::prelude::*;

verus! {

/// The UTF-16 code units of one character: one unit below U+10000, else a surrogate pair.
pub open spec fn utf16_of_char(c: char) -> Seq<u16> {
    let v = c as u32;
    if v < 0x10000 {
        seq![v as u16]
    } else {
        let u = (v - 0x10000) as u32;
        seq![(0xD800 + u / 0x400) as u16, (0xDC00 + u % 0x400) as u16]
    }
}

/// The UTF-16 encoding of a character sequence.
pub open spec fn utf16_of(s: Seq<char>) -> Seq<u16>
    decreases s.len(),
{
    if s.len() == 0 {
        Seq::empty()
    } else {
        utf16_of(s.drop_last()) + utf16_of_char(s.last())
    }
}

/// The pieces of `s` between `'\n'` characters; there is always at least one.
pub open spec fn newline_pieces(s: Seq<char>) -> Seq<Seq<char>>
    decreases s.len(),
{
    if s.len() == 0 {
        seq![Seq::<char>::empty()]
    } else {
        let rest = newline_pieces(s.drop_first());
        if s[0] == '\n' {
            seq![Seq::<char>::empty()] + rest
        } else {
            rest.update(0, seq![s[0]] + rest[0])
        }
    }
}

/// The lines of a text: its pieces between `'\n'` characters, none for the empty text.
pub open spec fn lines_of(s: Seq<char>) -> Seq<Seq<char>> {
    if s.len() == 0 {
        Seq::empty()
    } else {
        newline_pieces(s)
    }
}

/// The character sequences of a sequence of strings.
pub open spec fn string_views(v: Seq<String>) -> Seq<Seq<char>> {
    v.map_values(|s: String| s@)
}

/// Relies on `str::encode_utf16`: the UTF-16 code units of the string, in order.
#[verifier::external_body]
pub(crate) fn encode_utf16(s: &str) -> (r: Vec<u16>)
    ensures
        r@ == utf16_of(s@),
{
    s.encode_utf16().collect()
}

/// Relies on `str::split` with `'\n'` as pattern: the pieces between `'\n'` characters, in
/// order, one more than there are `'\n'` characters.
#[verifier::external_body]
fn split_newlines(s: &str) -> (r: Vec<String>)
    ensures
        string_views(r@) == newline_pieces(s@),
{
    s.split('\n').map(|l| l.to_string()).collect()
}

/// The lines of a text, split at every `'\n'`; the empty text has none.
pub fn split_lines(s: &str) -> (r: Vec<String>)
    ensures
        string_views(r@) == lines_of(s@),
{
    if s.is_empty() {
        let r: Vec<String> = Vec::new();
        proof {
            assert(string_views(r@) =~= Seq::<Seq<char>>::empty());
        }
        r
    } else {
        split_newlines(s)
    }
}

} // verus!
