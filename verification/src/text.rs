//! Text helpers: case folding and prefix tests on strings.

use vstd::prelude::*;

verus! {

/// The lowercase form of a text, as the standard library computes it from
/// the Unicode character tables.
pub uninterp spec fn lowercase_of(s: Seq<char>) -> Seq<char>;

/// Calls `str::to_lowercase`: the result is the lowercase form of `s`, which
/// depends on the characters of `s` alone.
#[verifier::external_body]
pub(crate) fn lowercase(s: &str) -> (r: String)
    ensures
        r@ == lowercase_of(s@),
{
    s.to_lowercase()
}

/// Two names are the same name when their lowercase forms agree.
pub open spec fn same_name(a: Seq<char>, b: Seq<char>) -> bool {
    lowercase_of(a) == lowercase_of(b)
}

/// Whether two names agree but for the case of their letters.
pub fn names_match(a: &str, b: &str) -> (r: bool)
    ensures
        r == same_name(a@, b@),
{
    let la = lowercase(a);
    let lb = lowercase(b);
    la == lb
}

/// Whether `name` starts with the word or words `pattern`: `pattern` is
/// not empty, `name` begins with it, and `pattern` ends where `name` ends or
/// where a space follows in `name`. So "egg" starts "egg" and "egg yolk",
/// but neither "eggplant" nor "eggs".
pub open spec fn is_word_prefix(pattern: Seq<char>, name: Seq<char>) -> bool {
    &&& 0 < pattern.len() <= name.len()
    &&& name.subrange(0, pattern.len() as int) == pattern
    &&& (name.len() == pattern.len() || name[pattern.len() as int] == ' ')
}

/// Whether `name` starts with the word or words `pattern`.
pub fn starts_with_word(name: &str, pattern: &str) -> (r: bool)
    ensures
        r == is_word_prefix(pattern@, name@),
{
    let plen: usize = pattern.unicode_len();
    let nlen: usize = name.unicode_len();
    if plen == 0 || plen > nlen {
        return false;
    }
    let mut i: usize = 0;
    while i < plen
        invariant
            i <= plen <= nlen,
            plen == pattern@.len(),
            nlen == name@.len(),
            forall|j: int| 0 <= j < i ==> name@[j] == pattern@[j],
        decreases plen - i,
    {
        if name.get_char(i) != pattern.get_char(i) {
            assert(name@.subrange(0, plen as int)[i as int] == name@[i as int]);
            return false;
        }
        i += 1;
    }
    assert(name@.subrange(0, plen as int) =~= pattern@);
    if nlen == plen {
        true
    } else {
        name.get_char(plen) == ' '
    }
}

/// Whether `s` begins with `prefix`.
pub open spec fn has_prefix(s: Seq<char>, prefix: Seq<char>) -> bool {
    prefix.len() <= s.len() && s.subrange(0, prefix.len() as int) == prefix
}

/// Whether `s` begins with `prefix`.
pub fn starts_with(s: &str, prefix: &str) -> (r: bool)
    ensures
        r == has_prefix(s@, prefix@),
{
    let plen: usize = prefix.unicode_len();
    let slen: usize = s.unicode_len();
    if plen > slen {
        return false;
    }
    let mut i: usize = 0;
    while i < plen
        invariant
            i <= plen <= slen,
            plen == prefix@.len(),
            slen == s@.len(),
            forall|j: int| 0 <= j < i ==> s@[j] == prefix@[j],
        decreases plen - i,
    {
        if s.get_char(i) != prefix.get_char(i) {
            assert(s@.subrange(0, plen as int)[i as int] == s@[i as int]);
            return false;
        }
        i += 1;
    }
    assert(s@.subrange(0, plen as int) =~= prefix@);
    true
}

/// Whether a character is a letter or a digit, as the standard library
/// tells from the Unicode character tables.
pub uninterp spec fn alphanumeric(c: char) -> bool;

/// Calls `char::is_alphanumeric`: whether `c` is a letter or a digit, which
/// depends on `c` alone.
#[verifier::external_body]
pub(crate) fn is_alphanumeric(c: char) -> (r: bool)
    ensures
        r == alphanumeric(c),
{
    c.is_alphanumeric()
}

/// A text without the white space at its two ends, as the standard library
/// removes it.
pub uninterp spec fn trimmed(s: Seq<char>) -> Seq<char>;

/// Calls `str::trim`: the result is `s` without its leading and trailing
/// white space, which depends on the characters of `s` alone.
#[verifier::external_body]
pub(crate) fn trim(s: &str) -> (r: String)
    ensures
        r@ == trimmed(s@),
{
    s.trim().to_owned()
}

/// Calls `String::push`: `c` is appended to the end of `s`.
#[verifier::external_body]
pub(crate) fn push_char(s: &mut String, c: char)
    ensures
        final(s)@ == old(s)@.push(c),
{
    s.push(c)
}

/// The text `a` followed by the text `b`.
pub fn joined(a: &str, b: &str) -> (r: String)
    ensures
        r@ == a@ + b@,
{
    a.to_owned().concat(b)
}

} // verus!
