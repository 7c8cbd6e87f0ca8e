//! Character classes, trimming, truncation and decimal text used by the
//! validation, identifier and header logic of the library.
use vstd::prelude::*;

verus! {

/// The Unicode `White_Space` property, which `char::is_whitespace` and
/// `str::trim` go by.
pub open spec fn is_white_space(c: char) -> bool {
    ||| ('\u{9}' <= c && c <= '\u{d}')
    ||| c == ' '
    ||| c == '\u{85}'
    ||| c == '\u{a0}'
    ||| c == '\u{1680}'
    ||| ('\u{2000}' <= c && c <= '\u{200a}')
    ||| c == '\u{2028}'
    ||| c == '\u{2029}'
    ||| c == '\u{202f}'
    ||| c == '\u{205f}'
    ||| c == '\u{3000}'
}

pub open spec fn is_ascii_digit(c: char) -> bool {
    '0' <= c && c <= '9'
}

pub open spec fn is_ascii_alphanumeric(c: char) -> bool {
    ||| is_ascii_digit(c)
    ||| ('a' <= c && c <= 'z')
    ||| ('A' <= c && c <= 'Z')
}

/// Characters allowed in platform shards and PUBG identifiers.
pub open spec fn is_identifier_char(c: char) -> bool {
    is_ascii_alphanumeric(c) || c == '-'
}

/// A non-empty text made of ASCII letters, digits and hyphens.
pub open spec fn is_identifier(s: Seq<char>) -> bool {
    &&& s.len() > 0
    &&& forall|i: int| 0 <= i < s.len() ==> is_identifier_char(#[trigger] s[i])
}

/// A text that `str::trim` turns into the empty text.
pub open spec fn is_blank(s: Seq<char>) -> bool {
    forall|i: int| 0 <= i < s.len() ==> is_white_space(#[trigger] s[i])
}

/// The first `n` characters of `s` (all of it when it is shorter).
pub open spec fn take_chars(s: Seq<char>, n: nat) -> Seq<char> {
    if s.len() <= n {
        s
    } else {
        s.take(n as int)
    }
}

pub fn char_is_white_space(c: char) -> (b: bool)
    ensures
        b == is_white_space(c),
{
    ('\u{9}' <= c && c <= '\u{d}') || c == ' ' || c == '\u{85}' || c == '\u{a0}' || c
        == '\u{1680}' || ('\u{2000}' <= c && c <= '\u{200a}') || c == '\u{2028}' || c
        == '\u{2029}' || c == '\u{202f}' || c == '\u{205f}' || c == '\u{3000}'
}

pub fn char_is_identifier(c: char) -> (b: bool)
    ensures
        b == is_identifier_char(c),
{
    ('0' <= c && c <= '9') || ('a' <= c && c <= 'z') || ('A' <= c && c <= 'Z') || c == '-'
}

/// Whether `s` is non-empty and made of ASCII letters, digits and hyphens.
pub fn str_is_identifier(s: &str) -> (b: bool)
    ensures
        b == is_identifier(s@),
{
    let n = s.unicode_len();
    if n == 0 {
        return false;
    }
    let mut i: usize = 0;
    while i < n
        invariant
            n == s@.len(),
            i <= n,
            forall|j: int| 0 <= j < i ==> is_identifier_char(#[trigger] s@[j]),
        decreases n - i,
    {
        let c = s.get_char(i);
        if !char_is_identifier(c) {
            return false;
        }
        i = i + 1;
    }
    true
}

/// Whether `s.trim()` is empty, that is, every character is white space.
pub fn str_is_blank(s: &str) -> (b: bool)
    ensures
        b == is_blank(s@),
{
    let n = s.unicode_len();
    let mut i: usize = 0;
    while i < n
        invariant
            n == s@.len(),
            i <= n,
            forall|j: int| 0 <= j < i ==> is_white_space(#[trigger] s@[j]),
        decreases n - i,
    {
        let c = s.get_char(i);
        if !char_is_white_space(c) {
            return false;
        }
        i = i + 1;
    }
    true
}

/// The first `n` characters of `s`, as `s.chars().take(n).collect()` gives them.
pub fn take_prefix(s: &str, n: usize) -> (r: String)
    ensures
        r@ == take_chars(s@, n as nat),
{
    let len = s.unicode_len();
    if len <= n {
        let r = String::from_str(s);
        r
    } else {
        let part = s.substring_char(0, n);
        String::from_str(part)
    }
}

/// Whether `value` occurs in `values`.
pub fn contains_text(values: &Vec<String>, value: &String) -> (r: bool)
    ensures
        r == values.deep_view().contains(value@),
{
    let mut i: usize = 0;
    while i < values.len()
        invariant
            i <= values.len(),
            forall|j: int| 0 <= j < i ==> values.deep_view()[j] != value@,
        decreases values.len() - i,
    {
        if values[i] == *value {
            assert(values.deep_view()[i as int] == value@);
            return true;
        }
        i = i + 1;
    }
    assert(!values.deep_view().contains(value@));
    false
}


/// How many white-space characters `s` starts with.
pub open spec fn leading_white(s: Seq<char>) -> nat
    decreases s.len(),
{
    if s.len() > 0 && is_white_space(s[0]) {
        1 + leading_white(s.drop_first())
    } else {
        0
    }
}

/// How many white-space characters `s` ends with.
pub open spec fn trailing_white(s: Seq<char>) -> nat
    decreases s.len(),
{
    if s.len() > 0 && is_white_space(s.last()) {
        1 + trailing_white(s.drop_last())
    } else {
        0
    }
}

/// `str::trim`: `s` without its leading and trailing white space.
pub open spec fn trim(s: Seq<char>) -> Seq<char> {
    if leading_white(s) >= s.len() {
        Seq::empty()
    } else {
        s.subrange(leading_white(s) as int, s.len() - trailing_white(s))
    }
}

proof fn lemma_leading_white_bound(s: Seq<char>)
    ensures
        leading_white(s) <= s.len(),
        leading_white(s) == s.len() <==> is_blank(s),
    decreases s.len(),
{
    if s.len() > 0 {
        lemma_leading_white_bound(s.drop_first());
        if is_white_space(s[0]) {
            if is_blank(s.drop_first()) {
                assert forall|i: int| 0 <= i < s.len() implies is_white_space(#[trigger] s[i]) by {
                    if i > 0 {
                        assert(s[i] == s.drop_first()[i - 1]);
                    }
                }
            } else {
                let k = choose|k: int|
                    0 <= k < s.drop_first().len() && !is_white_space(#[trigger] s.drop_first()[k]);
                assert(s[k + 1] == s.drop_first()[k]);
            }
        }
    }
}

proof fn lemma_trailing_white_bound(s: Seq<char>)
    ensures
        trailing_white(s) <= s.len(),
    decreases s.len(),
{
    if s.len() > 0 {
        lemma_trailing_white_bound(s.drop_last());
    }
}

/// `s.trim()`.
pub fn trim_str(s: &str) -> (r: &str)
    ensures
        r@ == trim(s@),
        r@.len() == 0 <==> is_blank(s@),
{
    let n = s.unicode_len();
    let mut start: usize = 0;
    assert(s@.skip(0) =~= s@);
    while start < n && char_is_white_space(s.get_char(start))
        invariant
            n == s@.len(),
            start <= n,
            leading_white(s@) == start + leading_white(s@.skip(start as int)),
        decreases n - start,
    {
        assert(s@.skip(start as int).drop_first() =~= s@.skip(start + 1));
        assert(s@.skip(start as int)[0] == s@[start as int]);
        start = start + 1;
    }
    proof {
        if start < n {
            assert(s@.skip(start as int)[0] == s@[start as int]);
        }
        lemma_leading_white_bound(s@);
    }
    if start == n {
        return s.substring_char(0, 0);
    }
    let mut end: usize = n;
    assert(s@.take(n as int) =~= s@);
    while end > start && char_is_white_space(s.get_char(end - 1))
        invariant
            n == s@.len(),
            start < n,
            start < end <= n,
            !is_white_space(s@[start as int]),
            trailing_white(s@) == (n - end) + trailing_white(s@.take(end as int)),
        decreases end,
    {
        assert(s@.take(end as int).drop_last() =~= s@.take(end - 1));
        assert(s@.take(end as int).last() == s@[end - 1]);
        end = end - 1;
    }
    proof {
        assert(s@.take(end as int).last() == s@[end - 1]);
    }
    s.substring_char(start, end)
}

/// A text is an identifier exactly when it is non-empty, of any length, and
/// each of its characters is an ASCII digit, an ASCII letter or a hyphen.
pub proof fn lemma_identifier_characters(s: Seq<char>)
    ensures
        is_identifier(s) <==> (s.len() > 0 && forall|i: int|
            0 <= i < s.len() ==> (('0' <= #[trigger] s[i] && s[i] <= '9') || ('a' <= s[i] && s[i]
                <= 'z') || ('A' <= s[i] && s[i] <= 'Z') || s[i] == '-')),
{
}

} // verus!
