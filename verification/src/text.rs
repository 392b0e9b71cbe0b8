//! Characters and text: the character classes the grammar relies on, the
//! whitespace-stripped view of an input line with the original position of
//! each kept character, and the small text helpers of the user interface.
use vstd::prelude::*;

verus! {

// ── Character classes ───────────────────────────────────────────────────────

/// Whether `c` has Unicode's `White_Space` property (the property that
/// `char::is_whitespace` tests): the 25 code points U+0009–U+000D, U+0020,
/// U+0085, U+00A0, U+1680, U+2000–U+200A, U+2028, U+2029, U+202F, U+205F and
/// U+3000.
pub open spec fn is_white_space(c: char) -> bool {
    ('\u{9}' <= c && c <= '\u{d}') || c == ' ' || c == '\u{85}' || c == '\u{a0}' || c
        == '\u{1680}' || ('\u{2000}' <= c && c <= '\u{200a}') || c == '\u{2028}' || c
        == '\u{2029}' || c == '\u{202f}' || c == '\u{205f}' || c == '\u{3000}'
}

/// Whether a character outside ASCII has Unicode's `Alphabetic` property: the
/// result of `char::is_alphabetic` on such a character.
pub uninterp spec fn unicode_alphabetic(c: char) -> bool;

/// Whether a character outside ASCII is alphanumeric: the result of
/// `char::is_alphanumeric` on such a character.
pub uninterp spec fn unicode_alphanumeric(c: char) -> bool;

pub open spec fn is_ascii(c: char) -> bool {
    (c as int) < 128
}

pub open spec fn is_ascii_digit(c: char) -> bool {
    '0' <= c && c <= '9'
}

pub open spec fn is_ascii_letter(c: char) -> bool {
    ('a' <= c && c <= 'z') || ('A' <= c && c <= 'Z')
}

/// A letter: Unicode's `Alphabetic` property, which within ASCII holds of
/// exactly `A`–`Z` and `a`–`z`, and never of a whitespace character.
pub open spec fn is_letter(c: char) -> bool {
    if is_ascii(c) {
        is_ascii_letter(c)
    } else {
        !is_white_space(c) && unicode_alphabetic(c)
    }
}

/// A letter or a numeral (`char::is_alphanumeric`): within ASCII the letters
/// and the digits `0`–`9`; elsewhere every letter and whatever else
/// `char::is_alphanumeric` accepts.
pub open spec fn is_letter_or_digit(c: char) -> bool {
    if is_ascii(c) {
        is_ascii_letter(c) || is_ascii_digit(c)
    } else {
        !is_white_space(c) && (unicode_alphabetic(c) || unicode_alphanumeric(c))
    }
}

/// Whether `c` is whitespace, as `char::is_whitespace` decides it.
pub fn white_space(c: char) -> (r: bool)
    ensures
        r == is_white_space(c),
{
    ('\u{9}' <= c && c <= '\u{d}') || c == ' ' || c == '\u{85}' || c == '\u{a0}' || c
        == '\u{1680}' || ('\u{2000}' <= c && c <= '\u{200a}') || c == '\u{2028}' || c
        == '\u{2029}' || c == '\u{202f}' || c == '\u{205f}' || c == '\u{3000}'
}

/// Calls `char::is_alphabetic`; trusted to hold, within ASCII, of exactly the
/// letters `A`–`Z` and `a`–`z` (the extent of Unicode's `Alphabetic` property
/// there), never of a whitespace character (no `White_Space` code point is
/// `Alphabetic`), and elsewhere to be `unicode_alphabetic(c)`.
#[verifier::external_body]
pub(crate) fn letter(c: char) -> (r: bool)
    ensures
        r == (if (c as int) < 128 {
            ('a' <= c && c <= 'z') || ('A' <= c && c <= 'Z')
        } else {
            !is_white_space(c) && unicode_alphabetic(c)
        }),
        r == is_letter(c),
{
    c.is_alphabetic()
}

/// Calls `char::is_alphanumeric`, which its documentation defines as
/// `is_alphabetic() || is_numeric()`; trusted to hold, within ASCII, of exactly
/// the letters and the digits `0`–`9` (the ASCII extent of Unicode's
/// `Alphabetic` property and number categories), and elsewhere to be the named
/// result `unicode_alphanumeric(c)`, which holds of every character that
/// `char::is_alphabetic` accepts and of no whitespace character (no
/// `White_Space` code point is `Alphabetic` or in a number category).
#[verifier::external_body]
pub(crate) fn letter_or_digit(c: char) -> (r: bool)
    ensures
        r == (if (c as int) < 128 {
            ('a' <= c && c <= 'z') || ('A' <= c && c <= 'Z') || ('0' <= c && c <= '9')
        } else {
            !is_white_space(c) && (unicode_alphabetic(c) || unicode_alphanumeric(c))
        }),
        r == is_letter_or_digit(c),
{
    c.is_alphanumeric()
}

/// An ASCII decimal digit, as `char::is_ascii_digit` decides it.
pub fn is_digit(c: char) -> (r: bool)
    ensures
        r == is_ascii_digit(c),
{
    '0' <= c && c <= '9'
}

/// Calls `String::push`; trusted to append `c` to the text.
#[verifier::external_body]
pub(crate) fn push_char(s: &mut String, c: char)
    ensures
        final(s)@ == old(s)@.push(c),
{
    s.push(c);
}

// ── Text as characters ──────────────────────────────────────────────────────

/// The characters of `s`, in order.
pub fn to_chars(s: &str) -> (v: Vec<char>)
    ensures
        v@ == s@,
{
    let mut v: Vec<char> = Vec::new();
    for c in it: s.chars()
        invariant
            it.seq() == s@,
            v@ == s@.take(it.index() as int),
    {
        v.push(c);
    }
    v
}

/// The text made of the characters `chars[start..end]`.
pub fn text_of(chars: &Vec<char>, start: usize, end: usize) -> (r: String)
    requires
        start <= end <= chars@.len(),
    ensures
        r@ == chars@.subrange(start as int, end as int),
{
    let mut r = String::new();
    let mut i = start;
    while i < end
        invariant
            start <= i <= end <= chars@.len(),
            r@ == chars@.subrange(start as int, i as int),
        decreases end - i,
    {
        push_char(&mut r, chars[i]);
        i = i + 1;
        assert(r@ =~= chars@.subrange(start as int, i as int));
    }
    r
}

/// Appends the characters `chars[start..end]` to `out`.
pub fn append_range(out: &mut String, chars: &Vec<char>, start: usize, end: usize)
    requires
        start <= end <= chars@.len(),
    ensures
        final(out)@ == old(out)@ + chars@.subrange(start as int, end as int),
{
    let mut i = start;
    while i < end
        invariant
            start <= i <= end <= chars@.len(),
            out@ == old(out)@ + chars@.subrange(start as int, i as int),
        decreases end - i,
    {
        push_char(out, chars[i]);
        i = i + 1;
        assert(out@ =~= old(out)@ + chars@.subrange(start as int, i as int));
    }
}

// ── Whitespace stripping ────────────────────────────────────────────────────

/// The characters of `s` that are not whitespace, in order.
pub open spec fn stripped(s: Seq<char>) -> Seq<char>
    decreases s.len(),
{
    if s.len() == 0 {
        Seq::empty()
    } else if is_white_space(s.last()) {
        stripped(s.drop_last())
    } else {
        stripped(s.drop_last()).push(s.last())
    }
}

/// For each character of `stripped(s)`, its index in `s`.
pub open spec fn kept_positions(s: Seq<char>) -> Seq<usize>
    decreases s.len(),
{
    if s.len() == 0 {
        Seq::empty()
    } else if is_white_space(s.last()) {
        kept_positions(s.drop_last())
    } else {
        kept_positions(s.drop_last()).push((s.len() - 1) as usize)
    }
}

/// The index in the original text of the character at index `at` of the
/// stripped text; past its end, the index just after the last kept character
/// (0 when none was kept).
pub open spec fn original_position(positions: Seq<usize>, at: int) -> int {
    if 0 <= at < positions.len() {
        positions[at] as int
    } else if positions.len() > 0 {
        positions.last() + 1
    } else {
        0
    }
}

pub proof fn lemma_kept_positions(s: Seq<char>)
    requires
        s.len() <= usize::MAX,
    ensures
        kept_positions(s).len() == stripped(s).len(),
        forall|k: int|
            #![trigger kept_positions(s)[k]]
            0 <= k < kept_positions(s).len() ==> (kept_positions(s)[k] as int) < s.len()
                && s[kept_positions(s)[k] as int] == stripped(s)[k] && !is_white_space(
                s[kept_positions(s)[k] as int],
            ),
        forall|k: int, l: int|
            0 <= k < l < kept_positions(s).len() ==> kept_positions(s)[k] < kept_positions(s)[l],
    decreases s.len(),
{
    if s.len() > 0 {
        let t = s.drop_last();
        lemma_kept_positions(t);
        let kt = kept_positions(t);
        let kp = kept_positions(s);
        let st = stripped(s);
        if is_white_space(s.last()) {
            assert(kp == kt);
            assert forall|k: int| #![trigger kp[k]] 0 <= k < kp.len() implies (kp[k] as int) < s.len()
                && s[kp[k] as int] == st[k] && !is_white_space(s[kp[k] as int]) by {
                assert(s[kp[k] as int] == t[kp[k] as int]);
            }
        } else {
            assert(kp == kt.push((s.len() - 1) as usize));
            assert(st == stripped(t).push(s.last()));
            assert forall|k: int| #![trigger kp[k]] 0 <= k < kp.len() implies (kp[k] as int) < s.len()
                && s[kp[k] as int] == st[k] && !is_white_space(s[kp[k] as int]) by {
                if k < kt.len() {
                    assert(kp[k] == kt[k]);
                    assert(st[k] == stripped(t)[k]);
                    assert(s[kp[k] as int] == t[kp[k] as int]);
                } else {
                    assert(kp[k] as int == s.len() - 1);
                }
            }
            assert forall|k: int, l: int| 0 <= k < l < kp.len() implies kp[k] < kp[l] by {
                assert(kp[k] == kt[k]);
                assert((kt[k] as int) < t.len());
                if l < kt.len() {
                    assert(kp[l] == kt[l]);
                } else {
                    assert(kp[l] as int == s.len() - 1);
                }
            }
        }
    }
}

/// A line without whitespace is its own stripped form, each character at its
/// own index.
pub proof fn lemma_stripped_without_white_space(s: Seq<char>)
    requires
        forall|i: int| 0 <= i < s.len() ==> !is_white_space(#[trigger] s[i]),
    ensures
        stripped(s) == s,
        kept_positions(s) == Seq::new(s.len(), |i: int| i as usize),
    decreases s.len(),
{
    if s.len() > 0 {
        let t = s.drop_last();
        assert(forall|i: int| 0 <= i < t.len() ==> t[i] == s[i]);
        lemma_stripped_without_white_space(t);
        assert(stripped(s) =~= s);
        assert(kept_positions(s) =~= Seq::new(s.len(), |i: int| i as usize));
    }
}

/// The non-whitespace characters of `input` and, for each, its index in
/// `input` (counted in characters).
pub fn strip_whitespace(input: &str) -> (r: (Vec<char>, Vec<usize>))
    ensures
        r.0@ == stripped(input@),
        r.1@ == kept_positions(input@),
        input@.len() <= usize::MAX,
{
    let all = to_chars(input);
    let mut chars: Vec<char> = Vec::new();
    let mut positions: Vec<usize> = Vec::new();
    let mut i: usize = 0;
    while i < all.len()
        invariant
            i <= all@.len(),
            all@ == input@,
            chars@ == stripped(all@.take(i as int)),
            positions@ == kept_positions(all@.take(i as int)),
        decreases all@.len() - i,
    {
        let c = all[i];
        assert(all@.take(i + 1).drop_last() =~= all@.take(i as int));
        if !white_space(c) {
            chars.push(c);
            positions.push(i);
        }
        i = i + 1;
    }
    assert(all@.take(i as int) =~= all@);
    (chars, positions)
}

/// The index in the original text of stripped index `at` (see
/// `original_position`).
pub fn original_index(positions: &Vec<usize>, at: usize) -> (r: usize)
    requires
        forall|k: int| 0 <= k < positions@.len() ==> positions@[k] < usize::MAX,
    ensures
        r as int == original_position(positions@, at as int),
{
    if at < positions.len() {
        positions[at]
    } else if positions.len() > 0 {
        positions[positions.len() - 1] + 1
    } else {
        0
    }
}

// ── Helpers of the user interface ───────────────────────────────────────────

pub open spec fn min(a: int, b: int) -> int {
    if a <= b {
        a
    } else {
        b
    }
}

/// The caret line shown under an input: one space for each character before
/// column `pos` (at most the length of `input`), then `^`.
pub open spec fn pointer_line(input: Seq<char>, pos: int) -> Seq<char> {
    Seq::new(min(pos, input.len() as int) as nat, |i: int| ' ').push('^')
}

/// Build the error pointer string: spaces up to the error position, then "^".
pub fn error_pointer(input: &str, pos: usize) -> (r: String)
    ensures
        r@ == pointer_line(input@, pos as int),
{
    let chars = to_chars(input);
    let width = if pos < chars.len() {
        pos
    } else {
        chars.len()
    };
    let mut s = String::new();
    let mut i: usize = 0;
    while i < width
        invariant
            i <= width,
            width as int == min(pos as int, input@.len() as int),
            s@ == Seq::new(i as nat, |k: int| ' '),
        decreases width - i,
    {
        push_char(&mut s, ' ');
        i = i + 1;
        assert(s@ =~= Seq::new(i as nat, |k: int| ' '));
    }
    push_char(&mut s, '^');
    s
}

/// `s` without the run of characters `c` at its end.
pub open spec fn trim_end(s: Seq<char>, c: char) -> Seq<char>
    decreases s.len(),
{
    if s.len() > 0 && s.last() == c {
        trim_end(s.drop_last(), c)
    } else {
        s
    }
}

/// The length of `chars[..end]` without its trailing run of `c`.
fn trimmed_len(chars: &Vec<char>, end: usize, c: char) -> (r: usize)
    requires
        end <= chars@.len(),
    ensures
        r <= end,
        chars@.take(r as int) == trim_end(chars@.take(end as int), c),
{
    let mut n = end;
    while n > 0 && chars[n - 1] == c
        invariant
            n <= end <= chars@.len(),
            trim_end(chars@.take(n as int), c) == trim_end(chars@.take(end as int), c),
        decreases n,
    {
        assert(chars@.take(n as int).drop_last() =~= chars@.take(n - 1));
        n = n - 1;
    }
    n
}

/// A decimal rendering without its trailing zeros and then without a
/// trailing decimal point: "33.3300" becomes "33.33", "120.000" becomes "120".
pub fn trim_fraction(text: &str) -> (r: String)
    ensures
        r@ == trim_end(trim_end(text@, '0'), '.'),
{
    let chars = to_chars(text);
    assert(chars@.take(chars@.len() as int) =~= chars@);
    let n = trimmed_len(&chars, chars.len(), '0');
    let m = trimmed_len(&chars, n, '.');
    assert(chars@.subrange(0, m as int) =~= chars@.take(m as int));
    text_of(&chars, 0, m)
}

} // verus!
