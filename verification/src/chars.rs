//! Character classes.
//!
//! White space, ASCII letters and ASCII digits are defined here in full. The
//! Unicode classes that take tables to state are asked of the standard library
//! and carried under a name.

use vstd::prelude::*;

verus! {

/// The characters with the Unicode property `White_Space`.
pub open spec fn is_white_space(c: char) -> bool {
    ||| '\u{9}' <= c <= '\u{d}'
    ||| c == ' '
    ||| c == '\u{85}'
    ||| c == '\u{a0}'
    ||| c == '\u{1680}'
    ||| '\u{2000}' <= c <= '\u{200a}'
    ||| c == '\u{2028}'
    ||| c == '\u{2029}'
    ||| c == '\u{202f}'
    ||| c == '\u{205f}'
    ||| c == '\u{3000}'
}

/// The control characters.
pub open spec fn is_control(c: char) -> bool {
    c <= '\u{1f}' || '\u{7f}' <= c <= '\u{9f}'
}

/// ASCII letters and digits.
pub open spec fn is_ascii_alphanumeric(c: char) -> bool {
    'a' <= c <= 'z' || 'A' <= c <= 'Z' || '0' <= c <= '9'
}

/// `c`, with an ASCII capital letter replaced by its small letter.
pub open spec fn ascii_lower(c: char) -> char {
    if 'A' <= c <= 'Z' {
        ((c as u32) + 32) as char
    } else {
        c
    }
}

/// What `char::is_alphanumeric` answers.
pub uninterp spec fn is_alphanumeric(c: char) -> bool;

/// What `char::is_uppercase` answers.
pub uninterp spec fn is_uppercase(c: char) -> bool;

/// What `char::is_lowercase` answers.
pub uninterp spec fn is_lowercase(c: char) -> bool;

/// Letters and digits: on ASCII its letters and digits, beyond it what
/// `char::is_alphanumeric` answers, and never white space.
pub open spec fn is_letter_or_digit(c: char) -> bool {
    is_ascii_alphanumeric(c) || ('\u{80}' <= c && !is_white_space(c) && is_alphanumeric(c))
}

/// `char::is_alphanumeric`: the Unicode properties Alphabetic and Numeric.
/// Claims that the answer depends on the character alone, that on ASCII it holds
/// of the letters and the digits and of nothing else, and that it never holds of
/// white space.
#[verifier::external_body]
pub(crate) fn alphanumeric(c: char) -> (r: bool)
    ensures
        r == is_alphanumeric(c),
        c < '\u{80}' ==> r == is_ascii_alphanumeric(c),
        is_white_space(c) ==> !r,
{
    c.is_alphanumeric()
}

/// `char::is_uppercase`: the Unicode property Uppercase. Claims that the answer
/// depends on the character alone.
#[verifier::external_body]
pub(crate) fn uppercase(c: char) -> (r: bool)
    ensures
        r == is_uppercase(c),
{
    c.is_uppercase()
}

/// `char::is_lowercase`: the Unicode property Lowercase. Claims that the answer
/// depends on the character alone.
#[verifier::external_body]
pub(crate) fn lowercase(c: char) -> (r: bool)
    ensures
        r == is_lowercase(c),
{
    c.is_lowercase()
}

/// Tells whether `c` is white space.
pub fn white_space(c: char) -> (r: bool)
    ensures
        r == is_white_space(c),
{
    ('\u{9}' <= c && c <= '\u{d}') || c == ' ' || c == '\u{85}' || c == '\u{a0}' || c == '\u{1680}' || (
    '\u{2000}' <= c && c <= '\u{200a}') || c == '\u{2028}' || c == '\u{2029}' || c == '\u{202f}' || c
        == '\u{205f}' || c == '\u{3000}'
}

/// Tells whether `c` is a control character.
pub fn control(c: char) -> (r: bool)
    ensures
        r == is_control(c),
{
    c <= '\u{1f}' || ('\u{7f}' <= c && c <= '\u{9f}')
}

/// Tells whether `c` is an ASCII letter or digit.
pub fn ascii_alphanumeric(c: char) -> (r: bool)
    ensures
        r == is_ascii_alphanumeric(c),
{
    ('a' <= c && c <= 'z') || ('A' <= c && c <= 'Z') || ('0' <= c && c <= '9')
}

/// Lowers an ASCII capital letter and leaves every other character alone.
pub fn to_ascii_lower(c: char) -> (r: char)
    ensures
        r == ascii_lower(c),
{
    if 'A' <= c && c <= 'Z' {
        let code: u8 = c as u8;
        (code + 32) as char
    } else {
        c
    }
}

/// A set of characters that text is trimmed by or split at.
#[derive(Clone, Copy, PartialEq, Eq, Structural, Debug)]
pub enum CharClass {
    /// White space.
    WhiteSpace,
    /// `"`.
    DoubleQuote,
    /// `/`.
    Slash,
    /// `,`.
    Comma,
    /// Line feeds.
    Newline,
    /// What ends a sentence of a comment: `.`, `!`, `?` and a line feed.
    SentenceBreak,
    /// What ends a spoken phrase: `.`, `!`, `?`, `,` and `;`.
    PhraseBreak,
    /// Everything but letters, digits and `'`.
    NotWordChar,
    /// Everything but letters, digits, `'` and `-`.
    NotNameChar,
    /// Everything but letters and digits.
    NotAlphanumeric,
    /// Everything but ASCII letters and digits.
    NotAsciiAlphanumeric,
}

impl CharClass {
    /// The characters of the class.
    pub open spec fn holds(self, c: char) -> bool {
        match self {
            CharClass::WhiteSpace => is_white_space(c),
            CharClass::DoubleQuote => c == '"',
            CharClass::Slash => c == '/',
            CharClass::Comma => c == ',',
            CharClass::Newline => c == '\n',
            CharClass::SentenceBreak => c == '.' || c == '!' || c == '?' || c == '\n',
            CharClass::PhraseBreak => c == '.' || c == '!' || c == '?' || c == ',' || c == ';',
            CharClass::NotWordChar => !is_letter_or_digit(c) && c != '\'',
            CharClass::NotNameChar => !(is_letter_or_digit(c) || c == '\'' || c == '-'),
            CharClass::NotAlphanumeric => !is_letter_or_digit(c),
            CharClass::NotAsciiAlphanumeric => !is_ascii_alphanumeric(c),
        }
    }

    /// Tells whether `c` is in the class.
    pub fn has(self, c: char) -> (r: bool)
        ensures
            r == self.holds(c),
    {
        match self {
            CharClass::WhiteSpace => white_space(c),
            CharClass::DoubleQuote => c == '"',
            CharClass::Slash => c == '/',
            CharClass::Comma => c == ',',
            CharClass::Newline => c == '\n',
            CharClass::SentenceBreak => c == '.' || c == '!' || c == '?' || c == '\n',
            CharClass::PhraseBreak => c == '.' || c == '!' || c == '?' || c == ',' || c == ';',
            CharClass::NotWordChar => !alphanumeric(c) && c != '\'',
            CharClass::NotNameChar => !(alphanumeric(c) || c == '\'' || c == '-'),
            CharClass::NotAlphanumeric => !alphanumeric(c),
            CharClass::NotAsciiAlphanumeric => !ascii_alphanumeric(c),
        }
    }
}

} // verus!
