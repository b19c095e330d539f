//! Characters as the lexer sees them: a scalar value together with the two
//! Unicode properties that decide how it is classified.

use vstd::prelude::*;

verus! {

broadcast use vstd::string::group_string_axioms;

/// Whether a character has the Unicode `Alphabetic` property.
///
/// The property is a table of the Unicode Character Database; it is named here
/// rather than written out.
pub uninterp spec fn unicode_alphabetic(c: char) -> bool;

/// Whether a character has the Unicode `White_Space` property.
///
/// The property is a table of the Unicode Character Database; it is named here
/// rather than written out.
pub uninterp spec fn unicode_white_space(c: char) -> bool;

/// Trusted: `char::is_alphabetic` reports the `Alphabetic` property of its
/// argument and nothing else. Nothing is claimed about which characters
/// have the property.
pub assume_specification[ char::is_alphabetic ](c: char) -> (b: bool)
    ensures
        b == unicode_alphabetic(c),
;

/// Trusted: `char::is_whitespace` reports the `White_Space` property of its
/// argument and nothing else. Nothing is claimed about which characters
/// have the property.
pub assume_specification[ char::is_whitespace ](c: char) -> (b: bool)
    ensures
        b == unicode_white_space(c),
;

/// One character of the source, with the Unicode properties the lexer consults.
#[derive(Clone, Copy, Debug)]
pub struct Glyph {
    pub ch: char,
    pub alphabetic: bool,
    pub whitespace: bool,
}

impl Glyph {
    /// The glyph that stands for `c`.
    pub open spec fn spec_of(c: char) -> Glyph {
        Glyph { ch: c, alphabetic: unicode_alphabetic(c), whitespace: unicode_white_space(c) }
    }

    /// Looks up the Unicode properties of `c`.
    pub fn of(c: char) -> (g: Glyph)
        ensures
            g == Glyph::spec_of(c),
    {
        Glyph { ch: c, alphabetic: c.is_alphabetic(), whitespace: c.is_whitespace() }
    }
}

/// The glyphs of a text, character by character.
pub open spec fn glyphs_of(text: Seq<char>) -> Seq<Glyph> {
    text.map_values(|c: char| Glyph::spec_of(c))
}

/// The characters that a sequence of glyphs stands for.
pub open spec fn chars_of(glyphs: Seq<Glyph>) -> Seq<char> {
    glyphs.map_values(|g: Glyph| g.ch)
}

/// Decodes a text and looks up the Unicode properties of each character.
pub fn classify(source: &str) -> (glyphs: Vec<Glyph>)
    ensures
        glyphs@ == glyphs_of(source@),
{
    let mut glyphs: Vec<Glyph> = Vec::new();
    for c in it: source.chars()
        invariant
            it.seq() == source@,
            glyphs@ == glyphs_of(it.seq().take(it.index() as int)),
    {
        glyphs.push(Glyph::of(c));
    }
    assert(source@.take(source@.len() as int) == source@);
    glyphs
}

pub open spec fn spec_is_ascii_digit(c: char) -> bool {
    '0' <= c <= '9'
}

/// Whether `c` is one of the ten ASCII digits.
pub fn is_ascii_digit(c: char) -> (b: bool)
    ensures
        b == spec_is_ascii_digit(c),
{
    '0' <= c && c <= '9'
}

pub open spec fn spec_is_digit(g: Glyph) -> bool {
    spec_is_ascii_digit(g.ch)
}

/// Whether the glyph is an ASCII digit.
pub fn is_digit(g: Glyph) -> (b: bool)
    ensures
        b == spec_is_digit(g),
{
    is_ascii_digit(g.ch)
}

pub open spec fn spec_is_identifier_start(g: Glyph) -> bool {
    g.alphabetic || g.ch == '_'
}

/// Whether the glyph may begin an identifier or keyword.
pub fn is_identifier_start(g: Glyph) -> (b: bool)
    ensures
        b == spec_is_identifier_start(g),
{
    g.alphabetic || g.ch == '_'
}

pub open spec fn spec_is_identifier_part(g: Glyph) -> bool {
    g.alphabetic || spec_is_ascii_digit(g.ch) || g.ch == '$' || g.ch == '_'
}

/// Whether the glyph may continue an identifier or keyword.
pub fn is_identifier_part(g: Glyph) -> (b: bool)
    ensures
        b == spec_is_identifier_part(g),
{
    g.alphabetic || is_ascii_digit(g.ch) || g.ch == '$' || g.ch == '_'
}

pub open spec fn spec_is_operator_allow_plus_minus_end(c: char) -> bool {
    c == '~' || c == '!' || c == '@' || c == '#' || c == '%' || c == '^' || c == '&' || c == '|'
        || c == '`' || c == '?'
}

/// Whether `c` is an operator character after which a trailing `+` or `-`
/// stays part of the operator.
pub fn is_operator_allow_plus_minus_end(c: char) -> (b: bool)
    ensures
        b == spec_is_operator_allow_plus_minus_end(c),
{
    c == '~' || c == '!' || c == '@' || c == '#' || c == '%' || c == '^' || c == '&' || c == '|'
        || c == '`' || c == '?'
}

pub open spec fn spec_is_operator_char(c: char) -> bool {
    c == '+' || c == '-' || c == '*' || c == '/' || c == '<' || c == '>' || c == '='
        || spec_is_operator_allow_plus_minus_end(c)
}

pub open spec fn spec_is_operator_part(g: Glyph) -> bool {
    spec_is_operator_char(g.ch)
}

/// Whether the glyph is one of the operator characters ``+-*/<>=~!@#%^&|`?``.
pub fn is_operator_part(g: Glyph) -> (b: bool)
    ensures
        b == spec_is_operator_part(g),
{
    let c = g.ch;
    c == '+' || c == '-' || c == '*' || c == '/' || c == '<' || c == '>' || c == '='
        || is_operator_allow_plus_minus_end(c)
}

/// The classes of glyphs that the lexer reads runs of.
#[derive(Clone, Copy, Debug)]
pub enum GlyphClass {
    /// An ASCII digit.
    Digit,
    /// A glyph that may continue an identifier.
    IdentifierPart,
    /// An operator character.
    OperatorPart,
    /// Anything but a line feed.
    NotNewline,
}

impl GlyphClass {
    pub open spec fn spec_accepts(self, g: Glyph) -> bool {
        match self {
            GlyphClass::Digit => spec_is_digit(g),
            GlyphClass::IdentifierPart => spec_is_identifier_part(g),
            GlyphClass::OperatorPart => spec_is_operator_part(g),
            GlyphClass::NotNewline => g.ch != '\n',
        }
    }

    /// Whether the glyph belongs to the class.
    pub fn accepts(self, g: Glyph) -> (b: bool)
        ensures
            b == self.spec_accepts(g),
    {
        match self {
            GlyphClass::Digit => is_digit(g),
            GlyphClass::IdentifierPart => is_identifier_part(g),
            GlyphClass::OperatorPart => is_operator_part(g),
            GlyphClass::NotNewline => g.ch != '\n',
        }
    }
}

pub open spec fn spec_ascii_upper(c: char) -> char {
    if 'a' <= c <= 'z' {
        ((c as u8) - 32) as u8 as char
    } else {
        c
    }
}

/// The ASCII upper-case form of `c`: `a` to `z` become `A` to `Z`, every other
/// character is returned unchanged.
pub fn ascii_upper(c: char) -> (u: char)
    ensures
        u == spec_ascii_upper(c),
{
    if 'a' <= c && c <= 'z' {
        let b: u8 = c as u8;
        (b - 32) as char
    } else {
        c
    }
}

} // verus!
