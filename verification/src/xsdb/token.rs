//! Tokens: a category, and the place in the source text that it was read from.

use vstd::prelude::*;
use vstd::string::StringSliceAdditionalSpecFns;
use vstd::utf8::*;
use super::chars::{ascii_upper, spec_ascii_upper};

verus! {

broadcast use vstd::string::group_string_axioms;

/// The only way lexing fails: the input holds a character that belongs to no
/// token, or a quoted string that is never closed.
#[derive(Debug)]
pub enum ParseError {
    UnexpectedToken,
}

/// A half-open interval `[start, end)` of byte offsets into the source text.
#[derive(Debug, Clone, Copy)]
pub struct Span {
    pub start: usize,
    pub end: usize,
}

impl From<std::ops::Range<usize>> for Span {
    fn from(range: std::ops::Range<usize>) -> (span: Self) {
        Span { start: range.start, end: range.end }
    }
}

impl vstd::std_specs::convert::FromSpecImpl<std::ops::Range<usize>> for Span {
    open spec fn obeys_from_spec() -> bool {
        true
    }

    open spec fn from_spec(range: std::ops::Range<usize>) -> Self {
        Span { start: range.start, end: range.end }
    }
}

#[derive(Debug, Clone, Copy, Eq, PartialEq, Structural)]
pub enum TokenKind {
    EOF,
    // Whitespace
    NewLine,
    Space,
    Tab,
    SingleLineComment,
    // Generic
    Identifier,
    Number,
    SingleQuotedString,
    DoubleQuotedString,
    // Special characters
    LeftParen,
    RightParen,
    LeftBracket,
    RightBracket,
    Comma,
    SemiColon,
    Colon,
    // Operators
    Operator,
    // Predefined operators
    Eq,
    NotEq,
    Lt,
    Gt,
    Lte,
    Gte,
    Arrow,  // =>
    Plus,
    Minus,
    Multiply,
    Divide,
    Modulo,
    Ampersand,
    Caret,
    ShiftLeft,
    ShiftRight,
    DoubleColon,
    DuckAssignment,
    // Keywords
    SELECT,
    CREATE,
    DELETE,
    UPDATE,
    INSERT,
    DROP,
    TABLE,
    DATABASE,
    INDEX,
    IF,
    WHERE,
    AND,
    OR,
    NOT,
    EXISTS,
    ON,
    FROM,
    INTO,
    VALUES,
    SET,
    AS,
    ORDER,
    BY,
    ASC,
    DESC,
    LIMIT,
    OFFSET,
    PRIMARY,
    KEY,
    AUTOINCREMENT,
    INTEGER,
    TEXT,
    NULL,
}

/// The ASCII upper-case form of a word.
pub open spec fn upper_case(word: Seq<char>) -> Seq<char> {
    word.map_values(|c: char| spec_ascii_upper(c))
}

/// The keyword that a word spells when letter case is ignored, or
/// `Identifier` when it spells none.
pub open spec fn keyword_or_identifier(word: Seq<char>) -> TokenKind {
    let upper = upper_case(word);
    if upper == "SELECT"@ {
        TokenKind::SELECT
    } else if upper == "CREATE"@ {
        TokenKind::CREATE
    } else if upper == "DELETE"@ {
        TokenKind::DELETE
    } else if upper == "UPDATE"@ {
        TokenKind::UPDATE
    } else if upper == "INSERT"@ {
        TokenKind::INSERT
    } else if upper == "DROP"@ {
        TokenKind::DROP
    } else if upper == "TABLE"@ {
        TokenKind::TABLE
    } else if upper == "DATABASE"@ {
        TokenKind::DATABASE
    } else if upper == "INDEX"@ {
        TokenKind::INDEX
    } else if upper == "IF"@ {
        TokenKind::IF
    } else if upper == "WHERE"@ {
        TokenKind::WHERE
    } else if upper == "AND"@ {
        TokenKind::AND
    } else if upper == "OR"@ {
        TokenKind::OR
    } else if upper == "NOT"@ {
        TokenKind::NOT
    } else if upper == "EXISTS"@ {
        TokenKind::EXISTS
    } else if upper == "ON"@ {
        TokenKind::ON
    } else if upper == "FROM"@ {
        TokenKind::FROM
    } else if upper == "INTO"@ {
        TokenKind::INTO
    } else if upper == "VALUES"@ {
        TokenKind::VALUES
    } else if upper == "SET"@ {
        TokenKind::SET
    } else if upper == "AS"@ {
        TokenKind::AS
    } else if upper == "ORDER"@ {
        TokenKind::ORDER
    } else if upper == "BY"@ {
        TokenKind::BY
    } else if upper == "ASC"@ {
        TokenKind::ASC
    } else if upper == "DESC"@ {
        TokenKind::DESC
    } else if upper == "LIMIT"@ {
        TokenKind::LIMIT
    } else if upper == "OFFSET"@ {
        TokenKind::OFFSET
    } else if upper == "PRIMARY"@ {
        TokenKind::PRIMARY
    } else if upper == "KEY"@ {
        TokenKind::KEY
    } else if upper == "AUTOINCREMENT"@ {
        TokenKind::AUTOINCREMENT
    } else if upper == "INTEGER"@ {
        TokenKind::INTEGER
    } else if upper == "TEXT"@ {
        TokenKind::TEXT
    } else if upper == "NULL"@ {
        TokenKind::NULL
    } else {
        TokenKind::Identifier
    }
}

/// Words that differ only in the case of their ASCII letters are classified
/// alike.
pub proof fn lemma_keywords_ignore_case(a: Seq<char>, b: Seq<char>)
    requires
        upper_case(a) == upper_case(b),
    ensures
        keyword_or_identifier(a) == keyword_or_identifier(b),
{
}

/// No word is classified as whitespace.
pub proof fn lemma_keyword_is_visible(word: Seq<char>)
    ensures
        !keyword_or_identifier(word).spec_is_skipped(),
{
}

/// Whether `word`, with its ASCII letters in upper case, spells `keyword`.
pub fn spells(word: &Vec<char>, keyword: &str) -> (b: bool)
    ensures
        b == (upper_case(word@) == keyword@),
{
    let n: usize = keyword.unicode_len();
    if word.len() != n {
        return false;
    }
    let mut i: usize = 0;
    while i < n
        invariant
            n == word@.len(),
            n == keyword@.len(),
            i <= n,
            forall|k: int| 0 <= k < i ==> upper_case(word@)[k] == keyword@[k],
        decreases n - i,
    {
        if ascii_upper(word[i]) != keyword.get_char(i) {
            assert(upper_case(word@)[i as int] != keyword@[i as int]);
            return false;
        }
        i += 1;
    }
    assert(upper_case(word@) =~= keyword@);
    true
}

impl TokenKind {
    pub open spec fn spec_is_skipped(&self) -> bool {
        *self == TokenKind::NewLine || *self == TokenKind::Space || *self == TokenKind::Tab
    }

    /// Classifies a word as one of the keywords, whatever its letter case, or
    /// as an identifier.
    pub fn make_keyword_or_identifier(word: &Vec<char>) -> (kind: TokenKind)
        ensures
            kind == keyword_or_identifier(word@),
    {
        if spells(word, "SELECT") {
            TokenKind::SELECT
        } else if spells(word, "CREATE") {
            TokenKind::CREATE
        } else if spells(word, "DELETE") {
            TokenKind::DELETE
        } else if spells(word, "UPDATE") {
            TokenKind::UPDATE
        } else if spells(word, "INSERT") {
            TokenKind::INSERT
        } else if spells(word, "DROP") {
            TokenKind::DROP
        } else if spells(word, "TABLE") {
            TokenKind::TABLE
        } else if spells(word, "DATABASE") {
            TokenKind::DATABASE
        } else if spells(word, "INDEX") {
            TokenKind::INDEX
        } else if spells(word, "IF") {
            TokenKind::IF
        } else if spells(word, "WHERE") {
            TokenKind::WHERE
        } else if spells(word, "AND") {
            TokenKind::AND
        } else if spells(word, "OR") {
            TokenKind::OR
        } else if spells(word, "NOT") {
            TokenKind::NOT
        } else if spells(word, "EXISTS") {
            TokenKind::EXISTS
        } else if spells(word, "ON") {
            TokenKind::ON
        } else if spells(word, "FROM") {
            TokenKind::FROM
        } else if spells(word, "INTO") {
            TokenKind::INTO
        } else if spells(word, "VALUES") {
            TokenKind::VALUES
        } else if spells(word, "SET") {
            TokenKind::SET
        } else if spells(word, "AS") {
            TokenKind::AS
        } else if spells(word, "ORDER") {
            TokenKind::ORDER
        } else if spells(word, "BY") {
            TokenKind::BY
        } else if spells(word, "ASC") {
            TokenKind::ASC
        } else if spells(word, "DESC") {
            TokenKind::DESC
        } else if spells(word, "LIMIT") {
            TokenKind::LIMIT
        } else if spells(word, "OFFSET") {
            TokenKind::OFFSET
        } else if spells(word, "PRIMARY") {
            TokenKind::PRIMARY
        } else if spells(word, "KEY") {
            TokenKind::KEY
        } else if spells(word, "AUTOINCREMENT") {
            TokenKind::AUTOINCREMENT
        } else if spells(word, "INTEGER") {
            TokenKind::INTEGER
        } else if spells(word, "TEXT") {
            TokenKind::TEXT
        } else if spells(word, "NULL") {
            TokenKind::NULL
        } else {
            TokenKind::Identifier
        }
    }

    /// Whether tokens of this kind are left out of what the tokenizer returns.
    pub fn is_skipped(&self) -> (b: bool)
        ensures
            b == self.spec_is_skipped(),
    {
        matches!(self, TokenKind::NewLine | TokenKind::Space | TokenKind::Tab)
    }
}

/// What a token is, as a value: its kind, the text it was read from, and its
/// place in that text.
pub struct TokenView {
    pub kind: TokenKind,
    pub source: Seq<char>,
    pub span: Span,
}

impl TokenView {
    /// The literal text of the token: the characters whose UTF-8 bytes lie
    /// between the two offsets of the span.
    pub open spec fn text(self) -> Seq<char> {
        decode_utf8(encode_utf8(self.source).subrange(self.span.start as int, self.span.end as int))
    }
}

/// A classified slice of the source text. It borrows the text and keeps only
/// the offsets of the slice.
#[derive(Debug)]
pub struct Token<'s> {
    token: TokenKind,
    source: &'s str,
    span: Span,
}

impl<'s> View for Token<'s> {
    type V = TokenView;

    closed spec fn view(&self) -> TokenView {
        TokenView { kind: self.token, source: self.source@, span: self.span }
    }
}

/// Whether `[start, end)` cuts the UTF-8 form of `text` at character boundaries.
pub open spec fn span_fits(text: Seq<char>, span: Span) -> bool {
    &&& span.start <= span.end <= encode_utf8(text).len()
    &&& is_char_boundary(encode_utf8(text), span.start as int)
    &&& is_char_boundary(encode_utf8(text), span.end as int)
}

/// A boundary of a text is a boundary of each prefix that reaches it.
proof fn lemma_boundary_in_prefix(bytes: Seq<u8>, start: int, end: int)
    requires
        valid_utf8(bytes),
        0 <= start <= end <= bytes.len(),
        is_char_boundary(bytes, start),
        is_char_boundary(bytes, end),
    ensures
        valid_utf8(bytes.subrange(0, end)),
        is_char_boundary(bytes.subrange(0, end), start),
{
    let head = bytes.subrange(0, end);
    valid_utf8_split(bytes, end);
    if start == end {
        is_char_boundary_start_end_of_seq(head);
    } else {
        is_char_boundary_iff_not_is_continuation_byte(bytes, start);
        is_char_boundary_iff_not_is_continuation_byte(head, start);
    }
}

impl<'s> Clone for Token<'s> {
    fn clone(&self) -> (t: Self)
        ensures
            t@ == self@,
    {
        proof {
            use_type_invariant(self);
        }
        Token { token: self.token, source: self.source, span: self.span }
    }
}

impl<'s> Token<'s> {
    #[verifier::type_invariant]
    spec fn well_formed(&self) -> bool {
        span_fits(self.source@, self.span)
    }

    /// A token of the given kind over `[span.start, span.end)` of `source`.
    pub fn new(token: TokenKind, source: &'s str, span: Span) -> (t: Self)
        requires
            span_fits(source@, span),
        ensures
            t@ == (TokenView { kind: token, source: source@, span: span }),
    {
        Token { token, source, span }
    }

    /// The end-of-input token of `source`: empty, and placed after its last byte.
    pub fn eof(source: &'s str) -> (t: Self)
        ensures
            t@.kind == TokenKind::EOF,
            t@.source == source@,
            t@.span.start == encode_utf8(source@).len(),
            t@.span.end == encode_utf8(source@).len(),
    {
        proof {
            encode_utf8_valid_utf8(source@);
            is_char_boundary_start_end_of_seq(encode_utf8(source@));
        }
        let len: usize = source.as_bytes().len();
        Token { source, token: TokenKind::EOF, span: Span::from(len..len) }
    }

    /// The category of the token.
    pub fn token(&self) -> (kind: TokenKind)
        ensures
            kind == self@.kind,
    {
        self.token
    }

    /// Where the token stands in the source text.
    pub fn span(&self) -> (span: Span)
        ensures
            span == self@.span,
    {
        self.span
    }

    /// The literal text of the token, sliced out of the source text.
    pub fn text(&self) -> (text: &'s str)
        ensures
            text@ == self@.text(),
    {
        proof {
            use_type_invariant(self);
            encode_utf8_valid_utf8(self.source@);
            lemma_boundary_in_prefix(
                encode_utf8(self.source@),
                self.span.start as int,
                self.span.end as int,
            );
        }
        let (head, _) = self.source.split_at(self.span.end);
        let (_, text) = head.split_at(self.span.start);
        proof {
            assert(text.spec_bytes() =~= encode_utf8(self.source@).subrange(
                self.span.start as int,
                self.span.end as int,
            ));
            encode_utf8_decode_utf8(text@);
        }
        text
    }
}

} // verus!
