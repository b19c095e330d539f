//! What the lexer reads, stated over the glyphs of the source: where each
//! lexeme ends, which kind it has, and which lexemes a whole text falls into.
//! Positions here are character positions, not byte offsets.

use vstd::prelude::*;
use super::chars::{
    chars_of, spec_is_digit, spec_is_identifier_start, spec_is_operator_allow_plus_minus_end,
    spec_is_operator_part, Glyph, GlyphClass,
};
use super::token::{keyword_or_identifier, TokenKind};

verus! {

/// A classified stretch `[start, end)` of the glyphs of a text.
pub struct Lexeme {
    pub kind: TokenKind,
    pub start: int,
    pub end: int,
}

/// What reading one lexeme comes to: its kind, or `None` when the text is
/// rejected there, and the position that reading stops at.
pub struct Step {
    pub kind: Option<TokenKind>,
    pub end: int,
}

/// Whether position `at` exists and holds the character `c`.
pub open spec fn holds(glyphs: Seq<Glyph>, at: int, c: char) -> bool {
    0 <= at < glyphs.len() && glyphs[at].ch == c
}

/// The end of the longest run of glyphs of a class that begins at `from`: the
/// first position at or after `from` whose glyph is not of the class, or the
/// end of the text.
pub open spec fn run_end(glyphs: Seq<Glyph>, from: int, class: GlyphClass) -> int
    decreases glyphs.len() - from,
{
    if 0 <= from < glyphs.len() && class.spec_accepts(glyphs[from]) {
        run_end(glyphs, from + 1, class)
    } else {
        from
    }
}

/// The position after the quote that closes a string, scanning from `from`,
/// which lies inside the string. Two quotes in a row stand for one quote
/// character of the string and do not close it. `None` when the text ends first.
pub open spec fn quoted_end(glyphs: Seq<Glyph>, from: int, quote: char) -> Option<int>
    decreases glyphs.len() - from,
{
    if from < 0 || from >= glyphs.len() {
        None
    } else if glyphs[from].ch == quote {
        if holds(glyphs, from + 1, quote) {
            quoted_end(glyphs, from + 2, quote)
        } else {
            Some(from + 1)
        }
    } else {
        quoted_end(glyphs, from + 1, quote)
    }
}

/// The characters that a quoted string stands for, read from `from`, which
/// lies inside the string: those up to the closing quote, with one quote
/// character for each two quotes in a row.
pub open spec fn quoted_value(glyphs: Seq<Glyph>, from: int, quote: char) -> Seq<char>
    decreases glyphs.len() - from,
{
    if from < 0 || from >= glyphs.len() {
        Seq::empty()
    } else if glyphs[from].ch == quote {
        if holds(glyphs, from + 1, quote) {
            seq![quote] + quoted_value(glyphs, from + 2, quote)
        } else {
            Seq::empty()
        }
    } else {
        seq![glyphs[from].ch] + quoted_value(glyphs, from + 1, quote)
    }
}

/// A quoted string that opens at `at`.
pub open spec fn quoted_step(glyphs: Seq<Glyph>, at: int, quote: char, kind: TokenKind) -> Step {
    match quoted_end(glyphs, at + 1, quote) {
        Some(end) => Step { kind: Some(kind), end },
        None => Step { kind: None, end: glyphs.len() as int },
    }
}

/// The end of an exponent that begins at `at`: `e` or `E`, an optional sign,
/// and at least one digit. Where no digit follows, nothing is read.
pub open spec fn exponent_end(glyphs: Seq<Glyph>, at: int) -> int {
    if holds(glyphs, at, 'e') || holds(glyphs, at, 'E') {
        let digits = if holds(glyphs, at + 1, '+') || holds(glyphs, at + 1, '-') {
            at + 2
        } else {
            at + 1
        };
        if 0 <= digits < glyphs.len() && spec_is_digit(glyphs[digits]) {
            run_end(glyphs, digits, GlyphClass::Digit)
        } else {
            at
        }
    } else {
        at
    }
}

/// The end of a number that begins at `at`: digits, at most one `.` with the
/// digits after it, an optional exponent, an optional `L`.
pub open spec fn number_end(glyphs: Seq<Glyph>, at: int) -> int {
    let whole = run_end(glyphs, at, GlyphClass::Digit);
    let fraction = if holds(glyphs, whole, '.') {
        run_end(glyphs, whole + 1, GlyphClass::Digit)
    } else {
        whole
    };
    let exponent = exponent_end(glyphs, fraction);
    if holds(glyphs, exponent, 'L') {
        exponent + 1
    } else {
        exponent
    }
}

/// The end of a line comment whose text begins at `from`: the position after
/// the next line feed, or the end of the text where there is none.
pub open spec fn line_end(glyphs: Seq<Glyph>, from: int) -> int {
    let stop = run_end(glyphs, from, GlyphClass::NotNewline);
    if stop < glyphs.len() {
        stop + 1
    } else {
        stop
    }
}

/// Whether a comment opens at position `at` of an operator run: `--` or `/*`.
pub open spec fn opens_comment(run: Seq<char>, at: int) -> bool {
    0 <= at && at + 1 < run.len() && ((run[at] == '-' && run[at + 1] == '-') || (run[at] == '/'
        && run[at + 1] == '*'))
}

/// The first position at or after `from` where a comment opens in an operator
/// run, or the length of the run where none does.
pub open spec fn comment_cut(run: Seq<char>, from: int) -> int
    decreases run.len() - from,
{
    if from < 0 || from + 1 >= run.len() {
        run.len() as int
    } else if opens_comment(run, from) {
        from
    } else {
        comment_cut(run, from + 1)
    }
}

pub open spec fn is_sign(c: char) -> bool {
    c == '+' || c == '-'
}

/// The length that is left of an operator when trailing signs are taken off
/// one at a time, down to a single character at most.
pub open spec fn unsigned_len(op: Seq<char>) -> int
    decreases op.len(),
{
    if op.len() > 1 && is_sign(op.last()) {
        unsigned_len(op.drop_last())
    } else {
        op.len() as int
    }
}

/// The length that an operator keeps: trailing signs belong to what follows,
/// unless the operator holds a character that lets a sign end it.
pub open spec fn trimmed_len(op: Seq<char>) -> int {
    if op.len() > 0 && is_sign(op.last()) && forall|k: int|
        0 <= k < op.len() ==> !spec_is_operator_allow_plus_minus_end(#[trigger] op[k]) {
        unsigned_len(op)
    } else {
        op.len() as int
    }
}

/// The kind of an operator, by its text.
pub open spec fn operator_kind(op: Seq<char>) -> TokenKind {
    if op.len() == 1 {
        let c = op[0];
        if c == '+' {
            TokenKind::Plus
        } else if c == '-' {
            TokenKind::Minus
        } else if c == '*' {
            TokenKind::Multiply
        } else if c == '/' {
            TokenKind::Divide
        } else if c == '%' {
            TokenKind::Modulo
        } else if c == '>' {
            TokenKind::Gt
        } else if c == '<' {
            TokenKind::Lt
        } else if c == '=' {
            TokenKind::Eq
        } else if c == '^' {
            TokenKind::Caret
        } else if c == '&' {
            TokenKind::Ampersand
        } else {
            TokenKind::Operator
        }
    } else if op.len() == 2 {
        let a = op[0];
        let b = op[1];
        if a == '=' && b == '>' {
            TokenKind::Arrow
        } else if a == '>' && b == '=' {
            TokenKind::Gte
        } else if a == '<' && b == '=' {
            TokenKind::Lte
        } else if a == '<' && b == '>' {
            TokenKind::NotEq
        } else if a == '!' && b == '=' {
            TokenKind::NotEq
        } else if a == '>' && b == '>' {
            TokenKind::ShiftRight
        } else if a == '<' && b == '<' {
            TokenKind::ShiftLeft
        } else {
            TokenKind::Operator
        }
    } else {
        TokenKind::Operator
    }
}

/// The operator that is read from a run of operator characters: the run up
/// to the first comment opener, without the trailing signs that are not its own.
pub open spec fn operator_text(run: Seq<char>) -> Seq<char> {
    let cut = run.take(comment_cut(run, 0));
    cut.take(trimmed_len(cut))
}

/// An operator or a comment that begins at `at`, which holds an operator
/// character.
pub open spec fn operator_step(glyphs: Seq<Glyph>, at: int) -> Step {
    if holds(glyphs, at, '-') && holds(glyphs, at + 1, '-') {
        Step { kind: Some(TokenKind::SingleLineComment), end: line_end(glyphs, at + 2) }
    } else {
        let stop = run_end(glyphs, at + 1, GlyphClass::OperatorPart);
        let op = operator_text(chars_of(glyphs.subrange(at, stop)));
        Step {
            kind: Some(operator_kind(op)),
            end: if op.len() == 0 {
                at + 1
            } else {
                at + op.len()
            },
        }
    }
}

/// The lexeme that begins at `at`, a position of the text. The classes are
/// tried in a fixed order: plain whitespace, identifier, quoted string,
/// number, operator, punctuation, other whitespace. A glyph of no class is
/// passed over and the text is rejected.
pub open spec fn step_at(glyphs: Seq<Glyph>, at: int) -> Step {
    let g = glyphs[at];
    let c = g.ch;
    if c == ' ' {
        Step { kind: Some(TokenKind::Space), end: at + 1 }
    } else if c == '\t' {
        Step { kind: Some(TokenKind::Tab), end: at + 1 }
    } else if c == '\n' {
        Step { kind: Some(TokenKind::NewLine), end: at + 1 }
    } else if c == '\r' {
        Step {
            kind: Some(TokenKind::NewLine),
            end: if holds(glyphs, at + 1, '\n') {
                at + 2
            } else {
                at + 1
            },
        }
    } else if spec_is_identifier_start(g) {
        let end = run_end(glyphs, at + 1, GlyphClass::IdentifierPart);
        Step { kind: Some(keyword_or_identifier(chars_of(glyphs.subrange(at, end)))), end }
    } else if c == '\'' {
        quoted_step(glyphs, at, '\'', TokenKind::SingleQuotedString)
    } else if c == '"' {
        quoted_step(glyphs, at, '"', TokenKind::DoubleQuotedString)
    } else if spec_is_digit(g) {
        Step { kind: Some(TokenKind::Number), end: number_end(glyphs, at) }
    } else if spec_is_operator_part(g) {
        operator_step(glyphs, at)
    } else if c == '(' {
        Step { kind: Some(TokenKind::LeftParen), end: at + 1 }
    } else if c == ')' {
        Step { kind: Some(TokenKind::RightParen), end: at + 1 }
    } else if c == '[' {
        Step { kind: Some(TokenKind::LeftBracket), end: at + 1 }
    } else if c == ']' {
        Step { kind: Some(TokenKind::RightBracket), end: at + 1 }
    } else if c == ',' {
        Step { kind: Some(TokenKind::Comma), end: at + 1 }
    } else if c == ';' {
        Step { kind: Some(TokenKind::SemiColon), end: at + 1 }
    } else if c == ':' {
        if holds(glyphs, at + 1, ':') {
            Step { kind: Some(TokenKind::DoubleColon), end: at + 2 }
        } else if holds(glyphs, at + 1, '=') {
            Step { kind: Some(TokenKind::DuckAssignment), end: at + 2 }
        } else {
            Step { kind: Some(TokenKind::Colon), end: at + 1 }
        }
    } else if g.whitespace {
        Step { kind: Some(TokenKind::Space), end: at + 1 }
    } else {
        Step { kind: None, end: at + 1 }
    }
}

/// A run ends between its start and the end of the text; every glyph in it
/// is of the class and the glyph after it, if there is one, is not.
pub proof fn lemma_run_end(glyphs: Seq<Glyph>, from: int, class: GlyphClass)
    requires
        0 <= from <= glyphs.len(),
    ensures
        from <= run_end(glyphs, from, class) <= glyphs.len(),
        forall|k: int|
            from <= k < run_end(glyphs, from, class) ==> class.spec_accepts(#[trigger] glyphs[k]),
        run_end(glyphs, from, class) < glyphs.len() ==> !class.spec_accepts(
            glyphs[run_end(glyphs, from, class)],
        ),
    decreases glyphs.len() - from,
{
    if from < glyphs.len() && class.spec_accepts(glyphs[from]) {
        lemma_run_end(glyphs, from + 1, class);
    }
}

/// A string closes after the position that its scan began at, and within the text.
pub proof fn lemma_quoted_end(glyphs: Seq<Glyph>, from: int, quote: char)
    requires
        0 <= from,
    ensures
        quoted_end(glyphs, from, quote) matches Some(end) ==> from < end <= glyphs.len(),
    decreases glyphs.len() - from,
{
    if from < glyphs.len() {
        if glyphs[from].ch == quote {
            if holds(glyphs, from + 1, quote) {
                lemma_quoted_end(glyphs, from + 2, quote);
            }
        } else {
            lemma_quoted_end(glyphs, from + 1, quote);
        }
    }
}

/// An exponent ends at or after the position that it was looked for at.
pub proof fn lemma_exponent_end(glyphs: Seq<Glyph>, at: int)
    requires
        0 <= at <= glyphs.len(),
    ensures
        at <= exponent_end(glyphs, at) <= glyphs.len(),
{
    if holds(glyphs, at, 'e') || holds(glyphs, at, 'E') {
        let digits = if holds(glyphs, at + 1, '+') || holds(glyphs, at + 1, '-') {
            at + 2
        } else {
            at + 1
        };
        if 0 <= digits < glyphs.len() {
            lemma_run_end(glyphs, digits, GlyphClass::Digit);
        }
    }
}

/// A number that begins with a digit is not empty and ends within the text.
pub proof fn lemma_number_end(glyphs: Seq<Glyph>, at: int)
    requires
        0 <= at < glyphs.len(),
        spec_is_digit(glyphs[at]),
    ensures
        at < number_end(glyphs, at) <= glyphs.len(),
{
    let whole = run_end(glyphs, at, GlyphClass::Digit);
    lemma_run_end(glyphs, at, GlyphClass::Digit);
    assert(run_end(glyphs, at, GlyphClass::Digit) == run_end(glyphs, at + 1, GlyphClass::Digit));
    lemma_run_end(glyphs, at + 1, GlyphClass::Digit);
    let fraction = if holds(glyphs, whole, '.') {
        run_end(glyphs, whole + 1, GlyphClass::Digit)
    } else {
        whole
    };
    if holds(glyphs, whole, '.') {
        lemma_run_end(glyphs, whole + 1, GlyphClass::Digit);
    }
    lemma_exponent_end(glyphs, fraction);
}

/// The cut of an operator run lies between the position that the search
/// began at and the end of the run.
pub proof fn lemma_comment_cut(run: Seq<char>, from: int)
    requires
        0 <= from <= run.len(),
    ensures
        from <= comment_cut(run, from) <= run.len(),
        comment_cut(run, from) < run.len() ==> opens_comment(run, comment_cut(run, from)),
        forall|k: int| from <= k < comment_cut(run, from) ==> !opens_comment(run, k),
    decreases run.len() - from,
{
    if from + 1 < run.len() && !opens_comment(run, from) {
        lemma_comment_cut(run, from + 1);
    }
}

/// Taking trailing signs off leaves at least one character of an operator
/// that is not empty; the characters taken off are all signs.
pub proof fn lemma_unsigned_len(op: Seq<char>)
    ensures
        unsigned_len(op) <= op.len(),
        op.len() > 0 ==> 1 <= unsigned_len(op),
        op.len() == 0 ==> unsigned_len(op) == 0,
        forall|k: int| unsigned_len(op) <= k < op.len() ==> is_sign(#[trigger] op[k]),
        unsigned_len(op) > 1 ==> !is_sign(op[unsigned_len(op) - 1]),
    decreases op.len(),
{
    if op.len() > 1 && is_sign(op.last()) {
        let shorter = op.drop_last();
        lemma_unsigned_len(shorter);
        assert forall|k: int| unsigned_len(op) <= k < op.len() implies is_sign(
            #[trigger] op[k],
        ) by {
            if k < shorter.len() {
                assert(shorter[k] == op[k]);
            }
        }
    }
}

/// The operator read from a run is a prefix of the run.
pub proof fn lemma_operator_text(run: Seq<char>)
    ensures
        operator_text(run).len() <= run.len(),
        operator_text(run) == run.take(operator_text(run).len() as int),
{
    lemma_comment_cut(run, 0);
    let cut = run.take(comment_cut(run, 0));
    lemma_unsigned_len(cut);
    assert(cut.take(trimmed_len(cut)) =~= run.take(trimmed_len(cut)));
}

/// Neither an operator nor a comment is classified as whitespace.
pub proof fn lemma_operator_is_visible(glyphs: Seq<Glyph>, at: int)
    ensures
        operator_step(glyphs, at).kind matches Some(kind) && !kind.spec_is_skipped(),
{
}

/// Reading a lexeme always moves forward, and never past the end of the text.
pub proof fn lemma_step_advances(glyphs: Seq<Glyph>, at: int)
    requires
        0 <= at < glyphs.len(),
    ensures
        at < step_at(glyphs, at).end <= glyphs.len(),
{
    let g = glyphs[at];
    let c = g.ch;
    if c == ' ' || c == '\t' || c == '\n' || c == '\r' {
    } else if spec_is_identifier_start(g) {
        lemma_run_end(glyphs, at + 1, GlyphClass::IdentifierPart);
    } else if c == '\'' {
        lemma_quoted_end(glyphs, at + 1, '\'');
    } else if c == '"' {
        lemma_quoted_end(glyphs, at + 1, '"');
    } else if spec_is_digit(g) {
        lemma_number_end(glyphs, at);
    } else if spec_is_operator_part(g) {
        if holds(glyphs, at, '-') && holds(glyphs, at + 1, '-') {
            lemma_run_end(glyphs, at + 2, GlyphClass::NotNewline);
        } else {
            let stop = run_end(glyphs, at + 1, GlyphClass::OperatorPart);
            lemma_run_end(glyphs, at + 1, GlyphClass::OperatorPart);
            lemma_operator_text(chars_of(glyphs.subrange(at, stop)));
        }
    } else {
    }
}

/// The lexemes that the text falls into from position `from` on, whitespace
/// included, in the order of the text. `None` when the text is rejected
/// somewhere at or after `from`.
pub open spec fn lexemes_from(glyphs: Seq<Glyph>, from: int) -> Option<Seq<Lexeme>>
    decreases glyphs.len() - from,
    via lexemes_from_decreases
{
    if from < 0 || from >= glyphs.len() {
        Some(Seq::empty())
    } else {
        let step = step_at(glyphs, from);
        match step.kind {
            None => None,
            Some(kind) => match lexemes_from(glyphs, step.end) {
                None => None,
                Some(rest) => Some(seq![Lexeme { kind, start: from, end: step.end }] + rest),
            },
        }
    }
}

#[via_fn]
proof fn lexemes_from_decreases(glyphs: Seq<Glyph>, from: int) {
    if 0 <= from < glyphs.len() {
        lemma_step_advances(glyphs, from);
    }
}

/// Whether a lexeme shows in the result of lexing: whitespace does not.
pub open spec fn is_visible(lexeme: Lexeme) -> bool {
    !lexeme.kind.spec_is_skipped()
}

/// The end-of-input lexeme of a text: empty, and placed at its end.
pub open spec fn end_of_input(glyphs: Seq<Glyph>) -> Lexeme {
    Lexeme { kind: TokenKind::EOF, start: glyphs.len() as int, end: glyphs.len() as int }
}

/// The lexemes that show, in their order.
pub open spec fn visible(lexemes: Seq<Lexeme>) -> Seq<Lexeme> {
    lexemes.filter(|l: Lexeme| is_visible(l))
}

/// What lexing a text returns: its lexemes without the whitespace, then the
/// end-of-input lexeme. `None` when the text is rejected.
pub open spec fn tokens_of(glyphs: Seq<Glyph>) -> Option<Seq<Lexeme>> {
    match lexemes_from(glyphs, 0) {
        None => None,
        Some(lexemes) => Some(visible(lexemes).push(end_of_input(glyphs))),
    }
}

/// No lexemes show of none.
pub proof fn lemma_visible_empty()
    ensures
        visible(Seq::empty()) == Seq::<Lexeme>::empty(),
{
    reveal(Seq::filter);
}

/// A lexeme added at the end shows at the end, or not at all.
pub proof fn lemma_visible_push(lexemes: Seq<Lexeme>, lexeme: Lexeme)
    ensures
        visible(lexemes.push(lexeme)) == if is_visible(lexeme) {
            visible(lexemes).push(lexeme)
        } else {
            visible(lexemes)
        },
{
    lexemes.lemma_filter_push(lexeme, |l: Lexeme| is_visible(l));
}

} // verus!
