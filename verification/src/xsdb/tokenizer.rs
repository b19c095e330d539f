//! The lexer: one forward pass over the glyphs of a text, one token at a time.

use vstd::prelude::*;
use vstd::string::StringSliceAdditionalSpecFns;
use vstd::utf8::encode_utf8;
use super::chars::{
    chars_of, classify, glyphs_of, is_digit, is_identifier_start,
    is_operator_allow_plus_minus_end, is_operator_part, spec_is_operator_allow_plus_minus_end,
    spec_is_operator_part, Glyph, GlyphClass,
};
use super::lexeme::{
    comment_cut, end_of_input, holds, is_visible, lemma_comment_cut, lemma_operator_text,
    lemma_run_end, lemma_step_advances, lemma_unsigned_len, lemma_visible_empty,
    lemma_visible_push, lexemes_from, line_end, number_end, operator_kind, operator_step,
    operator_text, quoted_end, quoted_value, run_end, step_at, tokens_of, trimmed_len,
    unsigned_len, visible, Lexeme,
};
use super::offsets::{
    byte_offset, lemma_byte_offset_bounds, lemma_byte_offset_increasing,
    lemma_byte_offset_is_boundary, lemma_byte_offset_step, utf8_width,
};
use super::token::{span_fits, ParseError, Span, Token, TokenKind, TokenView};

verus! {

/// The cursor of a scan: the glyphs of the text, the position of the next
/// glyph, and the byte offsets of that position and of the position where the
/// token being read began.
pub struct State {
    glyphs: Vec<Glyph>,
    index: usize,
    start: usize,
    cursor: usize,
    start_index: Ghost<int>,
}

impl State {
    /// The glyphs of the text being scanned.
    pub closed spec fn glyphs(&self) -> Seq<Glyph> {
        self.glyphs@
    }

    /// The position of the next glyph to read.
    pub closed spec fn position(&self) -> int {
        self.index as int
    }

    /// The position where the token being read began.
    pub closed spec fn token_start(&self) -> int {
        self.start_index@
    }

    /// The text being scanned.
    pub open spec fn text(&self) -> Seq<char> {
        chars_of(self.glyphs())
    }

    /// Whether the two byte offsets of the cursor are those of its two positions.
    pub closed spec fn tracks_bytes(&self) -> bool {
        &&& self.start == byte_offset(self.text(), self.start_index@)
        &&& self.cursor == byte_offset(self.text(), self.index as int)
        &&& encode_utf8(self.text()).len() <= usize::MAX
    }

    /// The cursor is inside the text, not before the start of its token, and
    /// its byte offsets agree with its positions.
    pub open spec fn wf(&self) -> bool {
        &&& 0 <= self.token_start() <= self.position() <= self.glyphs().len()
        &&& self.tracks_bytes()
    }

    /// Whether this cursor is `before` moved on to `position`, within the same
    /// token of the same text.
    pub open spec fn moved_to(&self, before: State, position: int) -> bool {
        &&& self.wf()
        &&& self.glyphs() == before.glyphs()
        &&& self.token_start() == before.token_start()
        &&& self.position() == position
    }

    /// Whether the next glyph exists and holds the character `c`.
    pub open spec fn at(&self, c: char) -> bool {
        holds(self.glyphs(), self.position(), c)
    }

    /// A cursor at the start of a text.
    pub fn new(glyphs: Vec<Glyph>) -> (state: Self)
        requires
            encode_utf8(chars_of(glyphs@)).len() <= usize::MAX,
        ensures
            state.wf(),
            state.glyphs() == glyphs@,
            state.position() == 0,
            state.token_start() == 0,
    {
        proof {
            lemma_byte_offset_bounds(chars_of(glyphs@));
        }
        Self { glyphs, index: 0, start: 0, cursor: 0, start_index: Ghost(0) }
    }

    /// Reads the next glyph, if there is one, and moves past it.
    pub fn next(&mut self) -> (glyph: Option<Glyph>)
        requires
            old(self).wf(),
        ensures
            old(self).position() < old(self).glyphs().len() ==> glyph == Some(
                old(self).glyphs()[old(self).position()],
            ) && final(self).moved_to(*old(self), old(self).position() + 1),
            old(self).position() >= old(self).glyphs().len() ==> glyph.is_none()
                && final(self).moved_to(*old(self), old(self).position()),
    {
        if self.index < self.glyphs.len() {
            let glyph = self.glyphs[self.index];
            proof {
                let text = self.text();
                lemma_byte_offset_step(text, self.index as int);
                lemma_byte_offset_increasing(text, self.index + 1, text.len() as int);
                lemma_byte_offset_bounds(text);
            }
            self.cursor = self.cursor + utf8_width(glyph.ch);
            self.index = self.index + 1;
            Some(glyph)
        } else {
            None
        }
    }

    /// The next glyph, if there is one, without moving.
    pub fn peek(&self) -> (glyph: Option<Glyph>)
        requires
            self.wf(),
        ensures
            self.position() < self.glyphs().len() ==> glyph == Some(self.glyphs()[self.position()]),
            self.position() >= self.glyphs().len() ==> glyph.is_none(),
    {
        if self.index < self.glyphs.len() {
            Some(self.glyphs[self.index])
        } else {
            None
        }
    }

    /// The glyph `ahead` positions after the next one, if there is one,
    /// without moving.
    pub fn peek_at(&self, ahead: usize) -> (glyph: Option<Glyph>)
        requires
            self.wf(),
        ensures
            self.position() + ahead < self.glyphs().len() ==> glyph == Some(
                self.glyphs()[self.position() + ahead],
            ),
            self.position() + ahead >= self.glyphs().len() ==> glyph.is_none(),
    {
        if ahead < self.glyphs.len() - self.index {
            Some(self.glyphs[self.index + ahead])
        } else {
            None
        }
    }

    /// Whether the next glyph exists and holds the character `c`.
    pub fn is_at(&self, c: char) -> (b: bool)
        requires
            self.wf(),
        ensures
            b == self.at(c),
    {
        match self.peek() {
            Some(glyph) => glyph.ch == c,
            None => false,
        }
    }

    /// Whether the next glyph exists and is of the class.
    pub fn is_in(&self, class: GlyphClass) -> (b: bool)
        requires
            self.wf(),
        ensures
            b == (self.position() < self.glyphs().len() && class.spec_accepts(
                self.glyphs()[self.position()],
            )),
    {
        match self.peek() {
            Some(glyph) => class.accepts(glyph),
            None => false,
        }
    }

    /// The characters of the run of glyphs of the class that begins at the
    /// cursor, without moving.
    pub fn peek_while(&self, class: GlyphClass) -> (taken: Vec<char>)
        requires
            self.wf(),
        ensures
            taken@ == text_between(
                self.glyphs(),
                self.position(),
                run_end(self.glyphs(), self.position(), class),
            ),
    {
        let mut taken: Vec<char> = Vec::new();
        let mut ahead: usize = 0;
        loop
            invariant
                self.wf(),
                self.position() + ahead <= self.glyphs().len(),
                run_end(self.glyphs(), self.position(), class) == run_end(
                    self.glyphs(),
                    self.position() + ahead,
                    class,
                ),
                taken@ == text_between(self.glyphs(), self.position(), self.position() + ahead),
            ensures
                taken@ == text_between(
                    self.glyphs(),
                    self.position(),
                    run_end(self.glyphs(), self.position(), class),
                ),
            decreases self.glyphs().len() - self.position() - ahead,
        {
            match self.peek_at(ahead) {
                Some(g) => {
                    if !class.accepts(g) {
                        break ;
                    }
                    assert(ahead < self.glyphs.len());
                    taken.push(g.ch);
                    ahead = ahead + 1;
                    assert(taken@ =~= text_between(
                        self.glyphs(),
                        self.position(),
                        self.position() + ahead,
                    ));
                },
                None => {
                    break ;
                },
            }
        }
        taken
    }

    /// The bytes of the text that the token being read covers so far.
    pub fn span(&self) -> (span: Span)
        requires
            self.wf(),
        ensures
            span.start == byte_offset(self.text(), self.token_start()),
            span.end == byte_offset(self.text(), self.position()),
    {
        Span { start: self.start, end: self.cursor }
    }

    /// Begins a new token where the cursor stands.
    pub fn advance(&mut self)
        requires
            old(self).wf(),
        ensures
            final(self).wf(),
            final(self).glyphs() == old(self).glyphs(),
            final(self).position() == old(self).position(),
            final(self).token_start() == old(self).position(),
    {
        self.start = self.cursor;
        self.start_index = Ghost(self.index as int);
    }
}

/// The characters of the glyphs from `from` up to `to`.
pub open spec fn text_between(glyphs: Seq<Glyph>, from: int, to: int) -> Seq<char> {
    chars_of(glyphs.subrange(from, to))
}

/// Reads glyphs for as long as they are of the class, and returns their
/// characters.
pub fn peeking_take_while(chars: &mut State, class: GlyphClass) -> (taken: Vec<char>)
    requires
        old(chars).wf(),
    ensures
        final(chars).moved_to(
            *old(chars),
            run_end(old(chars).glyphs(), old(chars).position(), class),
        ),
        taken@ == text_between(old(chars).glyphs(), old(chars).position(), final(chars).position()),
{
    let ghost before = *chars;
    let ghost glyphs = chars.glyphs();
    let ghost from = chars.position();
    let mut taken: Vec<char> = Vec::new();
    while chars.is_in(class)
        invariant
            chars.moved_to(before, chars.position()),
            before.wf(),
            glyphs == before.glyphs(),
            from == before.position(),
            from <= chars.position(),
            run_end(glyphs, from, class) == run_end(glyphs, chars.position(), class),
            taken@ == text_between(glyphs, from, chars.position()),
        decreases chars.glyphs().len() - chars.position(),
    {
        let ghost at = chars.position();
        let glyph = chars.next();
        match glyph {
            Some(g) => {
                taken.push(g.ch);
            },
            None => {},
        }
        assert(taken@ =~= text_between(glyphs, from, at + 1));
    }
    taken
}

/// Finds where the first comment opens in an operator run: the position of
/// the first `--` or `/*`, or the length of the run.
pub fn find_comment(run: &Vec<char>) -> (cut: usize)
    ensures
        cut == comment_cut(run@, 0),
{
    let mut at: usize = 0;
    while run.len() - at > 1
        invariant
            at <= run.len(),
            comment_cut(run@, 0) == comment_cut(run@, at as int),
        decreases run.len() - at,
    {
        let a = run[at];
        let b = run[at + 1];
        if (a == '-' && b == '-') || (a == '/' && b == '*') {
            return at;
        }
        at = at + 1;
    }
    run.len()
}

/// Whether the operator holds a character that lets a sign end it.
pub fn allows_sign_at_end(op: &Vec<char>) -> (b: bool)
    ensures
        b == exists|k: int|
            0 <= k < op@.len() && spec_is_operator_allow_plus_minus_end(#[trigger] op@[k]),
{
    let mut at: usize = 0;
    while at < op.len()
        invariant
            at <= op.len(),
            forall|k: int|
                0 <= k < at ==> !spec_is_operator_allow_plus_minus_end(#[trigger] op@[k]),
        decreases op.len() - at,
    {
        if is_operator_allow_plus_minus_end(op[at]) {
            return true;
        }
        at = at + 1;
    }
    false
}

/// Takes the trailing signs off an operator that they do not belong to.
pub fn trim_signs(op: &mut Vec<char>)
    ensures
        final(op)@ == old(op)@.take(trimmed_len(old(op)@)),
{
    let ghost whole = op@;
    proof {
        lemma_unsigned_len(whole);
    }
    if op.len() > 0 && (op[op.len() - 1] == '+' || op[op.len() - 1] == '-') && !allows_sign_at_end(
        op,
    ) {
        while op.len() > 1 && (op[op.len() - 1] == '+' || op[op.len() - 1] == '-')
            invariant
                op@.len() <= whole.len(),
                op@ == whole.take(op@.len() as int),
                unsigned_len(op@) == unsigned_len(whole),
            decreases op.len(),
        {
            op.pop();
            assert(op@ =~= whole.take(op@.len() as int));
        }
        assert(op@ =~= whole.take(trimmed_len(whole)));
    } else {
        assert(op@ =~= whole.take(trimmed_len(whole)));
    }
}

/// The kind of an operator, by its text.
pub fn classify_operator(op: &Vec<char>) -> (kind: TokenKind)
    ensures
        kind == operator_kind(op@),
{
    if op.len() == 1 {
        let c = op[0];
        if c == '+' {
            TokenKind::Plus
        } else if c == '-' {
            TokenKind::Minus
        } else if c == '*' {
            TokenKind::Multiply
        } else if c == '/' {
            TokenKind::Divide
        } else if c == '%' {
            TokenKind::Modulo
        } else if c == '>' {
            TokenKind::Gt
        } else if c == '<' {
            TokenKind::Lt
        } else if c == '=' {
            TokenKind::Eq
        } else if c == '^' {
            TokenKind::Caret
        } else if c == '&' {
            TokenKind::Ampersand
        } else {
            TokenKind::Operator
        }
    } else if op.len() == 2 {
        let a = op[0];
        let b = op[1];
        if a == '=' && b == '>' {
            TokenKind::Arrow
        } else if a == '>' && b == '=' {
            TokenKind::Gte
        } else if a == '<' && b == '=' {
            TokenKind::Lte
        } else if a == '<' && b == '>' {
            TokenKind::NotEq
        } else if a == '!' && b == '=' {
            TokenKind::NotEq
        } else if a == '>' && b == '>' {
            TokenKind::ShiftRight
        } else if a == '<' && b == '<' {
            TokenKind::ShiftLeft
        } else {
            TokenKind::Operator
        }
    } else {
        TokenKind::Operator
    }
}

/// The token that a lexeme of a text becomes: the same kind, over the bytes
/// that the lexeme's characters occupy in the text.
pub open spec fn token_of(text: Seq<char>, lexeme: Lexeme) -> TokenView {
    TokenView {
        kind: lexeme.kind,
        source: text,
        span: Span {
            start: byte_offset(text, lexeme.start) as usize,
            end: byte_offset(text, lexeme.end) as usize,
        },
    }
}

/// The tokens that a sequence of lexemes of a text becomes.
pub open spec fn tokens_from(text: Seq<char>, lexemes: Seq<Lexeme>) -> Seq<TokenView> {
    lexemes.map_values(|l: Lexeme| token_of(text, l))
}

/// What lexing a text comes to: its tokens without the whitespace, with the
/// end-of-input token last, or `None` when the text is rejected.
pub open spec fn tokenization(text: Seq<char>) -> Option<Seq<TokenView>> {
    match tokens_of(glyphs_of(text)) {
        Some(lexemes) => Some(tokens_from(text, lexemes)),
        None => None,
    }
}

/// The values of a sequence of tokens.
pub open spec fn views<'s>(tokens: Seq<Token<'s>>) -> Seq<TokenView> {
    tokens.map_values(|t: Token<'s>| t@)
}

/// Whether the lexemes from the start of a text are `read`, then those from
/// `position` on.
spec fn read_so_far(glyphs: Seq<Glyph>, read: Seq<Lexeme>, position: int) -> bool {
    match lexemes_from(glyphs, position) {
        Some(rest) => lexemes_from(glyphs, 0) == Some(read + rest),
        None => lexemes_from(glyphs, 0).is_none(),
    }
}

/// The lexer of one source text.
pub struct Tokenizer<'s> {
    source: &'s str,
}

impl<'s> View for Tokenizer<'s> {
    type V = Seq<char>;

    /// The text that the tokenizer reads.
    closed spec fn view(&self) -> Seq<char> {
        self.source@
    }
}

impl<'s> Tokenizer<'s> {
    /// A tokenizer for `source`.
    pub fn new(source: &'s str) -> (tokenizer: Self)
        ensures
            tokenizer@ == source@,
    {
        Self { source }
    }

    /// Reads one glyph and reports a token of the given kind.
    pub fn consume_and_return(&self, chars: &mut State, token: TokenKind) -> (result: Result<
        Option<TokenKind>,
        ParseError,
    >)
        requires
            old(chars).wf(),
            old(chars).position() < old(chars).glyphs().len(),
        ensures
            final(chars).moved_to(*old(chars), old(chars).position() + 1),
            result == Ok::<Option<TokenKind>, ParseError>(Some(token)),
    {
        chars.next();
        Ok(Some(token))
    }

    /// Reads the rest of an identifier or keyword, after its first glyph,
    /// and returns the whole word.
    pub fn tokenize_word(&self, first_char: Glyph, chars: &mut State) -> (word: Vec<char>)
        requires
            old(chars).wf(),
            old(chars).position() >= 1,
            old(chars).glyphs()[old(chars).position() - 1] == first_char,
        ensures
            final(chars).moved_to(
                *old(chars),
                run_end(old(chars).glyphs(), old(chars).position(), GlyphClass::IdentifierPart),
            ),
            word@ == text_between(
                old(chars).glyphs(),
                old(chars).position() - 1,
                final(chars).position(),
            ),
    {
        let ghost glyphs = chars.glyphs();
        let ghost from = chars.position();
        let mut s: Vec<char> = Vec::new();
        s.push(first_char.ch);
        let mut rest = peeking_take_while(chars, GlyphClass::IdentifierPart);
        s.append(&mut rest);
        proof {
            lemma_run_end(glyphs, from, GlyphClass::IdentifierPart);
            assert(s@ =~= text_between(glyphs, from - 1, chars.position()));
        }
        s
    }

    /// Reads a line comment, after its two dashes, up to and including the
    /// line feed that ends it, and returns its text.
    pub fn tokenize_single_line_comment(&self, chars: &mut State) -> (comment: Vec<char>)
        requires
            old(chars).wf(),
        ensures
            final(chars).moved_to(*old(chars), line_end(old(chars).glyphs(), old(chars).position())),
            comment@ == text_between(
                old(chars).glyphs(),
                old(chars).position(),
                final(chars).position(),
            ),
    {
        let ghost glyphs = chars.glyphs();
        let ghost from = chars.position();
        let mut comment = peeking_take_while(chars, GlyphClass::NotNewline);
        proof {
            lemma_run_end(glyphs, from, GlyphClass::NotNewline);
        }
        let ghost stop = chars.position();
        match chars.next() {
            Some(g) => {
                comment.push(g.ch);
                assert(comment@ =~= text_between(glyphs, from, stop + 1));
            },
            None => {},
        }
        comment
    }

    /// Reads a quoted string, from its opening quote through its closing
    /// quote, and returns the characters that it stands for. Fails when the
    /// text ends before the string is closed.
    pub fn tokenize_quoted_string(&self, chars: &mut State, quote_style: char) -> (result: Result<
        Vec<char>,
        ParseError,
    >)
        requires
            old(chars).wf(),
            old(chars).position() < old(chars).glyphs().len(),
        ensures
            match quoted_end(old(chars).glyphs(), old(chars).position() + 1, quote_style) {
                Some(end) => {
                    &&& final(chars).moved_to(*old(chars), end)
                    &&& result matches Ok(value)
                    &&& value@ == quoted_value(
                        old(chars).glyphs(),
                        old(chars).position() + 1,
                        quote_style,
                    )
                },
                None => {
                    &&& final(chars).moved_to(*old(chars), old(chars).glyphs().len() as int)
                    &&& result is Err
                },
            },
    {
        let ghost before = *chars;
        let ghost glyphs = chars.glyphs();
        let ghost from = chars.position() + 1;
        let mut s: Vec<char> = Vec::new();
        chars.next();  // the opening quote
        loop
            invariant
                before == *old(chars),
                chars.moved_to(before, chars.position()),
                glyphs == before.glyphs(),
                from == before.position() + 1,
                from <= chars.position(),
                quoted_end(glyphs, from, quote_style) == quoted_end(
                    glyphs,
                    chars.position(),
                    quote_style,
                ),
                quoted_value(glyphs, from, quote_style) == s@ + quoted_value(
                    glyphs,
                    chars.position(),
                    quote_style,
                ),
            decreases chars.glyphs().len() - chars.position(),
        {
            let ghost at = chars.position();
            match chars.peek() {
                None => {
                    return Err(ParseError::UnexpectedToken);
                },
                Some(g) => {
                    chars.next();
                    if g.ch == quote_style {
                        if chars.is_at(quote_style) {
                            s.push(g.ch);
                            chars.next();
                            assert(s@ + quoted_value(glyphs, at + 2, quote_style) =~= s@.drop_last()
                                + (seq![quote_style] + quoted_value(glyphs, at + 2, quote_style)));
                        } else {
                            assert(s@ + Seq::<char>::empty() =~= s@);
                            return Ok(s);
                        }
                    } else {
                        s.push(g.ch);
                        assert(s@ + quoted_value(glyphs, at + 1, quote_style) =~= s@.drop_last()
                            + (seq![g.ch] + quoted_value(glyphs, at + 1, quote_style)));
                    }
                },
            }
        }
    }

    /// Reads a number: digits, at most one `.` with the digits after it, an
    /// exponent if its digits are there, and a trailing `L`.
    pub fn tokenize_number(&self, chars: &mut State)
        requires
            old(chars).wf(),
        ensures
            final(chars).moved_to(
                *old(chars),
                number_end(old(chars).glyphs(), old(chars).position()),
            ),
    {
        let ghost glyphs = chars.glyphs();
        let ghost at = chars.position();
        peeking_take_while(chars, GlyphClass::Digit);
        proof {
            lemma_run_end(glyphs, at, GlyphClass::Digit);
        }
        // at most one period
        if chars.is_at('.') {
            chars.next();
        }
        let ghost after_period = chars.position();
        peeking_take_while(chars, GlyphClass::Digit);
        proof {
            lemma_run_end(glyphs, after_period, GlyphClass::Digit);
        }
        let ghost fraction = chars.position();
        // an exponent counts only if a digit follows its optional sign
        if chars.is_at('e') || chars.is_at('E') {
            let signed = match chars.peek_at(1) {
                Some(g) => g.ch == '+' || g.ch == '-',
                None => false,
            };
            let prefix: usize = if signed {
                2
            } else {
                1
            };
            let digit_follows = match chars.peek_at(prefix) {
                Some(g) => is_digit(g),
                None => false,
            };
            if digit_follows {
                let mut read: usize = 0;
                while read < prefix
                    invariant
                        read <= prefix,
                        fraction + prefix < glyphs.len(),
                        chars.moved_to(*old(chars), fraction + read),
                        glyphs == old(chars).glyphs(),
                    decreases prefix - read,
                {
                    chars.next();
                    read = read + 1;
                }
                peeking_take_while(chars, GlyphClass::Digit);
            }
        }
        if chars.is_at('L') {
            chars.next();
        }
    }

    /// Reads an operator or a line comment, after its first glyph, and
    /// returns the kind of what was read.
    pub fn tokenize_operator(&self, first: Glyph, chars: &mut State) -> (kind: TokenKind)
        requires
            old(chars).wf(),
            old(chars).position() >= 1,
            old(chars).glyphs()[old(chars).position() - 1] == first,
            spec_is_operator_part(first),
        ensures
            final(chars).moved_to(
                *old(chars),
                operator_step(old(chars).glyphs(), old(chars).position() - 1).end,
            ),
            operator_step(old(chars).glyphs(), old(chars).position() - 1).kind == Some(kind),
    {
        let ghost glyphs = chars.glyphs();
        let ghost at = chars.position() - 1;
        let ghost stop = run_end(glyphs, at + 1, GlyphClass::OperatorPart);
        let ghost run = text_between(glyphs, at, stop);
        proof {
            lemma_run_end(glyphs, at + 1, GlyphClass::OperatorPart);
            lemma_operator_text(run);
            lemma_comment_cut(run, 0);
        }
        // maybe a line comment
        if first.ch == '-' {
            match chars.peek() {
                Some(g) => {
                    if g.ch == '-' {
                        chars.next();  // the second dash
                        self.tokenize_single_line_comment(chars);
                        return TokenKind::SingleLineComment;
                    }
                    if !is_operator_part(g) {
                        proof {
                            assert(run =~= seq!['-']);
                            assert(comment_cut(run, 0) == 1);
                            assert(run.take(1) =~= run);
                            assert(unsigned_len(run) == 1);
                            assert(operator_text(run) =~= run);
                        }
                        return TokenKind::Minus;
                    }
                },
                None => {},
            }
        }
        // 1. look at all the operator characters ahead
        let mut op: Vec<char> = Vec::new();
        op.push(first.ch);
        let mut rest = chars.peek_while(GlyphClass::OperatorPart);
        op.append(&mut rest);
        assert(op@ =~= run);
        // 2. stop before a comment
        let cut = find_comment(&op);
        op.truncate(cut);
        assert(op@ =~= run.take(comment_cut(run, 0)));
        // 3. leave trailing signs to what follows
        trim_signs(&mut op);
        assert(op@ == operator_text(run));
        // 4. move past the operator
        let len = op.len();
        let mut read: usize = 1;
        while read < len
            invariant
                1 <= read,
                len >= 1 ==> read <= len,
                len == 0 ==> read == 1,
                at + len <= glyphs.len(),
                chars.moved_to(*old(chars), at + read),
                glyphs == old(chars).glyphs(),
            decreases len - read,
        {
            chars.next();
            read = read + 1;
        }
        // 5. tell the predefined operators from the others
        classify_operator(&op)
    }

    /// Reads the next lexeme and returns its kind: `None` at the end of the
    /// text, an error where the text is rejected. The cursor moves past
    /// what was read, also where the text is rejected.
    pub fn next_token(&self, chars: &mut State) -> (result: Result<Option<TokenKind>, ParseError>)
        requires
            old(chars).wf(),
        ensures
            old(chars).position() >= old(chars).glyphs().len() ==> {
                &&& final(chars).moved_to(*old(chars), old(chars).position())
                &&& result == Ok::<Option<TokenKind>, ParseError>(None)
            },
            old(chars).position() < old(chars).glyphs().len() ==> {
                let step = step_at(old(chars).glyphs(), old(chars).position());
                &&& final(chars).moved_to(*old(chars), step.end)
                &&& match step.kind {
                    Some(kind) => result == Ok::<Option<TokenKind>, ParseError>(Some(kind)),
                    None => result is Err,
                }
            },
    {
        match chars.peek() {
            None => Ok(None),
            Some(g) => match g.ch {
                ' ' => self.consume_and_return(chars, TokenKind::Space),
                '\t' => self.consume_and_return(chars, TokenKind::Tab),
                '\n' => self.consume_and_return(chars, TokenKind::NewLine),
                '\r' => {
                    // one line break for both a lone carriage return and one
                    // with a line feed
                    chars.next();
                    if chars.is_at('\n') {
                        chars.next();
                    }
                    Ok(Some(TokenKind::NewLine))
                },
                // identifier or keyword
                _ if is_identifier_start(g) => {
                    chars.next();  // the first glyph
                    let word = self.tokenize_word(g, chars);
                    Ok(Some(TokenKind::make_keyword_or_identifier(&word)))
                },
                // single quoted string
                '\'' => {
                    self.tokenize_quoted_string(chars, '\'')?;
                    Ok(Some(TokenKind::SingleQuotedString))
                },
                // double quoted string
                '"' => {
                    self.tokenize_quoted_string(chars, '"')?;
                    Ok(Some(TokenKind::DoubleQuotedString))
                },
                // numbers and period
                _ if is_digit(g) => {
                    self.tokenize_number(chars);
                    Ok(Some(TokenKind::Number))
                },
                // operators
                _ if is_operator_part(g) => {
                    chars.next();  // the first operator glyph
                    let kind = self.tokenize_operator(g, chars);
                    Ok(Some(kind))
                },
                // punctuation
                '(' => self.consume_and_return(chars, TokenKind::LeftParen),
                ')' => self.consume_and_return(chars, TokenKind::RightParen),
                '[' => self.consume_and_return(chars, TokenKind::LeftBracket),
                ']' => self.consume_and_return(chars, TokenKind::RightBracket),
                ',' => self.consume_and_return(chars, TokenKind::Comma),
                ';' => self.consume_and_return(chars, TokenKind::SemiColon),
                ':' => {
                    chars.next();
                    if chars.is_at(':') {
                        self.consume_and_return(chars, TokenKind::DoubleColon)
                    } else if chars.is_at('=') {
                        self.consume_and_return(chars, TokenKind::DuckAssignment)
                    } else {
                        Ok(Some(TokenKind::Colon))
                    }
                },
                // other whitespace comes last: it covers some of the
                // characters above
                _ if g.whitespace => self.consume_and_return(chars, TokenKind::Space),
                _ => {
                    chars.next();  // the unknown glyph
                    Err(ParseError::UnexpectedToken)
                },
            },
        }
    }

    /// Lexes the whole text. Returns its tokens in the order of the text,
    /// whitespace left out, with the end-of-input token last; or the error,
    /// and no tokens, when the text is rejected.
    pub fn tokenize(&mut self) -> (result: Result<Vec<Token<'s>>, ParseError>)
        ensures
            final(self)@ == old(self)@,
            match tokenization(old(self)@) {
                Some(expected) => result matches Ok(tokens) && views(tokens@) == expected,
                None => result is Err,
            },
    {
        let source = self.source;
        let ghost text = source@;
        let glyphs = classify(source);
        let ghost g = glyphs@;
        let bytes = source.as_bytes();
        proof {
            assert(chars_of(g) =~= text);
            assert(bytes@.len() == bytes.len());
        }
        let mut state = State::new(glyphs);
        let mut tokens: Vec<Token<'s>> = Vec::new();
        let ghost mut read: Seq<Lexeme> = Seq::empty();
        proof {
            lemma_visible_empty();
            assert(Seq::<Lexeme>::empty() + lexemes_from(g, 0).unwrap() =~= lexemes_from(
                g,
                0,
            ).unwrap());
            assert(views(tokens@) =~= tokens_from(text, visible(read)));
        }
        loop
            invariant
                state.wf(),
                state.glyphs() == g,
                state.token_start() == state.position(),
                g == glyphs_of(text),
                state.text() == text,
                text == source@,
                source == self.source,
                *self == *old(self),
                read_so_far(g, read, state.position()),
                views(tokens@) == tokens_from(text, visible(read)),
            ensures
                state.wf(),
                state.glyphs() == g,
                state.token_start() == state.position(),
                state.position() == g.len(),
                lexemes_from(g, 0) == Some(read),
                views(tokens@) == tokens_from(text, visible(read)),
            decreases g.len() - state.position(),
        {
            let ghost at = state.position();
            let ghost before = tokens@;
            proof {
                if at < g.len() {
                    lemma_step_advances(g, at);
                }
            }
            match self.next_token(&mut state) {
                Err(error) => {
                    return Err(error);
                },
                Ok(None) => {
                    proof {
                        assert(read + Seq::<Lexeme>::empty() =~= read);
                    }
                    break ;
                },
                Ok(Some(token)) => {
                    let ghost lexeme = Lexeme { kind: token, start: at, end: state.position() };
                    if !token.is_skipped() {
                        let span = state.span();
                        proof {
                            lemma_span_fits(text, at, state.position());
                        }
                        tokens.push(Token::new(token, source, span));
                    }
                    proof {
                        lemma_visible_push(read, lexeme);
                        match lexemes_from(g, state.position()) {
                            Some(rest) => {
                                assert(read.push(lexeme) + rest =~= read + (seq![lexeme] + rest));
                            },
                            None => {},
                        }
                        if is_visible(lexeme) {
                            assert(views(tokens@) =~= views(before).push(token_of(text, lexeme)));
                            assert(tokens_from(text, visible(read).push(lexeme)) =~= tokens_from(
                                text,
                                visible(read),
                            ).push(token_of(text, lexeme)));
                        }
                        read = read.push(lexeme);
                    }
                    state.advance();
                },
            }
        }
        let ghost before = tokens@;
        let span = state.span();
        proof {
            lemma_span_fits(text, g.len() as int, g.len() as int);
        }
        tokens.push(Token::new(TokenKind::EOF, source, span));
        proof {
            let last = end_of_input(g);
            assert(views(tokens@) =~= views(before).push(token_of(text, last)));
            assert(tokens_from(text, visible(read).push(last)) =~= tokens_from(
                text,
                visible(read),
            ).push(token_of(text, last)));
        }
        Ok(tokens)
    }
}

/// The bytes between the offsets of two positions of a text are a span of it.
pub proof fn lemma_span_fits(text: Seq<char>, from: int, to: int)
    requires
        0 <= from <= to <= text.len(),
        encode_utf8(text).len() <= usize::MAX,
    ensures
        span_fits(
            text,
            Span { start: byte_offset(text, from) as usize, end: byte_offset(text, to) as usize },
        ),
{
    lemma_byte_offset_increasing(text, from, to);
    lemma_byte_offset_increasing(text, to, text.len() as int);
    lemma_byte_offset_bounds(text);
    lemma_byte_offset_is_boundary(text, from);
    lemma_byte_offset_is_boundary(text, to);
}

} // verus!
