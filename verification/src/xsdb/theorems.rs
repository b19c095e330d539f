//! What holds of every text that the lexer accepts: its lexemes cover it from
//! end to end, the tokens returned are those lexemes without the whitespace,
//! in the order of the text, and lexing what the lexemes spell gives the same
//! tokens again.

use vstd::prelude::*;
use vstd::utf8::encode_utf8;
use super::chars::{
    chars_of, glyphs_of, spec_is_digit, spec_is_identifier_start, spec_is_operator_part, Glyph,
    GlyphClass,
};
use super::lexeme::{
    end_of_input, is_visible, lemma_operator_is_visible, lemma_step_advances, lexemes_from,
    run_end, step_at, tokens_of, visible, Lexeme,
};
use super::offsets::{
    byte_offset, lemma_byte_offset_bounds, lemma_byte_offset_increasing, lemma_decode_subrange,
};
use super::token::{lemma_keyword_is_visible, TokenKind};
use super::tokenizer::{token_of, tokenization, tokens_from};

verus! {

/// Whether the lexemes lie end to end from `from` to `to`, none of them
/// empty: the first begins at `from`, each of the others where the one before
/// it ends, and the last ends at `to`.
pub open spec fn tiles(lexemes: Seq<Lexeme>, from: int, to: int) -> bool
    decreases lexemes.len(),
{
    if lexemes.len() == 0 {
        from == to
    } else {
        &&& lexemes[0].start == from
        &&& lexemes[0].start < lexemes[0].end
        &&& tiles(lexemes.drop_first(), lexemes[0].end, to)
    }
}

/// The characters that the lexemes cover, one lexeme after the other.
pub open spec fn spelled(text: Seq<char>, lexemes: Seq<Lexeme>) -> Seq<char>
    decreases lexemes.len(),
{
    if lexemes.len() == 0 {
        Seq::empty()
    } else {
        text.subrange(lexemes[0].start, lexemes[0].end) + spelled(text, lexemes.drop_first())
    }
}

/// Whether a glyph is whitespace to the lexer.
pub open spec fn is_blank(g: Glyph) -> bool {
    g.ch == ' ' || g.ch == '\t' || g.ch == '\n' || g.ch == '\r' || g.whitespace
}

/// Whether each lexeme comes before the next, without overlap, inside `[0, end]`.
pub open spec fn in_order(lexemes: Seq<Lexeme>, end: int) -> bool {
    &&& forall|k: int|
        0 <= k < lexemes.len() ==> 0 <= (#[trigger] lexemes[k]).start <= lexemes[k].end <= end
    &&& forall|i: int, j: int|
        0 <= i < j < lexemes.len() ==> (#[trigger] lexemes[i]).end <= (#[trigger] lexemes[j]).start
}

/// The lexemes of an accepted text lie end to end, from the position that
/// they were read from to the end of the text, and none of them is empty.
pub proof fn lemma_lexemes_tile(glyphs: Seq<Glyph>, from: int)
    requires
        0 <= from <= glyphs.len(),
        lexemes_from(glyphs, from).is_some(),
    ensures
        tiles(lexemes_from(glyphs, from).unwrap(), from, glyphs.len() as int),
    decreases glyphs.len() - from,
{
    if from < glyphs.len() {
        let step = step_at(glyphs, from);
        lemma_step_advances(glyphs, from);
        lemma_lexemes_tile(glyphs, step.end);
        let rest = lexemes_from(glyphs, step.end).unwrap();
        let first = Lexeme { kind: step.kind.unwrap(), start: from, end: step.end };
        let all = lexemes_from(glyphs, from).unwrap();
        assert(all =~= seq![first] + rest);
        assert(all.drop_first() =~= rest);
    }
}

/// Lexemes that lie end to end lie between the two ends.
pub proof fn lemma_tiles_bounds(lexemes: Seq<Lexeme>, from: int, to: int)
    requires
        tiles(lexemes, from, to),
    ensures
        from <= to,
        forall|k: int|
            0 <= k < lexemes.len() ==> from <= (#[trigger] lexemes[k]).start < lexemes[k].end
                <= to,
    decreases lexemes.len(),
{
    if lexemes.len() > 0 {
        let rest = lexemes.drop_first();
        lemma_tiles_bounds(rest, lexemes[0].end, to);
        assert forall|k: int| 0 <= k < lexemes.len() implies from <= (#[trigger] lexemes[k]).start
            < lexemes[k].end <= to by {
            if k > 0 {
                assert(lexemes[k] == rest[k - 1]);
            } else if rest.len() > 0 {
                assert(rest[0].end <= to);
            }
        }
    }
}

/// Lexemes that lie end to end are in order.
pub proof fn lemma_tiles_in_order(lexemes: Seq<Lexeme>, from: int, to: int)
    requires
        0 <= from,
        tiles(lexemes, from, to),
    ensures
        in_order(lexemes, to),
    decreases lexemes.len(),
{
    lemma_tiles_bounds(lexemes, from, to);
    if lexemes.len() > 0 {
        let first = lexemes[0];
        let rest = lexemes.drop_first();
        lemma_tiles_in_order(rest, first.end, to);
        lemma_tiles_bounds(rest, first.end, to);
        assert forall|i: int, j: int| 0 <= i < j < lexemes.len() implies (#[trigger] lexemes[i]).end
            <= (#[trigger] lexemes[j]).start by {
            assert(lexemes[j] == rest[j - 1]);
            if i > 0 {
                assert(lexemes[i] == rest[i - 1]);
            }
        }
    }
}

/// Lexemes that lie end to end spell the text between their ends.
pub proof fn lemma_tiles_spell(text: Seq<char>, lexemes: Seq<Lexeme>, from: int, to: int)
    requires
        0 <= from,
        to <= text.len(),
        tiles(lexemes, from, to),
    ensures
        spelled(text, lexemes) == text.subrange(from, to),
    decreases lexemes.len(),
{
    lemma_tiles_bounds(lexemes, from, to);
    if lexemes.len() == 0 {
        assert(text.subrange(from, to) =~= Seq::<char>::empty());
    } else {
        let first = lexemes[0];
        let rest = lexemes.drop_first();
        lemma_tiles_bounds(rest, first.end, to);
        lemma_tiles_spell(text, rest, first.end, to);
        assert(text.subrange(from, to) =~= text.subrange(from, first.end) + text.subrange(
            first.end,
            to,
        ));
    }
}

/// The lexemes of an accepted text, whitespace included, spell the text:
/// every character belongs to exactly one of them.
pub proof fn lemma_lexemes_spell_text(text: Seq<char>)
    requires
        lexemes_from(glyphs_of(text), 0).is_some(),
    ensures
        spelled(text, lexemes_from(glyphs_of(text), 0).unwrap()) == text,
{
    let glyphs = glyphs_of(text);
    lemma_lexemes_tile(glyphs, 0);
    lemma_tiles_spell(text, lexemes_from(glyphs, 0).unwrap(), 0, text.len() as int);
    assert(text.subrange(0, text.len() as int) =~= text);
}

/// A lexeme that is left out of the tokens covers nothing but whitespace.
pub proof fn lemma_hidden_is_blank(glyphs: Seq<Glyph>, from: int, k: int)
    requires
        0 <= from <= glyphs.len(),
        lexemes_from(glyphs, from).is_some(),
        0 <= k < lexemes_from(glyphs, from).unwrap().len(),
        !is_visible(lexemes_from(glyphs, from).unwrap()[k]),
    ensures
        ({
            let lexeme = lexemes_from(glyphs, from).unwrap()[k];
            forall|p: int| lexeme.start <= p < lexeme.end ==> is_blank(#[trigger] glyphs[p])
        }),
    decreases glyphs.len() - from,
{
    if from < glyphs.len() {
        let step = step_at(glyphs, from);
        lemma_step_advances(glyphs, from);
        let rest = lexemes_from(glyphs, step.end).unwrap();
        let first = Lexeme { kind: step.kind.unwrap(), start: from, end: step.end };
        let all = lexemes_from(glyphs, from).unwrap();
        assert(all =~= seq![first] + rest);
        if k > 0 {
            assert(all[k] == rest[k - 1]);
            lemma_hidden_is_blank(glyphs, step.end, k - 1);
        } else {
            lemma_hidden_step(glyphs, from);
        }
    }
}

/// A step that reads whitespace reads one blank glyph, or a carriage return
/// and a line feed.
proof fn lemma_hidden_step(glyphs: Seq<Glyph>, at: int)
    requires
        0 <= at < glyphs.len(),
        step_at(glyphs, at).kind matches Some(kind) && kind.spec_is_skipped(),
    ensures
        forall|p: int| at <= p < step_at(glyphs, at).end ==> is_blank(#[trigger] glyphs[p]),
{
    let g = glyphs[at];
    let c = g.ch;
    if c == ' ' || c == '\t' || c == '\n' || c == '\r' {
    } else if spec_is_identifier_start(g) {
        let end = run_end(glyphs, at + 1, GlyphClass::IdentifierPart);
        lemma_keyword_is_visible(chars_of(glyphs.subrange(at, end)));
    } else if c == '\'' || c == '"' {
    } else if spec_is_digit(g) {
    } else if spec_is_operator_part(g) {
        lemma_operator_is_visible(glyphs, at);
    } else {
    }
}

/// The tokens of an accepted text are in the order of the text and do not
/// overlap; the last of them is the end-of-input lexeme, and every other one
/// is a lexeme of the text that is not whitespace.
pub proof fn lemma_tokens_in_order(glyphs: Seq<Glyph>)
    requires
        tokens_of(glyphs).is_some(),
    ensures
        ({
            let tokens = tokens_of(glyphs).unwrap();
            &&& tokens.len() >= 1
            &&& tokens.last() == end_of_input(glyphs)
            &&& in_order(tokens, glyphs.len() as int)
            &&& forall|k: int|
                0 <= k < tokens.len() - 1 ==> {
                    &&& is_visible(#[trigger] tokens[k])
                    &&& tokens[k].start < tokens[k].end
                    &&& lexemes_from(glyphs, 0).unwrap().contains(tokens[k])
                }
        }),
{
    let all = lexemes_from(glyphs, 0).unwrap();
    let shown = visible(all);
    let tokens = tokens_of(glyphs).unwrap();
    let end = glyphs.len() as int;
    lemma_lexemes_tile(glyphs, 0);
    lemma_tiles_in_order(all, 0, end);
    lemma_visible_in_order(all, end);
    assert forall|k: int| 0 <= k < tokens.len() - 1 implies {
        &&& is_visible(#[trigger] tokens[k])
        &&& tokens[k].start < tokens[k].end
        &&& all.contains(tokens[k])
    } by {
        assert(tokens[k] == shown[k]);
        lemma_visible_member(all, k);
        let m = choose|m: int| 0 <= m < all.len() && all[m] == shown[k];
        lemma_tiles_bounds(all, 0, end);
        assert(all[m].start < all[m].end);
    }
    assert forall|k: int| 0 <= k < tokens.len() implies 0 <= (#[trigger] tokens[k]).start
        <= tokens[k].end <= end by {
        if k < shown.len() {
            assert(tokens[k] == shown[k]);
        }
    }
    assert forall|i: int, j: int| 0 <= i < j < tokens.len() implies (#[trigger] tokens[i]).end <= (
    #[trigger] tokens[j]).start by {
        assert(tokens[i] == shown[i]);
        if j < shown.len() {
            assert(tokens[j] == shown[j]);
        }
    }
}

/// Each lexeme that shows is one of the lexemes, and is visible.
proof fn lemma_visible_member(lexemes: Seq<Lexeme>, k: int)
    requires
        0 <= k < visible(lexemes).len(),
    ensures
        is_visible(visible(lexemes)[k]),
        lexemes.contains(visible(lexemes)[k]),
{
    let shown = visible(lexemes);
    lexemes.lemma_filter_pred(|l: Lexeme| is_visible(l), k);
    assert(shown.contains(shown[k]));
    lexemes.lemma_filter_contains_rev(|l: Lexeme| is_visible(l), shown[k]);
}

/// Leaving lexemes out keeps the others in order.
proof fn lemma_visible_in_order(lexemes: Seq<Lexeme>, end: int)
    requires
        in_order(lexemes, end),
    ensures
        in_order(visible(lexemes), end),
    decreases lexemes.len(),
{
    reveal(Seq::filter);
    if lexemes.len() > 0 {
        let front = lexemes.drop_last();
        let last = lexemes.last();
        assert forall|k: int| 0 <= k < front.len() implies 0 <= (#[trigger] front[k]).start
            <= front[k].end <= end by {
            assert(front[k] == lexemes[k]);
        }
        assert forall|i: int, j: int| 0 <= i < j < front.len() implies (#[trigger] front[i]).end
            <= (#[trigger] front[j]).start by {
            assert(front[i] == lexemes[i]);
            assert(front[j] == lexemes[j]);
        }
        lemma_visible_in_order(front, end);
        let shown = visible(lexemes);
        let before = visible(front);
        if is_visible(last) {
            assert(shown =~= before.push(last));
            assert forall|i: int, j: int| 0 <= i < j < shown.len() implies (#[trigger] shown[i]).end
                <= (#[trigger] shown[j]).start by {
                if j == before.len() {
                    lemma_visible_member(front, i);
                    let m = choose|m: int| 0 <= m < front.len() && front[m] == before[i];
                    assert(lexemes[m] == front[m]);
                    assert(lexemes[m].end <= lexemes[lexemes.len() - 1].start);
                } else {
                    assert(shown[i] == before[i]);
                    assert(shown[j] == before[j]);
                }
            }
            assert forall|k: int| 0 <= k < shown.len() implies 0 <= (#[trigger] shown[k]).start
                <= shown[k].end <= end by {
                if k < before.len() {
                    assert(shown[k] == before[k]);
                } else {
                    assert(shown[k] == lexemes[lexemes.len() - 1]);
                }
            }
        } else {
            assert(shown =~= before);
        }
    }
}

/// The text of the token that a lexeme becomes is the characters that the
/// lexeme covers.
pub proof fn lemma_token_text(text: Seq<char>, lexeme: Lexeme)
    requires
        0 <= lexeme.start <= lexeme.end <= text.len(),
        encode_utf8(text).len() <= usize::MAX,
    ensures
        token_of(text, lexeme).text() == text.subrange(lexeme.start, lexeme.end),
{
    lemma_byte_offset_increasing(text, lexeme.start, lexeme.end);
    lemma_byte_offset_increasing(text, lexeme.end, text.len() as int);
    lemma_byte_offset_bounds(text);
    lemma_decode_subrange(text, lexeme.start, lexeme.end);
}

/// The spans of the tokens of an accepted text are in increasing order and do
/// not overlap, every token but the last is not empty, and the last is the
/// end-of-input token, empty, at the length of the text in bytes.
pub proof fn lemma_spans_increase(text: Seq<char>)
    requires
        tokenization(text).is_some(),
        encode_utf8(text).len() <= usize::MAX,
    ensures
        ({
            let tokens = tokenization(text).unwrap();
            let len = encode_utf8(text).len();
            &&& tokens.len() >= 1
            &&& tokens.last().kind == TokenKind::EOF
            &&& tokens.last().span.start == len
            &&& tokens.last().span.end == len
            &&& forall|k: int|
                0 <= k < tokens.len() - 1 ==> (#[trigger] tokens[k]).span.start
                    < tokens[k].span.end
            &&& forall|i: int, j: int|
                0 <= i < j < tokens.len() ==> (#[trigger] tokens[i]).span.end <= (
                #[trigger] tokens[j]).span.start
            &&& forall|k: int| 0 <= k < tokens.len() ==> (#[trigger] tokens[k]).span.end <= len
        }),
{
    let glyphs = glyphs_of(text);
    let lexemes = tokens_of(glyphs).unwrap();
    let tokens = tokenization(text).unwrap();
    let end = text.len() as int;
    lemma_tokens_in_order(glyphs);
    lemma_byte_offset_bounds(text);
    assert(tokens =~= tokens_from(text, lexemes));
    assert forall|k: int| 0 <= k < tokens.len() implies {
        &&& (#[trigger] tokens[k]).span.start == byte_offset(text, lexemes[k].start)
        &&& tokens[k].span.end == byte_offset(text, lexemes[k].end)
        &&& tokens[k].span.end <= encode_utf8(text).len()
    } by {
        assert(tokens[k] == token_of(text, lexemes[k]));
        lemma_byte_offset_increasing(text, lexemes[k].start, lexemes[k].end);
        lemma_byte_offset_increasing(text, lexemes[k].end, end);
    }
    assert forall|k: int| 0 <= k < tokens.len() - 1 implies (#[trigger] tokens[k]).span.start
        < tokens[k].span.end by {
        lemma_byte_offset_increasing(text, lexemes[k].start, lexemes[k].end);
    }
    assert forall|i: int, j: int| 0 <= i < j < tokens.len() implies (#[trigger] tokens[i]).span.end
        <= (#[trigger] tokens[j]).span.start by {
        lemma_byte_offset_increasing(text, lexemes[i].end, lexemes[j].start);
    }
}

/// Lexing the text that the lexemes of an accepted text spell, whitespace
/// included, gives the same tokens as lexing the text itself.
pub proof fn lemma_relex(text: Seq<char>)
    requires
        tokenization(text).is_some(),
    ensures
        tokenization(spelled(text, lexemes_from(glyphs_of(text), 0).unwrap())) == tokenization(
            text,
        ),
{
    lemma_lexemes_spell_text(text);
}

} // verus!
