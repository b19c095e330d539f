use learn_rust::xsdb::chars::{classify, Glyph};
use learn_rust::xsdb::query::{BodyKind, Query, WhenKind};
use learn_rust::xsdb::token::{ParseError, Span, Token, TokenKind};
use learn_rust::xsdb::tokenizer::{State, Tokenizer};

fn lex(source: &str) -> Vec<Token<'_>> {
    Tokenizer::new(source).tokenize().unwrap()
}

fn kinds(source: &str) -> Vec<TokenKind> {
    lex(source).iter().map(|t| t.token()).collect()
}

fn texts(source: &str) -> Vec<String> {
    lex(source).iter().map(|t| t.text().to_string()).collect()
}

fn spans(source: &str) -> Vec<(usize, usize)> {
    lex(source)
        .iter()
        .map(|t| (t.span().start, t.span().end))
        .collect()
}

fn is_rejected(source: &str) -> bool {
    matches!(
        Tokenizer::new(source).tokenize(),
        Err(ParseError::UnexpectedToken)
    )
}

fn parse(source: &str) -> Query {
    Query::new(lex(source))
}

fn is_unrecognized(query: &Query) -> bool {
    query.body() == BodyKind::CreateTable
        && query.when() == WhenKind::Unqualified
        && query.value().is_none()
        && query.subqueries().is_empty()
}

/// Checks that the tokens of `source` come in order, that only whitespace
/// lies between them, and that tokens and gaps together spell `source`.
fn assert_tiles(source: &str) {
    let tokens = lex(source);
    let mut rebuilt = String::new();
    let mut at = 0;
    for token in tokens.iter() {
        let span = token.span();
        assert!(at <= span.start);
        assert!(span.start <= span.end);
        let gap = &source[at..span.start];
        assert!(gap.chars().all(|c| c.is_whitespace()));
        rebuilt.push_str(gap);
        rebuilt.push_str(token.text());
        assert_eq!(token.text(), &source[span.start..span.end]);
        at = span.end;
    }
    let last = tokens.last().unwrap();
    assert_eq!(last.token(), TokenKind::EOF);
    assert_eq!(last.span().start, source.len());
    assert_eq!(last.span().end, source.len());
    for token in tokens[..tokens.len() - 1].iter() {
        assert!(token.span().start < token.span().end);
        assert!(!token.token().is_skipped());
    }
    assert_eq!(rebuilt, source);
}

#[test]
fn empty_input_is_just_eof() {
    let tokens = lex("");
    assert_eq!(tokens.len(), 1);
    assert_eq!(tokens[0].token(), TokenKind::EOF);
    assert_eq!(tokens[0].span().start, 0);
    assert_eq!(tokens[0].span().end, 0);
    assert_eq!(tokens[0].text(), "");
}

#[test]
fn whitespace_alone_is_just_eof() {
    assert_eq!(kinds(" \t\n\r\n\r "), vec![TokenKind::EOF]);
    assert_eq!(spans(" \t\n\r\n\r "), vec![(7, 7)]);
}

#[test]
fn tokens_tile_the_text() {
    assert_tiles("");
    assert_tiles("SELECT  a,\tb\r\nFROM t WHERE a >= 1.5e3 AND b <> 'it''s' -- done\n;");
    assert_tiles("CREATE TABLE IF NOT EXISTS users");
    assert_tiles("x\u{a0}:=\u{2003}\"caf\u{e9}\"\r\u{4eac}::y");
    assert_tiles("a+-b*-c@-d->e");
}

#[test]
fn relexing_the_spelled_text_gives_the_same_kinds() {
    let source = "UPDATE t SET a = a+-1 , b='x' -- note\r\nWHERE  id<>2;";
    let tokens = lex(source);
    let mut rebuilt = String::new();
    let mut at = 0;
    for token in tokens.iter() {
        rebuilt.push_str(&source[at..token.span().start]);
        rebuilt.push_str(token.text());
        at = token.span().end;
    }
    assert_eq!(kinds(&rebuilt), kinds(source));
    assert_eq!(spans(&rebuilt), spans(source));
}

#[test]
fn keywords_ignore_case_and_keep_text() {
    for word in ["create", "CREATE", "Create"] {
        let tokens = lex(word);
        assert_eq!(tokens.len(), 2);
        assert_eq!(tokens[0].token(), TokenKind::CREATE);
        assert_eq!(tokens[0].text(), word);
        assert_eq!(tokens[1].token(), TokenKind::EOF);
    }
}

#[test]
fn every_keyword_is_recognized() {
    let words = [
        ("select", TokenKind::SELECT),
        ("create", TokenKind::CREATE),
        ("delete", TokenKind::DELETE),
        ("update", TokenKind::UPDATE),
        ("insert", TokenKind::INSERT),
        ("drop", TokenKind::DROP),
        ("table", TokenKind::TABLE),
        ("database", TokenKind::DATABASE),
        ("index", TokenKind::INDEX),
        ("if", TokenKind::IF),
        ("where", TokenKind::WHERE),
        ("and", TokenKind::AND),
        ("or", TokenKind::OR),
        ("not", TokenKind::NOT),
        ("exists", TokenKind::EXISTS),
        ("on", TokenKind::ON),
        ("from", TokenKind::FROM),
        ("into", TokenKind::INTO),
        ("values", TokenKind::VALUES),
        ("set", TokenKind::SET),
        ("as", TokenKind::AS),
        ("order", TokenKind::ORDER),
        ("by", TokenKind::BY),
        ("asc", TokenKind::ASC),
        ("desc", TokenKind::DESC),
        ("limit", TokenKind::LIMIT),
        ("offset", TokenKind::OFFSET),
        ("primary", TokenKind::PRIMARY),
        ("key", TokenKind::KEY),
        ("autoincrement", TokenKind::AUTOINCREMENT),
        ("integer", TokenKind::INTEGER),
        ("text", TokenKind::TEXT),
        ("null", TokenKind::NULL),
    ];
    for (word, kind) in words {
        assert_eq!(kinds(word), vec![kind, TokenKind::EOF]);
        assert_eq!(kinds(&word.to_uppercase()), vec![kind, TokenKind::EOF]);
        let word: Vec<char> = word.chars().collect();
        assert_eq!(TokenKind::make_keyword_or_identifier(&word), kind);
    }
}

#[test]
fn words_that_are_no_keywords_are_identifiers() {
    assert_eq!(kinds("selects"), vec![TokenKind::Identifier, TokenKind::EOF]);
    assert_eq!(kinds("selec"), vec![TokenKind::Identifier, TokenKind::EOF]);
    assert_eq!(kinds("_a$1"), vec![TokenKind::Identifier, TokenKind::EOF]);
    assert_eq!(texts("_a$1 b_2"), vec!["_a$1", "b_2", ""]);
    // only ASCII letters are folded: a dotless i is not an `I`
    assert_eq!(kinds("\u{131}f"), vec![TokenKind::Identifier, TokenKind::EOF]);
}

#[test]
fn letters_of_any_script_make_identifiers() {
    let source = "na\u{ef}ve \u{4eac}";
    assert_eq!(
        kinds(source),
        vec![TokenKind::Identifier, TokenKind::Identifier, TokenKind::EOF]
    );
    assert_eq!(texts(source), vec!["na\u{ef}ve", "\u{4eac}", ""]);
    assert_eq!(spans(source), vec![(0, 6), (7, 10), (10, 10)]);
}

#[test]
fn spans_count_bytes() {
    let source = "\u{e9}=1";
    assert_eq!(
        kinds(source),
        vec![TokenKind::Identifier, TokenKind::Eq, TokenKind::Number, TokenKind::EOF]
    );
    assert_eq!(spans(source), vec![(0, 2), (2, 3), (3, 4), (4, 4)]);
    let source = "'\u{1f49d}' x";
    assert_eq!(spans(source), vec![(0, 6), (7, 8), (8, 8)]);
    assert_eq!(texts(source), vec!["'\u{1f49d}'", "x", ""]);
}

#[test]
fn a_symbol_that_is_no_letter_is_rejected() {
    assert!(is_rejected("\u{1f49d}"));
    assert!(is_rejected("a \u{1f49d}"));
}

#[test]
fn other_whitespace_is_skipped() {
    let source = "a\u{a0}b\u{2003}c\u{c}d";
    assert_eq!(texts(source), vec!["a", "b", "c", "d", ""]);
    assert_eq!(
        spans(source),
        vec![(0, 1), (3, 4), (7, 8), (9, 10), (10, 10)]
    );
}

#[test]
fn carriage_return_and_line_feed_are_one_line_break() {
    let t = Tokenizer::new("");
    let mut state = State::new(classify("\r\n\r\r\n"));
    assert!(matches!(t.next_token(&mut state), Ok(Some(TokenKind::NewLine))));
    assert_eq!(state.span().end, 2);
    state.advance();
    assert!(matches!(t.next_token(&mut state), Ok(Some(TokenKind::NewLine))));
    assert_eq!(state.span().start, 2);
    assert_eq!(state.span().end, 3);
    state.advance();
    assert!(matches!(t.next_token(&mut state), Ok(Some(TokenKind::NewLine))));
    assert_eq!(state.span().end, 5);
    state.advance();
    assert!(matches!(t.next_token(&mut state), Ok(None)));
    assert_eq!(state.span().start, 5);
    assert_eq!(state.span().end, 5);
}

#[test]
fn plain_whitespace_is_classified_one_by_one() {
    let t = Tokenizer::new("");
    let mut state = State::new(classify(" \t\n"));
    assert!(matches!(t.next_token(&mut state), Ok(Some(TokenKind::Space))));
    state.advance();
    assert!(matches!(t.next_token(&mut state), Ok(Some(TokenKind::Tab))));
    state.advance();
    assert!(matches!(t.next_token(&mut state), Ok(Some(TokenKind::NewLine))));
    state.advance();
    assert!(matches!(t.next_token(&mut state), Ok(None)));
    assert!(TokenKind::Space.is_skipped());
    assert!(TokenKind::Tab.is_skipped());
    assert!(TokenKind::NewLine.is_skipped());
    assert!(!TokenKind::SingleLineComment.is_skipped());
    assert!(!TokenKind::EOF.is_skipped());
}

#[test]
fn classes_are_tried_in_order() {
    // the properties of a glyph decide, whatever its character: a glyph
    // that counts as a letter begins a word even where it shows a digit
    let t = Tokenizer::new("");
    let mut state = State::new(vec![
        Glyph { ch: '1', alphabetic: true, whitespace: true },
        Glyph { ch: '2', alphabetic: false, whitespace: true },
        Glyph { ch: '(', alphabetic: false, whitespace: true },
        Glyph { ch: '{', alphabetic: false, whitespace: true },
        Glyph { ch: '{', alphabetic: false, whitespace: false },
    ]);
    assert!(matches!(t.next_token(&mut state), Ok(Some(TokenKind::Identifier))));
    assert_eq!(state.span().end, 2);
    state.advance();
    assert!(matches!(t.next_token(&mut state), Ok(Some(TokenKind::LeftParen))));
    state.advance();
    assert!(matches!(t.next_token(&mut state), Ok(Some(TokenKind::Space))));
    state.advance();
    assert!(matches!(
        t.next_token(&mut state),
        Err(ParseError::UnexpectedToken)
    ));
    // the glyph that is rejected is passed over all the same
    assert_eq!(state.span().start, 4);
    assert_eq!(state.span().end, 5);
}

#[test]
fn doubled_quote_stays_inside_the_string() {
    let tokens = lex("'it''s'");
    assert_eq!(tokens.len(), 2);
    assert_eq!(tokens[0].token(), TokenKind::SingleQuotedString);
    assert_eq!(tokens[0].text(), "'it''s'");
    assert_eq!(tokens[0].span().start, 0);
    assert_eq!(tokens[0].span().end, 7);
}

#[test]
fn each_quote_closes_its_own_kind_of_string() {
    assert_eq!(
        kinds("'a\"b' \"c'd\" \"e\"\"f\""),
        vec![
            TokenKind::SingleQuotedString,
            TokenKind::DoubleQuotedString,
            TokenKind::DoubleQuotedString,
            TokenKind::EOF
        ]
    );
    assert_eq!(
        texts("'a\"b' \"c'd\" \"e\"\"f\""),
        vec!["'a\"b'", "\"c'd\"", "\"e\"\"f\"", ""]
    );
    assert_eq!(texts("''"), vec!["''", ""]);
    assert_eq!(texts("''''"), vec!["''''", ""]);
    assert_eq!(texts("'a\nb'x"), vec!["'a\nb'", "x", ""]);
}

#[test]
fn quoted_string_value_is_unescaped() {
    let t = Tokenizer::new("");
    let mut state = State::new(classify("'it''s' rest"));
    let value = t.tokenize_quoted_string(&mut state, '\'').unwrap();
    assert_eq!(value, vec!['i', 't', '\'', 's']);
    assert_eq!(state.span().end, 7);
    let mut state = State::new(classify("\"\"\"\""));
    let value = t.tokenize_quoted_string(&mut state, '"').unwrap();
    assert_eq!(value, vec!['"']);
    assert_eq!(state.span().end, 4);
}

#[test]
fn unterminated_string_is_fatal() {
    let result = Tokenizer::new("'abc").tokenize();
    assert!(matches!(result, Err(ParseError::UnexpectedToken)));
    assert!(is_rejected("\"abc"));
    assert!(is_rejected("'"));
    assert!(is_rejected("'abc''"));
    assert!(is_rejected("x = 'abc"));
    assert!(is_rejected("'abc\" "));
}

#[test]
fn unterminated_string_is_read_to_the_end() {
    let t = Tokenizer::new("");
    let mut state = State::new(classify("'ab''"));
    assert!(matches!(
        t.next_token(&mut state),
        Err(ParseError::UnexpectedToken)
    ));
    assert_eq!(state.span().start, 0);
    assert_eq!(state.span().end, 5);
}

#[test]
fn exponent_needs_a_digit() {
    assert_eq!(kinds("1e5"), vec![TokenKind::Number, TokenKind::EOF]);
    assert_eq!(texts("1e5"), vec!["1e5", ""]);
    assert_eq!(
        kinds("1e"),
        vec![TokenKind::Number, TokenKind::Identifier, TokenKind::EOF]
    );
    assert_eq!(texts("1e"), vec!["1", "e", ""]);
    assert_eq!(
        kinds("1e+"),
        vec![TokenKind::Number, TokenKind::Identifier, TokenKind::Plus, TokenKind::EOF]
    );
    assert_eq!(texts("1e+"), vec!["1", "e", "+", ""]);
    assert_eq!(texts("1e-x"), vec!["1", "e", "-", "x", ""]);
    assert_eq!(texts("1E+7"), vec!["1E+7", ""]);
    assert_eq!(texts("2e-10"), vec!["2e-10", ""]);
    assert_eq!(texts("1e5e6"), vec!["1e5", "e6", ""]);
}

#[test]
fn numbers_take_one_period_and_one_suffix() {
    assert_eq!(texts("42"), vec!["42", ""]);
    assert_eq!(texts("1.5"), vec!["1.5", ""]);
    assert_eq!(texts("1."), vec!["1.", ""]);
    assert_eq!(texts("1.e3"), vec!["1.e3", ""]);
    assert_eq!(texts("1.5E-10L"), vec!["1.5E-10L", ""]);
    assert_eq!(texts("12L"), vec!["12L", ""]);
    assert_eq!(
        kinds("12LL"),
        vec![TokenKind::Number, TokenKind::Identifier, TokenKind::EOF]
    );
    assert_eq!(texts("12LL"), vec!["12L", "L", ""]);
    assert_eq!(texts("12l"), vec!["12", "l", ""]);
    assert_eq!(texts("1 2"), vec!["1", "2", ""]);
    assert_eq!(texts("7x"), vec!["7", "x", ""]);
    // a second period is left for the next token, and no token begins with one
    assert!(is_rejected("1.2.3"));
    assert!(is_rejected("1..2"));
    assert!(is_rejected(".5"));
    let t = Tokenizer::new("");
    let mut state = State::new(classify("1.2.3"));
    assert!(matches!(t.next_token(&mut state), Ok(Some(TokenKind::Number))));
    assert_eq!(state.span().end, 3);
}

#[test]
fn comment_runs_to_the_end_of_input() {
    let tokens = lex("a--b");
    assert_eq!(tokens.len(), 3);
    assert_eq!(tokens[0].token(), TokenKind::Identifier);
    assert_eq!(tokens[0].text(), "a");
    assert_eq!(tokens[1].token(), TokenKind::SingleLineComment);
    assert_eq!(tokens[1].text(), "--b");
    assert_eq!(tokens[2].token(), TokenKind::EOF);
}

#[test]
fn comment_takes_its_line_feed() {
    assert_eq!(
        kinds("--c\nx"),
        vec![TokenKind::SingleLineComment, TokenKind::Identifier, TokenKind::EOF]
    );
    assert_eq!(texts("--c\nx"), vec!["--c\n", "x", ""]);
    assert_eq!(texts("--"), vec!["--", ""]);
    assert_eq!(texts("--\n--\n"), vec!["--\n", "--\n", ""]);
    assert_eq!(texts("-- a 'b\r\nc"), vec!["-- a 'b\r\n", "c", ""]);
    assert_eq!(texts("---x"), vec!["---x", ""]);
}

#[test]
fn single_operators_have_their_own_kinds() {
    let operators = [
        ("+", TokenKind::Plus),
        ("-", TokenKind::Minus),
        ("*", TokenKind::Multiply),
        ("/", TokenKind::Divide),
        ("%", TokenKind::Modulo),
        (">", TokenKind::Gt),
        ("<", TokenKind::Lt),
        ("=", TokenKind::Eq),
        ("^", TokenKind::Caret),
        ("&", TokenKind::Ampersand),
        ("~", TokenKind::Operator),
        ("!", TokenKind::Operator),
        ("@", TokenKind::Operator),
        ("#", TokenKind::Operator),
        ("|", TokenKind::Operator),
        ("`", TokenKind::Operator),
        ("?", TokenKind::Operator),
    ];
    for (text, kind) in operators {
        assert_eq!(kinds(text), vec![kind, TokenKind::EOF]);
        assert_eq!(texts(text), vec![text, ""]);
        let spaced = format!("a {} b", text);
        assert_eq!(
            kinds(&spaced),
            vec![TokenKind::Identifier, kind, TokenKind::Identifier, TokenKind::EOF]
        );
    }
}

#[test]
fn double_operators_have_their_own_kinds() {
    let operators = [
        ("=>", TokenKind::Arrow),
        (">=", TokenKind::Gte),
        ("<=", TokenKind::Lte),
        ("<>", TokenKind::NotEq),
        ("!=", TokenKind::NotEq),
        (">>", TokenKind::ShiftRight),
        ("<<", TokenKind::ShiftLeft),
        ("==", TokenKind::Operator),
        ("->", TokenKind::Operator),
        ("||", TokenKind::Operator),
        ("&&", TokenKind::Operator),
        ("=<", TokenKind::Operator),
    ];
    for (text, kind) in operators {
        assert_eq!(kinds(text), vec![kind, TokenKind::EOF]);
        assert_eq!(texts(text), vec![text, ""]);
    }
    assert_eq!(kinds("<=>"), vec![TokenKind::Operator, TokenKind::EOF]);
    assert_eq!(kinds("<<="), vec![TokenKind::Operator, TokenKind::EOF]);
    assert_eq!(texts("a<=>b"), vec!["a", "<=>", "b", ""]);
}

#[test]
fn trailing_signs_are_left_to_what_follows() {
    assert_eq!(
        kinds("a+-b"),
        vec![
            TokenKind::Identifier,
            TokenKind::Plus,
            TokenKind::Minus,
            TokenKind::Identifier,
            TokenKind::EOF
        ]
    );
    assert_eq!(texts("a*-1"), vec!["a", "*", "-", "1", ""]);
    assert_eq!(texts("a>=-1"), vec!["a", ">=", "-", "1", ""]);
    assert_eq!(
        kinds("a>=-1"),
        vec![
            TokenKind::Identifier,
            TokenKind::Gte,
            TokenKind::Minus,
            TokenKind::Number,
            TokenKind::EOF
        ]
    );
    assert_eq!(texts("=+-+x"), vec!["=", "+", "-", "+", "x", ""]);
    assert_eq!(texts("+++"), vec!["+", "+", "+", ""]);
    assert_eq!(texts("-+"), vec!["-", "+", ""]);
    // an operator with one of ~!@#%^&|`? keeps its signs
    assert_eq!(texts("a@-b"), vec!["a", "@-", "b", ""]);
    assert_eq!(kinds("@-"), vec![TokenKind::Operator, TokenKind::EOF]);
    assert_eq!(texts("!+x"), vec!["!+", "x", ""]);
    assert_eq!(texts("+!-x"), vec!["+!-", "x", ""]);
}

#[test]
fn operators_stop_before_a_comment() {
    assert_eq!(texts("a+--b"), vec!["a", "+", "--b", ""]);
    assert_eq!(
        kinds("a+--b"),
        vec![
            TokenKind::Identifier,
            TokenKind::Plus,
            TokenKind::SingleLineComment,
            TokenKind::EOF
        ]
    );
    assert_eq!(texts("<=--x\ny"), vec!["<=", "--x\n", "y", ""]);
    assert_eq!(texts("@--x"), vec!["@", "--x", ""]);
    assert_eq!(texts("a*/*b"), vec!["a", "*", "/", "*", "b", ""]);
    assert_eq!(
        kinds("*/*"),
        vec![TokenKind::Multiply, TokenKind::Operator, TokenKind::Multiply, TokenKind::EOF]
    );
    // a run that begins with the opener of a block comment gives up its
    // first character as an operator of its own
    assert_eq!(texts("/*"), vec!["/", "*", ""]);
    assert_eq!(
        kinds("/*"),
        vec![TokenKind::Operator, TokenKind::Multiply, TokenKind::EOF]
    );
    assert_eq!(spans("/*"), vec![(0, 1), (1, 2), (2, 2)]);
}

#[test]
fn a_lone_minus_is_minus() {
    assert_eq!(kinds("-"), vec![TokenKind::Minus, TokenKind::EOF]);
    assert_eq!(
        kinds("-1"),
        vec![TokenKind::Minus, TokenKind::Number, TokenKind::EOF]
    );
    assert_eq!(
        kinds("a - b"),
        vec![
            TokenKind::Identifier,
            TokenKind::Minus,
            TokenKind::Identifier,
            TokenKind::EOF
        ]
    );
    assert_eq!(
        kinds("-("),
        vec![TokenKind::Minus, TokenKind::LeftParen, TokenKind::EOF]
    );
}

#[test]
fn punctuation_maps_directly() {
    assert_eq!(
        kinds("()[],;"),
        vec![
            TokenKind::LeftParen,
            TokenKind::RightParen,
            TokenKind::LeftBracket,
            TokenKind::RightBracket,
            TokenKind::Comma,
            TokenKind::SemiColon,
            TokenKind::EOF
        ]
    );
    assert_eq!(
        spans("()[],;"),
        vec![(0, 1), (1, 2), (2, 3), (3, 4), (4, 5), (5, 6), (6, 6)]
    );
}

#[test]
fn colon_looks_one_character_ahead() {
    assert_eq!(kinds(":"), vec![TokenKind::Colon, TokenKind::EOF]);
    assert_eq!(kinds("::"), vec![TokenKind::DoubleColon, TokenKind::EOF]);
    assert_eq!(kinds(":="), vec![TokenKind::DuckAssignment, TokenKind::EOF]);
    assert_eq!(
        kinds(":::"),
        vec![TokenKind::DoubleColon, TokenKind::Colon, TokenKind::EOF]
    );
    assert_eq!(
        kinds(": ="),
        vec![TokenKind::Colon, TokenKind::Eq, TokenKind::EOF]
    );
    assert_eq!(texts("a::b:=c:d"), vec!["a", "::", "b", ":=", "c", ":", "d", ""]);
    assert_eq!(texts(":=="), vec![":=", "=", ""]);
}

#[test]
fn unknown_characters_are_fatal() {
    assert!(is_rejected("."));
    assert!(is_rejected("a . b"));
    assert!(is_rejected("{"));
    assert!(is_rejected("a\u{1}b"));
    assert!(is_rejected("\\"));
    assert!(is_rejected("$a"));
    assert!(is_rejected("SELECT * FROM t WHERE a = {1}"));
}

#[test]
fn a_statement_lexes_in_order() {
    let source = "SELECT a, b FROM t WHERE a >= 10 AND b <> 'x';";
    assert_eq!(
        kinds(source),
        vec![
            TokenKind::SELECT,
            TokenKind::Identifier,
            TokenKind::Comma,
            TokenKind::Identifier,
            TokenKind::FROM,
            TokenKind::Identifier,
            TokenKind::WHERE,
            TokenKind::Identifier,
            TokenKind::Gte,
            TokenKind::Number,
            TokenKind::AND,
            TokenKind::Identifier,
            TokenKind::NotEq,
            TokenKind::SingleQuotedString,
            TokenKind::SemiColon,
            TokenKind::EOF
        ]
    );
    assert_eq!(
        texts(source),
        vec![
            "SELECT", "a", ",", "b", "FROM", "t", "WHERE", "a", ">=", "10", "AND", "b", "<>",
            "'x'", ";", ""
        ]
    );
}

#[test]
fn end_of_input_token_of_a_text() {
    let source = "caf\u{e9}";
    let eof = Token::eof(source);
    assert_eq!(eof.token(), TokenKind::EOF);
    assert_eq!(eof.span().start, 5);
    assert_eq!(eof.span().end, 5);
    assert_eq!(eof.text(), "");
    let copy = eof.clone();
    assert_eq!(copy.token(), TokenKind::EOF);
    assert_eq!(copy.span().start, 5);
}

#[test]
fn span_from_a_range() {
    let span = Span::from(3..8);
    assert_eq!(span.start, 3);
    assert_eq!(span.end, 8);
}

#[test]
fn token_over_a_given_span() {
    let source = "a \u{e9}t\u{e9} b";
    let token = Token::new(TokenKind::Identifier, source, Span { start: 2, end: 7 });
    assert_eq!(token.token(), TokenKind::Identifier);
    assert_eq!(token.text(), "\u{e9}t\u{e9}");
}

#[test]
fn create_table_if_not_exists() {
    let source = "CREATE TABLE IF NOT EXISTS users";
    let query = Query::new(lex(source));
    assert_eq!(query.body(), BodyKind::CreateTable);
    assert_eq!(query.when(), WhenKind::IfNotExists);
    assert_eq!(query.value().map(|s| s.as_str()), Some("users"));
    assert_eq!(query.subqueries().len(), 1);
    assert!(is_unrecognized(&query.subqueries()[0]));
}

#[test]
fn create_table_if_exists() {
    let query = parse("create table if exists Users");
    assert_eq!(query.body(), BodyKind::CreateTable);
    assert_eq!(query.when(), WhenKind::IfExists);
    assert_eq!(query.value().map(|s| s.as_str()), Some("Users"));
    assert_eq!(query.subqueries().len(), 1);
    assert!(is_unrecognized(&query.subqueries()[0]));
}

#[test]
fn scan_stops_at_the_first_other_token_after_if() {
    let query = parse("CREATE TABLE IF users NOT EXISTS");
    assert_eq!(query.when(), WhenKind::IfExists);
    assert_eq!(query.value().map(|s| s.as_str()), Some("users"));
    assert_eq!(query.subqueries().len(), 1);
    assert!(is_unrecognized(&query.subqueries()[0]));
}

#[test]
fn tokens_before_if_are_passed_over() {
    let query = parse("CREATE TABLE a b NOT IF EXISTS users");
    assert_eq!(query.when(), WhenKind::IfNotExists);
    assert_eq!(query.value().map(|s| s.as_str()), Some("users"));
}

#[test]
fn exists_without_if_is_no_clause() {
    let query = parse("CREATE TABLE NOT EXISTS users");
    assert_eq!(query.body(), BodyKind::CreateTable);
    assert_eq!(query.when(), WhenKind::Unqualified);
    assert_eq!(query.value().map(|s| s.as_str()), Some("users"));
    assert_eq!(query.subqueries().len(), 1);
}

#[test]
fn the_name_is_the_text_of_whatever_token_comes_next() {
    let query = parse("CREATE TABLE IF EXISTS 'my table' x");
    assert_eq!(query.value().map(|s| s.as_str()), Some("'my table'"));
    let query = parse("CREATE TABLE IF NOT EXISTS");
    assert_eq!(query.when(), WhenKind::IfNotExists);
    assert_eq!(query.value().map(|s| s.as_str()), Some(""));
    assert_eq!(query.subqueries().len(), 1);
    assert!(is_unrecognized(&query.subqueries()[0]));
}

#[test]
fn statements_nest() {
    let query = parse("CREATE TABLE IF EXISTS a CREATE TABLE IF NOT EXISTS b SELECT");
    assert_eq!(query.when(), WhenKind::IfExists);
    assert_eq!(query.value().map(|s| s.as_str()), Some("a"));
    assert_eq!(query.subqueries().len(), 1);
    let inner = &query.subqueries()[0];
    assert_eq!(inner.body(), BodyKind::CreateTable);
    assert_eq!(inner.when(), WhenKind::IfNotExists);
    assert_eq!(inner.value().map(|s| s.as_str()), Some("b"));
    assert_eq!(inner.subqueries().len(), 1);
    assert!(is_unrecognized(&inner.subqueries()[0]));
}

#[test]
fn other_statements_are_unrecognized() {
    assert!(is_unrecognized(&parse("")));
    assert!(is_unrecognized(&parse("SELECT a FROM t")));
    assert!(is_unrecognized(&parse("DROP TABLE t")));
    assert!(is_unrecognized(&parse("CREATE")));
    assert!(is_unrecognized(&parse("CREATE DATABASE d")));
    assert!(is_unrecognized(&parse("CREATE INDEX IF NOT EXISTS i")));
    assert!(is_unrecognized(&parse("TABLE CREATE IF EXISTS t")));
    assert!(is_unrecognized(&Query::new(vec![])));
    assert!(is_unrecognized(&Query::new(vec![Token::eof("")])));
}

#[test]
fn a_scan_that_finds_no_clause_leaves_no_name() {
    // without IF the scan reads on to EXISTS or to the end
    assert!(is_unrecognized(&parse("CREATE TABLE")));
    assert!(is_unrecognized(&parse("CREATE TABLE users")));
    assert!(is_unrecognized(&parse("CREATE TABLE users (id INTEGER)")));
}

#[test]
fn a_clause_cut_short_names_the_end_of_input() {
    let query = parse("CREATE TABLE IF");
    assert_eq!(query.when(), WhenKind::IfExists);
    assert_eq!(query.value().map(|s| s.as_str()), Some(""));
    assert_eq!(query.subqueries().len(), 1);
    assert!(is_unrecognized(&query.subqueries()[0]));
    let query = parse("CREATE TABLE IF NOT");
    assert_eq!(query.when(), WhenKind::IfNotExists);
    assert_eq!(query.value().map(|s| s.as_str()), Some(""));
    let query = parse("CREATE TABLE users EXISTS");
    assert_eq!(query.when(), WhenKind::Unqualified);
    assert_eq!(query.value().map(|s| s.as_str()), Some(""));
    assert_eq!(query.subqueries().len(), 1);
}
