//! Arithmetic expressions: a line is cut into numbers and operator
//! characters, and those are read into a tree by operator precedence.
//! Numbers are kept as they were written.

use vstd::prelude::*;

verus! {

broadcast use vstd::string::group_string_axioms;

/// A piece of an expression.
#[derive(Debug)]
pub enum Token {
    /// A number, as it was written: digits and periods.
    Number(Vec<char>),
    /// Any other character that is not whitespace.
    Op(char),
    /// The end of the expression.
    Eof,
}

/// A token as a value.
pub enum TokenView {
    Number(Seq<char>),
    Op(char),
    Eof,
}

impl View for Token {
    type V = TokenView;

    open spec fn view(&self) -> TokenView {
        match self {
            Token::Number(text) => TokenView::Number(text@),
            Token::Op(c) => TokenView::Op(*c),
            Token::Eof => TokenView::Eof,
        }
    }
}

impl Token {
    /// The token of a character that belongs to no number.
    pub fn operator(c: char) -> (token: Token)
        ensures
            token@ == TokenView::Op(c),
    {
        Token::Op(c)
    }
}

impl Clone for Token {
    fn clone(&self) -> (copy: Self)
        ensures
            copy@ == self@,
    {
        match self {
            Token::Number(text) => {
                let mut copy: Vec<char> = Vec::new();
                let mut at: usize = 0;
                while at < text.len()
                    invariant
                        at <= text.len(),
                        copy@ == text@.take(at as int),
                    decreases text.len() - at,
                {
                    copy.push(text[at]);
                    at = at + 1;
                    assert(copy@ =~= text@.take(at as int));
                }
                assert(text@.take(at as int) =~= text@);
                Token::Number(copy)
            },
            Token::Op(c) => Token::Op(*c),
            Token::Eof => Token::Eof,
        }
    }
}

/// Whether a character is ASCII whitespace: space, tab, line feed, form
/// feed or carriage return.
pub open spec fn is_space(c: char) -> bool {
    c == ' ' || c == '\t' || c == '\n' || c == '\x0C' || c == '\r'
}

/// Whether a character belongs to a number: a decimal digit or a period.
pub open spec fn is_number_part(c: char) -> bool {
    ('0' <= c <= '9') || c == '.'
}

/// The number that has been read, as a token, if any of it has been read.
pub open spec fn pending(number: Seq<char>) -> Seq<TokenView> {
    if number.len() > 0 {
        seq![TokenView::Number(number)]
    } else {
        Seq::empty()
    }
}

/// The tokens of a line from position `at` on, where `number` holds the
/// characters of the number being read. Whitespace is passed over, without
/// ending a number. Any character that does not belong to a number ends
/// the number before it and is a token of its own.
pub open spec fn tokens_from(input: Seq<char>, at: int, number: Seq<char>) -> Seq<TokenView>
    decreases input.len() - at,
{
    if at < 0 || at >= input.len() {
        pending(number)
    } else if is_space(input[at]) {
        tokens_from(input, at + 1, number)
    } else if is_number_part(input[at]) {
        tokens_from(input, at + 1, number.push(input[at]))
    } else {
        pending(number) + seq![TokenView::Op(input[at])] + tokens_from(input, at + 1, Seq::empty())
    }
}

/// The tokens of a line.
pub open spec fn line_tokens(input: Seq<char>) -> Seq<TokenView> {
    tokens_from(input, 0, Seq::empty())
}

/// The values of a sequence of tokens.
pub open spec fn token_views(tokens: Seq<Token>) -> Seq<TokenView> {
    tokens.map_values(|t: Token| t@)
}

/// The tokens of an expression that have not been read yet.
#[derive(Debug)]
pub struct Lexer {
    /// The tokens still to be read, the next one last.
    tokens: Vec<Token>,
}

impl Lexer {
    /// The tokens still to be read, the next one first.
    pub closed spec fn remaining(&self) -> Seq<TokenView> {
        Seq::new(self.tokens@.len(), |i: int| self.tokens@[self.tokens@.len() - 1 - i]@)
    }

    /// Cuts a line into its tokens.
    pub fn new(input: &str) -> (lexer: Lexer)
        ensures
            lexer.remaining() == line_tokens(input@),
    {
        let mut tokens: Vec<Token> = Vec::new();
        let mut number: Vec<char> = Vec::new();
        assert(token_views(tokens@) + line_tokens(input@) =~= line_tokens(input@));
        for c in it: input.chars()
            invariant
                it.seq() == input@,
                line_tokens(input@) == token_views(tokens@) + tokens_from(
                    input@,
                    it.index() as int,
                    number@,
                ),
        {
            let ghost at = it.index() as int;
            let ghost rest = tokens_from(input@, at + 1, Seq::empty());
            let ghost read = token_views(tokens@);
            let ghost digits = number@;
            assert(c == input@[at]);
            if c == ' ' || c == '\t' || c == '\n' || c == '\x0C' || c == '\r' {
            } else if ('0' <= c && c <= '9') || c == '.' {
                number.push(c);
            } else {
                if number.len() > 0 {
                    tokens.push(Token::Number(number));
                    number = Vec::new();
                }
                assert(token_views(tokens@) =~= read + pending(digits));
                tokens.push(Token::operator(c));
                proof {
                    let op = seq![TokenView::Op(c)];
                    assert(token_views(tokens@) =~= read + pending(digits) + op);
                    assert(read + pending(digits) + op + rest =~= read + (pending(digits) + op
                        + rest));
                    assert(number@ =~= Seq::<char>::empty());
                }
            }
        }
        let ghost read = token_views(tokens@);
        if number.len() > 0 {
            tokens.push(Token::Number(number));
        }
        assert(token_views(tokens@) =~= read + pending(number@));
        let mut reversed: Vec<Token> = Vec::new();
        let ghost forward = tokens@;
        while tokens.len() > 0
            invariant
                tokens@.len() + reversed@.len() == forward.len(),
                tokens@ == forward.take(tokens@.len() as int),
                forall|k: int|
                    0 <= k < reversed@.len() ==> (#[trigger] reversed@[k]) == forward[forward.len()
                        - 1 - k],
            decreases tokens.len(),
        {
            let token = tokens.pop();
            match token {
                Some(t) => {
                    reversed.push(t);
                },
                None => {},
            }
        }
        let lexer = Lexer { tokens: reversed };
        assert(lexer.remaining() =~= token_views(forward));
        lexer
    }

    /// Reads the next token; at the end, the end of the expression.
    pub fn next(&mut self) -> (token: Token)
        ensures
            old(self).remaining().len() > 0 ==> token@ == old(self).remaining()[0]
                && final(self).remaining() == old(self).remaining().drop_first(),
            old(self).remaining().len() == 0 ==> token@ == TokenView::Eof
                && final(self).remaining() == old(self).remaining(),
    {
        let ghost before = self.remaining();
        let token = self.tokens.pop();
        match token {
            Some(t) => {
                assert(self.remaining() =~= before.drop_first());
                t
            },
            None => Token::Eof,
        }
    }

    /// The next token, without reading it; at the end, the end of the
    /// expression.
    pub fn peek(&self) -> (token: Token)
        ensures
            token@ == first_token(self.remaining()),
    {
        if self.tokens.len() > 0 {
            self.tokens[self.tokens.len() - 1].clone()
        } else {
            Token::Eof
        }
    }
}

/// The first of some tokens; of none, the end of the expression.
pub open spec fn first_token(tokens: Seq<TokenView>) -> TokenView {
    if tokens.len() > 0 {
        tokens[0]
    } else {
        TokenView::Eof
    }
}

/// An expression: a number, or an operator with its two operands.
#[derive(Debug)]
pub enum Expression {
    Number(Vec<char>),
    Operation(char, Vec<Expression>),
}

/// An expression as a value.
pub enum ExpressionView {
    Number(Seq<char>),
    Operation(char, Seq<ExpressionView>),
}

/// What reading an expression comes to: the expression, and the tokens
/// after it.
pub struct Parsed {
    pub expression: ExpressionView,
    pub rest: Seq<TokenView>,
}

/// How strongly an operator binds what stands to its left and to its right.
/// The greater number wins an operand; where the right number is the
/// greater, operators of a kind group from the left. `None` for a character
/// that is no operator.
pub open spec fn binding_power(op: char) -> Option<(int, int)> {
    if op == '+' || op == '-' {
        Some((10, 11))
    } else if op == '*' || op == '/' {
        Some((20, 21))
    } else if op == '^' || op == '\u{221a}' {
        Some((31, 30))
    } else if op == '.' {
        Some((40, 41))
    } else {
        None
    }
}

/// Reads one expression from the start of the tokens: an operand, then the
/// operators that bind at least as strongly as `min_bp`, each with its
/// right operand. An operand is a number or an expression in parentheses.
/// `None` where the tokens do not begin with an expression.
pub open spec fn parse_tokens(tokens: Seq<TokenView>, min_bp: int) -> Option<Parsed>
    decreases tokens.len(), 1int,
{
    match first_token(tokens) {
        TokenView::Number(text) => parse_operators(
            ExpressionView::Number(text),
            tokens.drop_first(),
            min_bp,
        ),
        TokenView::Op(c) => if c == '(' {
            match parse_tokens(tokens.drop_first(), 0) {
                Some(inner) => if inner.rest.len() < tokens.len() && first_token(inner.rest)
                    == TokenView::Op(')') {
                    parse_operators(inner.expression, inner.rest.drop_first(), min_bp)
                } else {
                    None
                },
                None => None,
            }
        } else {
            None
        },
        TokenView::Eof => None,
    }
}

/// Reads the operators that follow the operand `lhs`, each with its right
/// operand, for as long as they bind at least as strongly as `min_bp`. The
/// end of the tokens and a closing parenthesis end the reading; a number
/// where an operator is due, or a character that is no operator, fails it.
pub open spec fn parse_operators(lhs: ExpressionView, tokens: Seq<TokenView>, min_bp: int)
    -> Option<Parsed>
    decreases tokens.len(), 0int,
{
    match first_token(tokens) {
        TokenView::Eof => Some(Parsed { expression: lhs, rest: tokens }),
        TokenView::Number(_) => None,
        TokenView::Op(op) => if op == ')' {
            Some(Parsed { expression: lhs, rest: tokens })
        } else {
            match binding_power(op) {
                None => None,
                Some((l_bp, r_bp)) => if l_bp < min_bp {
                    Some(Parsed { expression: lhs, rest: tokens })
                } else {
                    match parse_tokens(tokens.drop_first(), r_bp) {
                        Some(rhs) => if rhs.rest.len() < tokens.len() {
                            parse_operators(
                                ExpressionView::Operation(op, seq![lhs, rhs.expression]),
                                rhs.rest,
                                min_bp,
                            )
                        } else {
                            None
                        },
                        None => None,
                    }
                },
            }
        },
    }
}

/// Reading an expression uses up at least one token, and reading operators
/// gives back none.
pub proof fn lemma_parse_consumes(tokens: Seq<TokenView>, min_bp: int)
    ensures
        parse_tokens(tokens, min_bp) matches Some(parsed) ==> parsed.rest.len() < tokens.len(),
    decreases tokens.len(), 1int,
{
    match first_token(tokens) {
        TokenView::Number(text) => {
            lemma_operators_consume(ExpressionView::Number(text), tokens.drop_first(), min_bp);
        },
        TokenView::Op(c) => {
            if c == '(' {
                match parse_tokens(tokens.drop_first(), 0) {
                    Some(inner) => {
                        if inner.rest.len() < tokens.len() && first_token(inner.rest)
                            == TokenView::Op(')') {
                            lemma_operators_consume(
                                inner.expression,
                                inner.rest.drop_first(),
                                min_bp,
                            );
                        }
                    },
                    None => {},
                }
            }
        },
        TokenView::Eof => {},
    }
}

/// Reading operators gives back no token.
pub proof fn lemma_operators_consume(lhs: ExpressionView, tokens: Seq<TokenView>, min_bp: int)
    ensures
        parse_operators(lhs, tokens, min_bp) matches Some(parsed) ==> parsed.rest.len()
            <= tokens.len(),
    decreases tokens.len(), 0int,
{
    match first_token(tokens) {
        TokenView::Op(op) => {
            if op != ')' {
                match binding_power(op) {
                    Some((l_bp, r_bp)) => {
                        if l_bp >= min_bp {
                            match parse_tokens(tokens.drop_first(), r_bp) {
                                Some(rhs) => {
                                    if rhs.rest.len() < tokens.len() {
                                        lemma_operators_consume(
                                            ExpressionView::Operation(
                                                op,
                                                seq![lhs, rhs.expression],
                                            ),
                                            rhs.rest,
                                            min_bp,
                                        );
                                    }
                                },
                                None => {},
                            }
                        }
                    },
                    None => {},
                }
            }
        },
        _ => {},
    }
}

/// The expression that a line is read as, or `None` where it does not begin
/// with an expression. What follows the expression in the line is left
/// unread.
pub open spec fn line_expression(input: Seq<char>) -> Option<ExpressionView> {
    match parse_tokens(line_tokens(input), 0) {
        Some(parsed) => Some(parsed.expression),
        None => None,
    }
}

impl Expression {
    /// The expression as a value, with its operands.
    pub open spec fn model(&self) -> ExpressionView
        decreases self,
    {
        match self {
            Expression::Number(text) => ExpressionView::Number(text@),
            Expression::Operation(op, operands) => ExpressionView::Operation(
                *op,
                Seq::new(
                    operands@.len(),
                    |i: int|
                        if 0 <= i < operands@.len() {
                            operands@[i].model()
                        } else {
                            ExpressionView::Number(Seq::empty())
                        },
                ),
            ),
        }
    }

    /// Reads a line as an expression; `None` where the line does not begin
    /// with one.
    pub fn from_str(input: &str) -> (expression: Option<Expression>)
        ensures
            match line_expression(input@) {
                Some(expected) => expression matches Some(found) && found@ == expected,
                None => expression.is_none(),
            },
    {
        let mut lexer = Lexer::new(input);
        parse_expression(&mut lexer, 0)
    }
}

impl View for Expression {
    type V = ExpressionView;

    open spec fn view(&self) -> ExpressionView {
        self.model()
    }
}

/// Reads one expression from the lexer, with the operators that bind at
/// least as strongly as `min_bp`; `None` where the tokens do not begin with
/// an expression.
fn parse_expression(lexer: &mut Lexer, min_bp: u8) -> (expression: Option<Expression>)
    ensures
        match parse_tokens(old(lexer).remaining(), min_bp as int) {
            Some(parsed) => {
                &&& expression matches Some(found)
                &&& found@ == parsed.expression
                &&& final(lexer).remaining() == parsed.rest
            },
            None => expression.is_none(),
        },
    decreases old(lexer).remaining().len(),
{
    let ghost tokens = lexer.remaining();
    let mut lhs = match lexer.next() {
        Token::Number(it) => Expression::Number(it),
        Token::Op(c) => {
            if c != '(' {
                return None;
            }
            let inner = parse_expression(lexer, 0);
            proof {
                lemma_parse_consumes(tokens.drop_first(), 0);
            }
            match inner {
                Some(lhs) => {
                    match lexer.next() {
                        Token::Op(close) => {
                            if close != ')' {
                                return None;
                            }
                            lhs
                        },
                        _ => {
                            return None;
                        },
                    }
                },
                None => {
                    return None;
                },
            }
        },
        Token::Eof => {
            return None;
        },
    };
    let ghost expected = parse_tokens(tokens, min_bp as int);
    loop
        invariant
            lexer.remaining().len() < tokens.len(),
            tokens == old(lexer).remaining(),
            expected == parse_tokens(tokens, min_bp as int),
            expected == parse_operators(lhs@, lexer.remaining(), min_bp as int),
        ensures
            expected == Some(Parsed { expression: lhs@, rest: lexer.remaining() }),
        decreases lexer.remaining().len(),
    {
        let ghost before = lexer.remaining();
        let op = match lexer.peek() {
            Token::Eof => {
                break ;
            },
            Token::Op(op) => {
                if op == ')' {
                    break ;
                }
                op
            },
            Token::Number(_) => {
                return None;
            },
        };
        let (l_bp, r_bp) = match infix_binding_power(op) {
            Some(powers) => powers,
            None => {
                return None;
            },
        };
        if l_bp < min_bp {
            break ;
        }
        lexer.next();
        let rhs = parse_expression(lexer, r_bp);
        proof {
            lemma_parse_consumes(before.drop_first(), r_bp as int);
        }
        match rhs {
            Some(rhs) => {
                let ghost left = lhs@;
                let ghost right = rhs@;
                let mut operands: Vec<Expression> = Vec::new();
                operands.push(lhs);
                operands.push(rhs);
                lhs = Expression::Operation(op, operands);
                assert(lhs@ == ExpressionView::Operation(op, seq![left, right])) by {
                    assert(lhs@->Operation_1 =~= seq![left, right]);
                }
            },
            None => {
                return None;
            },
        }
    }
    Some(lhs)
}

/// How strongly an operator binds to its left and to its right; `None` for
/// a character that is no operator.
pub fn infix_binding_power(op: char) -> (powers: Option<(u8, u8)>)
    ensures
        match binding_power(op) {
            Some((l_bp, r_bp)) => powers == Some((l_bp as u8, r_bp as u8)),
            None => powers.is_none(),
        },
{
    match op {
        '+' | '-' => Some((10, 11)),
        '*' | '/' => Some((20, 21)),
        '^' | '\u{221a}' => Some((31, 30)),
        '.' => Some((40, 41)),
        _ => None,
    }
}

} // verus!
