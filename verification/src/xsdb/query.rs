//! The statement builder: reads `CREATE TABLE [IF [NOT] EXISTS] <name> ...`
//! from a sequence of tokens into a small tree.

use vstd::prelude::*;
use super::token::{Token, TokenKind, TokenView};
use super::tokenizer::views;

verus! {

broadcast use vstd::string::group_string_axioms;

/// What a statement is about.
#[derive(Debug, Clone, Copy, PartialEq, Eq, Structural)]
#[allow(dead_code)]
pub enum BodyKind {
    CreateTable,
    Field,
}

/// Whether a statement depends on its subject existing.
#[derive(Debug, Clone, Copy, PartialEq, Eq, Structural)]
pub enum WhenKind {
    Unqualified,
    IfExists,
    IfNotExists,
}

/// A statement: its kind, its existence clause, the name it speaks of, and
/// the statements that follow inside it.
#[derive(Debug)]
#[allow(dead_code)]
pub struct Query {
    body: BodyKind,
    when: WhenKind,
    value: Option<String>,
    subqueries: Vec<Box<Query>>,
}

/// A statement as a value.
pub struct QueryView {
    pub body: BodyKind,
    pub when: WhenKind,
    pub value: Option<Seq<char>>,
    pub subqueries: Seq<QueryView>,
}

impl Query {
    /// The statement as a value, with the statements inside it.
    pub closed spec fn model(&self) -> QueryView
        decreases self,
    {
        QueryView {
            body: self.body,
            when: self.when,
            value: match self.value {
                Some(name) => Some(name@),
                None => None,
            },
            subqueries: Seq::new(
                self.subqueries@.len(),
                |i: int|
                    if 0 <= i < self.subqueries@.len() {
                        (*self.subqueries@[i]).model()
                    } else {
                        unrecognized()
                    },
            ),
        }
    }
}

impl View for Query {
    type V = QueryView;

    open spec fn view(&self) -> QueryView {
        self.model()
    }
}

/// The statement that stands for input that is not recognized: no name, no
/// clause, nothing inside.
pub open spec fn unrecognized() -> QueryView {
    QueryView {
        body: BodyKind::CreateTable,
        when: WhenKind::Unqualified,
        value: None,
        subqueries: Seq::empty(),
    }
}

/// What the scan for an existence clause has found.
pub struct WhenScan {
    /// The position of the first token that the scan has not read.
    pub next: int,
    /// Whether `IF` was read.
    pub seen_if: bool,
    /// Whether `NOT` was read.
    pub seen_not: bool,
}

impl WhenScan {
    /// The clause that the scan has found: none without `IF`, else the one
    /// with or without `NOT`.
    pub open spec fn clause(self) -> WhenKind {
        if !self.seen_if {
            WhenKind::Unqualified
        } else if self.seen_not {
            WhenKind::IfNotExists
        } else {
            WhenKind::IfExists
        }
    }
}

/// Scans for an existence clause from position `from`. `IF` and `NOT` are
/// read and noted, `EXISTS` is read and ends the scan. Any other token ends
/// the scan unread once `IF` was read, and is passed over before that. The
/// scan also ends with the tokens.
pub open spec fn when_scan(tokens: Seq<TokenView>, from: int, seen_if: bool, seen_not: bool)
    -> WhenScan
    decreases tokens.len() - from,
{
    if from < 0 || from >= tokens.len() {
        WhenScan { next: from, seen_if, seen_not }
    } else if tokens[from].kind == TokenKind::IF {
        when_scan(tokens, from + 1, true, seen_not)
    } else if tokens[from].kind == TokenKind::NOT {
        when_scan(tokens, from + 1, seen_if, true)
    } else if tokens[from].kind == TokenKind::EXISTS {
        WhenScan { next: from + 1, seen_if, seen_not }
    } else if seen_if {
        WhenScan { next: from, seen_if, seen_not }
    } else {
        when_scan(tokens, from + 1, seen_if, seen_not)
    }
}

/// A scan ends at or after the position that it began at, and within the tokens.
pub proof fn lemma_when_scan_bounds(
    tokens: Seq<TokenView>,
    from: int,
    seen_if: bool,
    seen_not: bool,
)
    requires
        0 <= from <= tokens.len(),
    ensures
        from <= when_scan(tokens, from, seen_if, seen_not).next <= tokens.len(),
    decreases tokens.len() - from,
{
    if from < tokens.len() {
        if tokens[from].kind == TokenKind::IF {
            lemma_when_scan_bounds(tokens, from + 1, true, seen_not);
        } else if tokens[from].kind == TokenKind::NOT {
            lemma_when_scan_bounds(tokens, from + 1, seen_if, true);
        } else if tokens[from].kind == TokenKind::EXISTS {
        } else if seen_if {
        } else {
            lemma_when_scan_bounds(tokens, from + 1, seen_if, seen_not);
        }
    }
}

/// The statement that a sequence of tokens is read as.
///
/// `CREATE TABLE`, the scan for an existence clause, and one more token make
/// a table creation: the text of that token is the name, and the tokens
/// after it are read in the same way into the one statement inside.
/// Everything else, a sequence that ends too early included, is read as the
/// unrecognized statement.
pub open spec fn parse(tokens: Seq<TokenView>) -> QueryView
    decreases tokens.len(),
{
    if tokens.len() >= 2 && tokens[0].kind == TokenKind::CREATE && tokens[1].kind
        == TokenKind::TABLE {
        let scan = when_scan(tokens, 2, false, false);
        if 2 <= scan.next < tokens.len() {
            QueryView {
                body: BodyKind::CreateTable,
                when: scan.clause(),
                value: Some(tokens[scan.next].text()),
                subqueries: seq![parse(tokens.subrange(scan.next + 1, tokens.len() as int))],
            }
        } else {
            unrecognized()
        }
    } else {
        unrecognized()
    }
}

impl Query {
    /// Reads a statement from its tokens.
    pub fn new(tokens: Vec<Token>) -> (query: Self)
        ensures
            query@ == parse(views(tokens@)),
        decreases tokens.len(),
    {
        let ghost all = views(tokens@);
        if tokens.len() >= 2 {
            match tokens[0].token() {
                TokenKind::CREATE => {
                    match tokens[1].token() {
                        TokenKind::TABLE => {
                            let mut position: usize = 2;
                            let when_kind = peek_when_kind(&tokens, &mut position);
                            if position < tokens.len() {
                                let value = tokens[position].text();
                                let remaining_tokens = tokens_after(&tokens, position + 1);
                                let subquery = Query::new(remaining_tokens);
                                let mut subqueries: Vec<Box<Query>> = Vec::new();
                                subqueries.push(Box::new(subquery));
                                let query = Self {
                                    body: BodyKind::CreateTable,
                                    when: when_kind,
                                    value: Some(value.to_string()),
                                    subqueries,
                                };
                                assert(query@.subqueries =~= seq![
                                    parse(all.subrange(position + 1, all.len() as int)),
                                ]);
                                return query;
                            }
                        },
                        _ => (),
                    }
                },
                _ => (),
            }
        }
        let query = Self {
            body: BodyKind::CreateTable,
            when: WhenKind::Unqualified,
            value: None,
            subqueries: Vec::new(),
        };
        assert(query@.subqueries =~= Seq::empty());
        query
    }

    /// The kind of the statement.
    pub fn body(&self) -> (body: BodyKind)
        ensures
            body == self@.body,
    {
        self.body
    }

    /// The existence clause of the statement.
    pub fn when(&self) -> (clause: WhenKind)
        ensures
            clause == self@.when,
    {
        self.when
    }

    /// The name that the statement speaks of, if it has one.
    pub fn value(&self) -> (value: Option<&String>)
        ensures
            match value {
                Some(name) => self@.value == Some(name@),
                None => self@.value.is_none(),
            },
    {
        self.value.as_ref()
    }

    /// The statements inside this one.
    pub fn subqueries(&self) -> (subqueries: &Vec<Box<Query>>)
        ensures
            subqueries@.len() == self@.subqueries.len(),
            forall|i: int|
                0 <= i < subqueries@.len() ==> (#[trigger] subqueries@[i])@
                    == self@.subqueries[i],
    {
        &self.subqueries
    }
}

/// The tokens from position `from` on, copied.
fn tokens_after<'s>(tokens: &Vec<Token<'s>>, from: usize) -> (rest: Vec<Token<'s>>)
    requires
        from <= tokens.len(),
    ensures
        views(rest@) == views(tokens@).subrange(from as int, tokens.len() as int),
{
    let mut rest: Vec<Token<'s>> = Vec::new();
    let mut at: usize = from;
    while at < tokens.len()
        invariant
            from <= at <= tokens.len(),
            views(rest@) == views(tokens@).subrange(from as int, at as int),
        decreases tokens.len() - at,
    {
        let ghost before = rest@;
        rest.push(tokens[at].clone());
        at = at + 1;
        assert(views(rest@) =~= views(before).push(tokens@[at - 1]@));
        assert(views(rest@) =~= views(tokens@).subrange(from as int, at as int));
    }
    rest
}

/// Scans for an existence clause from `position` on, moves `position` past
/// what the scan read, and returns the clause that it found.
fn peek_when_kind(tokens: &Vec<Token>, position: &mut usize) -> (clause: WhenKind)
    requires
        *old(position) <= tokens.len(),
    ensures
        *final(position) == when_scan(views(tokens@), *old(position) as int, false, false).next,
        clause == when_scan(views(tokens@), *old(position) as int, false, false).clause(),
        *old(position) <= *final(position) <= tokens.len(),
{
    let ghost all = views(tokens@);
    let ghost from = *position as int;
    let mut is_when = false;
    let mut is_not = false;
    proof {
        lemma_when_scan_bounds(all, from, false, false);
    }
    while *position < tokens.len()
        invariant_except_break
            when_scan(all, from, false, false) == when_scan(all, *position as int, is_when, is_not),
        invariant
            all == views(tokens@),
            from <= *position <= tokens.len(),
        ensures
            from <= *position <= tokens.len(),
            when_scan(all, from, false, false) == (WhenScan {
                next: *position as int,
                seen_if: is_when,
                seen_not: is_not,
            }),
        decreases tokens.len() - *position,
    {
        match tokens[*position].token() {
            TokenKind::IF => {
                *position = *position + 1;
                is_when = true;
            },
            TokenKind::NOT => {
                *position = *position + 1;
                is_not = true;
            },
            TokenKind::EXISTS => {
                *position = *position + 1;
                break ;
            },
            _ => {
                if is_when {
                    break ;
                }
                *position = *position + 1;
            },
        }
    }
    if !is_when {
        return WhenKind::Unqualified;
    }
    if is_not {
        return WhenKind::IfNotExists;
    }
    return WhenKind::IfExists;
}

} // verus!
