//! The running calculator's reading of a line: which characters are
//! operators, which operation each of them stands for, and which numbers a
//! line holds with the operation to apply to each.

use vstd::prelude::*;

verus! {

broadcast use vstd::string::group_string_axioms;

/// What the calculator does with the next number that it reads.
#[derive(Debug, Clone, Copy, PartialEq, Eq, Structural)]
pub enum Operator {
    /// Take the number as the new result.
    Eqq,
    Add,
    Sub,
    Mul,
    Div,
}

pub open spec fn spec_is_operator(value: char) -> bool {
    value == '+' || value == '-' || value == '*' || value == '/'
}

/// The operation that a character stands for: one of the four for the four
/// operator characters, and taking the number as it is for any other.
pub open spec fn spec_get_operator(value: char) -> Operator {
    if value == '+' {
        Operator::Add
    } else if value == '-' {
        Operator::Sub
    } else if value == '*' {
        Operator::Mul
    } else if value == '/' {
        Operator::Div
    } else {
        Operator::Eqq
    }
}

/// Whether a character is one of `+`, `-`, `*`, `/`.
pub fn _is_operator(value: char) -> (b: bool)
    ensures
        b == spec_is_operator(value),
{
    value == '+' || value == '-' || value == '*' || value == '/'
}

/// The operation that a character stands for.
pub fn _get_operator(value: char) -> (operator: Operator)
    ensures
        operator == spec_get_operator(value),
{
    match value {
        '+' => Operator::Add,
        '-' => Operator::Sub,
        '*' => Operator::Mul,
        '/' => Operator::Div,
        _ => Operator::Eqq,
    }
}

/// A number of a line, as it was written, with the operation that brings
/// it into the running result.
#[derive(Debug)]
pub struct Term {
    pub operator: Operator,
    pub number: Vec<char>,
}

/// A term as a value.
pub struct TermView {
    pub operator: Operator,
    pub number: Seq<char>,
}

impl View for Term {
    type V = TermView;

    open spec fn view(&self) -> TermView {
        TermView { operator: self.operator, number: self.number@ }
    }
}

/// The terms of a line from position `at` on, where `operator` is the
/// operation in force and `number` holds the characters read since the last
/// operator. Spaces are passed over. An operator character ends the number
/// before it, empty or not, and sets the operation for the next; the end of
/// the line ends a number only if it is not empty.
pub open spec fn terms_from(input: Seq<char>, at: int, operator: Operator, number: Seq<char>)
    -> Seq<TermView>
    decreases input.len() - at,
{
    if at < 0 || at >= input.len() {
        if number.len() > 0 {
            seq![TermView { operator, number }]
        } else {
            Seq::empty()
        }
    } else if input[at] == ' ' {
        terms_from(input, at + 1, operator, number)
    } else if spec_is_operator(input[at]) {
        seq![TermView { operator, number }] + terms_from(
            input,
            at + 1,
            spec_get_operator(input[at]),
            Seq::empty(),
        )
    } else {
        terms_from(input, at + 1, operator, number.push(input[at]))
    }
}

/// The terms of a line: its numbers in their order, the first to be taken
/// as it is, each of the others to be brought in by the operator before it.
pub open spec fn line_terms(input: Seq<char>) -> Seq<TermView> {
    terms_from(input, 0, Operator::Eqq, Seq::empty())
}

/// The values of a sequence of terms.
pub open spec fn term_views(terms: Seq<Term>) -> Seq<TermView> {
    terms.map_values(|t: Term| t@)
}

/// Reads the terms of a line.
pub fn terms(input: &str) -> (read: Vec<Term>)
    ensures
        term_views(read@) == line_terms(input@),
{
    let mut read: Vec<Term> = Vec::new();
    let mut operator = Operator::Eqq;
    let mut value: Vec<char> = Vec::new();
    assert(term_views(read@) + line_terms(input@) =~= line_terms(input@));
    for x in it: input.chars()
        invariant
            it.seq() == input@,
            line_terms(input@) == term_views(read@) + terms_from(
                input@,
                it.index() as int,
                operator,
                value@,
            ),
    {
        let ghost before = read@;
        let ghost at = it.index() as int;
        if x == ' ' {
        } else if _is_operator(x) {
            let ghost rest = terms_from(input@, at + 1, spec_get_operator(x), Seq::empty());
            let ghost term = TermView { operator, number: value@ };
            read.push(Term { operator, number: value });
            operator = _get_operator(x);
            value = Vec::new();
            proof {
                assert(term_views(read@) =~= term_views(before).push(term));
                assert(term_views(before) + (seq![term] + rest) =~= term_views(before).push(term)
                    + rest);
            }
        } else {
            value.push(x);
        }
    }
    if value.len() > 0 {
        let ghost before = read@;
        let ghost term = TermView { operator, number: value@ };
        read.push(Term { operator, number: value });
        assert(term_views(read@) =~= term_views(before).push(term));
        assert(term_views(before) + seq![term] =~= term_views(before).push(term));
    } else {
        assert(term_views(read@) + Seq::<TermView>::empty() =~= term_views(read@));
    }
    read
}

} // verus!
