//! The precedence climber of the `pest` crate, which groups a chain of
//! operands and operators.
//!
//! Nothing in this file is proved. The grouping that the climber returns
//! has a name here, and no more is said of it: the converter tests every
//! grouping against the precedence of the operators before it builds on it.

use pest::iterators::PairsBuilder;
use pest::prec_climber::{Assoc, Operator, PrecClimber};
use vstd::prelude::*;
use vstd::utf8::is_ascii_chars;

use super::grouping::Grouping;
use super::shape::Rule;

verus! {

/// The side to which operators of one tier group.
#[derive(Debug, Clone, Copy, PartialEq, Eq, Structural)]
pub enum Associativity {
    Left,
    Right,
}

/// A precedence table as a plain value: the tiers from the lowest up, each
/// with its operators.
pub open spec fn table_view(table: Seq<Vec<(Rule, Associativity)>>) -> Seq<
    Seq<(Rule, Associativity)>,
> {
    Seq::new(table.len(), |t: int| table[t]@)
}

/// What the climber can be called on: a table without an empty tier, and
/// an odd number of tokens, each with a span that lies in a text of ASCII
/// characters.
pub open spec fn climbable(
    table: Seq<Seq<(Rule, Associativity)>>,
    text: Seq<char>,
    tokens: Seq<(Rule, usize, usize)>,
) -> bool {
    &&& forall|t: int| 0 <= t < table.len() ==> (#[trigger] table[t]).len() > 0
    &&& tokens.len() % 2 == 1
    &&& is_ascii_chars(text)
    &&& forall|i: int|
        0 <= i < tokens.len() ==> (#[trigger] tokens[i]).1 <= tokens[i].2 <= text.len()
}

/// The grouping that the climber makes of a chain of tokens under a
/// precedence table. An operand stands in it by the start of its span,
/// and so does an operator.
pub uninterp spec fn climbed(
    table: Seq<Seq<(Rule, Associativity)>>,
    tokens: Seq<(Rule, usize, usize)>,
) -> Grouping;

/// `PrecClimber::new` on the table, then `PrecClimber::climb` on the
/// tokens, which `PairsBuilder` turns into pairs. The climber reads the
/// first token and every token after an operator as an operand, so it
/// does not run out of tokens when their number is odd. What it returns
/// depends on the table, the tags and the spans alone.
#[verifier::external_body]
pub(crate) fn climb(
    table: &Vec<Vec<(Rule, Associativity)>>,
    text: &str,
    tokens: &Vec<(Rule, usize, usize)>,
) -> (grouping: Grouping)
    requires
        climbable(table_view(table@), text@, tokens@),
    ensures
        grouping == climbed(table_view(table@), tokens@),
{
    let operator = |e: &(_, _)| Operator::new(e.0, match e.1 {
        Associativity::Left => Assoc::Left,
        Associativity::Right => Assoc::Right,
    });
    let tiers = table.iter().map(|t| t.iter().map(operator).reduce(|a, b| a | b).unwrap());
    let pairs = tokens.iter().fold(PairsBuilder::new(text), |b, t| b.rule(t.0, t.1, t.2));
    PrecClimber::new(tiers.collect()).climb(
        pairs.build(),
        |operand| Grouping::operand(operand.as_span().start()),
        |lhs, operator, rhs| Grouping::applied(lhs, operator.as_span().start(), rhs),
    )
}

} // verus!
