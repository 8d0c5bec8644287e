//! Groupings of a chain of operands and operators, and the test that tells
//! the grouping by precedence from every other.

use vstd::prelude::*;
use vstd::string::*;

use super::climber::{climbable, climbed, table_view, Associativity};
use super::meaning::{operands, operator_of, operators, term_meaning};
use super::precedence::{combine, lemma_combine_joins, tier};
use super::shape::{is_expression, is_operator, ParseNode, Rule};
use crate::ast::tree::ExpressionTree;

verus! {

/// A grouping of a chain: an operand, or an operator applied to the
/// groupings on its two sides. Operands and operators stand in it by
/// their positions in the chain.
#[derive(Debug)]
pub enum Grouping {
    Operand(usize),
    Applied { operator: usize, lhs: Box<Grouping>, rhs: Box<Grouping> },
}

/// A tier above the tier of every operator.
pub open spec fn top_tier() -> nat {
    2
}

impl Grouping {
    /// The grouping that holds one operand.
    pub fn operand(position: usize) -> (grouping: Grouping)
        ensures
            grouping == Grouping::Operand(position),
    {
        Grouping::Operand(position)
    }

    /// The grouping that applies an operator to two groupings.
    pub fn applied(lhs: Grouping, operator: usize, rhs: Grouping) -> (grouping: Grouping)
        ensures
            grouping == (Grouping::Applied { operator, lhs: Box::new(lhs), rhs: Box::new(rhs) }),
    {
        Grouping::Applied { operator, lhs: Box::new(lhs), rhs: Box::new(rhs) }
    }

    /// The position of the leftmost operand.
    pub open spec fn first(self) -> int
        decreases self,
    {
        match self {
            Grouping::Operand(position) => position as int,
            Grouping::Applied { operator, lhs, rhs } => lhs.first(),
        }
    }

    /// The position of the rightmost operand.
    pub open spec fn last(self) -> int
        decreases self,
    {
        match self {
            Grouping::Operand(position) => position as int,
            Grouping::Applied { operator, lhs, rhs } => rhs.last(),
        }
    }

    /// The lowest tier among the operators of the grouping, or the top
    /// tier if it has none.
    pub open spec fn lowest(self, node: ParseNode) -> nat
        decreases self,
    {
        match self {
            Grouping::Operand(position) => top_tier(),
            Grouping::Applied { operator, lhs, rhs } => {
                let own = tier(operator_of(node.children@[operator as int].rule));
                let left = lhs.lowest(node);
                let right = rhs.lowest(node);
                if own <= left && own <= right {
                    own
                } else if left <= right {
                    left
                } else {
                    right
                }
            },
        }
    }

    /// The grouping reads a stretch of the chain of `node` by precedence:
    /// every operator stands between what it is applied to, has no
    /// operator of a lower tier on its left, and only operators of a
    /// higher tier on its right.
    pub open spec fn sound(self, node: ParseNode) -> bool
        decreases self,
    {
        match self {
            Grouping::Operand(position) => position < node.children@.len() && position % 2 == 0,
            Grouping::Applied { operator, lhs, rhs } => {
                &&& operator < node.children@.len()
                &&& operator % 2 == 1
                &&& lhs.sound(node)
                &&& rhs.sound(node)
                &&& lhs.last() + 1 == operator
                &&& rhs.first() == operator + 1
                &&& lhs.lowest(node) >= tier(operator_of(node.children@[operator as int].rule))
                &&& rhs.lowest(node) > tier(operator_of(node.children@[operator as int].rule))
            },
        }
    }

    /// The grouping reads the whole chain of `node` by precedence.
    pub open spec fn reads_chain(self, node: ParseNode) -> bool {
        &&& self.sound(node)
        &&& self.first() == 0
        &&& self.last() == node.children@.len() - 1
    }

    /// The tree that the grouping makes of the operands of `node`.
    pub open spec fn tree(self, node: ParseNode) -> ExpressionTree
        decreases self,
    {
        match self {
            Grouping::Operand(position) => term_meaning(node.children@[position as int]),
            Grouping::Applied { operator, lhs, rhs } => ExpressionTree::BinOp {
                op: operator_of(node.children@[operator as int].rule),
                lhs: Box::new(lhs.tree(node)),
                rhs: Box::new(rhs.tree(node)),
            },
        }
    }
}

/// A sound grouping reads a stretch of the chain from one operand to
/// another, and no operator in the stretch is of a lower tier than its
/// lowest.
pub proof fn lemma_sound_stretch(grouping: Grouping, node: ParseNode)
    requires
        is_expression(node),
        grouping.sound(node),
    ensures
        0 <= grouping.first() <= grouping.last() < node.children@.len(),
        grouping.first() % 2 == 0,
        grouping.last() % 2 == 0,
        grouping.lowest(node) <= top_tier(),
        forall|j: int|
            grouping.first() / 2 <= j < grouping.last() / 2 ==> tier(
                #[trigger] operators(node)[j],
            ) >= grouping.lowest(node),
    decreases grouping,
{
    match grouping {
        Grouping::Operand(position) => {},
        Grouping::Applied { operator, lhs, rhs } => {
            lemma_sound_stretch(*lhs, node);
            lemma_sound_stretch(*rhs, node);
            assert(operators(node)[(operator - 1) / 2] == operator_of(
                node.children@[operator as int].rule,
            ));
            assert forall|j: int| grouping.first() / 2 <= j < grouping.last() / 2 implies tier(
                #[trigger] operators(node)[j],
            ) >= grouping.lowest(node) by {
                if j < (operator - 1) / 2 {
                    assert(lhs.first() / 2 <= j < lhs.last() / 2);
                } else if j > (operator - 1) / 2 {
                    assert(rhs.first() / 2 <= j < rhs.last() / 2);
                }
            }
        },
    }
}

/// The tree of a sound grouping is the tree by precedence of the stretch
/// that the grouping reads.
pub proof fn lemma_sound_tree(grouping: Grouping, node: ParseNode)
    requires
        is_expression(node),
        grouping.sound(node),
    ensures
        grouping.tree(node) == combine(
            operands(node).subrange(grouping.first() / 2, grouping.last() / 2 + 1),
            operators(node).subrange(grouping.first() / 2, grouping.last() / 2),
        ),
    decreases grouping,
{
    lemma_sound_stretch(grouping, node);
    match grouping {
        Grouping::Operand(position) => {
            let at = position as int / 2;
            assert(operands(node).subrange(at, at + 1) =~= seq![operands(node)[at]]);
            assert(operators(node).subrange(at, at) =~= Seq::empty());
        },
        Grouping::Applied { operator, lhs, rhs } => {
            lemma_sound_tree(*lhs, node);
            lemma_sound_tree(*rhs, node);
            lemma_sound_stretch(*lhs, node);
            lemma_sound_stretch(*rhs, node);
            let at = (operator - 1) / 2;
            assert(operators(node)[at] == operator_of(node.children@[operator as int].rule));
            assert(lhs.last() / 2 == at);
            assert(rhs.first() / 2 == at + 1);
            lemma_combine_joins(
                operands(node),
                operators(node),
                lhs.first() / 2,
                at,
                rhs.last() / 2,
            );
        },
    }
}

/// The precedence of the operators: sums and differences in the lower
/// tier, products and quotients in the higher, all grouping to the left.
pub open spec fn precedence_table() -> Seq<Seq<(Rule, Associativity)>> {
    seq![
        seq![(Rule::plus, Associativity::Left), (Rule::minus, Associativity::Left)],
        seq![(Rule::star, Associativity::Left), (Rule::slash, Associativity::Left)],
    ]
}

/// The tokens of the chain of `node`: the tag of each node of the chain,
/// with a span of length one at the position of the node.
pub open spec fn chain_tokens(node: ParseNode) -> Seq<(Rule, usize, usize)> {
    Seq::new(
        node.children@.len(),
        |i: int| (node.children@[i].rule, i as usize, (i + 1) as usize),
    )
}

/// The climber groups the whole chain of `node` by precedence.
pub open spec fn accepted(node: ParseNode) -> bool {
    climbed(precedence_table(), chain_tokens(node)).reads_chain(node)
}

/// A grouping that reads the whole chain by precedence makes of the
/// operands the tree that the precedence of the operators prescribes.
pub proof fn lemma_grouping_by_precedence(grouping: Grouping, node: ParseNode)
    requires
        is_expression(node),
        grouping.reads_chain(node),
    ensures
        grouping.tree(node) == combine(operands(node), operators(node)),
{
    lemma_sound_stretch(grouping, node);
    lemma_sound_tree(grouping, node);
    assert(operands(node).subrange(0, grouping.last() / 2 + 1) =~= operands(node));
    assert(operators(node).subrange(0, grouping.last() / 2) =~= operators(node));
}

/// The precedence table.
pub fn make_precedence_table() -> (table: Vec<Vec<(Rule, Associativity)>>)
    ensures
        table_view(table@) == precedence_table(),
{
    let mut lower: Vec<(Rule, Associativity)> = Vec::new();
    lower.push((Rule::plus, Associativity::Left));
    lower.push((Rule::minus, Associativity::Left));
    let mut higher: Vec<(Rule, Associativity)> = Vec::new();
    higher.push((Rule::star, Associativity::Left));
    higher.push((Rule::slash, Associativity::Left));
    let mut table: Vec<Vec<(Rule, Associativity)>> = Vec::new();
    table.push(lower);
    table.push(higher);
    proof {
        assert(table_view(table@)[0] =~= precedence_table()[0]);
        assert(table_view(table@)[1] =~= precedence_table()[1]);
        assert(table_view(table@) =~= precedence_table());
    }
    table
}

/// A text of `length` full stops.
pub open spec fn chain_text(length: nat) -> Seq<char> {
    Seq::new(length, |i: int| '.')
}

/// Every operator stands in the tier of the table that is its own, and
/// groups to the left.
pub proof fn lemma_table_holds_tiers(rule: Rule)
    requires
        is_operator(rule),
    ensures
        precedence_table()[tier(operator_of(rule)) as int].contains((rule, Associativity::Left)),
{
    let row = precedence_table()[tier(operator_of(rule)) as int];
    if rule == Rule::plus || rule == Rule::star {
        assert(row[0] == (rule, Associativity::Left));
    } else {
        assert(row[1] == (rule, Associativity::Left));
    }
}

/// The tokens of the chain of `node`, and a text that their spans lie in:
/// one full stop for each token.
pub fn make_chain_tokens(node: &ParseNode) -> (chain: (String, Vec<(Rule, usize, usize)>))
    requires
        is_expression(*node),
    ensures
        chain.0@ == chain_text(node.children@.len()),
        chain.1@ == chain_tokens(*node),
        climbable(precedence_table(), chain.0@, chain.1@),
{
    let mut text = String::new();
    let mut tokens: Vec<(Rule, usize, usize)> = Vec::new();
    let count = node.children.len();
    let mut i: usize = 0;
    proof {
        reveal_strlit(".");
    }
    while i < count
        invariant
            count == node.children@.len(),
            0 <= i <= count,
            "."@ == seq!['.'],
            text@.len() == i,
            forall|j: int| 0 <= j < i ==> text@[j] == '.',
            tokens@ == chain_tokens(*node).take(i as int),
        decreases count - i,
    {
        text.append(".");
        tokens.push((node.children[i].rule, i, i + 1));
        proof {
            assert(tokens@ =~= chain_tokens(*node).take(i + 1));
        }
        i += 1;
    }
    assert(chain_tokens(*node).take(count as int) =~= chain_tokens(*node));
    assert(text@ =~= chain_text(count as nat));
    (text, tokens)
}

} // verus!
