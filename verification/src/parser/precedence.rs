//! Operator precedence: which tree a run of operands and operators stands
//! for.

use vstd::prelude::*;

use crate::ast::tree::ExpressionTree;
use crate::ast::BinOp;

verus! {

/// The precedence tier of an operator. A higher tier binds tighter.
pub open spec fn tier(op: BinOp) -> nat {
    match op {
        BinOp::Add => 0,
        BinOp::Sub => 0,
        BinOp::Mul => 1,
        BinOp::Divide => 1,
    }
}

/// The precedence tier of an operator.
pub fn tier_of(op: BinOp) -> (t: u8)
    ensures
        t == tier(op),
{
    match op {
        BinOp::Add => 0,
        BinOp::Sub => 0,
        BinOp::Mul => 1,
        BinOp::Divide => 1,
    }
}

/// The position of the operator that is applied last: of the operators
/// of the lowest tier, the one that stands last.
pub open spec fn root_position(operators: Seq<BinOp>) -> int
    decreases operators.len(),
{
    if operators.len() <= 1 {
        0
    } else {
        let earlier = root_position(operators.drop_last());
        if tier(operators.last()) <= tier(operators[earlier]) {
            operators.len() - 1
        } else {
            earlier
        }
    }
}

/// The tree of a run of operands with one operator between each two. The
/// operator at the root position is applied to what stands on its left and
/// what stands on its right, each read in the same way. All operators
/// associate to the left.
pub open spec fn combine(operands: Seq<ExpressionTree>, operators: Seq<BinOp>) -> ExpressionTree
    decreases operators.len(),
{
    if operands.len() != operators.len() + 1 {
        ExpressionTree::Missing
    } else if operators.len() == 0 {
        operands[0]
    } else {
        let root = root_position(operators);
        if 0 <= root < operators.len() {
            ExpressionTree::BinOp {
                op: operators[root],
                lhs: Box::new(combine(operands.take(root + 1), operators.take(root))),
                rhs: Box::new(combine(operands.skip(root + 1), operators.skip(root + 1))),
            }
        } else {
            ExpressionTree::Missing
        }
    }
}

/// The root position is a position of the run.
pub proof fn lemma_root_position_in_range(operators: Seq<BinOp>)
    requires
        operators.len() > 0,
    ensures
        0 <= root_position(operators) < operators.len(),
    decreases operators.len(),
{
    if operators.len() > 1 {
        lemma_root_position_in_range(operators.drop_last());
    }
}

/// An operator is at the root position if none before it is of a lower
/// tier and all after it are of a higher tier.
pub proof fn lemma_root_position_is(operators: Seq<BinOp>, position: int)
    requires
        0 <= position < operators.len(),
        forall|j: int| 0 <= j < position ==> tier(#[trigger] operators[j]) >= tier(operators[position]),
        forall|j: int|
            position < j < operators.len() ==> tier(#[trigger] operators[j]) > tier(
                operators[position],
            ),
    ensures
        root_position(operators) == position,
    decreases operators.len(),
{
    if operators.len() > 1 {
        let shorter = operators.drop_last();
        lemma_root_position_in_range(shorter);
        if position == operators.len() - 1 {
            let earlier = root_position(shorter);
            assert(shorter[earlier] == operators[earlier]);
        } else {
            assert forall|j: int| 0 <= j < position implies tier(#[trigger] shorter[j]) >= tier(
                shorter[position],
            ) by {
                assert(shorter[j] == operators[j]);
            }
            assert forall|j: int| position < j < shorter.len() implies tier(#[trigger] shorter[j])
                > tier(shorter[position]) by {
                assert(shorter[j] == operators[j]);
            }
            lemma_root_position_is(shorter, position);
            assert(tier(operators[operators.len() - 1]) > tier(operators[position]));
        }
    }
}

/// The tree of a run splits at an operator that has none of a lower tier
/// before it and only operators of a higher tier after it.
pub proof fn lemma_combine_splits(
    operands: Seq<ExpressionTree>,
    operators: Seq<BinOp>,
    position: int,
)
    requires
        operands.len() == operators.len() + 1,
        0 <= position < operators.len(),
        forall|j: int| 0 <= j < position ==> tier(#[trigger] operators[j]) >= tier(operators[position]),
        forall|j: int|
            position < j < operators.len() ==> tier(#[trigger] operators[j]) > tier(
                operators[position],
            ),
    ensures
        combine(operands, operators) == (ExpressionTree::BinOp {
            op: operators[position],
            lhs: Box::new(combine(operands.take(position + 1), operators.take(position))),
            rhs: Box::new(combine(operands.skip(position + 1), operators.skip(position + 1))),
        }),
{
    lemma_root_position_is(operators, position);
}

/// Within a longer run, the operands from `first` to `end` split at the
/// operator at `last` if none from `first` on before it is of a lower
/// tier and all after it up to `end` are of a higher tier.
pub proof fn lemma_combine_joins(
    operands: Seq<ExpressionTree>,
    operators: Seq<BinOp>,
    first: int,
    last: int,
    end: int,
)
    requires
        operands.len() == operators.len() + 1,
        0 <= first <= last < end <= operators.len(),
        forall|j: int| first <= j < last ==> tier(#[trigger] operators[j]) >= tier(operators[last]),
        forall|j: int| last < j < end ==> tier(#[trigger] operators[j]) > tier(operators[last]),
    ensures
        combine(operands.subrange(first, end + 1), operators.subrange(first, end)) == (
        ExpressionTree::BinOp {
            op: operators[last],
            lhs: Box::new(
                combine(operands.subrange(first, last + 1), operators.subrange(first, last)),
            ),
            rhs: Box::new(
                combine(operands.subrange(last + 1, end + 1), operators.subrange(last + 1, end)),
            ),
        }),
{
    let window_operands = operands.subrange(first, end + 1);
    let window_operators = operators.subrange(first, end);
    let position = last - first;
    assert(window_operands.take(position + 1) =~= operands.subrange(first, last + 1));
    assert(window_operators.take(position) =~= operators.subrange(first, last));
    assert(window_operands.skip(position + 1) =~= operands.subrange(last + 1, end + 1));
    assert(window_operators.skip(position + 1) =~= operators.subrange(last + 1, end));
    assert forall|j: int| 0 <= j < position implies tier(#[trigger] window_operators[j]) >= tier(
        window_operators[position],
    ) by {
        assert(window_operators[j] == operators[first + j]);
    }
    assert forall|j: int| position < j < window_operators.len() implies tier(
        #[trigger] window_operators[j],
    ) > tier(window_operators[position]) by {
        assert(window_operators[j] == operators[first + j]);
    }
    lemma_combine_splits(window_operands, window_operators, position);
}

} // verus!
