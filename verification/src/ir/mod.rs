//! The intermediate representation: functions made of basic blocks.

use vstd::prelude::*;

pub mod builder;

verus! {

/// The type of a parameter or of a variable.
#[derive(Debug, Clone, Copy, PartialEq, Eq, Structural)]
pub enum Type {
    Unit,
    Int,
    Boolean,
}

/// A basic block, named by its position in its function.
#[derive(Debug, Clone, Copy, PartialEq, Eq, Hash, Structural)]
pub struct BB(pub usize);

/// A storage slot of a function, named by its position among the
/// function's variables.
#[derive(Debug, Clone, Copy, PartialEq, Eq, Hash, Structural)]
pub struct Variable(pub u32);

/// The result of one operation. A function numbers its values from zero in
/// the order in which they are produced.
#[derive(Debug, Clone, Copy, PartialEq, Eq, Hash, Structural)]
pub struct Value(pub u32);

/// What a statement does. An operation reads values and variables, and
/// all but a store produce a value.
#[derive(Debug, Clone, Copy, PartialEq, Eq, Structural)]
pub enum Operation {
    BinaryAdd(Value, Value),
    BinarySub(Value, Value),
    BinaryMul(Value, Value),
    BinaryDivide(Value, Value),
    LoadImmediate(i32),
    LoadParam(usize),
    LoadVariable(Variable),
    StoreVariable(Variable, Value),
}

/// An operation, with the value it produces if it produces one.
#[derive(Debug, Clone, Copy, PartialEq, Eq, Structural)]
pub enum Statement {
    WithDestination(Value, Operation),
    Operation(Operation),
}

/// What ends a basic block.
#[derive(Debug, Clone, Copy, PartialEq, Eq, Structural)]
pub enum Terminator {
    Return(Value),
}

/// A run of statements with the terminator that ends it.
#[derive(Debug, Clone)]
pub struct BasicBlock {
    pub statements: Vec<Statement>,
    pub terminator: Terminator,
}

/// A function: the types of its parameters and variables, and its
/// blocks. Execution starts in the first block.
#[derive(Debug, Clone)]
pub struct Function {
    pub name: String,
    pub params: Vec<Type>,
    pub variables: Vec<Type>,
    pub basic_blocks: Vec<BasicBlock>,
}

/// The functions of a program, in the order of their declarations.
#[derive(Debug, Clone)]
pub struct Module {
    pub functions: Vec<Function>,
}

/// A basic block as a plain value.
pub struct BlockView {
    pub statements: Seq<Statement>,
    pub terminator: Terminator,
}

/// A function as a plain value.
pub struct FunctionView {
    pub name: Seq<char>,
    pub params: Seq<Type>,
    pub variables: Seq<Type>,
    pub blocks: Seq<BlockView>,
}

impl View for Value {
    type V = Value;

    open spec fn view(&self) -> Value {
        *self
    }
}

impl View for BasicBlock {
    type V = BlockView;

    open spec fn view(&self) -> BlockView {
        BlockView { statements: self.statements@, terminator: self.terminator }
    }
}

impl View for Function {
    type V = FunctionView;

    open spec fn view(&self) -> FunctionView {
        FunctionView {
            name: self.name@,
            params: self.params@,
            variables: self.variables@,
            blocks: Seq::new(self.basic_blocks@.len(), |i: int| self.basic_blocks@[i]@),
        }
    }
}

impl View for Module {
    type V = Seq<FunctionView>;

    open spec fn view(&self) -> Seq<FunctionView> {
        Seq::new(self.functions@.len(), |i: int| self.functions@[i]@)
    }
}

/// The value that a statement produces, if it produces one.
pub open spec fn destination(statement: Statement) -> Option<Value> {
    match statement {
        Statement::WithDestination(value, _) => Some(value),
        Statement::Operation(_) => None,
    }
}

/// The values of a function are numbered without reuse: each number
/// produced is below `next`, no number is produced twice, and within a
/// block the numbers rise in the order of the statements.
pub open spec fn well_numbered(blocks: Seq<Seq<Statement>>, next: nat) -> bool {
    &&& forall|b: int, i: int|
        0 <= b < blocks.len() && 0 <= i < blocks[b].len() ==> (#[trigger] destination(
            blocks[b][i],
        ) matches Some(value) ==> value.0 < next)
    &&& forall|b: int, i: int, c: int, j: int|
        0 <= b < blocks.len() && 0 <= i < blocks[b].len() && 0 <= c < blocks.len() && 0 <= j
            < blocks[c].len() && destination(blocks[b][i]).is_some() && #[trigger] destination(
            blocks[b][i],
        ) == #[trigger] destination(blocks[c][j]) ==> b == c && i == j
    &&& forall|b: int, i: int, j: int|
        0 <= b < blocks.len() && 0 <= i < j < blocks[b].len() ==> (#[trigger] destination(
            blocks[b][i],
        ) matches Some(earlier) ==> (#[trigger] destination(blocks[b][j]) matches Some(later)
            ==> earlier.0 < later.0))
}

/// A numbering stays in order when a block gets a statement that produces
/// the next unused number, or one that produces nothing.
pub proof fn lemma_well_numbered_append(
    blocks: Seq<Seq<Statement>>,
    next: nat,
    block: int,
    statement: Statement,
)
    requires
        well_numbered(blocks, next),
        0 <= block < blocks.len(),
        destination(statement) matches Some(value) ==> value.0 == next,
    ensures
        well_numbered(
            blocks.update(block, blocks[block].push(statement)),
            if destination(statement).is_some() {
                next + 1
            } else {
                next
            },
        ),
{
    let after = blocks.update(block, blocks[block].push(statement));
    let bound = if destination(statement).is_some() {
        next + 1
    } else {
        next
    };
    assert forall|b: int, i: int| 0 <= b < after.len() && 0 <= i < after[b].len() implies (
    #[trigger] destination(after[b][i]) matches Some(value) ==> value.0 < bound) by {
        if b == block && i == blocks[block].len() {
        } else {
            assert(after[b][i] == blocks[b][i]);
            assert(destination(blocks[b][i]) matches Some(value) ==> value.0 < next);
        }
    }
    assert forall|b: int, i: int, c: int, j: int|
        0 <= b < after.len() && 0 <= i < after[b].len() && 0 <= c < after.len() && 0 <= j
            < after[c].len() && destination(after[b][i]).is_some() && #[trigger] destination(
            after[b][i],
        ) == #[trigger] destination(after[c][j]) implies b == c && i == j by {
        let first_is_new = b == block && i == blocks[block].len();
        let second_is_new = c == block && j == blocks[block].len();
        if !first_is_new {
            assert(after[b][i] == blocks[b][i]);
            assert(destination(blocks[b][i]) matches Some(value) ==> value.0 < next);
        }
        if !second_is_new {
            assert(after[c][j] == blocks[c][j]);
            assert(destination(blocks[c][j]) matches Some(value) ==> value.0 < next);
        }
        if !first_is_new && !second_is_new {
            assert(destination(blocks[b][i]) == destination(blocks[c][j]));
        }
    }
    assert forall|b: int, i: int, j: int| 0 <= b < after.len() && 0 <= i < j < after[b].len()
        implies (#[trigger] destination(after[b][i]) matches Some(earlier) ==> (
    #[trigger] destination(after[b][j]) matches Some(later) ==> earlier.0 < later.0)) by {
        assert(after[b][i] == blocks[b][i]);
        assert(destination(blocks[b][i]) matches Some(value) ==> value.0 < next);
        if b == block && j == blocks[block].len() {
        } else {
            assert(after[b][j] == blocks[b][j]);
            assert(destination(blocks[b][i]) matches Some(earlier) ==> (destination(
                blocks[b][j],
            ) matches Some(later) ==> earlier.0 < later.0));
        }
    }
}

/// A numbering stays in order when an empty block is added.
pub proof fn lemma_well_numbered_new_block(blocks: Seq<Seq<Statement>>, next: nat)
    requires
        well_numbered(blocks, next),
    ensures
        well_numbered(blocks.push(Seq::empty()), next),
{
    let after = blocks.push(Seq::<Statement>::empty());
    assert forall|b: int, i: int| 0 <= b < after.len() && 0 <= i < after[b].len() implies (
    #[trigger] destination(after[b][i]) matches Some(value) ==> value.0 < next) by {
        assert(after[b][i] == blocks[b][i]);
        assert(destination(blocks[b][i]) matches Some(value) ==> value.0 < next);
    }
    assert forall|b: int, i: int, c: int, j: int|
        0 <= b < after.len() && 0 <= i < after[b].len() && 0 <= c < after.len() && 0 <= j
            < after[c].len() && destination(after[b][i]).is_some() && #[trigger] destination(
            after[b][i],
        ) == #[trigger] destination(after[c][j]) implies b == c && i == j by {
        assert(after[b][i] == blocks[b][i]);
        assert(after[c][j] == blocks[c][j]);
        assert(destination(blocks[b][i]) == destination(blocks[c][j]));
    }
    assert forall|b: int, i: int, j: int| 0 <= b < after.len() && 0 <= i < j < after[b].len()
        implies (#[trigger] destination(after[b][i]) matches Some(earlier) ==> (
    #[trigger] destination(after[b][j]) matches Some(later) ==> earlier.0 < later.0)) by {
        assert(after[b][i] == blocks[b][i]);
        assert(after[b][j] == blocks[b][j]);
        assert(destination(blocks[b][i]) matches Some(earlier) ==> (destination(
            blocks[b][j],
        ) matches Some(later) ==> earlier.0 < later.0));
    }
}

/// The number of values that the first `count` statements of a block
/// produce.
pub open spec fn values_among(statements: Seq<Statement>, count: nat) -> nat
    decreases count,
{
    if count == 0 {
        0
    } else if destination(statements[count - 1]).is_some() {
        values_among(statements, (count - 1) as nat) + 1
    } else {
        values_among(statements, (count - 1) as nat)
    }
}

/// The values of a block are numbered from zero without gaps, in the order
/// of the statements that produce them.
pub open spec fn densely_numbered(statements: Seq<Statement>) -> bool {
    forall|i: int|
        0 <= i < statements.len() ==> (#[trigger] destination(statements[i]) matches Some(value)
            ==> value.0 == values_among(statements, i as nat))
}

/// One more statement at the end changes nothing for those before it.
pub proof fn lemma_values_among_push(statements: Seq<Statement>, statement: Statement, count: nat)
    requires
        count <= statements.len(),
    ensures
        values_among(statements.push(statement), count) == values_among(statements, count),
    decreases count,
{
    if count > 0 {
        lemma_values_among_push(statements, statement, (count - 1) as nat);
        assert(statements.push(statement)[count - 1] == statements[count - 1]);
    }
}

/// A block stays densely numbered when it gets a statement that produces
/// the value of the next number, or one that produces nothing.
pub proof fn lemma_densely_numbered_push(statements: Seq<Statement>, statement: Statement)
    requires
        densely_numbered(statements),
        destination(statement) matches Some(value) ==> value.0 == values_among(
            statements,
            statements.len(),
        ),
    ensures
        densely_numbered(statements.push(statement)),
        values_among(statements.push(statement), statements.len() + 1) == values_among(
            statements,
            statements.len(),
        ) + if destination(statement).is_some() {
            1nat
        } else {
            0nat
        },
{
    let longer = statements.push(statement);
    lemma_values_among_push(statements, statement, statements.len());
    assert forall|i: int| 0 <= i < longer.len() implies (#[trigger] destination(
        longer[i],
    ) matches Some(value) ==> value.0 == values_among(longer, i as nat)) by {
        lemma_values_among_push(statements, statement, i as nat);
        if i < statements.len() {
            assert(longer[i] == statements[i]);
            assert(destination(statements[i]) matches Some(value) ==> value.0 == values_among(
                statements,
                i as nat,
            ));
        }
    }
}

impl FunctionView {
    /// The statements of the function, block by block.
    pub open spec fn statements(self) -> Seq<Seq<Statement>> {
        Seq::new(self.blocks.len(), |b: int| self.blocks[b].statements)
    }
}

} // verus!
