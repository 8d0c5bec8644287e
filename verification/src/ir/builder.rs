//! Building one function of the intermediate representation, step by step.

use vstd::prelude::*;

use super::{
    lemma_well_numbered_append, lemma_well_numbered_new_block, well_numbered, BasicBlock, BlockView, Function, FunctionView, Operation, Statement,
    Terminator, Type, Value, Variable, BB,
};

verus! {

/// A basic block under construction: its terminator may still be missing.
#[derive(Debug, Clone)]
pub struct PreBasicBlock {
    statements: Vec<Statement>,
    terminator: Option<Terminator>,
}

/// A basic block under construction as a plain value.
pub struct PreBlockView {
    pub statements: Seq<Statement>,
    pub terminator: Option<Terminator>,
}

impl View for PreBasicBlock {
    type V = PreBlockView;

    closed spec fn view(&self) -> PreBlockView {
        PreBlockView { statements: self.statements@, terminator: self.terminator }
    }
}

impl PreBlockView {
    /// A block that holds nothing yet.
    pub open spec fn empty() -> PreBlockView {
        PreBlockView { statements: Seq::empty(), terminator: None }
    }

    /// The finished block, for a block that has its terminator.
    pub open spec fn sealed(self) -> BlockView {
        BlockView { statements: self.statements, terminator: self.terminator.unwrap() }
    }
}

/// Builds one function. Blocks are named by position; statements and the
/// terminator go to the block that was last switched to, at first the
/// entry block.
#[derive(Debug, Clone)]
pub struct FunctionBuilder {
    name: String,
    params: Vec<Type>,
    variables: Vec<Type>,
    bbs: Vec<PreBasicBlock>,
    current_bb: BB,
    value_counter: u32,
}

/// A function under construction as a plain value.
pub struct BuilderView {
    pub name: Seq<char>,
    pub params: Seq<Type>,
    pub variables: Seq<Type>,
    pub blocks: Seq<PreBlockView>,
    pub current: BB,
    pub next_value: u32,
}

impl BuilderView {
    /// The state of a builder that has just been made.
    pub open spec fn fresh(name: Seq<char>, params: Seq<Type>) -> BuilderView {
        BuilderView {
            name,
            params,
            variables: Seq::empty(),
            blocks: seq![PreBlockView::empty()],
            current: BB(0),
            next_value: 0,
        }
    }

    /// The block that statements go to exists.
    pub open spec fn current_exists(self) -> bool {
        self.current.0 < self.blocks.len()
    }

    /// The block that statements go to.
    pub open spec fn current_block(self) -> PreBlockView {
        self.blocks[self.current.0 as int]
    }

    /// This state with another block in place of the current one.
    pub open spec fn with_current_block(self, block: PreBlockView) -> BuilderView {
        BuilderView { blocks: self.blocks.update(self.current.0 as int, block), ..self }
    }

    /// This state with one more variable.
    pub open spec fn with_variable(self, ty: Type) -> BuilderView {
        BuilderView { variables: self.variables.push(ty), ..self }
    }

    /// This state with `terminator` as the terminator of the current
    /// block.
    pub open spec fn with_terminator(self, terminator: Terminator) -> BuilderView {
        self.with_current_block(
            PreBlockView { terminator: Some(terminator), ..self.current_block() },
        )
    }

    /// This state with one more statement in the current block.
    pub open spec fn with_statement(self, statement: Statement) -> BuilderView {
        self.with_current_block(
            PreBlockView {
                statements: self.current_block().statements.push(statement),
                ..self.current_block()
            },
        )
    }

    /// This state after an operation that produces the next unused value.
    pub open spec fn with_value_operation(self, operation: Operation) -> BuilderView {
        BuilderView {
            next_value: (self.next_value + 1) as u32,
            ..self.with_statement(Statement::WithDestination(Value(self.next_value), operation))
        }
    }

    /// This state after an operation that produces no value.
    pub open spec fn with_operation(self, operation: Operation) -> BuilderView {
        self.with_statement(Statement::Operation(operation))
    }

    /// Every block has its terminator.
    pub open spec fn all_terminated(self) -> bool {
        forall|b: int| 0 <= b < self.blocks.len() ==> (#[trigger] self.blocks[b]).terminator.is_some()
    }

    /// The statements so far, block by block.
    pub open spec fn statements(self) -> Seq<Seq<Statement>> {
        Seq::new(self.blocks.len(), |b: int| self.blocks[b].statements)
    }

    /// The values produced so far are numbered without reuse, below the
    /// next unused number.
    pub open spec fn well_formed(self) -> bool {
        well_numbered(self.statements(), self.next_value as nat)
    }

    /// The function that sealing gives.
    pub open spec fn sealed(self) -> FunctionView {
        FunctionView {
            name: self.name,
            params: self.params,
            variables: self.variables,
            blocks: Seq::new(self.blocks.len(), |b: int| self.blocks[b].sealed()),
        }
    }
}

/// Producing the next unused value keeps the values in order.
pub proof fn lemma_value_operation_keeps_order(state: BuilderView, operation: Operation)
    requires
        state.current_exists(),
        state.well_formed(),
        state.next_value < u32::MAX,
    ensures
        state.with_value_operation(operation).well_formed(),
{
    let statement = Statement::WithDestination(Value(state.next_value), operation);
    let before = state.statements();
    let block = state.current.0 as int;
    assert(state.with_value_operation(operation).statements() =~= before.update(
        block,
        before[block].push(statement),
    ));
    lemma_well_numbered_append(before, state.next_value as nat, block, statement);
}

/// An operation that produces no value keeps the values in order.
pub proof fn lemma_operation_keeps_order(state: BuilderView, operation: Operation)
    requires
        state.current_exists(),
        state.well_formed(),
    ensures
        state.with_operation(operation).well_formed(),
{
    let statement = Statement::Operation(operation);
    let before = state.statements();
    let block = state.current.0 as int;
    assert(state.with_operation(operation).statements() =~= before.update(
        block,
        before[block].push(statement),
    ));
    lemma_well_numbered_append(before, state.next_value as nat, block, statement);
}

/// A terminator changes no statement.
pub proof fn lemma_terminator_keeps_statements(state: BuilderView, terminator: Terminator)
    requires
        state.current_exists(),
    ensures
        state.with_terminator(terminator).statements() == state.statements(),
{
    assert(state.with_terminator(terminator).statements() =~= state.statements());
}

impl View for FunctionBuilder {
    type V = BuilderView;

    closed spec fn view(&self) -> BuilderView {
        BuilderView {
            name: self.name@,
            params: self.params@,
            variables: self.variables@,
            blocks: Seq::new(self.bbs@.len(), |b: int| self.bbs@[b]@),
            current: self.current_bb,
            next_value: self.value_counter,
        }
    }
}

impl FunctionBuilder {
    /// A builder for a function of the given name and parameter types. It
    /// has one block, the entry block, which is empty and current.
    pub fn new(name: String, params: Vec<Type>) -> (builder: Self)
        ensures
            builder@ == BuilderView::fresh(name@, params@),
            builder@.well_formed(),
    {
        let mut bbs: Vec<PreBasicBlock> = Vec::new();
        bbs.push(PreBasicBlock { statements: Vec::new(), terminator: None });
        let builder = FunctionBuilder {
            name,
            params,
            variables: Vec::new(),
            bbs,
            current_bb: BB(0),
            value_counter: 0,
        };
        assert(builder@.blocks =~= seq![PreBlockView::empty()]);
        builder
    }

    /// Adds a variable of the given type and returns it. Variables are
    /// numbered in the order in which they are added.
    pub fn create_variable(&mut self, ty: Type) -> (variable: Variable)
        requires
            old(self)@.variables.len() <= u32::MAX,
        ensures
            variable.0 == old(self)@.variables.len(),
            final(self)@ == old(self)@.with_variable(ty),
            old(self)@.well_formed() ==> final(self)@.well_formed(),
    {
        let index = self.variables.len();
        self.variables.push(ty);
        Variable(index as u32)
    }

    /// Adds a variable of the type of the parameter at `index`.
    pub fn create_variable_param(&mut self, index: usize) -> (variable: Variable)
        requires
            index < old(self)@.params.len(),
            old(self)@.variables.len() <= u32::MAX,
        ensures
            variable.0 == old(self)@.variables.len(),
            final(self)@ == old(self)@.with_variable(old(self)@.params[index as int]),
            old(self)@.well_formed() ==> final(self)@.well_formed(),
    {
        let ty = self.params[index];
        self.create_variable(ty)
    }

    /// Adds an empty block and returns it. The current block stays.
    pub fn create_new_bb(&mut self) -> (bb: BB)
        ensures
            bb.0 == old(self)@.blocks.len(),
            final(self)@ == (BuilderView {
                blocks: old(self)@.blocks.push(PreBlockView::empty()),
                ..old(self)@
            }),
            old(self)@.well_formed() ==> final(self)@.well_formed(),
    {
        let index = self.bbs.len();
        self.bbs.push(PreBasicBlock { statements: Vec::new(), terminator: None });
        proof {
            assert(self@.blocks =~= old(self)@.blocks.push(PreBlockView::empty()));
            assert(self@.statements() =~= old(self)@.statements().push(Seq::empty()));
            if old(self)@.well_formed() {
                lemma_well_numbered_new_block(
                    old(self)@.statements(),
                    old(self)@.next_value as nat,
                );
            }
        }
        BB(index)
    }

    /// Makes `bb` the current block. Whether such a block exists is not
    /// looked at.
    pub fn switch_to_bb(&mut self, bb: BB)
        ensures
            final(self)@ == (BuilderView { current: bb, ..old(self)@ }),
            old(self)@.well_formed() ==> final(self)@.well_formed(),
    {
        self.current_bb = bb;
    }

    /// Sets the terminator of the current block, in place of any it had.
    pub fn terminate_bb(&mut self, terminator: Terminator)
        requires
            old(self)@.current_exists(),
        ensures
            final(self)@ == old(self)@.with_terminator(terminator),
            old(self)@.well_formed() ==> final(self)@.well_formed(),
    {
        let current = self.current_bb.0;
        self.bbs[current].terminator = Some(terminator);
        proof {
            assert(self@.blocks =~= old(self)@.blocks.update(
                current as int,
                (PreBlockView { terminator: Some(terminator), ..old(self)@.current_block() }),
            ));
            lemma_terminator_keeps_statements(old(self)@, terminator);
        }
    }

    /// Appends an operation to the current block and returns the value it
    /// produces, which is the next unused one.
    pub fn append_value_operation(&mut self, operation: Operation) -> (value: Value)
        requires
            old(self)@.current_exists(),
            old(self)@.next_value < u32::MAX,
        ensures
            value.0 == old(self)@.next_value,
            final(self)@ == old(self)@.with_value_operation(operation),
            old(self)@.well_formed() ==> final(self)@.well_formed(),
    {
        let value = Value(self.value_counter);
        self.value_counter += 1;
        let current = self.current_bb.0;
        self.bbs[current].statements.push(Statement::WithDestination(value, operation));
        proof {
            assert(self@.blocks =~= old(self)@.blocks.update(
                current as int,
                (PreBlockView {
                    statements: old(self)@.current_block().statements.push(
                        Statement::WithDestination(value, operation),
                    ),
                    ..old(self)@.current_block()
                }),
            ));
            if old(self)@.well_formed() {
                lemma_value_operation_keeps_order(old(self)@, operation);
            }
        }
        value
    }

    /// Appends an operation that produces no value to the current block.
    pub fn append_no_value_operation(&mut self, operation: Operation)
        requires
            old(self)@.current_exists(),
        ensures
            final(self)@ == old(self)@.with_operation(operation),
            old(self)@.well_formed() ==> final(self)@.well_formed(),
    {
        let current = self.current_bb.0;
        self.bbs[current].statements.push(Statement::Operation(operation));
        proof {
            assert(self@.blocks =~= old(self)@.blocks.update(
                current as int,
                (PreBlockView {
                    statements: old(self)@.current_block().statements.push(
                        Statement::Operation(operation),
                    ),
                    ..old(self)@.current_block()
                }),
            ));
            if old(self)@.well_formed() {
                lemma_operation_keeps_order(old(self)@, operation);
            }
        }
    }

    /// The number of variables added so far.
    pub fn variable_count(&self) -> (count: usize)
        ensures
            count == self@.variables.len(),
    {
        self.variables.len()
    }

    /// The number of values produced so far, which is the number of the
    /// next one.
    pub fn value_count(&self) -> (count: u32)
        ensures
            count == self@.next_value,
    {
        self.value_counter
    }

    /// Whether every block has its terminator, so that the builder can be
    /// sealed.
    pub fn is_terminated(&self) -> (terminated: bool)
        ensures
            terminated == self@.all_terminated(),
    {
        let mut b: usize = 0;
        while b < self.bbs.len()
            invariant
                0 <= b <= self.bbs@.len(),
                forall|c: int| 0 <= c < b ==> (#[trigger] self@.blocks[c]).terminator.is_some(),
            decreases self.bbs@.len() - b,
        {
            if self.bbs[b].terminator.is_none() {
                assert(self@.blocks[b as int].terminator.is_none());
                return false;
            }
            b += 1;
        }
        true
    }

    /// Seals the builder into the function it has built. Every block
    /// must have its terminator.
    pub fn into_function(self) -> (function: Function)
        requires
            self@.all_terminated(),
        ensures
            function@ == self@.sealed(),
            self@.well_formed() ==> well_numbered(
                function@.statements(),
                self@.next_value as nat,
            ),
    {
        let ghost blocks = self@.blocks;
        let bbs = self.bbs;
        let mut basic_blocks: Vec<BasicBlock> = Vec::new();
        for bb in it: bbs.into_iter()
            invariant
                it.seq() == bbs@,
                blocks.len() == bbs@.len(),
                forall|b: int| 0 <= b < blocks.len() ==> blocks[b] == (#[trigger] bbs@[b])@,
                forall|b: int|
                    0 <= b < blocks.len() ==> (#[trigger] blocks[b]).terminator.is_some(),
                basic_blocks@.len() == it.index(),
                forall|b: int|
                    0 <= b < it.index() ==> (#[trigger] basic_blocks@[b])@ == blocks[b].sealed(),
        {
            basic_blocks.push(
                BasicBlock { statements: bb.statements, terminator: bb.terminator.unwrap() },
            );
        }
        let function = Function {
            name: self.name,
            params: self.params,
            variables: self.variables,
            basic_blocks,
        };
        proof {
            assert(function@.blocks =~= self@.sealed().blocks);
            assert(function@.statements() =~= self@.statements());
        }
        function
    }
}

} // verus!
