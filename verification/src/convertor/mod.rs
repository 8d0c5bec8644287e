//! Lowering a program into the intermediate representation.
//!
//! The lowering is a visitor. It builds one function at a time: entering
//! a function declaration starts a builder and binds the parameters,
//! the statements and expressions below emit operations into the
//! builder's entry block, and leaving the declaration seals the function.
//! The first failure is kept, and nothing is emitted after it.

use vstd::prelude::*;
use vstd::string::*;

pub mod symbol_table;

use self::symbol_table::{bind, close, lookup, resolve, Scope, SymbolTable, TypedVariable};
use crate::ast;
use crate::ast::tree::parameter_views;
use crate::ast::visitor::{
    fold_declaration, fold_declarations, fold_expression, fold_program, fold_statement,
    item_view, item_views,
    lemma_declaration_walks_related, lemma_expression_walks_related,
    lemma_program_walks_related, lemma_statement_walks_related, visits_keep, DeclarationView,
    ExpressionView, StatementView, Visitor,
};
use crate::ir;
use crate::ir::builder::{
    lemma_operation_keeps_order, lemma_terminator_keeps_statements,
    lemma_value_operation_keeps_order, BuilderView, FunctionBuilder,
};
use crate::ir::{
    densely_numbered, lemma_densely_numbered_push, values_among, FunctionView, Operation,
    Statement, Terminator, Value, Variable, BB,
};

verus! {

/// Why a program could not be lowered.
#[derive(Debug, Clone, PartialEq, Eq)]
pub enum LoweringError {
    /// An identifier that no open scope binds.
    UnresolvedName(String),
    /// A call. The representation has no operation for it.
    UnsupportedCall,
    /// A function needs more values or variables than 32 bits can number.
    LimitExceeded,
    /// A node was visited where a walk of a program does not meet it:
    /// outside a function, or after a visit below it gave nothing.
    OutOfPlace,
}

/// A lowering error as a plain value.
pub enum ErrorView {
    UnresolvedName(Seq<char>),
    UnsupportedCall,
    LimitExceeded,
    OutOfPlace,
}

impl View for LoweringError {
    type V = ErrorView;

    open spec fn view(&self) -> ErrorView {
        match self {
            LoweringError::UnresolvedName(name) => ErrorView::UnresolvedName(name@),
            LoweringError::UnsupportedCall => ErrorView::UnsupportedCall,
            LoweringError::LimitExceeded => ErrorView::LimitExceeded,
            LoweringError::OutOfPlace => ErrorView::OutOfPlace,
        }
    }
}

/// The type of the representation that stands for a declared type.
pub open spec fn lowered_type(ty: ast::Type) -> ir::Type {
    match ty {
        ast::Type::Unit => ir::Type::Unit,
        ast::Type::Int => ir::Type::Int,
        ast::Type::Boolean => ir::Type::Boolean,
    }
}

/// The type of the representation that stands for a declared type.
pub fn ty_ast2ir(ty: ast::Type) -> (lowered: ir::Type)
    ensures
        lowered == lowered_type(ty),
{
    match ty {
        ast::Type::Unit => ir::Type::Unit,
        ast::Type::Int => ir::Type::Int,
        ast::Type::Boolean => ir::Type::Boolean,
    }
}

/// The types of a parameter list.
pub open spec fn parameter_types(parameters: Seq<(Seq<char>, ast::Type)>) -> Seq<ir::Type> {
    Seq::new(parameters.len(), |i: int| lowered_type(parameters[i].1))
}

/// The scope that binds the first `count` parameters, each to the
/// variable of its position.
pub open spec fn parameter_scope(parameters: Seq<(Seq<char>, ast::Type)>, count: nat) -> Scope
    decreases count,
{
    if count == 0 {
        Map::empty()
    } else {
        parameter_scope(parameters, (count - 1) as nat).insert(
            parameters[count - 1].0,
            TypedVariable {
                ty: lowered_type(parameters[count - 1].1),
                var: Variable((count - 1) as u32),
            },
        )
    }
}

/// The operation that computes a binary operator.
pub open spec fn binary_operation(op: ast::BinOp, lhs: Value, rhs: Value) -> Operation {
    match op {
        ast::BinOp::Add => Operation::BinaryAdd(lhs, rhs),
        ast::BinOp::Sub => Operation::BinarySub(lhs, rhs),
        ast::BinOp::Mul => Operation::BinaryMul(lhs, rhs),
        ast::BinOp::Divide => Operation::BinaryDivide(lhs, rhs),
    }
}

/// A value is its own plain value.
pub proof fn lemma_value_item(item: Option<Value>)
    ensures
        item_view(item) == item,
{
}

/// The lowering of one function: the open scopes and the builder.
#[derive(Debug, Clone)]
pub struct FunctionConvertor {
    sym_table: SymbolTable,
    builder: FunctionBuilder,
}

/// The lowering of one function as a plain value.
pub struct ConvertorView {
    pub scopes: Seq<Scope>,
    pub builder: BuilderView,
}

impl ConvertorView {
    /// The state at the start of a function: one scope, which binds each
    /// parameter to a variable of its own, and no statement yet.
    pub open spec fn fresh(name: Seq<char>, parameters: Seq<(Seq<char>, ast::Type)>) -> ConvertorView {
        ConvertorView {
            scopes: seq![parameter_scope(parameters, parameters.len())],
            builder: BuilderView {
                variables: parameter_types(parameters),
                ..BuilderView::fresh(name, parameter_types(parameters))
            },
        }
    }

    /// The state after a value was stored into `var` under the name
    /// `identifier`.
    pub open spec fn stored(self, identifier: Seq<char>, var: Variable, value: Value) -> ConvertorView {
        ConvertorView {
            scopes: bind(self.scopes, identifier, TypedVariable { ty: ir::Type::Int, var }),
            builder: self.builder.with_operation(Operation::StoreVariable(var, value)),
        }
    }

    /// Statements go to the entry block, which is the only block, at
    /// least one scope is open, and the values are numbered in order.
    pub open spec fn well_formed(self) -> bool {
        &&& self.scopes.len() >= 1
        &&& self.builder.blocks.len() == 1
        &&& self.builder.current == BB(0)
        &&& self.builder.well_formed()
    }
}

impl View for FunctionConvertor {
    type V = ConvertorView;

    closed spec fn view(&self) -> ConvertorView {
        ConvertorView { scopes: self.sym_table@, builder: self.builder@ }
    }
}

impl FunctionConvertor {
    /// Starts the lowering of a function: binds each parameter to a
    /// variable of its own, in one scope.
    pub fn new(name: &str, params: &Vec<(String, ast::Type)>) -> (convertor: Self)
        requires
            params@.len() <= u32::MAX,
        ensures
            convertor@ == ConvertorView::fresh(name@, parameter_views(params@)),
            convertor@.well_formed(),
    {
        let ghost parameters = parameter_views(params@);
        let mut param_tys: Vec<ir::Type> = Vec::new();
        let mut i: usize = 0;
        while i < params.len()
            invariant
                0 <= i <= params@.len(),
                parameters == parameter_views(params@),
                param_tys@ == parameter_types(parameters).take(i as int),
            decreases params@.len() - i,
        {
            param_tys.push(ty_ast2ir(params[i].1));
            proof {
                assert(param_tys@ =~= parameter_types(parameters).take(i + 1));
            }
            i += 1;
        }
        assert(param_tys@ =~= parameter_types(parameters));
        let mut sym_table = SymbolTable::new();
        sym_table.begin_scope();
        let mut builder = FunctionBuilder::new(String::from_str(name), param_tys);
        let ghost start = builder@;
        let mut index: usize = 0;
        assert(sym_table@ =~= seq![parameter_scope(parameters, 0)]);
        assert(start.variables =~= parameter_types(parameters).take(0));
        while index < params.len()
            invariant
                0 <= index <= params@.len(),
                params@.len() <= u32::MAX,
                parameters == parameter_views(params@),
                start == BuilderView::fresh(name@, parameter_types(parameters)),
                builder@ == (BuilderView {
                    variables: parameter_types(parameters).take(index as int),
                    ..start
                }),
                builder@.well_formed(),
                sym_table@ == seq![parameter_scope(parameters, index as nat)],
            decreases params@.len() - index,
        {
            let var = builder.create_variable_param(index);
            let ty = ty_ast2ir(params[index].1);
            sym_table.register_variable(params[index].0.clone(), ty, var);
            proof {
                assert(builder@.variables =~= parameter_types(parameters).take(index + 1));
                assert(sym_table@ =~= seq![parameter_scope(parameters, (index + 1) as nat)]);
            }
            index += 1;
        }
        assert(parameter_types(parameters).take(index as int) =~= parameter_types(parameters));
        FunctionConvertor { sym_table, builder }
    }
}

/// The lowering of a program: the function that is being lowered, if the
/// walk is inside one, and the first failure, if there was one.
#[derive(Debug, Clone)]
pub struct ProgramConvertor {
    function: Option<FunctionConvertor>,
    error: Option<LoweringError>,
}

/// The lowering of a program as a plain value.
pub struct LoweringView {
    pub function: Option<ConvertorView>,
    pub error: Option<ErrorView>,
}

impl LoweringView {
    /// The state before a walk.
    pub open spec fn start() -> LoweringView {
        LoweringView { function: None, error: None }
    }

    /// Nothing has failed, and the walk is inside a function.
    pub open spec fn active(self) -> bool {
        self.error.is_none() && self.function.is_some()
    }

    /// This state with a failure, if it has none yet.
    pub open spec fn failed(self, error: ErrorView) -> LoweringView {
        if self.error.is_some() {
            self
        } else {
            LoweringView { error: Some(error), ..self }
        }
    }

    /// This state with another state of the function that is being
    /// lowered.
    pub open spec fn within(self, function: ConvertorView) -> LoweringView {
        LoweringView { function: Some(function), ..self }
    }

    /// The state after a visit that changes nothing inside a function, and
    /// fails outside one.
    pub open spec fn pass(self) -> LoweringView {
        if self.active() {
            self
        } else {
            self.failed(ErrorView::OutOfPlace)
        }
    }

    /// Emits an operation that produces a value, and gives the value.
    pub open spec fn emit(self, operation: Operation) -> (LoweringView, Option<Value>) {
        if !self.active() {
            (self.failed(ErrorView::OutOfPlace), None)
        } else if self.function.unwrap().builder.next_value == u32::MAX {
            (self.failed(ErrorView::LimitExceeded), None)
        } else {
            let function = self.function.unwrap();
            (
                self.within(
                    ConvertorView {
                        builder: function.builder.with_value_operation(operation),
                        ..function
                    },
                ),
                Some(Value(function.builder.next_value)),
            )
        }
    }

    /// Opens a scope.
    pub open spec fn open_scope(self) -> LoweringView {
        if !self.active() {
            self.failed(ErrorView::OutOfPlace)
        } else {
            let function = self.function.unwrap();
            self.within(ConvertorView { scopes: function.scopes.push(Map::empty()), ..function })
        }
    }

    /// Closes the innermost scope, unless it is the scope of the
    /// parameters.
    pub open spec fn close_scope(self) -> (LoweringView, Option<()>) {
        if !self.active() {
            (self.failed(ErrorView::OutOfPlace), None)
        } else {
            let function = self.function.unwrap();
            if function.scopes.len() > 1 {
                (
                    self.within(ConvertorView { scopes: close(function.scopes), ..function }),
                    Some(()),
                )
            } else {
                (self, Some(()))
            }
        }
    }

    /// Loads the variable that the innermost binding of `name` names, or
    /// fails if no open scope binds `name`.
    pub open spec fn load(self, name: Seq<char>) -> (LoweringView, Option<Value>) {
        if !self.active() {
            (self.failed(ErrorView::OutOfPlace), None)
        } else {
            match resolve(self.function.unwrap().scopes, name) {
                Some(bound) => self.emit(Operation::LoadVariable(bound.var)),
                None => (self.failed(ErrorView::UnresolvedName(name)), None),
            }
        }
    }

    /// Computes a binary operator on the values of its operands.
    pub open spec fn compute(self, op: ast::BinOp, lhs: Option<Value>, rhs: Option<Value>) -> (
        LoweringView,
        Option<Value>,
    ) {
        if !self.active() || lhs.is_none() || rhs.is_none() {
            (self.failed(ErrorView::OutOfPlace), None)
        } else {
            self.emit(binary_operation(op, lhs.unwrap(), rhs.unwrap()))
        }
    }

    /// Stores a value under a name of the innermost scope: into the
    /// variable that the name is bound to there, or else into a new
    /// variable, which the name is then bound to.
    pub open spec fn store(self, identifier: Seq<char>, value: Option<Value>) -> (
        LoweringView,
        Option<()>,
    ) {
        if !self.active() || value.is_none() {
            (self.failed(ErrorView::OutOfPlace), None)
        } else {
            let function = self.function.unwrap();
            match lookup(function.scopes.last(), identifier) {
                Some(bound) => (
                    self.within(function.stored(identifier, bound.var, value.unwrap())),
                    Some(()),
                ),
                None => if function.builder.variables.len() > u32::MAX {
                    (self.failed(ErrorView::LimitExceeded), None)
                } else {
                    (
                        self.within(
                            (ConvertorView {
                                builder: function.builder.with_variable(ir::Type::Int),
                                ..function
                            }).stored(
                                identifier,
                                Variable(function.builder.variables.len() as u32),
                                value.unwrap(),
                            ),
                        ),
                        Some(()),
                    )
                },
            }
        }
    }

    /// Starts a function.
    pub open spec fn begin_function(
        self,
        name: Seq<char>,
        parameters: Seq<(Seq<char>, ast::Type)>,
    ) -> LoweringView {
        if self.error.is_some() {
            self
        } else if parameters.len() > u32::MAX {
            self.failed(ErrorView::LimitExceeded)
        } else {
            self.within(ConvertorView::fresh(name, parameters))
        }
    }

    /// Ends a function with the return of a zero, and gives the function.
    pub open spec fn end_function(self) -> (LoweringView, Option<FunctionView>) {
        let left = LoweringView { function: None, ..self };
        if !self.active() {
            (left.failed(ErrorView::OutOfPlace), None)
        } else {
            let function = self.function.unwrap();
            if function.builder.next_value == u32::MAX {
                (left.failed(ErrorView::LimitExceeded), None)
            } else {
                (
                    left,
                    Some(
                        function.builder.with_value_operation(
                            Operation::LoadImmediate(0),
                        ).with_terminator(
                            Terminator::Return(Value(function.builder.next_value)),
                        ).sealed(),
                    ),
                )
            }
        }
    }

    /// Gathers the functions into a module.
    pub open spec fn end_program(self, declarations: Seq<Option<FunctionView>>) -> (
        LoweringView,
        Option<Seq<FunctionView>>,
    ) {
        if self.error.is_some() {
            (self, None)
        } else if forall|i: int| 0 <= i < declarations.len() ==> (#[trigger] declarations[i]).is_some() {
            (self, Some(Seq::new(declarations.len(), |i: int| declarations[i].unwrap())))
        } else {
            (self.failed(ErrorView::OutOfPlace), None)
        }
    }
}

impl View for ProgramConvertor {
    type V = LoweringView;

    closed spec fn view(&self) -> LoweringView {
        LoweringView { function: item_view(self.function), error: item_view(self.error) }
    }
}

impl ProgramConvertor {
    /// A lowering that has not started.
    pub fn new() -> (convertor: Self)
        ensures
            convertor@ == LoweringView::start(),
    {
        ProgramConvertor { function: None, error: None }
    }

    /// The first failure, if there was one.
    pub fn into_error(self) -> (error: Option<LoweringError>)
        ensures
            item_view(error) == self@.error,
    {
        self.error
    }

    fn fail(&mut self, error: LoweringError)
        requires
            old(self)@.error.is_none(),
        ensures
            final(self)@ == old(self)@.failed(error@),
    {
        self.error = Some(error);
    }

    fn emit(&mut self, operation: Operation) -> (item: Option<Value>)
        requires
            Self::valid(old(self)@),
        ensures
            Self::valid(final(self)@),
            (final(self)@, item) == old(self)@.emit(operation),
            (final(self)@, item_view(item)) == old(self)@.emit(operation),
    {
        proof {
            lemma_value_item(old(self)@.emit(operation).1);
        }
        if self.error.is_some() {
            return None;
        }
        match self.function.take() {
            None => {
                self.fail(LoweringError::OutOfPlace);
                None
            },
            Some(mut function) => {
                if function.builder.value_count() == u32::MAX {
                    self.function = Some(function);
                    self.fail(LoweringError::LimitExceeded);
                    None
                } else {
                    let value = function.builder.append_value_operation(operation);
                    self.function = Some(function);
                    Some(value)
                }
            },
        }
    }

    fn pass(&mut self)
        ensures
            final(self)@ == old(self)@.pass(),
    {
        if self.error.is_none() && self.function.is_none() {
            self.fail(LoweringError::OutOfPlace);
        }
    }
}

impl Visitor for ProgramConvertor {
    type ProgramItem = ir::Module;

    type DeclarationItem = ir::Function;

    type StatementItem = ();

    type ExpressionItem = Value;

    open spec fn valid(state: LoweringView) -> bool {
        state.function matches Some(function) ==> function.well_formed()
    }

    open spec fn after_enter_program(state: LoweringView) -> LoweringView {
        state
    }

    open spec fn after_visit_program(
        state: LoweringView,
        declarations: Seq<DeclarationView<Self>>,
    ) -> (LoweringView, Option<Seq<FunctionView>>) {
        state.end_program(declarations)
    }

    open spec fn after_enter_function_declaration(
        state: LoweringView,
        name: Seq<char>,
        parameters: Seq<(Seq<char>, ast::Type)>,
    ) -> LoweringView {
        state.begin_function(name, parameters)
    }

    open spec fn after_visit_function_declaration(
        state: LoweringView,
        name: Seq<char>,
        parameters: Seq<(Seq<char>, ast::Type)>,
        body: StatementView<Self>,
    ) -> (LoweringView, Option<FunctionView>) {
        state.end_function()
    }

    open spec fn after_enter_block_statement(state: LoweringView) -> LoweringView {
        state.open_scope()
    }

    open spec fn after_visit_block_statement(
        state: LoweringView,
        statements: Seq<StatementView<Self>>,
    ) -> (LoweringView, Option<()>) {
        state.close_scope()
    }

    open spec fn after_enter_let_statement(state: LoweringView, identifier: Seq<char>) -> LoweringView {
        state.pass()
    }

    open spec fn after_visit_let_statement(
        state: LoweringView,
        identifier: Seq<char>,
        expression: ExpressionView<Self>,
    ) -> (LoweringView, Option<()>) {
        state.store(identifier, expression)
    }

    open spec fn after_enter_expression_statement(state: LoweringView) -> LoweringView {
        state.pass()
    }

    open spec fn after_visit_expression_statement(
        state: LoweringView,
        expression: ExpressionView<Self>,
    ) -> (LoweringView, Option<()>) {
        if state.active() && expression.is_some() {
            (state, Some(()))
        } else {
            (state.failed(ErrorView::OutOfPlace), None)
        }
    }

    open spec fn after_enter_binop_expression(state: LoweringView, op: ast::BinOp) -> LoweringView {
        state.pass()
    }

    open spec fn after_visit_binop_expression(
        state: LoweringView,
        op: ast::BinOp,
        lhs: ExpressionView<Self>,
        rhs: ExpressionView<Self>,
    ) -> (LoweringView, Option<Value>) {
        state.compute(op, lhs, rhs)
    }

    open spec fn after_enter_func_call(state: LoweringView) -> LoweringView {
        state.pass()
    }

    open spec fn after_visit_func_call(
        state: LoweringView,
        func: ExpressionView<Self>,
        args: Seq<ExpressionView<Self>>,
    ) -> (LoweringView, Option<Value>) {
        if state.active() {
            (state.failed(ErrorView::UnsupportedCall), None)
        } else {
            (state.failed(ErrorView::OutOfPlace), None)
        }
    }

    open spec fn after_visit_integer(state: LoweringView, i: i32) -> (LoweringView, Option<Value>) {
        state.emit(Operation::LoadImmediate(i))
    }

    open spec fn after_visit_identifier(state: LoweringView, id: Seq<char>) -> (
        LoweringView,
        Option<Value>,
    ) {
        state.load(id)
    }

    fn enter_program(&mut self) {
    }

    fn visit_program(&mut self, declarations: Vec<Option<ir::Function>>) -> (item: Option<
        ir::Module,
    >) {
        if self.error.is_some() {
            return None;
        }
        let ghost given = item_views(declarations@);
        let mut functions: Vec<ir::Function> = Vec::new();
        let mut complete = true;
        for declaration in it: declarations.into_iter()
            invariant
                it.seq() == declarations@,
                given == item_views(declarations@),
                complete == (forall|j: int| 0 <= j < it.index() ==> (#[trigger] given[j]).is_some()),
                complete ==> functions@.len() == it.index(),
                complete ==> forall|j: int|
                    0 <= j < it.index() ==> (#[trigger] functions@[j])@ == given[j].unwrap(),
        {
            let ghost position = it.index() as int;
            assert(given[position] == item_view(declaration));
            match declaration {
                Some(function) => {
                    if complete {
                        functions.push(function);
                    }
                },
                None => {
                    complete = false;
                },
            }
        }
        if complete {
            let module = ir::Module { functions };
            assert(module@ =~= Seq::new(given.len(), |i: int| given[i].unwrap()));
            Some(module)
        } else {
            self.fail(LoweringError::OutOfPlace);
            None
        }
    }

    fn enter_function_declaration(&mut self, name: &str, parameters: &Vec<(String, ast::Type)>) {
        if self.error.is_some() {
            return ;
        }
        if parameters.len() > u32::MAX as usize {
            self.fail(LoweringError::LimitExceeded);
        } else {
            self.function = Some(FunctionConvertor::new(name, parameters));
        }
    }

    fn visit_function_declaration(
        &mut self,
        name: &str,
        parameters: &Vec<(String, ast::Type)>,
        body: Option<()>,
    ) -> (item: Option<ir::Function>) {
        let function = self.function.take();
        if self.error.is_some() {
            return None;
        }
        match function {
            None => {
                self.fail(LoweringError::OutOfPlace);
                None
            },
            Some(function) => {
                let mut builder = function.builder;
                if builder.value_count() == u32::MAX {
                    self.fail(LoweringError::LimitExceeded);
                    None
                } else {
                    let value = builder.append_value_operation(Operation::LoadImmediate(0));
                    builder.terminate_bb(Terminator::Return(value));
                    assert(builder@.all_terminated());
                    Some(builder.into_function())
                }
            },
        }
    }

    fn enter_block_statement(&mut self) {
        if self.error.is_some() {
            return ;
        }
        match self.function.take() {
            None => {
                self.fail(LoweringError::OutOfPlace);
            },
            Some(mut function) => {
                function.sym_table.begin_scope();
                self.function = Some(function);
            },
        }
    }

    fn visit_block_statement(&mut self, statements: Vec<Option<()>>) -> (item: Option<()>) {
        if self.error.is_some() {
            return None;
        }
        match self.function.take() {
            None => {
                self.fail(LoweringError::OutOfPlace);
                None
            },
            Some(mut function) => {
                if function.sym_table.depth() > 1 {
                    function.sym_table.end_scope();
                }
                self.function = Some(function);
                Some(())
            },
        }
    }

    fn enter_let_statement(&mut self, identifier: &str) {
        self.pass();
    }

    fn visit_let_statement(&mut self, identifier: &str, expression: Option<Value>) -> (item: Option<
        (),
    >) {
        proof {
            lemma_value_item(expression);
        }
        if self.error.is_some() {
            return None;
        }
        match self.function.take() {
            None => {
                self.fail(LoweringError::OutOfPlace);
                None
            },
            Some(mut function) => {
                match expression {
                    None => {
                        self.function = Some(function);
                        self.fail(LoweringError::OutOfPlace);
                        None
                    },
                    Some(value) => {
                        let bound = function.sym_table.lookup_innermost(identifier);
                        let var = match bound {
                            Some(binding) => Some(binding.var),
                            None => if function.builder.variable_count() > u32::MAX as usize {
                                None
                            } else {
                                Some(function.builder.create_variable(ir::Type::Int))
                            },
                        };
                        match var {
                            None => {
                                self.function = Some(function);
                                self.fail(LoweringError::LimitExceeded);
                                None
                            },
                            Some(var) => {
                                function.builder.append_no_value_operation(
                                    Operation::StoreVariable(var, value),
                                );
                                function.sym_table.register_variable(
                                    String::from_str(identifier),
                                    ir::Type::Int,
                                    var,
                                );
                                self.function = Some(function);
                                Some(())
                            },
                        }
                    },
                }
            },
        }
    }

    fn enter_expression_statement(&mut self) {
        self.pass();
    }

    fn visit_expression_statement(&mut self, expression: Option<Value>) -> (item: Option<()>) {
        proof {
            lemma_value_item(expression);
        }
        if self.error.is_none() && self.function.is_some() && expression.is_some() {
            Some(())
        } else {
            if self.error.is_none() {
                self.fail(LoweringError::OutOfPlace);
            }
            None
        }
    }

    fn enter_binop_expression(&mut self, op: ast::BinOp) {
        self.pass();
    }

    fn visit_binop_expression(&mut self, op: ast::BinOp, lhs: Option<Value>, rhs: Option<Value>) -> (item:
        Option<Value>) {
        proof {
            lemma_value_item(lhs);
            lemma_value_item(rhs);
        }
        match (lhs, rhs) {
            (Some(lhs), Some(rhs)) => {
                let operation = match op {
                    ast::BinOp::Add => Operation::BinaryAdd(lhs, rhs),
                    ast::BinOp::Sub => Operation::BinarySub(lhs, rhs),
                    ast::BinOp::Mul => Operation::BinaryMul(lhs, rhs),
                    ast::BinOp::Divide => Operation::BinaryDivide(lhs, rhs),
                };
                self.emit(operation)
            },
            _ => {
                if self.error.is_none() {
                    self.fail(LoweringError::OutOfPlace);
                }
                None
            },
        }
    }

    fn enter_func_call(&mut self) {
        self.pass();
    }

    fn visit_func_call(&mut self, func: Option<Value>, args: Vec<Option<Value>>) -> (item: Option<
        Value,
    >) {
        if self.error.is_none() {
            if self.function.is_some() {
                self.fail(LoweringError::UnsupportedCall);
            } else {
                self.fail(LoweringError::OutOfPlace);
            }
        }
        None
    }

    fn visit_integer(&mut self, i: i32) -> (item: Option<Value>) {
        self.emit(Operation::LoadImmediate(i))
    }

    fn visit_identifier(&mut self, id: &str) -> (item: Option<Value>) {
        if self.error.is_some() {
            return None;
        }
        let bound = match &self.function {
            None => None,
            Some(function) => function.sym_table.lookup_variable(id),
        };
        if self.function.is_none() {
            self.fail(LoweringError::OutOfPlace);
            return None;
        }
        match bound {
            Some(binding) => self.emit(Operation::LoadVariable(binding.var)),
            None => {
                self.fail(LoweringError::UnresolvedName(String::from_str(id)));
                None
            },
        }
    }
}

/// What the lowering of a program comes to: the state of the lowering
/// after the walk of the program, and the module, if there is one.
pub open spec fn lowering(program: &ast::Program) -> (LoweringView, Option<Seq<FunctionView>>) {
    fold_program::<ProgramConvertor>(program, LoweringView::start())
}

/// An identifier that no open scope binds fails the lowering with its
/// name, and gives no value.
pub proof fn lemma_unresolved_name_fails(state: LoweringView, name: Seq<char>)
    requires
        state.active(),
        resolve(state.function.unwrap().scopes, name).is_none(),
    ensures
        ProgramConvertor::after_visit_identifier(state, name).0.error == Some(
            ErrorView::UnresolvedName(name),
        ),
        ProgramConvertor::after_visit_identifier(state, name).1.is_none(),
{
}

/// A failure stays. Once the lowering has failed, the walk of any node
/// leaves the failure as it is and gives nothing: no function comes of a
/// declaration, and no module of the program.
pub proof fn lemma_failure_stays(program: &ast::Program, state: LoweringView)
    requires
        state.error.is_some(),
    ensures
        forall|id: ast::ExpressionId| #[trigger]
            fold_expression::<ProgramConvertor>(program, id, state).0.error == state.error
                && fold_expression::<ProgramConvertor>(program, id, state).1.is_none(),
        forall|id: ast::StatementId| #[trigger]
            fold_statement::<ProgramConvertor>(program, id, state).0.error == state.error
                && fold_statement::<ProgramConvertor>(program, id, state).1.is_none(),
        forall|declaration: ast::Declaration| #[trigger]
            fold_declaration::<ProgramConvertor>(program, declaration, state).0.error
                == state.error && fold_declaration::<ProgramConvertor>(
                program,
                declaration,
                state,
            ).1.is_none(),
        fold_program::<ProgramConvertor>(program, state).0.error == state.error,
        fold_program::<ProgramConvertor>(program, state).1.is_none(),
{
    let failure = state.error;
    let related = |a: LoweringView, b: LoweringView| a == b && a.error == failure;
    assert(visits_keep::<ProgramConvertor>(related));
    assert forall|id: ast::ExpressionId| #[trigger]
        fold_expression::<ProgramConvertor>(program, id, state).0.error == state.error
            && fold_expression::<ProgramConvertor>(program, id, state).1.is_none() by {
        lemma_expression_walks_related::<ProgramConvertor>(program, related, id, state, state);
        lemma_failed_expression_gives_nothing(program, id, state);
    }
    assert forall|id: ast::StatementId| #[trigger]
        fold_statement::<ProgramConvertor>(program, id, state).0.error == state.error
            && fold_statement::<ProgramConvertor>(program, id, state).1.is_none() by {
        lemma_statement_walks_related::<ProgramConvertor>(program, related, id, state, state);
        lemma_failed_statement_gives_nothing(program, id, state);
    }
    assert forall|declaration: ast::Declaration| #[trigger]
        fold_declaration::<ProgramConvertor>(program, declaration, state).0.error == state.error
            && fold_declaration::<ProgramConvertor>(program, declaration, state).1.is_none() by {
        lemma_declaration_walks_related::<ProgramConvertor>(
            program,
            related,
            declaration,
            state,
            state,
        );
    }
    lemma_program_walks_related::<ProgramConvertor>(program, related, state, state);
}

/// The walk of an expression gives nothing if it ends in a failure.
proof fn lemma_failed_expression_gives_nothing(
    program: &ast::Program,
    id: ast::ExpressionId,
    state: LoweringView,
)
    ensures
        fold_expression::<ProgramConvertor>(program, id, state).0.error.is_some()
            ==> fold_expression::<ProgramConvertor>(program, id, state).1.is_none(),
{
}

/// The walk of a statement gives nothing if it ends in a failure.
proof fn lemma_failed_statement_gives_nothing(
    program: &ast::Program,
    id: ast::StatementId,
    state: LoweringView,
)
    ensures
        fold_statement::<ProgramConvertor>(program, id, state).0.error.is_some()
            ==> fold_statement::<ProgramConvertor>(program, id, state).1.is_none(),
{
}

impl ConvertorView {
    /// The values produced so far are numbered from zero without gaps, in
    /// the order of the statements that produce them.
    pub open spec fn densely_numbered(self) -> bool {
        &&& self.well_formed()
        &&& densely_numbered(self.builder.blocks[0].statements)
        &&& values_among(
            self.builder.blocks[0].statements,
            self.builder.blocks[0].statements.len(),
        ) == self.builder.next_value
    }
}

impl LoweringView {
    /// The function that is being lowered, if there is one, is densely
    /// numbered.
    pub open spec fn densely_numbered(self) -> bool {
        self.function matches Some(function) ==> function.densely_numbered()
    }
}

/// What every function that the lowering gives looks like: it has one
/// block, its values are numbered from zero without gaps in the order of
/// the statements that produce them, and the block ends by loading a zero
/// and returning it.
pub open spec fn lowered_function(function: FunctionView) -> bool {
    &&& function.blocks.len() == 1
    &&& densely_numbered(function.blocks[0].statements)
    &&& function.blocks[0].statements.len() > 0
    &&& function.blocks[0].statements.last() matches Statement::WithDestination(value, operation)
        && operation == Operation::LoadImmediate(0) && function.blocks[0].terminator
        == Terminator::Return(value)
}

/// The relation between a state and itself that holds when the state is
/// densely numbered.
pub open spec fn numbering_kept() -> spec_fn(LoweringView, LoweringView) -> bool {
    |a: LoweringView, b: LoweringView| a == b && a.densely_numbered()
}

proof fn lemma_emit_keeps_numbering(state: LoweringView, operation: Operation)
    requires
        state.densely_numbered(),
    ensures
        state.emit(operation).0.densely_numbered(),
{
    if state.active() && state.function.unwrap().builder.next_value < u32::MAX {
        let builder = state.function.unwrap().builder;
        let statement = Statement::WithDestination(Value(builder.next_value), operation);
        lemma_value_operation_keeps_order(builder, operation);
        lemma_densely_numbered_push(builder.blocks[0].statements, statement);
    }
}

proof fn lemma_store_keeps_numbering(state: LoweringView, identifier: Seq<char>, value: Option<Value>)
    requires
        state.densely_numbered(),
    ensures
        state.store(identifier, value).0.densely_numbered(),
{
    if state.active() && value.is_some() {
        let function = state.function.unwrap();
        match lookup(function.scopes.last(), identifier) {
            Some(bound) => {
                let statement = Statement::Operation(
                    Operation::StoreVariable(bound.var, value.unwrap()),
                );
                lemma_operation_keeps_order(
                    function.builder,
                    Operation::StoreVariable(bound.var, value.unwrap()),
                );
                lemma_densely_numbered_push(function.builder.blocks[0].statements, statement);
            },
            None => {
                if function.builder.variables.len() <= u32::MAX {
                    let var = Variable(function.builder.variables.len() as u32);
                    let builder = function.builder.with_variable(ir::Type::Int);
                    let statement = Statement::Operation(
                        Operation::StoreVariable(var, value.unwrap()),
                    );
                    assert(builder.statements() == function.builder.statements());
                    lemma_operation_keeps_order(
                        builder,
                        Operation::StoreVariable(var, value.unwrap()),
                    );
                    lemma_densely_numbered_push(builder.blocks[0].statements, statement);
                }
            },
        }
    }
}

proof fn lemma_begin_function_keeps_numbering(
    state: LoweringView,
    name: Seq<char>,
    parameters: Seq<(Seq<char>, ast::Type)>,
)
    requires
        state.densely_numbered(),
    ensures
        state.begin_function(name, parameters).densely_numbered(),
{
    let fresh = ConvertorView::fresh(name, parameters);
    assert(fresh.builder.statements() =~= seq![Seq::<Statement>::empty()]);
}

/// Every visit keeps the numbering dense.
proof fn lemma_visits_keep_numbering()
    ensures
        visits_keep::<ProgramConvertor>(numbering_kept()),
{
    assert forall|state: LoweringView, operation: Operation|
        state.densely_numbered() implies (#[trigger] state.emit(operation)).0.densely_numbered() by {
        lemma_emit_keeps_numbering(state, operation);
    }
    assert forall|state: LoweringView, identifier: Seq<char>, value: Option<Value>|
        state.densely_numbered() implies (#[trigger] state.store(
            identifier,
            value,
        )).0.densely_numbered() by {
        lemma_store_keeps_numbering(state, identifier, value);
    }
    assert forall|state: LoweringView, name: Seq<char>, parameters: Seq<(Seq<char>, ast::Type)>|
        state.densely_numbered() implies (#[trigger] state.begin_function(
            name,
            parameters,
        )).densely_numbered() by {
        lemma_begin_function_keeps_numbering(state, name, parameters);
    }
}

/// The walk of a declaration keeps the numbering dense, and the function
/// that it gives has the look of a lowered function.
proof fn lemma_declaration_is_dense(
    program: &ast::Program,
    declaration: ast::Declaration,
    state: LoweringView,
)
    requires
        state.densely_numbered(),
    ensures
        fold_declaration::<ProgramConvertor>(program, declaration, state).0.densely_numbered(),
        fold_declaration::<ProgramConvertor>(program, declaration, state).1 matches Some(function)
            ==> lowered_function(function),
{
    lemma_visits_keep_numbering();
    match declaration {
        ast::Declaration::FunctionDeclaration { name, parameters, statement } => {
            let entered = state.begin_function(name@, parameter_views(parameters@));
            lemma_begin_function_keeps_numbering(state, name@, parameter_views(parameters@));
            lemma_statement_walks_related::<ProgramConvertor>(
                program,
                numbering_kept(),
                statement,
                entered,
                entered,
            );
            let after = fold_statement::<ProgramConvertor>(program, statement, entered).0;
            if after.active() && after.function.unwrap().builder.next_value < u32::MAX {
                let builder = after.function.unwrap().builder;
                let operation = Operation::LoadImmediate(0);
                let value = Value(builder.next_value);
                let statement = Statement::WithDestination(value, operation);
                let terminator = Terminator::Return(value);
                let loaded = builder.with_value_operation(operation);
                lemma_densely_numbered_push(builder.blocks[0].statements, statement);
                lemma_terminator_keeps_statements(loaded, terminator);
                let function = loaded.with_terminator(terminator).sealed();
                assert(function.blocks[0].statements == builder.blocks[0].statements.push(
                    statement,
                ));
            }
        },
    }
}

/// The same of the walks of a run of declarations.
proof fn lemma_declarations_are_dense(
    program: &ast::Program,
    declarations: Seq<ast::Declaration>,
    state: LoweringView,
)
    requires
        state.densely_numbered(),
    ensures
        fold_declarations::<ProgramConvertor>(program, declarations, state).0.densely_numbered(),
        fold_declarations::<ProgramConvertor>(program, declarations, state).1.len()
            == declarations.len(),
        forall|i: int|
            0 <= i < declarations.len() ==> (#[trigger] fold_declarations::<ProgramConvertor>(
                program,
                declarations,
                state,
            ).1[i] matches Some(function) ==> lowered_function(function)),
    decreases declarations.len(),
{
    if declarations.len() > 0 {
        lemma_declarations_are_dense(program, declarations.drop_last(), state);
        lemma_declaration_is_dense(
            program,
            declarations.last(),
            fold_declarations::<ProgramConvertor>(program, declarations.drop_last(), state).0,
        );
    }
}

/// Every function of a lowered program has one block, whose values are
/// numbered from zero without gaps in the order in which they are
/// produced, and which ends by returning the value produced last.
pub proof fn lemma_lowered_functions_are_dense(program: &ast::Program)
    ensures
        lowering(program).1 matches Some(functions) ==> forall|i: int|
            0 <= i < functions.len() ==> lowered_function(#[trigger] functions[i]),
{
    lemma_declarations_are_dense(program, program.declarations@, LoweringView::start());
}

/// Lowers a program: one function for each declaration, in the order of
/// the declarations. Fails with the first failure that the walk meets,
/// and then gives no module.
pub fn ast2ir(program: &ast::Program) -> (result: Result<ir::Module, LoweringError>)
    requires
        program.well_formed(),
    ensures
        result matches Ok(module) ==> lowering(program).1 == Some(module@),
        result matches Err(error) ==> lowering(program).1.is_none() && lowering(program).0.error
            == Some(error@),
{
    let mut program_convertor = ProgramConvertor::new();
    match program.accept_program_visitor(&mut program_convertor) {
        Some(module) => Ok(module),
        None => Err(program_convertor.error.unwrap()),
    }
}

} // verus!
