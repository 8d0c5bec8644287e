//! A visitor that writes the tree down, one line for each node, indented
//! by nesting depth.

use vstd::prelude::*;
use vstd::string::*;

use super::text::{
    append_decimal, decimal, indent, indentation, operator_label, operator_text, type_label,
    type_text,
};
use super::visitor::{
    fold_program, lemma_program_walks_related, visits_keep, DeclarationView, ExpressionView,
    StatementView, Visitor,
};
use super::{BinOp, Program, Type};

verus! {

/// Writes one line for each node into `lines`.
#[derive(Debug, Clone)]
pub struct PrettyPrintVisitor {
    current_tab: usize,
    lines: Vec<String>,
}

/// The printer as a plain value: the nesting depth of the node that the
/// walk is in, and the lines written so far.
pub struct PrinterView {
    pub tab: nat,
    pub lines: Seq<Seq<char>>,
}

/// The lines of a vector of strings.
pub open spec fn line_views(lines: Seq<String>) -> Seq<Seq<char>> {
    Seq::new(lines.len(), |i: int| lines[i]@)
}

/// The depth one level down. It stops at the largest depth that fits.
pub open spec fn deeper(tab: nat) -> nat {
    if tab < usize::MAX {
        tab + 1
    } else {
        tab
    }
}

/// The depth one level up. It stops at zero.
pub open spec fn shallower(tab: nat) -> nat {
    if tab > 0 {
        (tab - 1) as nat
    } else {
        tab
    }
}

/// The line that opens a function declaration.
pub open spec fn function_label(name: Seq<char>) -> Seq<char> {
    "function_def (name: "@ + name + ")"@
}

/// The line of one parameter.
pub open spec fn parameter_label(parameter: (Seq<char>, Type)) -> Seq<char> {
    "param ("@ + parameter.0 + ", "@ + type_label(parameter.1) + ")"@
}

/// The line that opens a let statement.
pub open spec fn let_label(identifier: Seq<char>) -> Seq<char> {
    "let_stmt (id: "@ + identifier + ") :"@
}

/// The line that opens a binary operation.
pub open spec fn binop_label(op: BinOp) -> Seq<char> {
    "binop_expr (op: "@ + operator_label(op) + ")"@
}

/// The line of an integer literal.
pub open spec fn integer_label(i: i32) -> Seq<char> {
    "integer: "@ + decimal(i as int)
}

/// The line of an identifier.
pub open spec fn identifier_label(id: Seq<char>) -> Seq<char> {
    "identifier: "@ + id
}

/// The lines of a parameter list at depth `tab`.
pub open spec fn parameter_lines(tab: nat, parameters: Seq<(Seq<char>, Type)>) -> Seq<Seq<char>> {
    Seq::new(parameters.len(), |i: int| indent(tab) + parameter_label(parameters[i]))
}

impl PrinterView {
    /// This state with one more line, written at the current depth.
    pub open spec fn with_line(self, label: Seq<char>) -> PrinterView {
        PrinterView { lines: self.lines.push(indent(self.tab) + label), ..self }
    }

    /// This state one level down.
    pub open spec fn down(self) -> PrinterView {
        PrinterView { tab: deeper(self.tab), ..self }
    }

    /// This state one level up.
    pub open spec fn up(self) -> PrinterView {
        PrinterView { tab: shallower(self.tab), ..self }
    }
}

impl View for PrettyPrintVisitor {
    type V = PrinterView;

    closed spec fn view(&self) -> PrinterView {
        PrinterView { tab: self.current_tab as nat, lines: line_views(self.lines@) }
    }
}

impl PrettyPrintVisitor {
    /// A printer at depth zero that has written nothing.
    pub fn new() -> (printer: Self)
        ensures
            printer@ == (PrinterView { tab: 0, lines: Seq::empty() }),
    {
        let printer = PrettyPrintVisitor { current_tab: 0, lines: Vec::new() };
        assert(printer@.lines =~= Seq::empty());
        printer
    }

    /// The lines written so far.
    pub fn lines(&self) -> (lines: &Vec<String>)
        ensures
            line_views(lines@) == self@.lines,
    {
        &self.lines
    }

    /// Gives up the printer for the lines it has written.
    pub fn into_lines(self) -> (lines: Vec<String>)
        ensures
            line_views(lines@) == self@.lines,
    {
        self.lines
    }

    /// Starts a line at the current depth.
    fn begin_line(&self) -> (line: String)
        ensures
            line@ == indent(self@.tab),
    {
        indentation(self.current_tab)
    }

    /// Writes a finished line.
    fn end_line(&mut self, line: String, Ghost(label): Ghost<Seq<char>>)
        requires
            line@ =~= indent(old(self)@.tab) + label,
        ensures
            final(self)@ == old(self)@.with_line(label),
    {
        self.lines.push(line);
        assert(self@.lines =~= old(self)@.with_line(label).lines);
    }

    /// Writes a line that holds only a fixed label.
    fn write_label(&mut self, label: &str)
        ensures
            final(self)@ == old(self)@.with_line(label@),
    {
        let mut line = self.begin_line();
        line.append(label);
        self.end_line(line, Ghost(label@));
    }

    fn go_down(&mut self)
        ensures
            final(self)@ == old(self)@.down(),
    {
        if self.current_tab < usize::MAX {
            self.current_tab += 1;
        }
    }

    fn go_up(&mut self)
        ensures
            final(self)@ == old(self)@.up(),
    {
        if self.current_tab > 0 {
            self.current_tab -= 1;
        }
    }
}

impl Visitor for PrettyPrintVisitor {
    type ProgramItem = ();

    type DeclarationItem = ();

    type StatementItem = ();

    type ExpressionItem = ();

    open spec fn valid(state: PrinterView) -> bool {
        true
    }

    open spec fn after_enter_program(state: PrinterView) -> PrinterView {
        state.with_line("program"@).down()
    }

    open spec fn after_visit_program(
        state: PrinterView,
        declarations: Seq<DeclarationView<Self>>,
    ) -> (PrinterView, Option<()>) {
        (state.up(), Some(()))
    }

    open spec fn after_enter_function_declaration(
        state: PrinterView,
        name: Seq<char>,
        parameters: Seq<(Seq<char>, Type)>,
    ) -> PrinterView {
        let opened = state.with_line(function_label(name)).down();
        PrinterView { lines: opened.lines + parameter_lines(opened.tab, parameters), ..opened }
    }

    open spec fn after_visit_function_declaration(
        state: PrinterView,
        name: Seq<char>,
        parameters: Seq<(Seq<char>, Type)>,
        body: StatementView<Self>,
    ) -> (PrinterView, Option<()>) {
        (state.up(), Some(()))
    }

    open spec fn after_enter_block_statement(state: PrinterView) -> PrinterView {
        state.with_line("block_stmt"@).down()
    }

    open spec fn after_visit_block_statement(
        state: PrinterView,
        statements: Seq<StatementView<Self>>,
    ) -> (PrinterView, Option<()>) {
        (state.up(), Some(()))
    }

    open spec fn after_enter_let_statement(state: PrinterView, identifier: Seq<char>) -> PrinterView {
        state.with_line(let_label(identifier)).down()
    }

    open spec fn after_visit_let_statement(
        state: PrinterView,
        identifier: Seq<char>,
        expression: ExpressionView<Self>,
    ) -> (PrinterView, Option<()>) {
        (state.up(), Some(()))
    }

    open spec fn after_enter_expression_statement(state: PrinterView) -> PrinterView {
        state.with_line("expr_stmt:"@).down()
    }

    open spec fn after_visit_expression_statement(
        state: PrinterView,
        expression: ExpressionView<Self>,
    ) -> (PrinterView, Option<()>) {
        (state.up(), Some(()))
    }

    open spec fn after_enter_binop_expression(state: PrinterView, op: BinOp) -> PrinterView {
        state.with_line(binop_label(op)).down()
    }

    open spec fn after_visit_binop_expression(
        state: PrinterView,
        op: BinOp,
        lhs: ExpressionView<Self>,
        rhs: ExpressionView<Self>,
    ) -> (PrinterView, Option<()>) {
        (state.up(), Some(()))
    }

    open spec fn after_enter_func_call(state: PrinterView) -> PrinterView {
        state.with_line("func_call"@).down()
    }

    open spec fn after_visit_func_call(
        state: PrinterView,
        func: ExpressionView<Self>,
        args: Seq<ExpressionView<Self>>,
    ) -> (PrinterView, Option<()>) {
        (state.up(), Some(()))
    }

    open spec fn after_visit_integer(state: PrinterView, i: i32) -> (PrinterView, Option<()>) {
        (state.with_line(integer_label(i)), Some(()))
    }

    open spec fn after_visit_identifier(state: PrinterView, id: Seq<char>) -> (
        PrinterView,
        Option<()>,
    ) {
        (state.with_line(identifier_label(id)), Some(()))
    }

    fn enter_program(&mut self) {
        self.write_label("program");
        self.go_down();
    }

    fn visit_program(&mut self, declarations: Vec<Option<()>>) -> (item: Option<()>) {
        self.go_up();
        Some(())
    }

    fn enter_function_declaration(&mut self, name: &str, parameters: &Vec<(String, Type)>) {
        let mut line = self.begin_line();
        line.append("function_def (name: ");
        line.append(name);
        line.append(")");
        self.end_line(line, Ghost(function_label(name@)));
        self.go_down();
        let ghost opened = self@;
        let ghost wanted = parameter_lines(opened.tab, super::tree::parameter_views(parameters@));
        let mut i: usize = 0;
        while i < parameters.len()
            invariant
                0 <= i <= parameters@.len(),
                wanted == parameter_lines(opened.tab, super::tree::parameter_views(parameters@)),
                self@.tab == opened.tab,
                self@.lines == opened.lines + wanted.take(i as int),
            decreases parameters@.len() - i,
        {
            let mut line = self.begin_line();
            line.append("param (");
            line.append(parameters[i].0.as_str());
            line.append(", ");
            line.append(type_text(parameters[i].1));
            line.append(")");
            let ghost label = parameter_label((parameters@[i as int].0@, parameters@[i as int].1));
            self.end_line(line, Ghost(label));
            proof {
                assert(wanted.take(i + 1) =~= wanted.take(i as int).push(wanted[i as int]));
                assert(self@.lines =~= opened.lines + wanted.take(i + 1));
            }
            i += 1;
        }
        assert(wanted.take(i as int) =~= wanted);
    }

    fn visit_function_declaration(
        &mut self,
        name: &str,
        parameters: &Vec<(String, Type)>,
        body: Option<()>,
    ) -> (item: Option<()>) {
        self.go_up();
        Some(())
    }

    fn enter_block_statement(&mut self) {
        self.write_label("block_stmt");
        self.go_down();
    }

    fn visit_block_statement(&mut self, statements: Vec<Option<()>>) -> (item: Option<()>) {
        self.go_up();
        Some(())
    }

    fn enter_let_statement(&mut self, identifier: &str) {
        let mut line = self.begin_line();
        line.append("let_stmt (id: ");
        line.append(identifier);
        line.append(") :");
        self.end_line(line, Ghost(let_label(identifier@)));
        self.go_down();
    }

    fn visit_let_statement(&mut self, identifier: &str, expression: Option<()>) -> (item: Option<
        (),
    >) {
        self.go_up();
        Some(())
    }

    fn enter_expression_statement(&mut self) {
        self.write_label("expr_stmt:");
        self.go_down();
    }

    fn visit_expression_statement(&mut self, expression: Option<()>) -> (item: Option<()>) {
        self.go_up();
        Some(())
    }

    fn enter_binop_expression(&mut self, op: BinOp) {
        let mut line = self.begin_line();
        line.append("binop_expr (op: ");
        line.append(operator_text(op));
        line.append(")");
        self.end_line(line, Ghost(binop_label(op)));
        self.go_down();
    }

    fn visit_binop_expression(&mut self, op: BinOp, lhs: Option<()>, rhs: Option<()>) -> (item:
        Option<()>) {
        self.go_up();
        Some(())
    }

    fn enter_func_call(&mut self) {
        self.write_label("func_call");
        self.go_down();
    }

    fn visit_func_call(&mut self, func: Option<()>, args: Vec<Option<()>>) -> (item: Option<()>) {
        self.go_up();
        Some(())
    }

    fn visit_integer(&mut self, i: i32) -> (item: Option<()>) {
        let mut line = self.begin_line();
        line.append("integer: ");
        append_decimal(&mut line, i);
        self.end_line(line, Ghost(integer_label(i)));
        Some(())
    }

    fn visit_identifier(&mut self, id: &str) -> (item: Option<()>) {
        let mut line = self.begin_line();
        line.append("identifier: ");
        line.append(id);
        self.end_line(line, Ghost(identifier_label(id@)));
        Some(())
    }
}

/// The lines that a walk of the program writes when it starts at depth
/// `tab`.
pub open spec fn printed_lines(program: &Program, tab: nat) -> Seq<Seq<char>> {
    fold_program::<PrettyPrintVisitor>(program, PrinterView { tab, lines: Seq::empty() }).0.lines
}

/// Printing is repeatable. What a walk writes depends on the program and
/// on the depth at which the walk starts, and on nothing else: the lines
/// after the walk are the lines before it, followed by the lines of the
/// program. So two walks of one program from one depth write the same
/// lines, whatever was written before each.
pub proof fn lemma_printing_is_repeatable(program: &Program, state: PrinterView)
    ensures
        fold_program::<PrettyPrintVisitor>(program, state).0.lines == state.lines + printed_lines(
            program,
            state.tab,
        ),
        fold_program::<PrettyPrintVisitor>(program, state).0.tab == fold_program::<
            PrettyPrintVisitor,
        >(program, PrinterView { tab: state.tab, lines: Seq::empty() }).0.tab,
{
    let before = state.lines;
    let related = |a: PrinterView, b: PrinterView| a.tab == b.tab && a.lines == before + b.lines;
    assert forall|lines: Seq<Seq<char>>, line: Seq<char>| #[trigger]
        (before + lines).push(line) == before + lines.push(line) by {
        assert((before + lines).push(line) =~= before + lines.push(line));
    }
    assert forall|lines: Seq<Seq<char>>, more: Seq<Seq<char>>| #[trigger]
        ((before + lines) + more) == before + (lines + more) by {
        assert((before + lines) + more =~= before + (lines + more));
    }
    assert(visits_keep::<PrettyPrintVisitor>(related));
    let empty = PrinterView { tab: state.tab, lines: Seq::empty() };
    assert(before + empty.lines =~= before);
    lemma_program_walks_related::<PrettyPrintVisitor>(program, related, state, empty);
}

} // verus!
