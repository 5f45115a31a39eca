//! The evaluator: walks an expression and lays out the plan of its value.

use crate::address::CellIndex;
use crate::parsing::grammar::Parser;
use crate::parsing::plan::{draw, holds, EvalError, Operation, Plan, PlanView, Step, StepView};
use crate::parsing::laws::{
    clear_of, keeps, lemma_eval, lemma_filled_is_plain, lemma_run, stores_formulas,
};
use crate::parsing::rules::{
    call, compute, eval, eval_each, followed, is_formula, lemma_unvisited_shrinks, resolve, run,
    run_from, settle, unvisited, Outcome,
};
use crate::parsing::table::{filled, is_plain, table_of, table_text, Cell, Table};
use crate::parsing::tree::{
    lemma_views, views, Binary, CellRef, Expression, FnExpression, Group, Literal, Unary,
};
use crate::scanning::lexer::{lower_case, Builtin, Tokenizer};
use crate::scanning::token::{LiteralValue, TokenType};
use crate::text::chars_of;
use vstd::prelude::*;
use vstd::std_specs::vec::axiom_vec_index_decreases;

verus! {

/// The plan and the result are those of the outcome.
pub open spec fn agrees(plan: PlanView, result: Result<(), EvalError>, outcome: Outcome) -> bool {
    plan == outcome.plan && match outcome.result {
        Ok(()) => result is Ok,
        Err(error) => result matches Err(found) && found@ == error,
    }
}

impl Expression {
    /// Evaluates the expression: adds to `plan` the steps that leave its
    /// value on the stack. `expr_cells` is the table that references are
    /// looked up in, and `visiting` the path of formulas being evaluated,
    /// which is the same after the call as before.
    ///
    /// A plan that can be carried out, and that stores the result of no
    /// cell on the path, can be carried out afterwards too; where
    /// evaluation succeeds it leaves one value more on the stack.
    pub fn evaluate(
        &self,
        expr_cells: &Table,
        plan: &mut Plan,
        visiting: &mut Vec<CellIndex>,
    ) -> (result: Result<(), EvalError>)
        ensures
            final(visiting)@ == old(visiting)@,
            agrees(final(plan)@, result, eval(expr_cells@, self@, old(plan)@, old(visiting)@)),
            old(plan)@.sound() && clear_of(old(plan)@, old(visiting)@) ==> keeps(
                old(plan)@,
                eval(expr_cells@, self@, old(plan)@, old(visiting)@),
                expr_cells@,
                old(visiting)@,
                1,
            ),
        decreases unvisited(expr_cells@, old(visiting)@).len(), 3nat, self, 0nat,
    {
        proof {
            if plan@.sound() && clear_of(plan@, visiting@) {
                lemma_eval(expr_cells@, self@, plan@, visiting@);
            }
        }
        match self {
            Expression::Literal(literal) => literal.evaluate(expr_cells, plan, visiting),
            Expression::CellRef(reference) => reference.evaluate(expr_cells, plan, visiting),
            Expression::Group(group) => group.evaluate(expr_cells, plan, visiting),
            Expression::Unary(unary) => unary.evaluate(expr_cells, plan, visiting),
            Expression::Binary(binary) => binary.evaluate(expr_cells, plan, visiting),
            Expression::Function(function) => function.evaluate(expr_cells, plan, visiting),
        }
    }
}

impl Binary {
    /// Evaluates the left operand, then the right one, then applies the
    /// operator.
    pub fn evaluate(
        &self,
        expr_cells: &Table,
        plan: &mut Plan,
        visiting: &mut Vec<CellIndex>,
    ) -> (result: Result<(), EvalError>)
        ensures
            final(visiting)@ == old(visiting)@,
            agrees(final(plan)@, result, eval(expr_cells@, self@, old(plan)@, old(visiting)@)),
        decreases unvisited(expr_cells@, old(visiting)@).len(), 3nat, self, 0nat,
    {
        match self.left.evaluate(expr_cells, plan, visiting) {
            Ok(()) => {},
            Err(error) => {
                return Err(error);
            },
        }
        match self.right.evaluate(expr_cells, plan, visiting) {
            Ok(()) => {},
            Err(error) => {
                return Err(error);
            },
        }
        let operation = match self.operator.get_type() {
            TokenType::Plus => Operation::Add,
            TokenType::Minus => Operation::Subtract,
            TokenType::Star => Operation::Multiply,
            TokenType::Slash => Operation::Divide,
            _ => {
                return Err(EvalError::NotImplemented(self.operator.get_lexeme().clone()));
            },
        };
        plan.push(Step::Apply(operation));
        Ok(())
    }
}

impl Unary {
    /// Evaluates the operand, then applies the sign.
    pub fn evaluate(
        &self,
        expr_cells: &Table,
        plan: &mut Plan,
        visiting: &mut Vec<CellIndex>,
    ) -> (result: Result<(), EvalError>)
        ensures
            final(visiting)@ == old(visiting)@,
            agrees(final(plan)@, result, eval(expr_cells@, self@, old(plan)@, old(visiting)@)),
        decreases unvisited(expr_cells@, old(visiting)@).len(), 3nat, self, 0nat,
    {
        match self.operand.evaluate(expr_cells, plan, visiting) {
            Ok(()) => {},
            Err(error) => {
                return Err(error);
            },
        }
        match self.operator.get_type() {
            TokenType::Plus => Ok(()),
            TokenType::Minus => {
                plan.push(Step::Apply(Operation::Negate));
                Ok(())
            },
            _ => Err(EvalError::NotImplemented(self.operator.get_lexeme().clone())),
        }
    }
}

impl Group {
    pub fn evaluate(
        &self,
        expr_cells: &Table,
        plan: &mut Plan,
        visiting: &mut Vec<CellIndex>,
    ) -> (result: Result<(), EvalError>)
        ensures
            final(visiting)@ == old(visiting)@,
            agrees(final(plan)@, result, eval(expr_cells@, self@, old(plan)@, old(visiting)@)),
        decreases unvisited(expr_cells@, old(visiting)@).len(), 3nat, self, 0nat,
    {
        self.inner.evaluate(expr_cells, plan, visiting)
    }
}

impl Literal {
    /// Adds the step that puts the number on the stack.
    pub fn evaluate(
        &self,
        expr_cells: &Table,
        plan: &mut Plan,
        visiting: &mut Vec<CellIndex>,
    ) -> (result: Result<(), EvalError>)
        ensures
            final(visiting)@ == old(visiting)@,
            agrees(final(plan)@, result, eval(expr_cells@, self@, old(plan)@, old(visiting)@)),
    {
        match (self.token.get_type(), &self.token.literal) {
            (TokenType::Number, Some(LiteralValue::Float(numeral))) => {
                plan.push(Step::Number(numeral.clone()));
                Ok(())
            },
            _ => Err(EvalError::TypeMismatch),
        }
    }
}

impl FnExpression {
    /// Evaluates the call: checks the number of arguments, evaluates them
    /// in order and applies the function.
    pub fn evaluate(
        &self,
        expr_cells: &Table,
        plan: &mut Plan,
        visiting: &mut Vec<CellIndex>,
    ) -> (result: Result<(), EvalError>)
        ensures
            final(visiting)@ == old(visiting)@,
            agrees(final(plan)@, result, eval(expr_cells@, self@, old(plan)@, old(visiting)@)),
        decreases unvisited(expr_cells@, old(visiting)@).len(), 3nat, self, 2nat,
    {
        let count = self.params.len();
        let written = chars_of(self.name.as_str());
        assert(written@.subrange(0, written.len() as int) == written@);
        let name = lower_case(&written, 0, written.len());
        proof {
            lemma_views(self.params@);
        }
        assert(eval(expr_cells@, self@, plan@, visiting@) == call(
            expr_cells@,
            self.name@,
            views(self.params@),
            plan@,
            visiting@,
        ));
        match Builtin::named(&name) {
            Some(Builtin::Random) => {
                if count != 0 {
                    return Err(EvalError::Arity(Builtin::Random, count));
                }
                plan.push(Step::Random(draw()));
                Ok(())
            },
            Some(Builtin::RandBetween) => {
                if count != 2 {
                    return Err(EvalError::Arity(Builtin::RandBetween, count));
                }
                self.finish(Operation::Between, expr_cells, plan, visiting)
            },
            Some(Builtin::Sum) => {
                plan.push(Step::Count(0));
                self.evaluate_each(0, Some(Operation::Add), expr_cells, plan, visiting)
            },
            Some(Builtin::Average) => {
                if count == 0 {
                    return Err(EvalError::Arity(Builtin::Average, count));
                }
                plan.push(Step::Count(0));
                match self.evaluate_each(0, Some(Operation::Add), expr_cells, plan, visiting) {
                    Ok(()) => {},
                    Err(error) => {
                        return Err(error);
                    },
                }
                plan.push(Step::Count(count));
                plan.push(Step::Apply(Operation::Divide));
                Ok(())
            },
            Some(Builtin::Max) => {
                if count == 0 {
                    return Err(EvalError::Arity(Builtin::Max, count));
                }
                self.extreme(Operation::Greater, expr_cells, plan, visiting)
            },
            Some(Builtin::Min) => {
                if count == 0 {
                    return Err(EvalError::Arity(Builtin::Min, count));
                }
                self.extreme(Operation::Less, expr_cells, plan, visiting)
            },
            Some(Builtin::If) => {
                if count != 3 {
                    return Err(EvalError::Arity(Builtin::If, count));
                }
                self.finish(Operation::Select, expr_cells, plan, visiting)
            },
            _ => Err(EvalError::NotImplemented(self.name.clone())),
        }
    }

    /// Evaluates all arguments and then applies `last` to them.
    fn finish(
        &self,
        last: Operation,
        expr_cells: &Table,
        plan: &mut Plan,
        visiting: &mut Vec<CellIndex>,
    ) -> (result: Result<(), EvalError>)
        ensures
            final(visiting)@ == old(visiting)@,
            agrees(
                final(plan)@,
                result,
                followed(
                    eval_each(
                        expr_cells@,
                        views(self.params@),
                        0,
                        None,
                        old(plan)@,
                        old(visiting)@,
                    ),
                    StepView::Apply(last),
                ),
            ),
        decreases unvisited(expr_cells@, old(visiting)@).len(), 3nat, self, 1nat,
    {
        match self.evaluate_each(0, None, expr_cells, plan, visiting) {
            Ok(()) => {},
            Err(error) => {
                return Err(error);
            },
        }
        plan.push(Step::Apply(last));
        Ok(())
    }

    /// Evaluates the first argument, then each other one followed by
    /// `choice`, which keeps the greater or the lesser of two.
    fn extreme(
        &self,
        choice: Operation,
        expr_cells: &Table,
        plan: &mut Plan,
        visiting: &mut Vec<CellIndex>,
    ) -> (result: Result<(), EvalError>)
        requires
            self.params.len() > 0,
        ensures
            final(visiting)@ == old(visiting)@,
            agrees(
                final(plan)@,
                result,
                ({
                    let first = eval(
                        expr_cells@,
                        views(self.params@)[0],
                        old(plan)@,
                        old(visiting)@,
                    );
                    if first.result is Err {
                        first
                    } else {
                        eval_each(
                            expr_cells@,
                            views(self.params@),
                            1,
                            Some(choice),
                            first.plan,
                            old(visiting)@,
                        )
                    }
                }),
            ),
        decreases unvisited(expr_cells@, old(visiting)@).len(), 3nat, self, 1nat,
    {
        proof {
            lemma_views(self.params@);
            axiom_vec_index_decreases(self.params, 0);
        }
        match self.params[0].evaluate(expr_cells, plan, visiting) {
            Ok(()) => {},
            Err(error) => {
                return Err(error);
            },
        }
        self.evaluate_each(1, Some(choice), expr_cells, plan, visiting)
    }

    /// Evaluates the arguments from the one at `from` on, each followed by
    /// `after`, if there is one.
    fn evaluate_each(
        &self,
        from: usize,
        after: Option<Operation>,
        expr_cells: &Table,
        plan: &mut Plan,
        visiting: &mut Vec<CellIndex>,
    ) -> (result: Result<(), EvalError>)
        requires
            from <= self.params.len(),
        ensures
            final(visiting)@ == old(visiting)@,
            agrees(
                final(plan)@,
                result,
                eval_each(
                    expr_cells@,
                    views(self.params@),
                    from as nat,
                    after,
                    old(plan)@,
                    old(visiting)@,
                ),
            ),
        decreases unvisited(expr_cells@, old(visiting)@).len(), 3nat, self, 0nat,
    {
        let ghost arguments = views(self.params@);
        let ghost target = eval_each(
            expr_cells@,
            arguments,
            from as nat,
            after,
            old(plan)@,
            old(visiting)@,
        );
        proof {
            lemma_views(self.params@);
        }
        let mut i: usize = from;
        while i < self.params.len()
            invariant
                from <= i <= self.params.len(),
                arguments == views(self.params@),
                arguments.len() == self.params.len(),
                visiting@ == old(visiting)@,
                target == eval_each(
                    expr_cells@,
                    arguments,
                    from as nat,
                    after,
                    old(plan)@,
                    old(visiting)@,
                ),
                eval_each(expr_cells@, arguments, i as nat, after, plan@, visiting@) == target,
            decreases self.params.len() - i,
        {
            proof {
                lemma_views(self.params@);
                axiom_vec_index_decreases(self.params, i as int);
            }
            match self.params[i].evaluate(expr_cells, plan, visiting) {
                Ok(()) => {},
                Err(error) => {
                    return Err(error);
                },
            }
            match after {
                Some(operation) => {
                    plan.push(Step::Apply(operation));
                },
                None => {},
            }
            i += 1;
        }
        Ok(())
    }
}

impl CellRef {
    /// Evaluates the reference: see [`CellRef::resolve`].
    pub fn evaluate(
        &self,
        expr_cells: &Table,
        plan: &mut Plan,
        visiting: &mut Vec<CellIndex>,
    ) -> (result: Result<(), EvalError>)
        ensures
            final(visiting)@ == old(visiting)@,
            agrees(final(plan)@, result, eval(expr_cells@, self@, old(plan)@, old(visiting)@)),
        decreases unvisited(expr_cells@, old(visiting)@).len(), 2nat, self, 0nat,
    {
        match &self.token.literal {
            Some(LiteralValue::CellRef(index)) => CellRef::resolve(
                *index,
                expr_cells,
                plan,
                visiting,
            ),
            _ => Err(EvalError::TypeMismatch),
        }
    }

    /// Lays out the value of the cell at `index`: recalls a stored result;
    /// else takes the number that the cell's text writes; else evaluates
    /// the cell's formula, stores its result and recalls it. A cell that
    /// the table does not have is an error.
    pub fn resolve(
        index: CellIndex,
        expr_cells: &Table,
        plan: &mut Plan,
        visiting: &mut Vec<CellIndex>,
    ) -> (result: Result<(), EvalError>)
        ensures
            final(visiting)@ == old(visiting)@,
            agrees(final(plan)@, result, resolve(expr_cells@, index, old(plan)@, old(visiting)@)),
        decreases unvisited(expr_cells@, old(visiting)@).len(), 1nat, index, 0nat,
    {
        if plan.is_stored(&index) {
            plan.push(Step::Recall(index));
            return Ok(());
        }
        match expr_cells.get(&index) {
            None => Err(EvalError::Reference(index)),
            Some(Cell::Value(text)) => {
                plan.push(Step::Number(text.clone()));
                Ok(())
            },
            Some(Cell::Expression(_)) => {
                match CellRef::compute(index, expr_cells, plan, visiting) {
                    Ok(()) => {},
                    Err(error) => {
                        return Err(error);
                    },
                }
                plan.push(Step::Recall(index));
                Ok(())
            },
        }
    }

    /// Evaluates the formula of the cell at `index` and stores its result.
    /// A cell that is on the path already is a cycle. A cell without a
    /// formula needs nothing.
    pub fn compute(
        index: CellIndex,
        expr_cells: &Table,
        plan: &mut Plan,
        visiting: &mut Vec<CellIndex>,
    ) -> (result: Result<(), EvalError>)
        ensures
            final(visiting)@ == old(visiting)@,
            agrees(final(plan)@, result, compute(expr_cells@, index, old(plan)@, old(visiting)@)),
        decreases unvisited(expr_cells@, old(visiting)@).len(), 0nat, index, 0nat,
    {
        let source = match expr_cells.get(&index) {
            Some(Cell::Expression(source)) => source,
            _ => {
                return Ok(());
            },
        };
        if holds(visiting, &index) {
            let mut path = CellRef::copy_of(visiting);
            path.push(index);
            return Err(EvalError::Cycle(path));
        }
        let tokens = match Tokenizer::new(source.clone()).get_tokens() {
            Ok(tokens) => tokens,
            Err(error) => {
                return Err(EvalError::Lex(error));
            },
        };
        let mut parser = Parser::new(tokens);
        let expression = match parser.parse() {
            Ok(expression) => expression,
            Err(error) => {
                return Err(EvalError::Parse(error));
            },
        };
        proof {
            lemma_unvisited_shrinks(expr_cells@, visiting@, index);
        }
        visiting.push(index);
        let result = expression.evaluate(expr_cells, plan, visiting);
        visiting.pop();
        match result {
            Ok(()) => {
                plan.settle(index);
                Ok(())
            },
            Err(error) => Err(error),
        }
    }

    fn copy_of(cells: &Vec<CellIndex>) -> (copy: Vec<CellIndex>)
        ensures
            copy@ == cells@,
    {
        let mut copy: Vec<CellIndex> = Vec::new();
        let mut i: usize = 0;
        while i < cells.len()
            invariant
                i <= cells.len(),
                copy@ == cells@.take(i as int),
            decreases cells.len() - i,
        {
            copy.push(cells[i]);
            i += 1;
        }
        copy
    }
}

/// A table read from text, the plan that evaluates its formulas, and the
/// first error, if evaluation met one. After an error the plan holds the
/// steps laid out until there.
#[derive(Debug)]
pub struct Worksheet {
    pub table: Table,
    pub plan: Plan,
    pub result: Result<(), EvalError>,
}

impl Worksheet {
    /// The table as text, with the results in place of the formulas.
    /// `results` holds the results as text, one for each cell that the plan
    /// stores, in the plan's order. There is no text where evaluation met
    /// an error, or where `results` has not as many texts as the plan stores
    /// cells. Where it has, and the plan stores every formula of the table,
    /// no formula is left in what is written.
    pub fn render(self, results: Vec<String>) -> (output: Option<String>)
        ensures
            output is Some <==> self.result is Ok && results.len() == self.plan.stored.len(),
            output matches Some(text) ==> text@ == table_text(
                filled(self.table@, self.plan@.stored, results.deep_view()),
            ),
            output is Some && (forall|index: CellIndex|
                is_formula(self.table@, index) ==> #[trigger] self.plan@.stored.contains(index))
                ==> is_plain(filled(self.table@, self.plan@.stored, results.deep_view())),
    {
        if self.result.is_err() || results.len() != self.plan.stored.len() {
            return None;
        }
        let ghost texts = results.deep_view();
        let ghost cells = self.plan@.stored;
        let ghost first = self.table@;
        proof {
            if forall|index: CellIndex|
                is_formula(first, index) ==> #[trigger] cells.contains(index) {
                lemma_filled_is_plain(first, cells, texts);
            }
        }
        let mut table = self.table;
        let mut i: usize = 0;
        while i < results.len()
            invariant
                i <= results.len() == self.plan.stored.len(),
                cells == self.plan.stored@,
                texts == results.deep_view(),
                table@ == filled(first, cells.take(i as int), texts.take(i as int)),
            decreases results.len() - i,
        {
            assert(cells.take(i + 1).drop_last() == cells.take(i as int));
            assert(texts.take(i + 1).drop_last() == texts.take(i as int));
            table.put(self.plan.stored[i], Cell::Value(results[i].clone()));
            i += 1;
        }
        assert(cells.take(i as int) == cells);
        assert(texts.take(i as int) == texts);
        Some(table.render())
    }
}

impl Parser {
    /// Reads the table that `file_content` holds and evaluates each of its
    /// formulas once, by rows and in each row by columns.
    ///
    /// The plan can be carried out as far as it goes, and stores only
    /// results of formulas, none twice. Where evaluation succeeds, the plan
    /// leaves the stack empty and stores the result of every formula.
    pub fn parse_file(file_content: String) -> (sheet: Worksheet)
        ensures
            sheet.table@ == table_of(file_content@),
            agrees(sheet.plan@, sheet.result, run(sheet.table@)),
            sheet.plan@.sound(),
            stores_formulas(sheet.plan@, sheet.table@),
            sheet.result is Ok ==> sheet.plan@.depth() == 0,
            sheet.result is Ok ==> forall|index: CellIndex|
                is_formula(sheet.table@, index) ==> #[trigger] sheet.plan@.stored.contains(index),
    {
        let table = Table::from_text(file_content.as_str());
        let mut plan = Plan::new();
        proof {
            lemma_run(table@);
        }
        let mut row: usize = 0;
        while row < table.rows.len()
            invariant
                row <= table.rows.len(),
                table@ == table_of(file_content@),
                run(table@).plan.sound(),
                stores_formulas(run(table@).plan, table@),
                run_from(table@, row as nat, 0, plan@) == run(table@),
            decreases table.rows.len() - row,
        {
            let mut column: usize = 0;
            while column < table.rows[row].len()
                invariant
                    row < table.rows.len(),
                    table@ == table_of(file_content@),
                    run(table@).plan.sound(),
                    stores_formulas(run(table@).plan, table@),
                    column <= table.rows[row as int].len(),
                    table@[row as int].len() == table.rows[row as int].len(),
                    run_from(table@, row as nat, column as nat, plan@) == run(table@),
                decreases table.rows[row as int].len() - column,
            {
                let index = CellIndex::new(row, column);
                match Parser::settle(index, &table, &mut plan) {
                    Ok(()) => {},
                    Err(error) => {
                        return Worksheet { table, plan, result: Err(error) };
                    },
                }
                column += 1;
            }
            row += 1;
        }
        Worksheet { table, plan, result: Ok(()) }
    }

    /// Evaluates the formula of the cell at `index`, unless the cell holds
    /// none or its result is stored.
    pub fn settle(index: CellIndex, table: &Table, plan: &mut Plan) -> (result: Result<
        (),
        EvalError,
    >)
        ensures
            agrees(final(plan)@, result, settle(table@, index, old(plan)@)),
    {
        if plan.is_stored(&index) {
            return Ok(());
        }
        let mut visiting: Vec<CellIndex> = Vec::new();
        CellRef::compute(index, table, plan, &mut visiting)
    }
}

} // verus!
