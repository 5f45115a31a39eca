//! What evaluating an expression means.
//!
//! Evaluating an expression adds to a plan the steps that leave the
//! expression's value on top of the stack. A reference to a cell that holds
//! a formula evaluates that formula first, unless its result is stored; the
//! cells whose formula is being evaluated make the path, and a formula that
//! refers to a cell on the path is a cycle. Evaluation stops at the first
//! error, and the plan then holds the steps laid out until there.

use crate::address::CellIndex;
use crate::parsing::grammar::expression;
use crate::parsing::plan::{EvalErrorView, Operation, PlanView, StepView};
use crate::parsing::table::{cell_at, CellView};
use crate::parsing::tree::ExprView;
use crate::scanning::lexer::{builtin_named, lowered, scan, Builtin};
use crate::scanning::token::{LiteralView, TokenType};
use vstd::prelude::*;
use vstd::set_lib::lemma_set_subset_finite;

verus! {

/// A plan, and whether laying it out went well.
pub struct Outcome {
    pub plan: PlanView,
    pub result: Result<(), EvalErrorView>,
}

pub open spec fn done(plan: PlanView) -> Outcome {
    Outcome { plan, result: Ok(()) }
}

pub open spec fn failed(plan: PlanView, error: EvalErrorView) -> Outcome {
    Outcome { plan, result: Err(error) }
}

/// The outcome with one more step, if it is no failure.
pub open spec fn followed(outcome: Outcome, step: StepView) -> Outcome {
    if outcome.result is Ok {
        done(outcome.plan.with(step))
    } else {
        outcome
    }
}

/// The table has a cell at the address, and it holds a formula.
pub open spec fn is_formula(table: Seq<Seq<CellView>>, index: CellIndex) -> bool {
    cell_at(table, index) matches Some(CellView::Expression(_))
}

/// The cells with a formula that are not on the path.
pub open spec fn unvisited(table: Seq<Seq<CellView>>, path: Seq<CellIndex>) -> Set<CellIndex> {
    Set::new(|index: CellIndex| is_formula(table, index) && !path.contains(index))
}

/// The operation that a binary operator stands for.
pub open spec fn binary_operation(kind: TokenType) -> Option<Operation> {
    match kind {
        TokenType::Plus => Some(Operation::Add),
        TokenType::Minus => Some(Operation::Subtract),
        TokenType::Star => Some(Operation::Multiply),
        TokenType::Slash => Some(Operation::Divide),
        _ => None,
    }
}

/// Evaluates an expression.
///
/// A number gives one step. A group is evaluated as what it holds. A sign
/// or an operator is applied after its operands are evaluated, the left one
/// first. A node whose token does not fit it (a number without a numeral, a
/// reference without an address) is a type mismatch; an operator that is
/// none is not implemented.
pub open spec fn eval(
    table: Seq<Seq<CellView>>,
    tree: ExprView,
    plan: PlanView,
    path: Seq<CellIndex>,
) -> Outcome
    decreases unvisited(table, path).len(), 2nat, tree, 0nat,
{
    match tree {
        ExprView::Literal(token) => match (token.kind, token.literal) {
            (TokenType::Number, Some(LiteralView::Float(numeral))) => done(
                plan.with(StepView::Number(numeral)),
            ),
            _ => failed(plan, EvalErrorView::TypeMismatch),
        },
        ExprView::CellRef(token) => match token.literal {
            Some(LiteralView::CellRef(index)) => resolve(table, index, plan, path),
            _ => failed(plan, EvalErrorView::TypeMismatch),
        },
        ExprView::Group(inner) => eval(table, *inner, plan, path),
        ExprView::Unary(operator, operand) => {
            let inner = eval(table, *operand, plan, path);
            if inner.result is Err {
                inner
            } else {
                match operator.kind {
                    TokenType::Plus => inner,
                    TokenType::Minus => done(inner.plan.with(StepView::Apply(Operation::Negate))),
                    _ => failed(inner.plan, EvalErrorView::NotImplemented(operator.lexeme)),
                }
            }
        },
        ExprView::Binary(left, operator, right) => {
            let first = eval(table, *left, plan, path);
            if first.result is Err {
                first
            } else {
                let second = eval(table, *right, first.plan, path);
                if second.result is Err {
                    second
                } else {
                    match binary_operation(operator.kind) {
                        Some(operation) => done(second.plan.with(StepView::Apply(operation))),
                        None => failed(
                            second.plan,
                            EvalErrorView::NotImplemented(operator.lexeme),
                        ),
                    }
                }
            }
        },
        ExprView::Function(name, arguments) => call(table, name, arguments, plan, path),
    }
}

/// Evaluates the call of a function, found by its name in any case of
/// letters.
///
/// | name | arguments | value |
/// |---|---|---|
/// | `random` | none | a number drawn at random |
/// | `randbetween` | two | a number drawn between them |
/// | `sum` | any | zero, and each argument added in turn |
/// | `average` | one or more | their sum divided by their count |
/// | `max`, `min` | one or more | the first, replaced in turn by each greater or lesser one |
/// | `if` | three | the second if the first is not zero, else the third |
///
/// The number of arguments is checked before any of them is evaluated, and
/// all are evaluated, in order. `vlookup`, `concatenate` and every other
/// name are not implemented; the error holds the name as it is written.
pub open spec fn call(
    table: Seq<Seq<CellView>>,
    name: Seq<char>,
    arguments: Seq<ExprView>,
    plan: PlanView,
    path: Seq<CellIndex>,
) -> Outcome
    decreases unvisited(table, path).len(), 2nat, arguments, arguments.len() + 1,
{
    let count = arguments.len();
    match builtin_named(lowered(name)) {
        Some(Builtin::Random) => if count != 0 {
            failed(plan, EvalErrorView::Arity(Builtin::Random, count))
        } else {
            done(plan.with(StepView::Random))
        },
        Some(Builtin::RandBetween) => if count != 2 {
            failed(plan, EvalErrorView::Arity(Builtin::RandBetween, count))
        } else {
            followed(
                eval_each(table, arguments, 0, None, plan, path),
                StepView::Apply(Operation::Between),
            )
        },
        Some(Builtin::Sum) => eval_each(
            table,
            arguments,
            0,
            Some(Operation::Add),
            plan.with(StepView::Count(0)),
            path,
        ),
        Some(Builtin::Average) => if count == 0 {
            failed(plan, EvalErrorView::Arity(Builtin::Average, count))
        } else {
            followed(
                followed(
                    eval_each(
                        table,
                        arguments,
                        0,
                        Some(Operation::Add),
                        plan.with(StepView::Count(0)),
                        path,
                    ),
                    StepView::Count(count),
                ),
                StepView::Apply(Operation::Divide),
            )
        },
        Some(Builtin::Max) => if count == 0 {
            failed(plan, EvalErrorView::Arity(Builtin::Max, count))
        } else {
            let first = eval(table, arguments[0], plan, path);
            if first.result is Err {
                first
            } else {
                eval_each(table, arguments, 1, Some(Operation::Greater), first.plan, path)
            }
        },
        Some(Builtin::Min) => if count == 0 {
            failed(plan, EvalErrorView::Arity(Builtin::Min, count))
        } else {
            let first = eval(table, arguments[0], plan, path);
            if first.result is Err {
                first
            } else {
                eval_each(table, arguments, 1, Some(Operation::Less), first.plan, path)
            }
        },
        Some(Builtin::If) => if count != 3 {
            failed(plan, EvalErrorView::Arity(Builtin::If, count))
        } else {
            followed(
                eval_each(table, arguments, 0, None, plan, path),
                StepView::Apply(Operation::Select),
            )
        },
        _ => failed(plan, EvalErrorView::NotImplemented(name)),
    }
}

/// Evaluates the arguments from the one at `from` on, each followed by the
/// operation `after`, if there is one.
pub open spec fn eval_each(
    table: Seq<Seq<CellView>>,
    arguments: Seq<ExprView>,
    from: nat,
    after: Option<Operation>,
    plan: PlanView,
    path: Seq<CellIndex>,
) -> Outcome
    decreases unvisited(table, path).len(), 2nat, arguments, arguments.len() - from,
{
    if from >= arguments.len() {
        done(plan)
    } else {
        let one = eval(table, arguments[from as int], plan, path);
        if one.result is Err {
            one
        } else {
            eval_each(table, arguments, from + 1, after, folded(one.plan, after), path)
        }
    }
}

/// The plan with the operation `after` as one more step, if there is one.
pub open spec fn folded(plan: PlanView, after: Option<Operation>) -> PlanView {
    match after {
        Some(operation) => plan.with(StepView::Apply(operation)),
        None => plan,
    }
}

/// Evaluates a reference to the cell at `index`.
///
/// A stored result is recalled. Otherwise the table must have the cell:
/// text gives the number that it writes, and is not stored; a formula is
/// evaluated, its result stored and then recalled.
pub open spec fn resolve(
    table: Seq<Seq<CellView>>,
    index: CellIndex,
    plan: PlanView,
    path: Seq<CellIndex>,
) -> Outcome
    decreases unvisited(table, path).len(), 1nat, index, 0nat,
{
    if plan.stored.contains(index) {
        done(plan.with(StepView::Recall(index)))
    } else {
        match cell_at(table, index) {
            None => failed(plan, EvalErrorView::Reference(index)),
            Some(CellView::Value(text)) => done(plan.with(StepView::Number(text))),
            Some(CellView::Expression(_)) => followed(
                compute(table, index, plan, path),
                StepView::Recall(index),
            ),
        }
    }
}

/// Evaluates the formula of the cell at `index` and stores its result.
///
/// A cell on the path is a cycle. Otherwise the formula's source is scanned
/// and parsed, and the expression is evaluated with the cell at the end of
/// the path. A cell that holds no formula needs no step.
pub open spec fn compute(
    table: Seq<Seq<CellView>>,
    index: CellIndex,
    plan: PlanView,
    path: Seq<CellIndex>,
) -> Outcome
    decreases unvisited(table, path).len(), 0nat, index, 0nat,
{
    match cell_at(table, index) {
        Some(CellView::Expression(source)) => if path.contains(index) {
            failed(plan, EvalErrorView::Cycle(path.push(index)))
        } else {
            match scan(source) {
                Err(error) => failed(plan, EvalErrorView::Lex(error)),
                Ok(tokens) => match expression(tokens, 0) {
                    Err(error) => failed(plan, EvalErrorView::Parse(error)),
                    Ok(parsed) => {
                        proof {
                            lemma_unvisited_shrinks(table, path, index);
                        }
                        let inner = eval(table, parsed.tree, plan, path.push(index));
                        if inner.result is Ok {
                            done(inner.plan.settled(index))
                        } else {
                            inner
                        }
                    },
                },
            }
        },
        _ => done(plan),
    }
}

/// Evaluates the formula of the cell at `index`, unless the cell holds none
/// or its result is stored.
pub open spec fn settle(table: Seq<Seq<CellView>>, index: CellIndex, plan: PlanView) -> Outcome {
    if plan.stored.contains(index) {
        done(plan)
    } else {
        compute(table, index, plan, Seq::empty())
    }
}

/// Evaluates the formulas from the cell at `row` and `column` on: the rest
/// of that row, then the rows after it.
pub open spec fn run_from(table: Seq<Seq<CellView>>, row: nat, column: nat, plan: PlanView) -> Outcome
    decreases table.len() - row, table[row as int].len() - column,
{
    if row >= table.len() {
        done(plan)
    } else if column >= table[row as int].len() {
        run_from(table, row + 1, 0, plan)
    } else {
        let one = settle(table, CellIndex { row: row as usize, column: column as usize }, plan);
        if one.result is Err {
            one
        } else {
            run_from(table, row, column + 1, one.plan)
        }
    }
}

/// Evaluates every formula of a table, by rows and in each row by columns.
pub open spec fn run(table: Seq<Seq<CellView>>) -> Outcome {
    run_from(table, 0, 0, PlanView::empty())
}

/// The cells of row `row` in the columns before `columns`.
spec fn row_cells(row: int, columns: int) -> Set<CellIndex> {
    Set::new(|index: CellIndex| index.row == row && index.column < columns)
}

/// The cells of the rows before `rows`.
spec fn table_cells(table: Seq<Seq<CellView>>, rows: int) -> Set<CellIndex> {
    Set::new(|index: CellIndex| index.row < rows && cell_at(table, index) is Some)
}

proof fn lemma_row_cells_finite(row: int, columns: int)
    requires
        0 <= columns,
    ensures
        row_cells(row, columns).finite(),
    decreases columns,
{
    if columns == 0 || row < 0 || row > usize::MAX {
        assert(row_cells(row, columns) =~= Set::empty());
    } else {
        lemma_row_cells_finite(row, columns - 1);
        let last = CellIndex { row: row as usize, column: (columns - 1) as usize };
        lemma_set_subset_finite(row_cells(row, columns - 1).insert(last), row_cells(row, columns));
    }
}

proof fn lemma_table_cells_finite(table: Seq<Seq<CellView>>, rows: int)
    requires
        0 <= rows <= table.len(),
    ensures
        table_cells(table, rows).finite(),
    decreases rows,
{
    if rows == 0 {
        assert(table_cells(table, rows) =~= Set::empty());
    } else {
        lemma_table_cells_finite(table, rows - 1);
        lemma_row_cells_finite(rows - 1, table[rows - 1].len() as int);
        let both = table_cells(table, rows - 1).union(
            row_cells(rows - 1, table[rows - 1].len() as int),
        );
        lemma_set_subset_finite(both, table_cells(table, rows));
    }
}

/// A table has finitely many formulas.
pub proof fn lemma_unvisited_finite(table: Seq<Seq<CellView>>, path: Seq<CellIndex>)
    ensures
        unvisited(table, path).finite(),
{
    lemma_table_cells_finite(table, table.len() as int);
    lemma_set_subset_finite(table_cells(table, table.len() as int), unvisited(table, path));
}

/// A formula that comes onto the path leaves fewer formulas off it.
pub proof fn lemma_unvisited_shrinks(
    table: Seq<Seq<CellView>>,
    path: Seq<CellIndex>,
    index: CellIndex,
)
    requires
        is_formula(table, index),
        !path.contains(index),
    ensures
        unvisited(table, path.push(index)).len() < unvisited(table, path).len(),
{
    lemma_unvisited_finite(table, path);
    let before = unvisited(table, path);
    let after = unvisited(table, path.push(index));
    assert(after =~= before.remove(index)) by {
        assert forall|other: CellIndex| after.contains(other) == before.remove(index).contains(
            other,
        ) by {
            if other != index {
                if path.contains(other) {
                    let i = choose|i: int| 0 <= i < path.len() && path[i] == other;
                    assert(path.push(index)[i] == other);
                }
            } else {
                assert(path.push(index)[path.len() as int] == index);
            }
        }
    }
}

} // verus!
