//! What holds of every plan that evaluation lays out.

use crate::address::{cell_name, CellIndex};
use crate::parsing::grammar::expression;
use crate::parsing::plan::EvalErrorView;
use crate::parsing::plan::{operands, Operation, PlanView, StepView};
use crate::parsing::rules::{
    call, compute, eval, eval_each, failed, folded, followed, is_formula,
    lemma_unvisited_shrinks, resolve, run, run_from, settle, unvisited, Outcome,
};
use crate::scanning::laws::lemma_name_scans;
use crate::parsing::table::{cell_at, filled, is_plain, CellView};
use crate::parsing::tree::ExprView;
use crate::scanning::lexer::{builtin_named, lowered, scan, Builtin};
use crate::scanning::token::LiteralView;
use vstd::prelude::*;

verus! {

/// No cell of the path has its result stored.
pub open spec fn clear_of(plan: PlanView, path: Seq<CellIndex>) -> bool {
    forall|index: CellIndex| path.contains(index) ==> !plan.stored.contains(index)
}

/// `after` stores what `before` stores, and besides only formulas of the
/// table that are not on the path.
pub open spec fn extends(
    before: PlanView,
    after: PlanView,
    table: Seq<Seq<CellView>>,
    path: Seq<CellIndex>,
) -> bool {
    &&& forall|index: CellIndex|
        before.stored.contains(index) ==> #[trigger] after.stored.contains(index)
    &&& forall|index: CellIndex|
        #[trigger] after.stored.contains(index) && !before.stored.contains(index) ==> is_formula(
            table,
            index,
        ) && !path.contains(index)
}

/// What evaluation keeps: the plan stays sound and grows as `extends`
/// says, and where evaluation succeeds the stack is `gain` values higher.
pub open spec fn keeps(
    before: PlanView,
    outcome: Outcome,
    table: Seq<Seq<CellView>>,
    path: Seq<CellIndex>,
    gain: nat,
) -> bool {
    &&& outcome.plan.sound()
    &&& extends(before, outcome.plan, table, path)
    &&& outcome.result is Ok ==> outcome.plan.depth() == before.depth() + gain
}

/// With one cell more, a sequence holds what it held and that cell.
pub proof fn lemma_contains_push(cells: Seq<CellIndex>, last: CellIndex, index: CellIndex)
    ensures
        cells.push(last).contains(index) <==> cells.contains(index) || index == last,
{
    if cells.contains(index) {
        let i = choose|i: int| 0 <= i < cells.len() && cells[i] == index;
        assert(cells.push(last)[i] == index);
    }
    if index == last {
        assert(cells.push(last)[cells.len() as int] == index);
    }
}

/// One more step that stores nothing keeps a plan sound, where the machine
/// can carry the step out.
proof fn lemma_with(plan: PlanView, step: StepView)
    requires
        plan.sound(),
        !(step is Store),
        step matches StepView::Recall(index) ==> plan.stored.contains(index),
        step matches StepView::Apply(operation) ==> plan.depth() >= operands(operation),
    ensures
        plan.with(step).sound(),
        plan.with(step).stored == plan.stored,
        plan.with(step).depth() == (match step {
            StepView::Apply(operation) => (plan.depth() - operands(operation) + 1) as nat,
            _ => plan.depth() + 1,
        }),
{
    assert(plan.steps.push(step).drop_last() == plan.steps);
}

/// Storing the top of the stack for a cell that is not stored keeps a plan
/// sound.
proof fn lemma_settled(plan: PlanView, index: CellIndex)
    requires
        plan.sound(),
        plan.depth() >= 1,
        !plan.stored.contains(index),
    ensures
        plan.settled(index).sound(),
        plan.settled(index).depth() == plan.depth() - 1,
        forall|other: CellIndex|
            #[trigger] plan.settled(index).stored.contains(other) <==> plan.stored.contains(other)
                || other == index,
{
    let after = plan.settled(index);
    assert(after.steps.drop_last() == plan.steps);
    assert forall|other: CellIndex| #[trigger]
        after.stored.contains(other) <==> plan.stored.contains(other) || other == index by {
        lemma_contains_push(plan.stored, index, other);
    }
}

/// Evaluating an expression keeps the plan sound and leaves one value more
/// on the stack.
pub proof fn lemma_eval(
    table: Seq<Seq<CellView>>,
    tree: ExprView,
    plan: PlanView,
    path: Seq<CellIndex>,
)
    requires
        plan.sound(),
        clear_of(plan, path),
    ensures
        keeps(plan, eval(table, tree, plan, path), table, path, 1),
    decreases unvisited(table, path).len(), 2nat, tree, 0nat,
{
    match tree {
        ExprView::Literal(token) => {
            if let Some(LiteralView::Float(numeral)) = token.literal {
                lemma_with(plan, StepView::Number(numeral));
            }
        },
        ExprView::CellRef(token) => {
            if let Some(LiteralView::CellRef(index)) = token.literal {
                lemma_resolve(table, index, plan, path);
            }
        },
        ExprView::Group(inner) => {
            lemma_eval(table, *inner, plan, path);
        },
        ExprView::Unary(operator, operand) => {
            lemma_eval(table, *operand, plan, path);
            let inner = eval(table, *operand, plan, path);
            if inner.result is Ok {
                lemma_with(inner.plan, StepView::Apply(Operation::Negate));
            }
        },
        ExprView::Binary(left, operator, right) => {
            lemma_eval(table, *left, plan, path);
            let first = eval(table, *left, plan, path);
            if first.result is Ok {
                lemma_eval(table, *right, first.plan, path);
                let second = eval(table, *right, first.plan, path);
                if second.result is Ok {
                    lemma_with(second.plan, StepView::Apply(Operation::Add));
                    lemma_with(second.plan, StepView::Apply(Operation::Subtract));
                    lemma_with(second.plan, StepView::Apply(Operation::Multiply));
                    lemma_with(second.plan, StepView::Apply(Operation::Divide));
                }
            }
        },
        ExprView::Function(name, arguments) => {
            lemma_call(table, name, arguments, plan, path);
        },
    }
}

/// A step after an outcome that left `gain` values more keeps what the
/// outcome keeps, with the gain that the step makes of it.
proof fn lemma_followed(
    before: PlanView,
    outcome: Outcome,
    table: Seq<Seq<CellView>>,
    path: Seq<CellIndex>,
    gain: nat,
    step: StepView,
)
    requires
        keeps(before, outcome, table, path, gain),
        !(step is Store),
        !(step is Recall),
        step matches StepView::Apply(operation) ==> gain >= operands(operation),
    ensures
        keeps(
            before,
            followed(outcome, step),
            table,
            path,
            match step {
                StepView::Apply(operation) => (gain - operands(operation) + 1) as nat,
                _ => gain + 1,
            },
        ),
{
    if outcome.result is Ok {
        lemma_with(outcome.plan, step);
    }
}

proof fn lemma_call(
    table: Seq<Seq<CellView>>,
    name: Seq<char>,
    arguments: Seq<ExprView>,
    plan: PlanView,
    path: Seq<CellIndex>,
)
    requires
        plan.sound(),
        clear_of(plan, path),
    ensures
        keeps(plan, call(table, name, arguments, plan, path), table, path, 1),
    decreases unvisited(table, path).len(), 2nat, arguments, arguments.len() + 1,
{
    let count = arguments.len();
    let zero = plan.with(StepView::Count(0));
    match builtin_named(lowered(name)) {
        Some(Builtin::Random) => {
            lemma_with(plan, StepView::Random);
        },
        Some(Builtin::RandBetween) => {
            if count == 2 {
                lemma_eval_each(table, arguments, 0, None, plan, path);
                lemma_followed(
                    plan,
                    eval_each(table, arguments, 0, None, plan, path),
                    table,
                    path,
                    2,
                    StepView::Apply(Operation::Between),
                );
            }
        },
        Some(Builtin::Sum) => {
            lemma_with(plan, StepView::Count(0));
            lemma_eval_each(table, arguments, 0, Some(Operation::Add), zero, path);
        },
        Some(Builtin::Average) => {
            if count != 0 {
                lemma_with(plan, StepView::Count(0));
                lemma_eval_each(table, arguments, 0, Some(Operation::Add), zero, path);
                let summed = eval_each(table, arguments, 0, Some(Operation::Add), zero, path);
                lemma_followed(plan, summed, table, path, 1, StepView::Count(count));
                lemma_followed(
                    plan,
                    followed(summed, StepView::Count(count)),
                    table,
                    path,
                    2,
                    StepView::Apply(Operation::Divide),
                );
            }
        },
        Some(Builtin::Max) => {
            if count != 0 {
                lemma_eval(table, arguments[0], plan, path);
                let first = eval(table, arguments[0], plan, path);
                if first.result is Ok {
                    lemma_eval_each(
                        table,
                        arguments,
                        1,
                        Some(Operation::Greater),
                        first.plan,
                        path,
                    );
                }
            }
        },
        Some(Builtin::Min) => {
            if count != 0 {
                lemma_eval(table, arguments[0], plan, path);
                let first = eval(table, arguments[0], plan, path);
                if first.result is Ok {
                    lemma_eval_each(table, arguments, 1, Some(Operation::Less), first.plan, path);
                }
            }
        },
        Some(Builtin::If) => {
            if count == 3 {
                lemma_eval_each(table, arguments, 0, None, plan, path);
                lemma_followed(
                    plan,
                    eval_each(table, arguments, 0, None, plan, path),
                    table,
                    path,
                    3,
                    StepView::Apply(Operation::Select),
                );
            }
        },
        _ => {},
    }
}

/// Evaluating arguments one after the other keeps the plan sound. Without
/// an operation after each, every argument leaves one value more; with
/// one that takes two operands, the stack ends as high as it began, which
/// must be one value or more.
proof fn lemma_eval_each(
    table: Seq<Seq<CellView>>,
    arguments: Seq<ExprView>,
    from: nat,
    after: Option<Operation>,
    plan: PlanView,
    path: Seq<CellIndex>,
)
    requires
        plan.sound(),
        clear_of(plan, path),
        from <= arguments.len(),
        after matches Some(operation) ==> operands(operation) == 2 && plan.depth() >= 1,
    ensures
        keeps(
            plan,
            eval_each(table, arguments, from, after, plan, path),
            table,
            path,
            if after is None {
                (arguments.len() - from) as nat
            } else {
                0
            },
        ),
    decreases unvisited(table, path).len(), 2nat, arguments, arguments.len() - from,
{
    if from < arguments.len() {
        lemma_eval(table, arguments[from as int], plan, path);
        let one = eval(table, arguments[from as int], plan, path);
        if one.result is Ok {
            if let Some(operation) = after {
                lemma_with(one.plan, StepView::Apply(operation));
            }
            lemma_eval_each(table, arguments, from + 1, after, folded(one.plan, after), path);
        }
    }
}

proof fn lemma_resolve(
    table: Seq<Seq<CellView>>,
    index: CellIndex,
    plan: PlanView,
    path: Seq<CellIndex>,
)
    requires
        plan.sound(),
        clear_of(plan, path),
    ensures
        keeps(plan, resolve(table, index, plan, path), table, path, 1),
    decreases unvisited(table, path).len(), 1nat, index, 0nat,
{
    if plan.stored.contains(index) {
        lemma_with(plan, StepView::Recall(index));
    } else {
        match cell_at(table, index) {
            None => {},
            Some(CellView::Value(text)) => {
                lemma_with(plan, StepView::Number(text));
            },
            Some(CellView::Expression(_)) => {
                lemma_compute(table, index, plan, path);
                let computed = compute(table, index, plan, path);
                if computed.result is Ok {
                    lemma_with(computed.plan, StepView::Recall(index));
                }
            },
        }
    }
}

/// Evaluating the formula of a cell that is not stored keeps the plan
/// sound, leaves the stack as high as it was, and has the cell stored.
proof fn lemma_compute(
    table: Seq<Seq<CellView>>,
    index: CellIndex,
    plan: PlanView,
    path: Seq<CellIndex>,
)
    requires
        plan.sound(),
        clear_of(plan, path),
        !plan.stored.contains(index),
    ensures
        keeps(plan, compute(table, index, plan, path), table, path, 0),
        compute(table, index, plan, path).result is Ok && is_formula(table, index) ==> compute(
            table,
            index,
            plan,
            path,
        ).plan.stored.contains(index),
    decreases unvisited(table, path).len(), 0nat, index, 0nat,
{
    if let Some(CellView::Expression(source)) = cell_at(table, index) {
        if !path.contains(index) {
            if let Ok(tokens) = scan(source) {
                if let Ok(parsed) = expression(tokens, 0) {
                    let longer = path.push(index);
                    lemma_unvisited_shrinks(table, path, index);
                    assert(clear_of(plan, longer)) by {
                        assert forall|other: CellIndex| longer.contains(other) implies !plan.stored.contains(
                            other,
                        ) by {
                            lemma_contains_push(path, index, other);
                        }
                    }
                    lemma_eval(table, parsed.tree, plan, longer);
                    let inner = eval(table, parsed.tree, plan, longer);
                    if inner.result is Ok {
                        assert(longer.contains(index)) by {
                            lemma_contains_push(path, index, index);
                        }
                        lemma_settled(inner.plan, index);
                        let after = inner.plan.settled(index);
                        assert(extends(plan, after, table, path)) by {
                            assert forall|other: CellIndex| #[trigger]
                                after.stored.contains(other) && !plan.stored.contains(
                                    other,
                                ) implies is_formula(table, other) && !path.contains(other) by {
                                if other != index {
                                    lemma_contains_push(path, index, other);
                                }
                            }
                        }
                    } else {
                        assert(extends(plan, inner.plan, table, path)) by {
                            assert forall|other: CellIndex| #[trigger]
                                inner.plan.stored.contains(other) && !plan.stored.contains(
                                    other,
                                ) implies is_formula(table, other) && !path.contains(other) by {
                                lemma_contains_push(path, index, other);
                            }
                        }
                    }
                }
            }
        }
    }
}

/// The cell comes before the place at `row` and `column`, by rows and in a
/// row by columns.
pub open spec fn precedes(index: CellIndex, row: nat, column: nat) -> bool {
    index.row < row || (index.row == row && index.column < column)
}

/// Only formulas of the table are stored.
pub open spec fn stores_formulas(plan: PlanView, table: Seq<Seq<CellView>>) -> bool {
    forall|index: CellIndex| #[trigger] plan.stored.contains(index) ==> is_formula(table, index)
}

proof fn lemma_run_from(table: Seq<Seq<CellView>>, row: nat, column: nat, plan: PlanView)
    requires
        plan.sound(),
        stores_formulas(plan, table),
        forall|index: CellIndex|
            is_formula(table, index) && precedes(index, row, column)
                ==> #[trigger] plan.stored.contains(index),
    ensures
        run_from(table, row, column, plan).plan.sound(),
        stores_formulas(run_from(table, row, column, plan).plan, table),
        run_from(table, row, column, plan).result is Ok ==> {
            &&& run_from(table, row, column, plan).plan.depth() == plan.depth()
            &&& forall|index: CellIndex|
                is_formula(table, index) ==> #[trigger] run_from(
                    table,
                    row,
                    column,
                    plan,
                ).plan.stored.contains(index)
        },
    decreases table.len() - row, table[row as int].len() - column,
{
    if row >= table.len() {
        // Nothing is left to evaluate.
    } else if column >= table[row as int].len() {
        lemma_run_from(table, row + 1, 0, plan);
    } else {
        let here = CellIndex { row: row as usize, column: column as usize };
        let empty = Seq::<CellIndex>::empty();
        let one = settle(table, here, plan);
        if !plan.stored.contains(here) {
            lemma_compute(table, here, plan, empty);
        }
        if one.result is Ok {
            lemma_run_from(table, row, column + 1, one.plan);
        }
    }
}

/// The plan that evaluates a table can be carried out, as far as it goes:
/// every operation finds its operands on the stack and every result that is
/// recalled is stored. It stores the result of no cell twice, and only
/// results of formulas. Where evaluation succeeds, the plan leaves the stack
/// empty, and every formula of the table has its result stored, so each is
/// evaluated exactly once.
pub proof fn lemma_run(table: Seq<Seq<CellView>>)
    ensures
        run(table).plan.sound(),
        stores_formulas(run(table).plan, table),
        run(table).result is Ok ==> run(table).plan.depth() == 0,
        run(table).result is Ok ==> forall|index: CellIndex|
            is_formula(table, index) ==> #[trigger] run(table).plan.stored.contains(index),
{
    let empty = PlanView::empty();
    lemma_run_from(table, 0, 0, empty);
}

/// Filling a table keeps its shape; a cell that is filled holds text, and
/// every other cell holds what it held.
pub proof fn lemma_filled(
    table: Seq<Seq<CellView>>,
    cells: Seq<CellIndex>,
    texts: Seq<Seq<char>>,
    index: CellIndex,
)
    requires
        cells.len() == texts.len(),
    ensures
        cell_at(filled(table, cells, texts), index) is Some <==> cell_at(table, index) is Some,
        cells.contains(index) && cell_at(table, index) is Some ==> cell_at(
            filled(table, cells, texts),
            index,
        ) matches Some(CellView::Value(_)),
        !cells.contains(index) ==> cell_at(filled(table, cells, texts), index) == cell_at(
            table,
            index,
        ),
    decreases cells.len(),
{
    if cells.len() > 0 {
        lemma_filled(table, cells.drop_last(), texts.drop_last(), index);
        lemma_filled(table, cells.drop_last(), texts.drop_last(), cells.last());
        lemma_contains_push(cells.drop_last(), cells.last(), index);
        assert(cells.drop_last().push(cells.last()) == cells);
    }
}

/// A table whose formulas are all among the cells that are filled holds no
/// formula afterwards.
pub proof fn lemma_filled_is_plain(
    table: Seq<Seq<CellView>>,
    cells: Seq<CellIndex>,
    texts: Seq<Seq<char>>,
)
    requires
        cells.len() == texts.len(),
        forall|index: CellIndex| is_formula(table, index) ==> #[trigger] cells.contains(index),
    ensures
        is_plain(filled(table, cells, texts)),
{
    assert forall|index: CellIndex|
        !(#[trigger] cell_at(filled(table, cells, texts), index) matches Some(
            CellView::Expression(_),
        )) by {
        lemma_filled(table, cells, texts, index);
    }
}

/// A formula that is nothing but the name of its own cell is a cycle: its
/// evaluation fails, lays out no step, and names the cell twice.
pub proof fn lemma_self_reference(table: Seq<Seq<CellView>>, index: CellIndex, plan: PlanView)
    requires
        cell_at(table, index) == Some(CellView::Expression(cell_name(index))),
        !plan.stored.contains(index),
    ensures
        settle(table, index, plan) == failed(plan, EvalErrorView::Cycle(seq![index, index])),
{
    let empty = Seq::<CellIndex>::empty();
    let path = empty.push(index);
    lemma_name_scans(index);
    assert(!empty.contains(index));
    assert(path.push(index) == seq![index, index]);
    let cycle = failed(plan, EvalErrorView::Cycle(seq![index, index]));
    assert(compute(table, index, plan, path) == cycle);
}

} // verus!
