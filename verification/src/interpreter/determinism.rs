//! The host's arithmetic is the only freedom that running a program has:
//! where it gives one result for each operation and operands, a program has
//! one outcome and leaves one state.

use vstd::prelude::*;
use crate::interpreter::environment::{assigned, defined, undefined_variable, Scope};
use crate::interpreter::error::RuntimeErrorView;
use crate::interpreter::semantics::{
    binary_outcome, evaluates, executes, picks, runs, runs_through, unary_outcome, Arith,
    Evaluated, Executed, State,
};
use crate::interpreter::value::ValueView;
use crate::number::{ArithOp, Number};
use crate::parser::expr::{BinaryOp, ExprView};
use crate::parser::stmt::StmtView;

verus! {

/// Whether the arithmetic admits at most one result for each operation and
/// operands.
pub open spec fn is_function(arith: Arith) -> bool {
    forall|op: ArithOp, a: Number, b: Number, first: Number, second: Number|
        #[trigger] arith(op, a, b, first) && #[trigger] arith(op, a, b, second) ==> first == second
}

/// A binary operator has one outcome on two values.
pub proof fn lemma_binary_outcome_determined(
    arith: Arith,
    operator: BinaryOp,
    left: ValueView,
    right: ValueView,
    line_number: usize,
    first: Evaluated,
    second: Evaluated,
)
    requires
        is_function(arith),
        binary_outcome(arith, operator, left, right, line_number, first),
        binary_outcome(arith, operator, left, right, line_number, second),
    ensures
        first == second,
{
}

/// An expression has one outcome in given scopes and leaves them in one way.
pub proof fn lemma_evaluation_determined(
    arith: Arith,
    expr: ExprView,
    before: Seq<Scope>,
    after: Seq<Scope>,
    outcome: Evaluated,
    other_after: Seq<Scope>,
    other_outcome: Evaluated,
)
    requires
        is_function(arith),
        evaluates(arith, expr, before, after, outcome),
        evaluates(arith, expr, before, other_after, other_outcome),
    ensures
        after == other_after,
        outcome == other_outcome,
    decreases expr,
{
    match expr {
        ExprView::Literal { .. } => {},
        ExprView::Variable { .. } => {},
        ExprView::Grouping { expression, .. } => {
            lemma_evaluation_determined(
                arith,
                *expression,
                before,
                after,
                outcome,
                other_after,
                other_outcome,
            );
        },
        ExprView::Unary { operator, right, line_number } => {
            let one = choose|operand: Evaluated|
                {
                    &&& #[trigger] picks(operand)
                    &&& evaluates(arith, *right, before, after, operand)
                    &&& outcome == match operand {
                        Ok(value) => unary_outcome(
                            operator,
                            value,
                            line_number,
                        ),
                        Err(error) => Err(error),
                    }
                };
            let two = choose|operand: Evaluated|
                {
                    &&& #[trigger] picks(operand)
                    &&& evaluates(arith, *right, before, other_after, operand)
                    &&& other_outcome == match operand {
                        Ok(value) => unary_outcome(
                            operator,
                            value,
                            line_number,
                        ),
                        Err(error) => Err(error),
                    }
                };
            lemma_evaluation_determined(arith, *right, before, after, one, other_after, two);
        },
        ExprView::Binary { left, operator, right, line_number } => {
            let (between, first, second) = choose|
                between: Seq<Scope>,
                first: Evaluated,
                second: Evaluated,
            |
                {
                    &&& #[trigger] picks((between, first, second))
                    &&& evaluates(arith, *left, before, between, first)
                    &&& match first {
                        Err(error) => after == between && outcome == Err::<ValueView, _>(error),
                        Ok(left_value) => {
                            &&& evaluates(arith, *right, between, after, second)
                            &&& match second {
                                Err(error) => outcome == Err::<ValueView, _>(error),
                                Ok(right_value) => binary_outcome(
                                    arith,
                                    operator,
                                    left_value,
                                    right_value,
                                    line_number,
                                    outcome,
                                ),
                            }
                        },
                    }
                };
            let (other_between, other_first, other_second) = choose|
                between: Seq<Scope>,
                first: Evaluated,
                second: Evaluated,
            |
                {
                    &&& #[trigger] picks((between, first, second))
                    &&& evaluates(arith, *left, before, between, first)
                    &&& match first {
                        Err(error) => other_after == between && other_outcome == Err::<
                            ValueView,
                            _,
                        >(error),
                        Ok(left_value) => {
                            &&& evaluates(arith, *right, between, other_after, second)
                            &&& match second {
                                Err(error) => other_outcome == Err::<ValueView, _>(error),
                                Ok(right_value) => binary_outcome(
                                    arith,
                                    operator,
                                    left_value,
                                    right_value,
                                    line_number,
                                    other_outcome,
                                ),
                            }
                        },
                    }
                };
            lemma_evaluation_determined(
                arith,
                *left,
                before,
                between,
                first,
                other_between,
                other_first,
            );
            if first is Ok {
                lemma_evaluation_determined(
                    arith,
                    *right,
                    between,
                    after,
                    second,
                    other_after,
                    other_second,
                );
                if second is Ok {
                    lemma_binary_outcome_determined(
                        arith,
                        operator,
                        first->Ok_0,
                        second->Ok_0,
                        line_number,
                        outcome,
                        other_outcome,
                    );
                }
            }
        },
        ExprView::Assign { name, value } => {
            let (between, right) = choose|between: Seq<Scope>, right: Evaluated|
                {
                    &&& #[trigger] picks((between, right))
                    &&& evaluates(arith, *value, before, between, right)
                    &&& match right {
                        Err(error) => after == between && outcome == Err::<ValueView, _>(error),
                        Ok(new_value) => match assigned(
                            between,
                            name.token_type.lexeme(),
                            new_value,
                        ) {
                            Some(updated) => after == updated && outcome == Ok::<
                                ValueView,
                                RuntimeErrorView,
                            >(new_value),
                            None => after == between && outcome == Err::<ValueView, _>(
                                undefined_variable(name),
                            ),
                        },
                    }
                };
            let (other_between, other_right) = choose|between: Seq<Scope>, right: Evaluated|
                {
                    &&& #[trigger] picks((between, right))
                    &&& evaluates(arith, *value, before, between, right)
                    &&& match right {
                        Err(error) => other_after == between && other_outcome == Err::<
                            ValueView,
                            _,
                        >(error),
                        Ok(new_value) => match assigned(
                            between,
                            name.token_type.lexeme(),
                            new_value,
                        ) {
                            Some(updated) => other_after == updated && other_outcome == Ok::<
                                ValueView,
                                RuntimeErrorView,
                            >(new_value),
                            None => other_after == between && other_outcome == Err::<
                                ValueView,
                                _,
                            >(undefined_variable(name)),
                        },
                    }
                };
            lemma_evaluation_determined(
                arith,
                *value,
                before,
                between,
                right,
                other_between,
                other_right,
            );
        },
    }
}

/// A statement has one outcome in a given state and leaves it in one way.
pub proof fn lemma_execution_determined(
    arith: Arith,
    stmt: StmtView,
    before: State,
    after: State,
    outcome: Executed,
    other_after: State,
    other_outcome: Executed,
)
    requires
        is_function(arith),
        executes(arith, stmt, before, after, outcome),
        executes(arith, stmt, before, other_after, other_outcome),
    ensures
        after == other_after,
        outcome is Ok <==> other_outcome is Ok,
        outcome is Err ==> outcome == other_outcome,
    decreases stmt, 0nat,
{
    match stmt {
        StmtView::Expression { expression } => {
            let one = choose|value: Evaluated|
                {
                    &&& #[trigger] picks(value)
                    &&& evaluates(arith, expression, before.scopes, after.scopes, value)
                    &&& after.output == before.output
                    &&& outcome == match value {
                        Ok(_) => Ok(()),
                        Err(error) => Err(error),
                    }
                };
            let two = choose|value: Evaluated|
                {
                    &&& #[trigger] picks(value)
                    &&& evaluates(arith, expression, before.scopes, other_after.scopes, value)
                    &&& other_after.output == before.output
                    &&& other_outcome == match value {
                        Ok(_) => Ok(()),
                        Err(error) => Err(error),
                    }
                };
            lemma_evaluation_determined(
                arith,
                expression,
                before.scopes,
                after.scopes,
                one,
                other_after.scopes,
                two,
            );
        },
        StmtView::Print { expression } => {
            let one = choose|value: Evaluated|
                {
                    &&& #[trigger] picks(value)
                    &&& evaluates(arith, expression, before.scopes, after.scopes, value)
                    &&& match value {
                        Ok(printed) => after.output == before.output.push(printed) && outcome
                            is Ok,
                        Err(error) => after.output == before.output && outcome == Err::<(), _>(
                            error,
                        ),
                    }
                };
            let two = choose|value: Evaluated|
                {
                    &&& #[trigger] picks(value)
                    &&& evaluates(arith, expression, before.scopes, other_after.scopes, value)
                    &&& match value {
                        Ok(printed) => other_after.output == before.output.push(printed)
                            && other_outcome is Ok,
                        Err(error) => other_after.output == before.output && other_outcome
                            == Err::<(), _>(error),
                    }
                };
            lemma_evaluation_determined(
                arith,
                expression,
                before.scopes,
                after.scopes,
                one,
                other_after.scopes,
                two,
            );
        },
        StmtView::Var { name, initializer } => {
            match initializer {
                None => {},
                Some(expression) => {
                    let (between, value) = choose|between: Seq<Scope>, value: Evaluated|
                        {
                            &&& #[trigger] picks((between, value))
                            &&& evaluates(arith, expression, before.scopes, between, value)
                            &&& after.output == before.output
                            &&& match value {
                                Ok(initial) => after.scopes == defined(between, name, initial)
                                    && outcome is Ok,
                                Err(error) => after.scopes == between && outcome == Err::<(), _>(
                                    error,
                                ),
                            }
                        };
                    let (other_between, other_value) = choose|
                        between: Seq<Scope>,
                        value: Evaluated,
                    |
                        {
                            &&& #[trigger] picks((between, value))
                            &&& evaluates(arith, expression, before.scopes, between, value)
                            &&& other_after.output == before.output
                            &&& match value {
                                Ok(initial) => other_after.scopes == defined(
                                    between,
                                    name,
                                    initial,
                                ) && other_outcome is Ok,
                                Err(error) => other_after.scopes == between && other_outcome
                                    == Err::<(), _>(error),
                            }
                        };
                    lemma_evaluation_determined(
                        arith,
                        expression,
                        before.scopes,
                        between,
                        value,
                        other_between,
                        other_value,
                    );
                },
            }
        },
        StmtView::Block { statements } => {
            let entered = State {
                scopes: seq![Scope::empty()] + before.scopes,
                output: before.output,
            };
            let inner = choose|inner: State|
                {
                    &&& #[trigger] picks(inner)
                    &&& runs(arith, statements, entered, inner, outcome)
                    &&& inner.scopes.len() > 0
                    &&& after == State { scopes: inner.scopes.drop_first(), output: inner.output }
                };
            let other_inner = choose|inner: State|
                {
                    &&& #[trigger] picks(inner)
                    &&& runs(arith, statements, entered, inner, other_outcome)
                    &&& inner.scopes.len() > 0
                    &&& other_after == State {
                        scopes: inner.scopes.drop_first(),
                        output: inner.output,
                    }
                };
            lemma_run_determined(
                arith,
                statements,
                entered,
                inner,
                outcome,
                other_inner,
                other_outcome,
            );
        },
    }
}

/// The first `count` statements leave a given state in one way, if they
/// all succeed.
pub proof fn lemma_prefix_determined(
    arith: Arith,
    stmts: Seq<StmtView>,
    count: nat,
    before: State,
    after: State,
    other_after: State,
)
    requires
        is_function(arith),
        runs_through(arith, stmts, count, before, after),
        runs_through(arith, stmts, count, before, other_after),
    ensures
        after == other_after,
    decreases stmts, count,
{
    if count > 0 {
        let between = choose|between: State|
            {
                &&& #[trigger] picks(between)
                &&& runs_through(arith, stmts, (count - 1) as nat, before, between)
                &&& executes(arith, stmts[count - 1], between, after, Ok(()))
            };
        let other_between = choose|between: State|
            {
                &&& #[trigger] picks(between)
                &&& runs_through(arith, stmts, (count - 1) as nat, before, between)
                &&& executes(arith, stmts[count - 1], between, other_after, Ok(()))
            };
        lemma_prefix_determined(arith, stmts, (count - 1) as nat, before, between, other_between);
        lemma_execution_determined(
            arith,
            stmts[count - 1],
            between,
            after,
            Ok(()),
            other_after,
            Ok(()),
        );
    }
}

/// If the first `count` statements all succeed, so do the first `fewer`,
/// and the one after them does too if it is among the first `count`.
pub proof fn lemma_prefix_of_run(
    arith: Arith,
    stmts: Seq<StmtView>,
    count: nat,
    fewer: nat,
    before: State,
    after: State,
) -> (reached: (State, State))
    requires
        fewer < count,
        runs_through(arith, stmts, count, before, after),
    ensures
        runs_through(arith, stmts, fewer, before, reached.0),
        executes(arith, stmts[fewer as int], reached.0, reached.1, Ok(())),
    decreases count,
{
    let between = choose|between: State|
        {
            &&& #[trigger] picks(between)
            &&& runs_through(arith, stmts, (count - 1) as nat, before, between)
            &&& executes(arith, stmts[count - 1], between, after, Ok(()))
        };
    if fewer == count - 1 {
        (between, after)
    } else {
        lemma_prefix_of_run(arith, stmts, (count - 1) as nat, fewer, before, between)
    }
}

/// A run that gets through the first `count` statements fails at none of
/// them: where it can fail is further on.
pub proof fn lemma_no_failure_before(
    arith: Arith,
    stmts: Seq<StmtView>,
    before: State,
    done: nat,
    between: State,
    after: State,
    error: RuntimeErrorView,
    count: nat,
    reached: State,
)
    requires
        is_function(arith),
        runs_through(arith, stmts, done, before, between),
        executes(arith, stmts[done as int], between, after, Err(error)),
        runs_through(arith, stmts, count, before, reached),
    ensures
        count <= done,
    decreases stmts, stmts.len(),
{
    if done < count {
        let (at, next) = lemma_prefix_of_run(arith, stmts, count, done, before, reached);
        lemma_prefix_determined(arith, stmts, done, before, between, at);
        lemma_execution_determined(
            arith,
            stmts[done as int],
            between,
            after,
            Err(error),
            next,
            Ok(()),
        );
    }
}

/// Statements run in order have one outcome in a given state and leave it
/// in one way.
pub proof fn lemma_run_determined(
    arith: Arith,
    stmts: Seq<StmtView>,
    before: State,
    after: State,
    outcome: Executed,
    other_after: State,
    other_outcome: Executed,
)
    requires
        is_function(arith),
        runs(arith, stmts, before, after, outcome),
        runs(arith, stmts, before, other_after, other_outcome),
    ensures
        after == other_after,
        outcome is Ok <==> other_outcome is Ok,
        outcome is Err ==> outcome == other_outcome,
    decreases stmts, stmts.len() + 1,
{
    match (outcome, other_outcome) {
        (Ok(_), Ok(_)) => {
            lemma_prefix_determined(arith, stmts, stmts.len(), before, after, other_after);
        },
        (Err(error), Ok(_)) => {
            let (done, between) = choose|done: nat, between: State|
                {
                    &&& #[trigger] picks((done, between))
                    &&& done < stmts.len()
                    &&& runs_through(arith, stmts, done, before, between)
                    &&& executes(arith, stmts[done as int], between, after, Err(error))
                };
            lemma_no_failure_before(
                arith,
                stmts,
                before,
                done,
                between,
                after,
                error,
                stmts.len(),
                other_after,
            );
        },
        (Ok(_), Err(error)) => {
            let (done, between) = choose|done: nat, between: State|
                {
                    &&& #[trigger] picks((done, between))
                    &&& done < stmts.len()
                    &&& runs_through(arith, stmts, done, before, between)
                    &&& executes(arith, stmts[done as int], between, other_after, Err(error))
                };
            lemma_no_failure_before(
                arith,
                stmts,
                before,
                done,
                between,
                other_after,
                error,
                stmts.len(),
                after,
            );
        },
        (Err(error), Err(other_error)) => {
            let (done, between) = choose|done: nat, between: State|
                {
                    &&& #[trigger] picks((done, between))
                    &&& done < stmts.len()
                    &&& runs_through(arith, stmts, done, before, between)
                    &&& executes(arith, stmts[done as int], between, after, Err(error))
                };
            let (other_done, other_between) = choose|done: nat, between: State|
                {
                    &&& #[trigger] picks((done, between))
                    &&& done < stmts.len()
                    &&& runs_through(arith, stmts, done, before, between)
                    &&& executes(arith, stmts[done as int], between, other_after, Err(other_error))
                };
            if done < other_done {
                lemma_no_failure_before(
                    arith,
                    stmts,
                    before,
                    done,
                    between,
                    after,
                    error,
                    other_done,
                    other_between,
                );
            } else if other_done < done {
                lemma_no_failure_before(
                    arith,
                    stmts,
                    before,
                    other_done,
                    other_between,
                    other_after,
                    other_error,
                    done,
                    between,
                );
            } else {
                lemma_prefix_determined(arith, stmts, done, before, between, other_between);
                lemma_execution_determined(
                    arith,
                    stmts[done as int],
                    between,
                    after,
                    Err(error),
                    other_after,
                    Err(other_error),
                );
            }
        },
    }
}

} // verus!
