//! What running a program means, stated on views of the syntax tree.
//!
//! Arithmetic that rounds is the host's: the meaning of a program is given
//! relative to a relation `arith` that holds of an operation, its two
//! operands and each result that the host may give for them.  Everything
//! else is fixed here.

use vstd::prelude::*;
use crate::interpreter::environment::{
    assigned, defined, lemma_assigned, lemma_define_shadows, lemma_same_names_lookup, lookup,
    same_names, undefined_variable, Scope,
};
use crate::lexer::token::TokenView;
use crate::interpreter::error::RuntimeErrorView;
use crate::interpreter::value::ValueView;
use crate::number::{ArithOp, Number};
use crate::parser::expr::{BinaryOp, ExprView, LiteralTypeView, UnaryOp};
use crate::parser::stmt::StmtView;

verus! {

/// What the host's arithmetic may give: operation, operands, result.
pub type Arith = spec_fn(ArithOp, Number, Number, Number) -> bool;

/// The outcome of evaluating an expression.
pub type Evaluated = Result<ValueView, RuntimeErrorView>;

/// The outcome of executing statements.
pub type Executed = Result<(), RuntimeErrorView>;

/// What a running program has: its scopes, innermost first, and the values
/// it has printed so far.
pub struct State {
    pub scopes: Seq<Scope>,
    pub output: Seq<ValueView>,
}

/// Holds of everything.  Marks the values that the quantifiers of this
/// module are instantiated with.
pub open spec fn picks<T>(witness: T) -> bool {
    true
}

/// A runtime error on a line.
pub open spec fn runtime_error(line_number: usize, message: Seq<char>) -> RuntimeErrorView {
    RuntimeErrorView { line_number, message }
}

/// The value of a literal.
pub open spec fn literal_value(literal: LiteralTypeView) -> ValueView {
    match literal {
        LiteralTypeView::Nil => ValueView::Nil,
        LiteralTypeView::Bool { value } => ValueView::Boolean(value),
        LiteralTypeView::String { value } => ValueView::String(value),
        LiteralTypeView::Number { value } => ValueView::Number(value),
    }
}

/// The outcome of a prefix operator: `-` negates a number and rejects
/// anything else, `!` negates truthiness.
pub open spec fn unary_outcome(operator: UnaryOp, right: ValueView, line_number: usize) -> Evaluated {
    match operator {
        UnaryOp::Minus => match right {
            ValueView::Number(value) => Ok(ValueView::Number(value.negation())),
            _ => Err(runtime_error(line_number, "Operand must be a number"@)),
        },
        UnaryOp::Bang => Ok(ValueView::Boolean(!right.is_truthy())),
    }
}

/// The arithmetic operation that a binary operator stands for.
pub open spec fn arithmetic_of(operator: BinaryOp) -> Option<ArithOp> {
    match operator {
        BinaryOp::Plus => Some(ArithOp::Add),
        BinaryOp::Minus => Some(ArithOp::Sub),
        BinaryOp::Mul => Some(ArithOp::Mul),
        BinaryOp::Div => Some(ArithOp::Div),
        _ => None,
    }
}

/// The outcome of comparing two numbers.
pub open spec fn comparison(operator: BinaryOp, left: Number, right: Number) -> bool {
    match operator {
        BinaryOp::Greater => right.ieee_lt(left),
        BinaryOp::GreaterEqual => right.ieee_le(left),
        BinaryOp::Less => left.ieee_lt(right),
        _ => left.ieee_le(right),
    }
}

/// Whether `outcome` is an outcome of a binary operator on two values.
///
/// `==` and `!=` compare any two values and never fail.  Ordering and
/// arithmetic want two numbers; `+` also joins two strings.  The result of
/// arithmetic on two numbers is any number that `arith` admits.
pub open spec fn binary_outcome(
    arith: Arith,
    operator: BinaryOp,
    left: ValueView,
    right: ValueView,
    line_number: usize,
    outcome: Evaluated,
) -> bool {
    match operator {
        BinaryOp::Equal => outcome == Ok::<_, RuntimeErrorView>(
            ValueView::Boolean(left.equals(right)),
        ),
        BinaryOp::NotEqual => outcome == Ok::<_, RuntimeErrorView>(
            ValueView::Boolean(!left.equals(right)),
        ),
        BinaryOp::Greater | BinaryOp::GreaterEqual | BinaryOp::Less | BinaryOp::LessEqual => {
            match (left, right) {
                (ValueView::Number(a), ValueView::Number(b)) => outcome == Ok::<
                    _,
                    RuntimeErrorView,
                >(ValueView::Boolean(comparison(operator, a, b))),
                _ => outcome == Err::<ValueView, _>(
                    runtime_error(line_number, "Operands must be numbers."@),
                ),
            }
        },
        BinaryOp::Plus | BinaryOp::Minus | BinaryOp::Mul | BinaryOp::Div => {
            match (left, right) {
                (ValueView::Number(a), ValueView::Number(b)) => {
                    &&& outcome matches Ok(ValueView::Number(result))
                    &&& arith(arithmetic_of(operator)->Some_0, a, b, result)
                },
                (ValueView::String(a), ValueView::String(b)) if operator is Plus => outcome == Ok::<
                    _,
                    RuntimeErrorView,
                >(ValueView::String(a + b)),
                _ => outcome == Err::<ValueView, _>(
                    runtime_error(
                        line_number,
                        if operator is Plus {
                            "Operands must be two numbers or two strings."@
                        } else {
                            "Operands must be numbers."@
                        },
                    ),
                ),
            }
        },
    }
}

/// Whether evaluating `expr` in the scopes `before` can leave the scopes
/// `after` and have the outcome `outcome`.
///
/// Operands are evaluated left to right; a failing operand ends the
/// evaluation with its error and with what it did to the scopes.  An
/// assignment evaluates its right-hand side first and has that value.
pub open spec fn evaluates(
    arith: Arith,
    expr: ExprView,
    before: Seq<Scope>,
    after: Seq<Scope>,
    outcome: Evaluated,
) -> bool
    decreases expr,
{
    match expr {
        ExprView::Literal { literal_type, .. } => {
            &&& after == before
            &&& outcome == Ok::<_, RuntimeErrorView>(literal_value(literal_type))
        },
        ExprView::Grouping { expression, .. } => evaluates(
            arith,
            *expression,
            before,
            after,
            outcome,
        ),
        ExprView::Unary { operator, right, line_number } => exists|operand: Evaluated|
            {
                &&& #[trigger] picks(operand)
                &&& evaluates(arith, *right, before, after, operand)
                &&& outcome == match operand {
                    Ok(value) => unary_outcome(operator, value, line_number),
                    Err(error) => Err(error),
                }
            },
        ExprView::Binary { left, operator, right, line_number } => exists|
            between: Seq<Scope>,
            first: Evaluated,
            second: Evaluated,
        |
            {
                &&& #[trigger] picks((between, first, second))
                &&& evaluates(arith, *left, before, between, first)
                &&& match first {
                    Err(error) => after == between && outcome == Err::<ValueView, _>(error),
                    Ok(left_value) => {
                        &&& evaluates(arith, *right, between, after, second)
                        &&& match second {
                            Err(error) => outcome == Err::<ValueView, _>(error),
                            Ok(right_value) => binary_outcome(
                                arith,
                                operator,
                                left_value,
                                right_value,
                                line_number,
                                outcome,
                            ),
                        }
                    },
                }
            },
        ExprView::Variable { name } => {
            &&& after == before
            &&& outcome == match lookup(before, name.token_type.lexeme()) {
                Some(value) => Ok(value),
                None => Err(undefined_variable(name)),
            }
        },
        ExprView::Assign { name, value } => exists|between: Seq<Scope>, right: Evaluated|
            {
                &&& #[trigger] picks((between, right))
                &&& evaluates(arith, *value, before, between, right)
                &&& match right {
                    Err(error) => after == between && outcome == Err::<ValueView, _>(error),
                    Ok(new_value) => match assigned(
                        between,
                        name.token_type.lexeme(),
                        new_value,
                    ) {
                        Some(updated) => after == updated && outcome == Ok::<_, RuntimeErrorView>(
                            new_value,
                        ),
                        None => after == between && outcome == Err::<ValueView, _>(
                            undefined_variable(name),
                        ),
                    },
                }
            },
    }
}

/// Whether executing `stmt` in the state `before` can leave the state
/// `after` and have the outcome `outcome`.
///
/// A block runs its statements in a new innermost scope, which is dropped
/// again however the block ends.
pub open spec fn executes(
    arith: Arith,
    stmt: StmtView,
    before: State,
    after: State,
    outcome: Executed,
) -> bool
    decreases stmt, 0nat,
{
    match stmt {
        StmtView::Expression { expression } => exists|value: Evaluated|
            {
                &&& #[trigger] picks(value)
                &&& evaluates(arith, expression, before.scopes, after.scopes, value)
                &&& after.output == before.output
                &&& outcome == match value {
                    Ok(_) => Ok(()),
                    Err(error) => Err(error),
                }
            },
        StmtView::Print { expression } => exists|value: Evaluated|
            {
                &&& #[trigger] picks(value)
                &&& evaluates(arith, expression, before.scopes, after.scopes, value)
                &&& match value {
                    Ok(printed) => after.output == before.output.push(printed) && outcome is Ok,
                    Err(error) => after.output == before.output && outcome == Err::<(), _>(error),
                }
            },
        StmtView::Var { name, initializer } => match initializer {
            None => {
                &&& after.scopes == defined(before.scopes, name, ValueView::Nil)
                &&& after.output == before.output
                &&& outcome is Ok
            },
            Some(expression) => exists|between: Seq<Scope>, value: Evaluated|
                {
                    &&& #[trigger] picks((between, value))
                    &&& evaluates(arith, expression, before.scopes, between, value)
                    &&& after.output == before.output
                    &&& match value {
                        Ok(initial) => after.scopes == defined(between, name, initial)
                            && outcome is Ok,
                        Err(error) => after.scopes == between && outcome == Err::<(), _>(error),
                    }
                },
        },
        StmtView::Block { statements } => exists|inner: State|
            {
                &&& #[trigger] picks(inner)
                &&& runs(
                    arith,
                    statements,
                    State { scopes: seq![Scope::empty()] + before.scopes, output: before.output },
                    inner,
                    outcome,
                )
                &&& inner.scopes.len() > 0
                &&& after == State { scopes: inner.scopes.drop_first(), output: inner.output }
            },
    }
}

/// Whether executing the first `count` statements can succeed and take the
/// state `before` to the state `after`.
pub open spec fn runs_through(
    arith: Arith,
    stmts: Seq<StmtView>,
    count: nat,
    before: State,
    after: State,
) -> bool
    decreases stmts, count,
{
    if count == 0 {
        after == before
    } else if count > stmts.len() {
        false
    } else {
        exists|between: State|
            {
                &&& #[trigger] picks(between)
                &&& runs_through(arith, stmts, (count - 1) as nat, before, between)
                &&& executes(arith, stmts[count - 1], between, after, Ok(()))
            }
    }
}

/// Whether executing `stmts` in order can leave the state `after` and have
/// the outcome `outcome`: either all of them succeed, or the first one that
/// fails ends the run with its error.
pub open spec fn runs(
    arith: Arith,
    stmts: Seq<StmtView>,
    before: State,
    after: State,
    outcome: Executed,
) -> bool
    decreases stmts, stmts.len() + 1,
{
    match outcome {
        Ok(()) => runs_through(arith, stmts, stmts.len(), before, after),
        Err(error) => exists|done: nat, between: State|
            {
                &&& #[trigger] picks((done, between))
                &&& done < stmts.len()
                &&& runs_through(arith, stmts, done, before, between)
                &&& executes(arith, stmts[done as int], between, after, Err(error))
            },
    }
}

/// A prefix operator applied to an operand that was evaluated.
pub proof fn lemma_unary_evaluates(
    arith: Arith,
    operator: UnaryOp,
    right: ExprView,
    line_number: usize,
    before: Seq<Scope>,
    after: Seq<Scope>,
    operand: Evaluated,
)
    requires
        evaluates(arith, right, before, after, operand),
    ensures
        evaluates(
            arith,
            ExprView::Unary { operator, right: Box::new(right), line_number },
            before,
            after,
            match operand {
                Ok(value) => unary_outcome(operator, value, line_number),
                Err(error) => Err(error),
            },
        ),
{
    assert(picks(operand));
}

/// A binary operator whose left operand failed.
pub proof fn lemma_binary_left_fails(
    arith: Arith,
    left: ExprView,
    operator: BinaryOp,
    right: ExprView,
    line_number: usize,
    before: Seq<Scope>,
    after: Seq<Scope>,
    error: RuntimeErrorView,
)
    requires
        evaluates(arith, left, before, after, Err(error)),
    ensures
        evaluates(
            arith,
            ExprView::Binary { left: Box::new(left), operator, right: Box::new(right), line_number },
            before,
            after,
            Err(error),
        ),
{
    let first: Evaluated = Err(error);
    assert(picks((after, first, first)));
}

/// A binary operator whose left operand was evaluated, and then its right one.
pub proof fn lemma_binary_evaluates(
    arith: Arith,
    left: ExprView,
    operator: BinaryOp,
    right: ExprView,
    line_number: usize,
    before: Seq<Scope>,
    between: Seq<Scope>,
    after: Seq<Scope>,
    left_value: ValueView,
    second: Evaluated,
    outcome: Evaluated,
)
    requires
        evaluates(arith, left, before, between, Ok(left_value)),
        evaluates(arith, right, between, after, second),
        match second {
            Err(error) => outcome == Err::<ValueView, _>(error),
            Ok(right_value) => binary_outcome(
                arith,
                operator,
                left_value,
                right_value,
                line_number,
                outcome,
            ),
        },
    ensures
        evaluates(
            arith,
            ExprView::Binary { left: Box::new(left), operator, right: Box::new(right), line_number },
            before,
            after,
            outcome,
        ),
{
    let first: Evaluated = Ok(left_value);
    assert(picks((between, first, second)));
}

/// An assignment whose right-hand side was evaluated.
pub proof fn lemma_assign_evaluates(
    arith: Arith,
    name: TokenView,
    value: ExprView,
    before: Seq<Scope>,
    between: Seq<Scope>,
    right: Evaluated,
)
    requires
        evaluates(arith, value, before, between, right),
    ensures
        evaluates(
            arith,
            ExprView::Assign { name, value: Box::new(value) },
            before,
            match right {
                Ok(new_value) => match assigned(between, name.token_type.lexeme(), new_value) {
                    Some(updated) => updated,
                    None => between,
                },
                Err(_) => between,
            },
            match right {
                Ok(new_value) => match assigned(between, name.token_type.lexeme(), new_value) {
                    Some(_) => Ok(new_value),
                    None => Err(undefined_variable(name)),
                },
                Err(error) => Err(error),
            },
        ),
{
    assert(picks((between, right)));
}

/// An expression statement whose expression was evaluated.
pub proof fn lemma_expression_executes(
    arith: Arith,
    expression: ExprView,
    before: State,
    after: Seq<Scope>,
    value: Evaluated,
)
    requires
        evaluates(arith, expression, before.scopes, after, value),
    ensures
        executes(
            arith,
            StmtView::Expression { expression },
            before,
            State { scopes: after, output: before.output },
            match value {
                Ok(_) => Ok(()),
                Err(error) => Err(error),
            },
        ),
{
    assert(picks(value));
}

/// A print statement whose expression was evaluated.
pub proof fn lemma_print_executes(
    arith: Arith,
    expression: ExprView,
    before: State,
    after: Seq<Scope>,
    value: Evaluated,
)
    requires
        evaluates(arith, expression, before.scopes, after, value),
    ensures
        executes(
            arith,
            StmtView::Print { expression },
            before,
            State {
                scopes: after,
                output: match value {
                    Ok(printed) => before.output.push(printed),
                    Err(_) => before.output,
                },
            },
            match value {
                Ok(_) => Ok(()),
                Err(error) => Err(error),
            },
        ),
{
    assert(picks(value));
}

/// A variable declaration whose initializer was evaluated.
pub proof fn lemma_var_executes(
    arith: Arith,
    name: Seq<char>,
    expression: ExprView,
    before: State,
    between: Seq<Scope>,
    value: Evaluated,
)
    requires
        evaluates(arith, expression, before.scopes, between, value),
    ensures
        executes(
            arith,
            StmtView::Var { name, initializer: Some(expression) },
            before,
            State {
                scopes: match value {
                    Ok(initial) => defined(between, name, initial),
                    Err(_) => between,
                },
                output: before.output,
            },
            match value {
                Ok(_) => Ok(()),
                Err(error) => Err(error),
            },
        ),
{
    assert(picks((between, value)));
}

/// A block whose statements were run in a new scope.
pub proof fn lemma_block_executes(
    arith: Arith,
    statements: Seq<StmtView>,
    before: State,
    inner: State,
    outcome: Executed,
)
    requires
        runs(
            arith,
            statements,
            State { scopes: seq![Scope::empty()] + before.scopes, output: before.output },
            inner,
            outcome,
        ),
        inner.scopes.len() > 0,
    ensures
        executes(
            arith,
            StmtView::Block { statements },
            before,
            State { scopes: inner.scopes.drop_first(), output: inner.output },
            outcome,
        ),
{
    assert(picks(inner));
}

/// One more statement after a run that succeeded so far.
pub proof fn lemma_runs_on(
    arith: Arith,
    stmts: Seq<StmtView>,
    count: nat,
    before: State,
    between: State,
    after: State,
    outcome: Executed,
)
    requires
        count < stmts.len(),
        runs_through(arith, stmts, count, before, between),
        executes(arith, stmts[count as int], between, after, outcome),
    ensures
        outcome is Ok ==> runs_through(arith, stmts, count + 1, before, after),
        outcome is Err ==> runs(arith, stmts, before, after, outcome),
{
    assert(picks(between));
    assert(picks((count, between)));
    match outcome {
        Ok(unit) => {
            assert(executes(arith, stmts[count as int], between, after, Ok(unit)));
        },
        Err(_) => {},
    }
}

/// Negating a value twice gives its truthiness.
pub proof fn lemma_double_negation(value: ValueView, line_number: usize)
    ensures
        unary_outcome(UnaryOp::Bang, value, line_number) is Ok,
        unary_outcome(
            UnaryOp::Bang,
            unary_outcome(UnaryOp::Bang, value, line_number)->Ok_0,
            line_number,
        ) == Ok::<ValueView, RuntimeErrorView>(ValueView::Boolean(value.is_truthy())),
{
}

/// `==` and `!=` never fail, whatever the two values are; they give
/// opposite answers, and `==` on a value and itself is true unless the
/// value is a NaN.
pub proof fn lemma_equality_never_fails(
    arith: Arith,
    left: ValueView,
    right: ValueView,
    line_number: usize,
    equal: Evaluated,
    unequal: Evaluated,
)
    requires
        binary_outcome(arith, BinaryOp::Equal, left, right, line_number, equal),
        binary_outcome(arith, BinaryOp::NotEqual, left, right, line_number, unequal),
    ensures
        equal == Ok::<ValueView, RuntimeErrorView>(ValueView::Boolean(left.equals(right))),
        unequal == Ok::<ValueView, RuntimeErrorView>(ValueView::Boolean(!left.equals(right))),
        left == right && !(left matches ValueView::Number(n) && n.is_nan()) ==> left.equals(right),
{
}

/// Evaluating an expression binds no new name and drops none: the scopes
/// afterwards are as many and bind the same names.
pub proof fn lemma_evaluation_keeps_names(
    arith: Arith,
    expr: ExprView,
    before: Seq<Scope>,
    after: Seq<Scope>,
    outcome: Evaluated,
)
    requires
        evaluates(arith, expr, before, after, outcome),
    ensures
        same_names(before, after),
    decreases expr,
{
    match expr {
        ExprView::Literal { .. } => {},
        ExprView::Variable { .. } => {},
        ExprView::Grouping { expression, .. } => {
            lemma_evaluation_keeps_names(arith, *expression, before, after, outcome);
        },
        ExprView::Unary { right, .. } => {
            let operand = choose|operand: Evaluated|
                #[trigger] picks(operand) && evaluates(arith, *right, before, after, operand);
            lemma_evaluation_keeps_names(arith, *right, before, after, operand);
        },
        ExprView::Binary { left, right, .. } => {
            let (between, first, second) = choose|
                between: Seq<Scope>,
                first: Evaluated,
                second: Evaluated,
            |
                {
                    &&& #[trigger] picks((between, first, second))
                    &&& evaluates(arith, *left, before, between, first)
                    &&& match first {
                        Err(_) => after == between,
                        Ok(_) => evaluates(arith, *right, between, after, second),
                    }
                };
            lemma_evaluation_keeps_names(arith, *left, before, between, first);
            if first is Ok {
                lemma_evaluation_keeps_names(arith, *right, between, after, second);
            }
        },
        ExprView::Assign { name, value } => {
            let (between, right) = choose|between: Seq<Scope>, right: Evaluated|
                {
                    &&& #[trigger] picks((between, right))
                    &&& evaluates(arith, *value, before, between, right)
                    &&& match right {
                        Err(_) => after == between,
                        Ok(new_value) => match assigned(
                            between,
                            name.token_type.lexeme(),
                            new_value,
                        ) {
                            Some(updated) => after == updated,
                            None => after == between,
                        },
                    }
                };
            lemma_evaluation_keeps_names(arith, *value, before, between, right);
            if right is Ok {
                lemma_assigned(between, name.token_type.lexeme(), right->Ok_0);
            }
        },
    }
}

/// Assignment is not definition: assigning to a name that no scope binds
/// fails, whatever the right-hand side is, and leaves the name unbound.
pub proof fn lemma_assignment_needs_binding(
    arith: Arith,
    name: TokenView,
    value: ExprView,
    before: Seq<Scope>,
    after: Seq<Scope>,
    outcome: Evaluated,
)
    requires
        lookup(before, name.token_type.lexeme()) is None,
        evaluates(arith, ExprView::Assign { name, value: Box::new(value) }, before, after, outcome),
    ensures
        outcome is Err,
        lookup(after, name.token_type.lexeme()) is None,
        same_names(before, after),
{
    let expr = ExprView::Assign { name, value: Box::new(value) };
    let (between, right) = choose|between: Seq<Scope>, right: Evaluated|
        {
            &&& #[trigger] picks((between, right))
            &&& evaluates(arith, value, before, between, right)
            &&& match right {
                Err(error) => after == between && outcome == Err::<ValueView, _>(error),
                Ok(new_value) => match assigned(between, name.token_type.lexeme(), new_value) {
                    Some(updated) => after == updated && outcome == Ok::<_, RuntimeErrorView>(
                        new_value,
                    ),
                    None => after == between && outcome == Err::<ValueView, _>(
                        undefined_variable(name),
                    ),
                },
            }
        };
    lemma_evaluation_keeps_names(arith, value, before, between, right);
    lemma_same_names_lookup(before, between, name.token_type.lexeme());
    if right is Ok {
        lemma_assigned(between, name.token_type.lexeme(), right->Ok_0);
    }
    lemma_evaluation_keeps_names(arith, expr, before, after, outcome);
    lemma_same_names_lookup(before, after, name.token_type.lexeme());
}

/// Shadowing: a block that declares a variable and prints it prints the
/// value it was declared with, whatever the enclosing scopes bind under that
/// name, and leaves the enclosing scopes as they were.
pub proof fn lemma_block_shadows(
    arith: Arith,
    name: TokenView,
    literal: LiteralTypeView,
    line_number: usize,
    before: State,
    after: State,
    outcome: Executed,
)
    requires
        name.token_type is Ident,
        executes(
            arith,
            StmtView::Block {
                statements: seq![
                    StmtView::Var {
                        name: name.token_type.lexeme(),
                        initializer: Some(ExprView::Literal { literal_type: literal, line_number }),
                    },
                    StmtView::Print { expression: ExprView::Variable { name } },
                ],
            },
            before,
            after,
            outcome,
        ),
    ensures
        outcome is Ok,
        after.scopes == before.scopes,
        after.output == before.output.push(literal_value(literal)),
{
    let text = name.token_type.lexeme();
    let declare = StmtView::Var {
        name: text,
        initializer: Some(ExprView::Literal { literal_type: literal, line_number }),
    };
    let show = StmtView::Print { expression: ExprView::Variable { name } };
    let stmts = seq![declare, show];
    let entered = State { scopes: seq![Scope::empty()] + before.scopes, output: before.output };
    let declared = State {
        scopes: defined(entered.scopes, text, literal_value(literal)),
        output: before.output,
    };
    lemma_define_shadows(before.scopes, text, literal_value(literal));
    // What each of the two statements does, wherever it starts and however it ends.
    assert forall|from: State, to: State, result: Executed| #[trigger]
        executes(arith, declare, from, to, result) implies result is Ok && to == (State {
        scopes: defined(from.scopes, text, literal_value(literal)),
        output: from.output,
    }) by {
        reveal_with_fuel(evaluates, 2);
    }
    assert forall|to: State, result: Executed| #[trigger]
        executes(arith, show, declared, to, result) implies result is Ok && to == (State {
        scopes: declared.scopes,
        output: declared.output.push(literal_value(literal)),
    }) by {
        reveal_with_fuel(evaluates, 2);
    }
    let inner = choose|inner: State|
        {
            &&& #[trigger] picks(inner)
            &&& runs(arith, stmts, entered, inner, outcome)
            &&& inner.scopes.len() > 0
            &&& after == State { scopes: inner.scopes.drop_first(), output: inner.output }
        };
    assert(stmts[0] == declare && stmts[1] == show);
    assert(stmts.len() == 2);
    // Where the run stands after the declaration, if it gets there.
    assert forall|to: State| #[trigger] runs_through(arith, stmts, 1, entered, to) implies to
        == declared by {
        reveal_with_fuel(runs_through, 2);
        let between = choose|between: State|
            {
                &&& #[trigger] picks(between)
                &&& runs_through(arith, stmts, 0, entered, between)
                &&& executes(arith, stmts[0], between, to, Ok(()))
            };
        assert(between == entered);
    }
    match outcome {
        Ok(_) => {
            let between = choose|between: State|
                {
                    &&& #[trigger] picks(between)
                    &&& runs_through(arith, stmts, 1, entered, between)
                    &&& executes(arith, stmts[1], between, inner, Ok(()))
                };
            assert(between == declared);
        },
        Err(error) => {
            let (done, between) = choose|done: nat, between: State|
                {
                    &&& #[trigger] picks((done, between))
                    &&& done < stmts.len()
                    &&& runs_through(arith, stmts, done, entered, between)
                    &&& executes(arith, stmts[done as int], between, inner, Err(error))
                };
            if done == 0 {
                assert(between == entered);
            } else {
                assert(done == 1);
                assert(between == declared);
            }
        },
    }
}

} // verus!
