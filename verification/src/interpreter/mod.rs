//! The evaluator: walks the syntax tree, keeps the environment chain and
//! collects what the program prints.

pub mod determinism;
pub mod environment;
pub mod error;
pub mod semantics;
pub mod value;

pub use crate::interpreter::error::{RuntimeError, RuntimeResult};

use vstd::prelude::*;
use vstd::string::*;
use crate::interpreter::environment::{
    lemma_assigned, lemma_scopes, lookup, undefined_variable, Environment, Scope,
};
use crate::interpreter::error::RuntimeErrorView;
use crate::interpreter::semantics::{
    binary_outcome, evaluates, executes, lemma_assign_evaluates, lemma_binary_evaluates,
    lemma_binary_left_fails, lemma_block_executes, lemma_expression_executes, lemma_print_executes,
    lemma_runs_on, lemma_unary_evaluates, lemma_var_executes, runs, runs_through, Arith, Evaluated,
    Executed, State,
};
use crate::interpreter::value::{NumberPair, StringPair, Value, ValueView};
use crate::number::{ArithOp, Number};
use crate::parser::expr::{
    Assign, Binary, BinaryOp, Expr, Grouping, Literal, LiteralType, Unary, UnaryOp, Variable,
};
use crate::parser::stmt::{lemma_block_view, stmt_views, Block, Expression, Print, Stmt, Var};

verus! {

/// Runs programs: holds the environment chain and the values printed so far.
pub struct Interpreter {
    pub environment: Environment,
    pub output: Vec<Value>,
}

/// The views of a list of values, in order.
pub open spec fn value_views(values: Seq<Value>) -> Seq<ValueView> {
    Seq::new(values.len(), |i: int| values[i]@)
}

/// The outcome of an evaluation, with text as character sequences.
pub open spec fn value_outcome(r: RuntimeResult<Value>) -> Evaluated {
    match r {
        Ok(value) => Ok(value@),
        Err(error) => Err(error@),
    }
}

/// The outcome of an execution, with text as character sequences.
pub open spec fn unit_outcome(r: RuntimeResult<()>) -> Executed {
    match r {
        Ok(()) => Ok(()),
        Err(error) => Err(error@),
    }
}

/// What the host's arithmetic function may give, as a relation.
pub open spec fn host_arithmetic<A: Fn(ArithOp, Number, Number) -> Number>(arith: &A) -> Arith {
    |op: ArithOp, a: Number, b: Number, result: Number| call_ensures(arith, (op, a, b), result)
}

/// Whether the host's arithmetic function accepts all operands.
pub open spec fn always_computes<A: Fn(ArithOp, Number, Number) -> Number>(arith: &A) -> bool {
    forall|op: ArithOp, a: Number, b: Number| call_requires(arith, (op, a, b))
}

impl Default for Interpreter {
    fn default() -> (interpreter: Interpreter)
        ensures
            interpreter.state() == (State { scopes: seq![Scope::empty()], output: Seq::empty() }),
    {
        Interpreter::new()
    }
}

impl Interpreter {
    /// The scopes and the printed values.
    pub open spec fn state(&self) -> State {
        State { scopes: self.environment.scopes(), output: value_views(self.output@) }
    }

    /// An interpreter with one empty scope that has printed nothing.
    pub fn new() -> (interpreter: Interpreter)
        ensures
            interpreter.state() == (State { scopes: seq![Scope::empty()], output: Seq::empty() }),
    {
        let interpreter = Interpreter { environment: Environment::new(None), output: Vec::new() };
        proof {
            assert(interpreter.state().output =~= Seq::empty());
        }
        interpreter
    }

    /// Executes the statements in order and stops at the first runtime
    /// error.  `arith` carries out arithmetic on numbers.
    pub fn interpret<A: Fn(ArithOp, Number, Number) -> Number>(
        &mut self,
        stmts: &[Stmt],
        arith: &A,
    ) -> (r: RuntimeResult<()>)
        requires
            always_computes(arith),
        ensures
            runs(
                host_arithmetic(arith),
                stmt_views(stmts@),
                old(self).state(),
                final(self).state(),
                unit_outcome(r),
            ),
            final(self).state().scopes.len() == old(self).state().scopes.len(),
        decreases stmts@, 0nat,
    {
        let ghost rel = host_arithmetic(arith);
        let ghost views = stmt_views(stmts@);
        let ghost start = self.state();
        let mut i: usize = 0;
        while i < stmts.len()
            invariant
                always_computes(arith),
                rel == host_arithmetic(arith),
                views == stmt_views(stmts@),
                start == old(self).state(),
                i <= stmts.len(),
                runs_through(rel, views, i as nat, start, self.state()),
                self.state().scopes.len() == start.scopes.len(),
            decreases stmts.len() - i,
        {
            let ghost before = self.state();
            let r = self.execute(&stmts[i], arith);
            proof {
                assert(views[i as int] == stmts[i as int]@);
                lemma_runs_on(rel, views, i as nat, start, before, self.state(), unit_outcome(r));
            }
            match r {
                Ok(()) => {},
                Err(error) => {
                    return Err(error);
                },
            }
            i += 1;
        }
        Ok(())
    }

    /// Evaluates an expression.  `arith` carries out arithmetic on numbers.
    pub fn evaluate<A: Fn(ArithOp, Number, Number) -> Number>(
        &mut self,
        expr: &Expr,
        arith: &A,
    ) -> (r: RuntimeResult<Value>)
        requires
            always_computes(arith),
        ensures
            evaluates(
                host_arithmetic(arith),
                expr@,
                old(self).environment.scopes(),
                final(self).environment.scopes(),
                value_outcome(r),
            ),
            final(self).output == old(self).output,
            final(self).environment.scopes().len() == old(self).environment.scopes().len(),
        decreases expr, 1nat,
    {
        match expr {
            Expr::Binary(binary) => self.binary(binary, arith),
            Expr::Grouping(grouping) => self.grouping(grouping, arith),
            Expr::Literal(literal) => self.literal(literal),
            Expr::Unary(unary) => self.unary(unary, arith),
            Expr::Variable(variable) => self.variable(variable),
            Expr::Assign(assign) => self.assign(assign, arith),
        }
    }

    fn execute<A: Fn(ArithOp, Number, Number) -> Number>(&mut self, stmt: &Stmt, arith: &A) -> (r:
        RuntimeResult<()>)
        requires
            always_computes(arith),
        ensures
            executes(
                host_arithmetic(arith),
                stmt@,
                old(self).state(),
                final(self).state(),
                unit_outcome(r),
            ),
            final(self).state().scopes.len() == old(self).state().scopes.len(),
        decreases stmt, 1nat,
    {
        match stmt {
            Stmt::Print(print) => self.print(print, arith),
            Stmt::Expression(expression) => self.expression(expression, arith),
            Stmt::Var(var) => self.var(var, arith),
            Stmt::Block(block) => self.block(block, arith),
        }
    }

    /// Truthiness: `nil` and `false` are falsy, every other value is truthy.
    pub fn is_truthy(value: &Value) -> (r: bool)
        ensures
            r == value@.is_truthy(),
    {
        match value {
            Value::Boolean(value) => *value,
            Value::Number(_) => true,
            Value::String(_) => true,
            Value::Nil => false,
        }
    }

    fn expression<A: Fn(ArithOp, Number, Number) -> Number>(
        &mut self,
        stmt: &Expression,
        arith: &A,
    ) -> (r: RuntimeResult<()>)
        requires
            always_computes(arith),
        ensures
            executes(
                host_arithmetic(arith),
                Stmt::Expression(*stmt)@,
                old(self).state(),
                final(self).state(),
                unit_outcome(r),
            ),
            final(self).state().scopes.len() == old(self).state().scopes.len(),
        decreases stmt, 0nat,
    {
        let ghost before = self.state();
        let value = self.evaluate(&stmt.expression, arith);
        proof {
            lemma_expression_executes(
                host_arithmetic(arith),
                stmt.expression@,
                before,
                self.environment.scopes(),
                value_outcome(value),
            );
        }
        value?;
        Ok(())
    }

    fn print<A: Fn(ArithOp, Number, Number) -> Number>(&mut self, stmt: &Print, arith: &A) -> (r:
        RuntimeResult<()>)
        requires
            always_computes(arith),
        ensures
            executes(
                host_arithmetic(arith),
                Stmt::Print(*stmt)@,
                old(self).state(),
                final(self).state(),
                unit_outcome(r),
            ),
            final(self).state().scopes.len() == old(self).state().scopes.len(),
        decreases stmt, 0nat,
    {
        let ghost entered = self.state();
        let value_r = self.evaluate(&stmt.expression, arith);
        proof {
            lemma_print_executes(
                host_arithmetic(arith),
                stmt.expression@,
                entered,
                self.environment.scopes(),
                value_outcome(value_r),
            );
        }
        let value = value_r?;
        let ghost before = value_views(self.output@);
        self.output.push(value);
        proof {
            assert(value_views(self.output@) =~= before.push(value@));
        }
        Ok(())
    }

    fn var<A: Fn(ArithOp, Number, Number) -> Number>(&mut self, stmt: &Var, arith: &A) -> (r:
        RuntimeResult<()>)
        requires
            always_computes(arith),
        ensures
            executes(
                host_arithmetic(arith),
                Stmt::Var(*stmt)@,
                old(self).state(),
                final(self).state(),
                unit_outcome(r),
            ),
            final(self).state().scopes.len() == old(self).state().scopes.len(),
        decreases stmt, 0nat,
    {
        let ghost entered = self.state();
        let value = if let Some(init) = &stmt.initializer {
            let value_r = self.evaluate(init, arith);
            proof {
                lemma_var_executes(
                    host_arithmetic(arith),
                    stmt.name@,
                    init@,
                    entered,
                    self.environment.scopes(),
                    value_outcome(value_r),
                );
            }
            value_r?
        } else {
            Value::Nil
        };

        self.environment.define(stmt.name.as_str(), value);

        Ok(())
    }

    fn literal(&mut self, expr: &Literal) -> (r: RuntimeResult<Value>)
        ensures
            *final(self) == *old(self),
            r matches Ok(value) && value@ == crate::interpreter::semantics::literal_value(
                expr.literal_type@,
            ),
    {
        match &expr.literal_type {
            LiteralType::Nil => Ok(Value::Nil),
            LiteralType::Bool { value } => Ok(Value::Boolean(*value)),
            LiteralType::String { value } => Ok(Value::String(value.clone())),
            LiteralType::Number { value } => Ok(Value::Number(*value)),
        }
    }

    fn grouping<A: Fn(ArithOp, Number, Number) -> Number>(
        &mut self,
        expr: &Grouping,
        arith: &A,
    ) -> (r: RuntimeResult<Value>)
        requires
            always_computes(arith),
        ensures
            evaluates(
                host_arithmetic(arith),
                Expr::Grouping(*expr)@,
                old(self).environment.scopes(),
                final(self).environment.scopes(),
                value_outcome(r),
            ),
            final(self).output == old(self).output,
            final(self).environment.scopes().len() == old(self).environment.scopes().len(),
        decreases expr, 0nat,
    {
        self.evaluate(&expr.expression, arith)
    }

    fn unary<A: Fn(ArithOp, Number, Number) -> Number>(&mut self, expr: &Unary, arith: &A) -> (r:
        RuntimeResult<Value>)
        requires
            always_computes(arith),
        ensures
            evaluates(
                host_arithmetic(arith),
                Expr::Unary(*expr)@,
                old(self).environment.scopes(),
                final(self).environment.scopes(),
                value_outcome(r),
            ),
            final(self).output == old(self).output,
            final(self).environment.scopes().len() == old(self).environment.scopes().len(),
        decreases expr, 0nat,
    {
        let ghost before = self.environment.scopes();
        let right_r = self.evaluate(&expr.right, arith);
        proof {
            lemma_unary_evaluates(
                host_arithmetic(arith),
                expr.operator,
                expr.right@,
                expr.line_number,
                before,
                self.environment.scopes(),
                value_outcome(right_r),
            );
        }
        let right = right_r?;

        match expr.operator {
            UnaryOp::Minus => match right {
                Value::Number(value) => Ok(Value::Number(value.negated())),
                _ => Err(RuntimeError::new(expr.line_number, "Operand must be a number")),
            },
            UnaryOp::Bang => Ok(Value::Boolean(!Self::is_truthy(&right))),
        }
    }

    fn binary<A: Fn(ArithOp, Number, Number) -> Number>(&mut self, expr: &Binary, arith: &A) -> (r:
        RuntimeResult<Value>)
        requires
            always_computes(arith),
        ensures
            evaluates(
                host_arithmetic(arith),
                Expr::Binary(*expr)@,
                old(self).environment.scopes(),
                final(self).environment.scopes(),
                value_outcome(r),
            ),
            final(self).output == old(self).output,
            final(self).environment.scopes().len() == old(self).environment.scopes().len(),
        decreases expr, 0nat,
    {
        let ghost rel = host_arithmetic(arith);
        let ghost before = self.environment.scopes();
        let left_r = self.evaluate(&expr.left, arith);
        let ghost between = self.environment.scopes();
        let left = match left_r {
            Ok(left) => left,
            Err(error) => {
                proof {
                    lemma_binary_left_fails(
                        rel,
                        expr.left@,
                        expr.operator,
                        expr.right@,
                        expr.line_number,
                        before,
                        between,
                        error@,
                    );
                }
                return Err(error);
            },
        };
        let right_r = self.evaluate(&expr.right, arith);
        let ghost after = self.environment.scopes();
        let right = match right_r {
            Ok(right) => right,
            Err(error) => {
                proof {
                    lemma_binary_evaluates(
                        rel,
                        expr.left@,
                        expr.operator,
                        expr.right@,
                        expr.line_number,
                        before,
                        between,
                        after,
                        left@,
                        Err(error@),
                        Err(error@),
                    );
                }
                return Err(error);
            },
        };

        let r = match expr.operator {
            BinaryOp::Mul => match NumberPair::try_from((&left, &right)) {
                Ok(pair) => Ok(Value::Number(arith(ArithOp::Mul, pair.0, pair.1))),
                Err(_) => Err(RuntimeError::new(expr.line_number, "Operands must be numbers.")),
            },
            BinaryOp::Div => match NumberPair::try_from((&left, &right)) {
                Ok(pair) => Ok(Value::Number(arith(ArithOp::Div, pair.0, pair.1))),
                Err(_) => Err(RuntimeError::new(expr.line_number, "Operands must be numbers.")),
            },
            BinaryOp::Minus => match NumberPair::try_from((&left, &right)) {
                Ok(pair) => Ok(Value::Number(arith(ArithOp::Sub, pair.0, pair.1))),
                Err(_) => Err(RuntimeError::new(expr.line_number, "Operands must be numbers.")),
            },
            BinaryOp::Plus => {
                if let Ok(pair) = NumberPair::try_from((&left, &right)) {
                    Ok(Value::Number(arith(ArithOp::Add, pair.0, pair.1)))
                } else if let Ok(pair) = StringPair::try_from((&left, &right)) {
                    let concatenated = pair.0.concat(pair.1.as_str());
                    Ok(Value::String(concatenated))
                } else {
                    Err(
                        RuntimeError::new(
                            expr.line_number,
                            "Operands must be two numbers or two strings.",
                        ),
                    )
                }
            },
            BinaryOp::Greater => match NumberPair::try_from((&left, &right)) {
                Ok(pair) => Ok(Value::Boolean(pair.0.greater(pair.1))),
                Err(_) => Err(RuntimeError::new(expr.line_number, "Operands must be numbers.")),
            },
            BinaryOp::Less => match NumberPair::try_from((&left, &right)) {
                Ok(pair) => Ok(Value::Boolean(pair.0.less(pair.1))),
                Err(_) => Err(RuntimeError::new(expr.line_number, "Operands must be numbers.")),
            },
            BinaryOp::GreaterEqual => match NumberPair::try_from((&left, &right)) {
                Ok(pair) => Ok(Value::Boolean(pair.0.greater_equal(pair.1))),
                Err(_) => Err(RuntimeError::new(expr.line_number, "Operands must be numbers.")),
            },
            BinaryOp::LessEqual => match NumberPair::try_from((&left, &right)) {
                Ok(pair) => Ok(Value::Boolean(pair.0.less_equal(pair.1))),
                Err(_) => Err(RuntimeError::new(expr.line_number, "Operands must be numbers.")),
            },
            BinaryOp::Equal => Ok(Value::Boolean(left == right)),
            BinaryOp::NotEqual => Ok(Value::Boolean(!(left == right))),
        };
        proof {
            assert(binary_outcome(
                rel,
                expr.operator,
                left@,
                right@,
                expr.line_number,
                value_outcome(r),
            ));
            lemma_binary_evaluates(
                rel,
                expr.left@,
                expr.operator,
                expr.right@,
                expr.line_number,
                before,
                between,
                after,
                left@,
                Ok(right@),
                value_outcome(r),
            );
        }
        r
    }

    fn variable(&mut self, expr: &Variable) -> (r: RuntimeResult<Value>)
        ensures
            *final(self) == *old(self),
            value_outcome(r) == match lookup(
                old(self).environment.scopes(),
                expr.name@.token_type.lexeme(),
            ) {
                Some(value) => Ok::<ValueView, RuntimeErrorView>(value),
                None => Err(undefined_variable(expr.name@)),
            },
    {
        let result = self.environment.get(&expr.name)?;
        Ok(result.clone())
    }

    fn assign<A: Fn(ArithOp, Number, Number) -> Number>(&mut self, expr: &Assign, arith: &A) -> (r:
        RuntimeResult<Value>)
        requires
            always_computes(arith),
        ensures
            evaluates(
                host_arithmetic(arith),
                Expr::Assign(*expr)@,
                old(self).environment.scopes(),
                final(self).environment.scopes(),
                value_outcome(r),
            ),
            final(self).output == old(self).output,
            final(self).environment.scopes().len() == old(self).environment.scopes().len(),
        decreases expr, 0nat,
    {
        let ghost rel = host_arithmetic(arith);
        let ghost before = self.environment.scopes();
        let value_r = self.evaluate(&expr.value, arith);
        let ghost between = self.environment.scopes();
        proof {
            lemma_assign_evaluates(
                rel,
                expr.name@,
                expr.value@,
                before,
                between,
                value_outcome(value_r),
            );
        }
        let value = value_r?;
        proof {
            lemma_assigned(between, expr.name@.token_type.lexeme(), value@);
        }

        self.environment.assign(&expr.name, value.clone())?;

        Ok(value)
    }

    fn block<A: Fn(ArithOp, Number, Number) -> Number>(&mut self, stmt: &Block, arith: &A) -> (r:
        RuntimeResult<()>)
        requires
            always_computes(arith),
        ensures
            executes(
                host_arithmetic(arith),
                Stmt::Block(*stmt)@,
                old(self).state(),
                final(self).state(),
                unit_outcome(r),
            ),
            final(self).state().scopes.len() == old(self).state().scopes.len(),
        decreases stmt, 0nat,
    {
        let mut previous = Environment::new(None);
        core::mem::swap(&mut self.environment, &mut previous);
        let new_environment = Environment::new(Some(Box::new(previous)));
        proof {
            lemma_block_view(*stmt);
            assert(new_environment.scopes() =~= seq![Scope::empty()] + old(self).state().scopes);
        }
        let ghost entered = old(self).state();
        let r = self.execute_block(stmt.statements.as_slice(), new_environment, arith);
        proof {
            let inner = choose|inner: State|
                {
                    &&& #[trigger] runs(
                        host_arithmetic(arith),
                        stmt_views(stmt.statements@),
                        State { scopes: new_environment.scopes(), output: entered.output },
                        inner,
                        unit_outcome(r),
                    )
                    &&& inner.scopes.len() > 0
                    &&& self.state() == State {
                        scopes: inner.scopes.drop_first(),
                        output: inner.output,
                    }
                };
            lemma_block_executes(
                host_arithmetic(arith),
                stmt_views(stmt.statements@),
                entered,
                inner,
                unit_outcome(r),
            );
        }
        r
    }

    /// Runs the statements in `new_environment` and then goes back to the
    /// scope that encloses it, whether they succeeded or not.
    fn execute_block<A: Fn(ArithOp, Number, Number) -> Number>(
        &mut self,
        statements: &[Stmt],
        new_environment: Environment,
        arith: &A,
    ) -> (r: RuntimeResult<()>)
        requires
            always_computes(arith),
            new_environment.enclosing is Some,
        ensures
            exists|inner: State|
                {
                    &&& #[trigger] runs(
                        host_arithmetic(arith),
                        stmt_views(statements@),
                        State {
                            scopes: new_environment.scopes(),
                            output: old(self).state().output,
                        },
                        inner,
                        unit_outcome(r),
                    )
                    &&& inner.scopes.len() > 0
                    &&& final(self).state() == State {
                        scopes: inner.scopes.drop_first(),
                        output: inner.output,
                    }
                },
            final(self).state().scopes.len() == new_environment.scopes().len() - 1,
        decreases statements@, 1nat,
    {
        self.environment = new_environment;
        let ghost entered = self.state();

        let r = self.interpret(statements, arith);
        let ghost inner = self.state();

        let mut finished = Environment::new(None);
        core::mem::swap(&mut self.environment, &mut finished);
        proof {
            lemma_scopes(new_environment);
            lemma_scopes(*new_environment.enclosing->Some_0);
            lemma_scopes(finished);
        }
        match finished.enclosing {
            Some(previous) => {
                self.environment = *previous;
            },
            None => unreached(),
        }
        proof {
            assert(runs(
                host_arithmetic(arith),
                stmt_views(statements@),
                entered,
                inner,
                unit_outcome(r),
            ));
        }
        r
    }
}

} // verus!
