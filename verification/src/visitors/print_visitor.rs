//! Renders expressions in prefix form with full parentheses.

use vstd::prelude::*;
use vstd::string::*;
use crate::number::Number;
use crate::parser::expr::{
    Assign, Binary, Expr, ExprView, Grouping, Literal, LiteralType, Unary, Variable,
};
use crate::parser::stmt::Print;

verus! {

/// What the host's rendering of numbers may give: number, decimal text.
pub type Rendering = spec_fn(Number, Seq<char>) -> bool;

/// What the host's rendering function may give, as a relation.
pub open spec fn host_rendering<F: Fn(Number) -> String>(format: &F) -> Rendering {
    |n: Number, shown: Seq<char>|
        exists|text: String| #[trigger] text@ == shown && call_ensures(format, (n,), text)
}

/// Holds of everything.  Marks the values that the quantifiers of this
/// module are instantiated with.
pub open spec fn picks<T>(witness: T) -> bool {
    true
}

/// The parts in order, separated by single spaces.
pub open spec fn joined(parts: Seq<Seq<char>>) -> Seq<char>
    decreases parts.len(),
{
    if parts.len() == 0 {
        Seq::empty()
    } else if parts.len() == 1 {
        parts[0]
    } else {
        joined(parts.drop_last()) + seq![' '] + parts.last()
    }
}

/// `(name part part ...)`
pub open spec fn parenthesized(name: Seq<char>, parts: Seq<Seq<char>>) -> Seq<char> {
    seq!['('] + name + seq![' '] + joined(parts) + seq![')']
}

/// Whether `text` is a rendering of `expr`: a literal in its display form,
/// a variable by its name, an operator before its operands in parentheses, a
/// grouping as the operator `group`; an assignment renders as nothing.
pub open spec fn renders(rendering: Rendering, expr: ExprView, text: Seq<char>) -> bool
    decreases expr,
{
    match expr {
        ExprView::Literal { literal_type, .. } => exists|shown: Seq<char>|
            {
                &&& #[trigger] picks(shown)
                &&& literal_type matches crate::parser::expr::LiteralTypeView::Number { value }
                    ==> rendering(value, shown)
                &&& text == literal_type.display(shown)
            },
        ExprView::Unary { operator, right, .. } => exists|operand: Seq<char>|
            {
                &&& #[trigger] picks(operand)
                &&& renders(rendering, *right, operand)
                &&& text == parenthesized(operator.symbol(), seq![operand])
            },
        ExprView::Binary { left, operator, right, .. } => exists|
            first: Seq<char>,
            second: Seq<char>,
        |
            {
                &&& #[trigger] picks((first, second))
                &&& renders(rendering, *left, first)
                &&& renders(rendering, *right, second)
                &&& text == parenthesized(operator.symbol(), seq![first, second])
            },
        ExprView::Grouping { expression, .. } => exists|inner: Seq<char>|
            {
                &&& #[trigger] picks(inner)
                &&& renders(rendering, *expression, inner)
                &&& text == parenthesized("group"@, seq![inner])
            },
        ExprView::Variable { name } => text == name.token_type.lexeme(),
        ExprView::Assign { .. } => text == Seq::<char>::empty(),
    }
}

/// Whether `parts` are renderings of the expressions, one for each in order.
pub open spec fn render_each(rendering: Rendering, exprs: Seq<ExprView>, parts: Seq<Seq<char>>) -> bool {
    &&& parts.len() == exprs.len()
    &&& forall|i: int| 0 <= i < exprs.len() ==> renders(rendering, #[trigger] exprs[i], parts[i])
}

/// The number of nodes of an expression.
pub open spec fn nodes(expr: Expr) -> nat
    decreases expr,
{
    match expr {
        Expr::Binary(binary) => 1 + nodes(*binary.left) + nodes(*binary.right),
        Expr::Grouping(grouping) => 1 + nodes(*grouping.expression),
        Expr::Literal(_) => 1,
        Expr::Unary(unary) => 1 + nodes(*unary.right),
        Expr::Variable(_) => 1,
        Expr::Assign(assign) => 1 + nodes(*assign.value),
    }
}

/// The number of nodes of the first `count` expressions together.
pub open spec fn nodes_of(exprs: Seq<&Expr>, count: nat) -> nat
    decreases count,
{
    if count == 0 || count > exprs.len() {
        0
    } else {
        nodes_of(exprs, (count - 1) as nat) + nodes(*exprs[count - 1])
    }
}

/// The views of the expressions, in order.
pub open spec fn expr_views(exprs: Seq<&Expr>) -> Seq<ExprView> {
    Seq::new(exprs.len(), |i: int| exprs[i]@)
}

/// Each expression has no more nodes than the list that holds it.
proof fn lemma_nodes_of(exprs: Seq<&Expr>, count: nat, i: int)
    requires
        0 <= i < count <= exprs.len(),
    ensures
        nodes(*exprs[i]) <= nodes_of(exprs, count),
    decreases count,
{
    if i < count - 1 {
        lemma_nodes_of(exprs, (count - 1) as nat, i);
    }
}

pub struct PrintVisitor;

impl PrintVisitor {
    /// The rendering of an expression; `None` if it is empty.  `format`
    /// renders a number in decimal.
    pub fn print<F: Fn(Number) -> String>(&mut self, expr: &Expr, format: &F) -> (r: Option<String>)
        requires
            forall|n: Number| call_requires(format, (n,)),
        ensures
            exists|text: Seq<char>|
                {
                    &&& #[trigger] renders(host_rendering(format), expr@, text)
                    &&& match r {
                        Some(printed) => printed@ == text && text.len() > 0,
                        None => text.len() == 0,
                    }
                },
    {
        let to_print = self.render(expr, format);
        if to_print.as_str().is_empty() {
            None
        } else {
            Some(to_print)
        }
    }

    /// The rendering of a print statement: that of its expression.
    pub fn print_statement<F: Fn(Number) -> String>(&mut self, stmt: &Print, format: &F) -> (text:
        String)
        requires
            forall|n: Number| call_requires(format, (n,)),
        ensures
            renders(host_rendering(format), stmt.expression@, text@),
    {
        self.render(&stmt.expression, format)
    }

    /// The rendering of an expression.
    fn render<F: Fn(Number) -> String>(&mut self, expr: &Expr, format: &F) -> (text: String)
        requires
            forall|n: Number| call_requires(format, (n,)),
        ensures
            renders(host_rendering(format), expr@, text@),
        decreases nodes(*expr), 2nat,
    {
        match expr {
            Expr::Binary(binary) => self.binary(binary, format),
            Expr::Grouping(grouping) => self.grouping(grouping, format),
            Expr::Literal(literal) => self.literal(literal, format),
            Expr::Unary(unary) => self.unary(unary, format),
            Expr::Variable(variable) => self.variable(variable),
            Expr::Assign(assign) => self.assign(assign),
        }
    }

    fn unary<F: Fn(Number) -> String>(&mut self, expr: &Unary, format: &F) -> (text: String)
        requires
            forall|n: Number| call_requires(format, (n,)),
        ensures
            renders(host_rendering(format), Expr::Unary(*expr)@, text@),
        decreases nodes(Expr::Unary(*expr)), 1nat,
    {
        let operands: [&Expr; 1] = [&*expr.right];
        proof {
            assert(nodes_of(operands@, 1) == nodes(*expr.right)) by {
                reveal_with_fuel(nodes_of, 2);
            }
        }
        let ghost exprs = expr_views(operands@);
        let text = self.parenthesize(expr.operator.to_string().as_str(), &operands, format);
        proof {
            let parts = choose|parts: Seq<Seq<char>>|
                #[trigger] render_each(host_rendering(format), exprs, parts) && text@
                    == parenthesized(expr.operator.symbol(), parts);
            assert(exprs[0] == expr.right@);
            assert(parts =~= seq![parts[0]]);
            assert(picks(parts[0]));
        }
        text
    }

    fn binary<F: Fn(Number) -> String>(&mut self, expr: &Binary, format: &F) -> (text: String)
        requires
            forall|n: Number| call_requires(format, (n,)),
        ensures
            renders(host_rendering(format), Expr::Binary(*expr)@, text@),
        decreases nodes(Expr::Binary(*expr)), 1nat,
    {
        let operands: [&Expr; 2] = [&*expr.left, &*expr.right];
        proof {
            assert(nodes_of(operands@, 2) == nodes(*expr.left) + nodes(*expr.right)) by {
                reveal_with_fuel(nodes_of, 3);
            }
        }
        let ghost exprs = expr_views(operands@);
        let text = self.parenthesize(expr.operator.to_string().as_str(), &operands, format);
        proof {
            let parts = choose|parts: Seq<Seq<char>>|
                #[trigger] render_each(host_rendering(format), exprs, parts) && text@
                    == parenthesized(expr.operator.symbol(), parts);
            assert(exprs[0] == expr.left@);
            assert(exprs[1] == expr.right@);
            assert(parts =~= seq![parts[0], parts[1]]);
            assert(picks((parts[0], parts[1])));
        }
        text
    }

    fn literal<F: Fn(Number) -> String>(&mut self, expr: &Literal, format: &F) -> (text: String)
        requires
            forall|n: Number| call_requires(format, (n,)),
        ensures
            renders(host_rendering(format), Expr::Literal(*expr)@, text@),
    {
        let text = expr.to_string(format);
        proof {
            let shown = choose|shown: String|
                {
                    &&& expr.literal_type matches LiteralType::Number { value } ==> call_ensures(
                        format,
                        (value,),
                        shown,
                    )
                    &&& text@ == expr.literal_type@.display(shown@)
                };
            assert(picks(shown@));
        }
        text
    }

    fn grouping<F: Fn(Number) -> String>(&mut self, expr: &Grouping, format: &F) -> (text: String)
        requires
            forall|n: Number| call_requires(format, (n,)),
        ensures
            renders(host_rendering(format), Expr::Grouping(*expr)@, text@),
        decreases nodes(Expr::Grouping(*expr)), 1nat,
    {
        let operands: [&Expr; 1] = [&*expr.expression];
        proof {
            assert(nodes_of(operands@, 1) == nodes(*expr.expression)) by {
                reveal_with_fuel(nodes_of, 2);
            }
        }
        let ghost exprs = expr_views(operands@);
        let text = self.parenthesize("group", &operands, format);
        proof {
            let parts = choose|parts: Seq<Seq<char>>|
                #[trigger] render_each(host_rendering(format), exprs, parts) && text@
                    == parenthesized("group"@, parts);
            assert(exprs[0] == expr.expression@);
            assert(parts =~= seq![parts[0]]);
            assert(picks(parts[0]));
        }
        text
    }

    fn variable(&mut self, expr: &Variable) -> (text: String)
        ensures
            text@ == expr.name@.token_type.lexeme(),
    {
        expr.name.token_type.lexeme()
    }

    fn assign(&mut self, _expr: &Assign) -> (text: String)
        ensures
            text@ == Seq::<char>::empty(),
    {
        String::new()
    }

    /// `(name rendering rendering ...)`, with the renderings of the
    /// expressions in order.
    pub fn parenthesize<F: Fn(Number) -> String>(
        &mut self,
        name: &str,
        exprs: &[&Expr],
        format: &F,
    ) -> (text: String)
        requires
            forall|n: Number| call_requires(format, (n,)),
        ensures
            exists|parts: Seq<Seq<char>>|
                #[trigger] render_each(host_rendering(format), expr_views(exprs@), parts) && text@
                    == parenthesized(name@, parts),
        decreases nodes_of(exprs@, exprs@.len()), 3nat,
    {
        let mut text = String::new();
        text.push('(');
        text.append(name);
        text.push(' ');
        let ghost head = text@;
        let ghost mut parts: Seq<Seq<char>> = Seq::empty();
        let mut i: usize = 0;
        while i < exprs.len()
            invariant
                forall|n: Number| call_requires(format, (n,)),
                i <= exprs.len(),
                head == seq!['('] + name@ + seq![' '],
                parts.len() == i,
                forall|j: int|
                    0 <= j < i ==> renders(
                        host_rendering(format),
                        #[trigger] expr_views(exprs@)[j],
                        parts[j],
                    ),
                text@ == head + joined(parts),
            decreases exprs.len() - i,
        {
            if i > 0 {
                text.push(' ');
            }
            proof {
                lemma_nodes_of(exprs@, exprs@.len(), i as int);
            }
            let part = self.render(exprs[i], format);
            text.append(part.as_str());
            proof {
                let longer = parts.push(part@);
                assert(longer.drop_last() =~= parts);
                assert(longer.last() == part@);
                assert(text@ =~= head + joined(longer)) by {
                    reveal_with_fuel(joined, 2);
                }
                parts = longer;
            }
            i += 1;
        }
        text.push(')');
        proof {
            assert(text@ =~= parenthesized(name@, parts));
            assert(render_each(host_rendering(format), expr_views(exprs@), parts));
        }
        text
    }
}

} // verus!
