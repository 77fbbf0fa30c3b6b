//! Runtime values.

use vstd::prelude::*;
use vstd::string::*;
use vstd::std_specs::cmp::PartialEqSpecImpl;
use crate::number::Number;

verus! {

#[derive(Debug)]
pub enum Value {
    Boolean(bool),
    Number(Number),
    String(String),
    Nil,
}

/// A value with its text held as a sequence of characters.
pub enum ValueView {
    Boolean(bool),
    Number(Number),
    String(Seq<char>),
    Nil,
}

impl View for Value {
    type V = ValueView;

    open spec fn view(&self) -> ValueView {
        match self {
            Value::Boolean(value) => ValueView::Boolean(*value),
            Value::Number(value) => ValueView::Number(*value),
            Value::String(value) => ValueView::String(value@),
            Value::Nil => ValueView::Nil,
        }
    }
}

impl ValueView {
    /// Truthiness: `nil` and `false` are falsy, every other value is truthy.
    pub open spec fn is_truthy(self) -> bool {
        match self {
            ValueView::Nil => false,
            ValueView::Boolean(value) => value,
            _ => true,
        }
    }

    /// Equality of values: the same variant with the same payload, numbers
    /// by IEEE equality.  Values of different variants are unequal.
    pub open spec fn equals(self, other: ValueView) -> bool {
        match (self, other) {
            (ValueView::Boolean(a), ValueView::Boolean(b)) => a == b,
            (ValueView::Number(a), ValueView::Number(b)) => a.ieee_eq(b),
            (ValueView::String(a), ValueView::String(b)) => a == b,
            (ValueView::Nil, ValueView::Nil) => true,
            _ => false,
        }
    }

    /// The display form of a value, given the decimal text `shown` that the
    /// host produced for its number (unused for other variants).
    pub open spec fn display(self, shown: Seq<char>) -> Seq<char> {
        match self {
            ValueView::Nil => "nil"@,
            ValueView::Boolean(value) => if value {
                "true"@
            } else {
                "false"@
            },
            ValueView::String(value) => value,
            ValueView::Number(_) => shown,
        }
    }
}

impl Clone for Value {
    fn clone(&self) -> (copy: Value)
        ensures
            copy == *self,
    {
        match self {
            Value::Boolean(value) => Value::Boolean(*value),
            Value::Number(value) => Value::Number(*value),
            Value::String(value) => Value::String(value.clone()),
            Value::Nil => Value::Nil,
        }
    }
}

impl PartialEq for Value {
    fn eq(&self, other: &Self) -> (r: bool) {
        match (self, other) {
            (Value::Boolean(a), Value::Boolean(b)) => *a == *b,
            (Value::Number(a), Value::Number(b)) => a.equals(*b),
            (Value::String(a), Value::String(b)) => *a == *b,
            (Value::Nil, Value::Nil) => true,
            _ => false,
        }
    }
}

impl PartialEqSpecImpl for Value {
    open spec fn obeys_eq_spec() -> bool {
        true
    }

    open spec fn eq_spec(&self, other: &Value) -> bool {
        self@.equals(other@)
    }
}

impl Value {
    /// The display form of the value: `nil`, `true` or `false`, a string's
    /// content, or a number as `format` renders it.
    pub fn to_string<F: Fn(Number) -> String>(&self, format: &F) -> (text: String)
        requires
            forall|n: Number| call_requires(format, (n,)),
        ensures
            exists|shown: String|
                {
                    &&& self matches Value::Number(n) ==> call_ensures(format, (*n,), shown)
                    &&& text@ == self@.display(shown@)
                },
    {
        match self {
            Value::Nil => {
                let text = "nil".to_string();
                assert(text@ == self@.display(text@));
                text
            },
            Value::Boolean(value) => {
                let text = if *value {
                    "true".to_string()
                } else {
                    "false".to_string()
                };
                assert(text@ == self@.display(text@));
                text
            },
            Value::String(value) => {
                let text = value.clone();
                assert(text@ == self@.display(text@));
                text
            },
            Value::Number(value) => {
                let text = format(*value);
                assert(text@ == self@.display(text@));
                text
            },
        }
    }
}

/// Two operands that are both numbers.
#[derive(Debug, Clone, Copy)]
pub struct NumberPair(pub Number, pub Number);

/// Two operands that are both strings.
#[derive(Debug)]
pub struct StringPair(pub String, pub String);

impl NumberPair {
    /// The two numbers, if both values are numbers.
    pub fn try_from(value: (&Value, &Value)) -> (r: Result<NumberPair, ()>)
        ensures
            match (value.0@, value.1@) {
                (ValueView::Number(left), ValueView::Number(right)) => r == Ok::<NumberPair, ()>(
                    NumberPair(left, right),
                ),
                _ => r is Err,
            },
    {
        match value {
            (Value::Number(left), Value::Number(right)) => Ok(NumberPair(*left, *right)),
            _ => Err(()),
        }
    }
}

impl StringPair {
    /// Copies of the two strings, if both values are strings.
    pub fn try_from(value: (&Value, &Value)) -> (r: Result<StringPair, ()>)
        ensures
            match (value.0@, value.1@) {
                (ValueView::String(left), ValueView::String(right)) => r matches Ok(pair)
                    && pair.0@ == left && pair.1@ == right,
                _ => r is Err,
            },
    {
        match value {
            (Value::String(left), Value::String(right)) => Ok(
                StringPair(left.clone(), right.clone()),
            ),
            _ => Err(()),
        }
    }
}

/// Negating truthiness twice gives truthiness back, and only `nil` and
/// `false` are falsy.
pub proof fn lemma_truthiness(v: ValueView)
    ensures
        !!v.is_truthy() == v.is_truthy(),
        v.is_truthy() == !(v is Nil || v == ValueView::Boolean(false)),
{
}

/// Equality of values is reflexive on everything but NaN, and symmetric.
pub proof fn lemma_equality(a: ValueView, b: ValueView)
    ensures
        a.equals(a) == !(a matches ValueView::Number(n) && n.is_nan()),
        a.equals(b) == b.equals(a),
{
}

} // verus!
