//! Runtime values.

use vstd::prelude::*;
use vstd::string::StringExecFns;
use crate::ast::{
    clone_names, clone_stmts, names_model, stmts_model, BinaryOperator, Statement, StmtModel,
};
use crate::error::{RuntimeError, RuntimeErrorModel};
use crate::number::{number_text, Number};

verus! {

/// A value that evaluation produces. A function holds its parameter names
/// and its body, and no scope.
#[derive(Debug)]
pub enum Value {
    Number(Number),
    String(String),
    Boolean(bool),
    Null,
    NativeFunction(String),
    Function { params: Vec<String>, body: Vec<Statement> },
}

/// The mathematical value of a runtime value.
pub enum ValueModel {
    Number(Number),
    String(Seq<char>),
    Boolean(bool),
    Null,
    NativeFunction(Seq<char>),
    Function { params: Seq<Seq<char>>, body: Seq<StmtModel> },
}

impl View for Value {
    type V = ValueModel;

    open spec fn view(&self) -> ValueModel {
        match self {
            Value::Number(n) => ValueModel::Number(*n),
            Value::String(s) => ValueModel::String(s@),
            Value::Boolean(b) => ValueModel::Boolean(*b),
            Value::Null => ValueModel::Null,
            Value::NativeFunction(name) => ValueModel::NativeFunction(name@),
            Value::Function { params, body } => ValueModel::Function {
                params: names_model(params@),
                body: stmts_model(body@),
            },
        }
    }
}

/// The values of a list of values.
pub open spec fn values_model(list: Seq<Value>) -> Seq<ValueModel> {
    Seq::new(list.len(), |i: int| list[i]@)
}

/// Equality of values: numbers, strings and booleans by what they hold, and
/// `Null` with `Null`. A function, built in or declared, equals nothing, not
/// even itself, and values of two kinds are never equal.
pub open spec fn values_equal(a: ValueModel, b: ValueModel) -> bool {
    match (a, b) {
        (ValueModel::Number(x), ValueModel::Number(y)) => x == y,
        (ValueModel::String(x), ValueModel::String(y)) => x == y,
        (ValueModel::Boolean(x), ValueModel::Boolean(y)) => x == y,
        (ValueModel::Null, ValueModel::Null) => true,
        _ => false,
    }
}

/// Whether a value counts as true in a condition.
pub open spec fn truthy(v: ValueModel) -> bool {
    match v {
        ValueModel::Boolean(b) => b,
        ValueModel::Null => false,
        ValueModel::Number(n) => n.units != 0,
        ValueModel::String(s) => s.len() > 0,
        _ => true,
    }
}

/// The text of a truth value.
pub open spec fn boolean_text(b: bool) -> Seq<char> {
    if b {
        "true"@
    } else {
        "false"@
    }
}

/// The text that `out` writes for a value.
pub open spec fn display_text(v: ValueModel) -> Seq<char> {
    match v {
        ValueModel::Number(n) => number_text(n.units as int),
        ValueModel::String(s) => s,
        ValueModel::Boolean(b) => boolean_text(b),
        ValueModel::Null => "null"@,
        ValueModel::NativeFunction(name) => "[Native Function: "@ + name + "]"@,
        ValueModel::Function { .. } => "[Function]"@,
    }
}

/// The text that stands for a value in an error message.
pub open spec fn debug_text(v: ValueModel) -> Seq<char> {
    match v {
        ValueModel::Number(n) => number_text(n.units as int),
        ValueModel::String(s) => "\""@ + s + "\""@,
        ValueModel::Boolean(b) => boolean_text(b),
        ValueModel::Null => "null"@,
        ValueModel::NativeFunction(name) => "<native fn "@ + name + ">"@,
        ValueModel::Function { .. } => "<fn>"@,
    }
}

/// The name of a binary operator in an error message.
pub open spec fn operator_name(op: BinaryOperator) -> Seq<char> {
    match op {
        BinaryOperator::Add => "Add"@,
        BinaryOperator::Subtract => "Subtract"@,
        BinaryOperator::Multiply => "Multiply"@,
        BinaryOperator::Divide => "Divide"@,
        BinaryOperator::Equal => "Equal"@,
        BinaryOperator::NotEqual => "NotEqual"@,
        BinaryOperator::Greater => "Greater"@,
        BinaryOperator::Less => "Less"@,
        BinaryOperator::GreaterEqual => "GreaterEqual"@,
        BinaryOperator::LessEqual => "LessEqual"@,
        BinaryOperator::And => "And"@,
        BinaryOperator::Or => "Or"@,
        BinaryOperator::Assign => "Assign"@,
    }
}

/// The name of a binary operator.
pub fn operator_text(op: BinaryOperator) -> (s: &'static str)
    ensures
        s@ == operator_name(op),
{
    match op {
        BinaryOperator::Add => "Add",
        BinaryOperator::Subtract => "Subtract",
        BinaryOperator::Multiply => "Multiply",
        BinaryOperator::Divide => "Divide",
        BinaryOperator::Equal => "Equal",
        BinaryOperator::NotEqual => "NotEqual",
        BinaryOperator::Greater => "Greater",
        BinaryOperator::Less => "Less",
        BinaryOperator::GreaterEqual => "GreaterEqual",
        BinaryOperator::LessEqual => "LessEqual",
        BinaryOperator::And => "And",
        BinaryOperator::Or => "Or",
        BinaryOperator::Assign => "Assign",
    }
}

impl Value {
    /// A copy of the value.
    pub fn duplicate(&self) -> (r: Value)
        ensures
            r@ == self@,
    {
        match self {
            Value::Number(n) => Value::Number(*n),
            Value::String(s) => Value::String(s.clone()),
            Value::Boolean(b) => Value::Boolean(*b),
            Value::Null => Value::Null,
            Value::NativeFunction(name) => Value::NativeFunction(name.clone()),
            Value::Function { params, body } => Value::Function {
                params: clone_names(params),
                body: clone_stmts(body),
            },
        }
    }

    /// The number that the value holds; any other value is a type error.
    pub fn as_number(&self) -> (r: Result<Number, RuntimeError>)
        ensures
            match r {
                Ok(n) => self@ == ValueModel::Number(n),
                Err(e) => !(self@ is Number) && e@ == RuntimeErrorModel::TypeError(
                    "Expected a number"@,
                ),
            },
    {
        match self {
            Value::Number(n) => Ok(*n),
            _ => Err(RuntimeError::TypeError(String::from_str("Expected a number"))),
        }
    }

    /// Whether the two values are equal.
    pub fn equals(&self, other: &Value) -> (r: bool)
        ensures
            r == values_equal(self@, other@),
    {
        match (self, other) {
            (Value::Number(a), Value::Number(b)) => a.same(*b),
            (Value::String(a), Value::String(b)) => *a == *b,
            (Value::Boolean(a), Value::Boolean(b)) => *a == *b,
            (Value::Null, Value::Null) => true,
            _ => false,
        }
    }

    /// Whether the value counts as true in a condition.
    pub fn is_truthy(&self) -> (r: bool)
        ensures
            r == truthy(self@),
    {
        match self {
            Value::Boolean(b) => *b,
            Value::Null => false,
            Value::Number(n) => !n.is_zero(),
            Value::String(s) => !s.as_str().is_empty(),
            _ => true,
        }
    }

    /// The text that `out` writes for the value.
    pub fn display_string(&self) -> (s: String)
        ensures
            s@ == display_text(self@),
    {
        match self {
            Value::Number(n) => n.to_text(),
            Value::String(s) => s.clone(),
            Value::Boolean(b) => if *b {
                String::from_str("true")
            } else {
                String::from_str("false")
            },
            Value::Null => String::from_str("null"),
            Value::NativeFunction(name) => {
                let mut s = String::from_str("[Native Function: ");
                s.append(name.as_str());
                s.append("]");
                s
            },
            Value::Function { .. } => String::from_str("[Function]"),
        }
    }

    /// The text that stands for the value in an error message.
    pub fn debug_string(&self) -> (s: String)
        ensures
            s@ == debug_text(self@),
    {
        match self {
            Value::Number(n) => n.to_text(),
            Value::String(text) => {
                let mut s = String::from_str("\"");
                s.append(text.as_str());
                s.append("\"");
                s
            },
            Value::Boolean(b) => if *b {
                String::from_str("true")
            } else {
                String::from_str("false")
            },
            Value::Null => String::from_str("null"),
            Value::NativeFunction(name) => {
                let mut s = String::from_str("<native fn ");
                s.append(name.as_str());
                s.append(">");
                s
            },
            Value::Function { .. } => String::from_str("<fn>"),
        }
    }
}

impl Clone for Value {
    fn clone(&self) -> (r: Self)
        ensures
            r@ == self@,
    {
        self.duplicate()
    }
}

impl PartialEq for Value {
    fn eq(&self, other: &Self) -> (r: bool) {
        self.equals(other)
    }
}

impl vstd::std_specs::cmp::PartialEqSpecImpl for Value {
    open spec fn obeys_eq_spec() -> bool {
        true
    }

    open spec fn eq_spec(&self, other: &Self) -> bool {
        values_equal(self@, other@)
    }
}

} // verus!
