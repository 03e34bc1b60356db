//! Runtime values: numbers, booleans, texts and null, with their display
//! text and truthiness.
use crate::text::{decimal, push_decimal, push_str};
use vstd::prelude::*;
use vstd::string::*;

verus! {

#[derive(Clone, Debug, PartialEq)]
pub enum Value {
    Number(i64),
    Boolean(bool),
    String(String),
    Null,
}

/// A runtime value as a mathematical value.
pub ghost enum Val {
    Number(i64),
    Boolean(bool),
    String(Seq<char>),
    Null,
}

impl View for Value {
    type V = Val;

    open spec fn view(&self) -> Val {
        match self {
            Value::Number(n) => Val::Number(*n),
            Value::Boolean(b) => Val::Boolean(*b),
            Value::String(s) => Val::String(s@),
            Value::Null => Val::Null,
        }
    }
}

/// Truthiness: a boolean is itself, a number is true when nonzero, a text
/// when nonempty, and null is false.
pub open spec fn truthy(v: Val) -> bool {
    match v {
        Val::Boolean(b) => b,
        Val::Number(n) => n != 0,
        Val::String(s) => s.len() != 0,
        Val::Null => false,
    }
}

/// The text that `print` writes for a value.
pub open spec fn display(v: Val) -> Seq<char> {
    match v {
        Val::Number(n) => decimal(n as int),
        Val::Boolean(b) => if b {
            "true"@
        } else {
            "false"@
        },
        Val::String(s) => s,
        Val::Null => "null"@,
    }
}

/// The name of a value's kind, as error messages give it.
pub open spec fn kind_name(v: Val) -> Seq<char> {
    match v {
        Val::Number(_) => "Number"@,
        Val::Boolean(_) => "Boolean"@,
        Val::String(_) => "String"@,
        Val::Null => "Null"@,
    }
}

impl Value {
    pub fn is_truthy(&self) -> (r: bool)
        ensures
            r == truthy(self@),
    {
        match self {
            Value::Boolean(b) => *b,
            Value::Number(n) => *n != 0,
            Value::String(s) => !s.as_str().is_empty(),
            Value::Null => false,
        }
    }

    /// Appends the display text of the value to `out`.
    pub fn write_display(&self, out: &mut String)
        ensures
            final(out)@ == old(out)@ + display(self@),
    {
        match self {
            Value::Number(n) => push_decimal(out, *n),
            Value::Boolean(b) => {
                if *b {
                    push_str(out, "true");
                } else {
                    push_str(out, "false");
                }
            },
            Value::String(s) => push_str(out, s.as_str()),
            Value::Null => push_str(out, "null"),
        }
    }

    /// The display text of the value.
    pub fn display(&self) -> (r: String)
        ensures
            r@ == display(self@),
    {
        let mut s = String::new();
        self.write_display(&mut s);
        proof {
            assert(s@ =~= display(self@));
        }
        s
    }

    /// The name of the value's kind.
    pub fn kind_name(&self) -> (r: &'static str)
        ensures
            r@ == kind_name(self@),
    {
        match self {
            Value::Number(_) => "Number",
            Value::Boolean(_) => "Boolean",
            Value::String(_) => "String",
            Value::Null => "Null",
        }
    }

    /// A copy of the value.
    pub fn duplicate(&self) -> (r: Value)
        ensures
            r@ == self@,
    {
        match self {
            Value::Number(n) => Value::Number(*n),
            Value::Boolean(b) => Value::Boolean(*b),
            Value::String(s) => Value::String(s.clone()),
            Value::Null => Value::Null,
        }
    }
}

} // verus!
