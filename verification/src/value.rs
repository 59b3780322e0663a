//! Runtime values and the rules that hold of them: truthiness, equality and
//! how a value is shown.
use vstd::prelude::*;
use vstd::string::StringExecFns;
use crate::error::Error;
use crate::expr::Literal;
use crate::number;

verus! {

/// Something that can be called: a name and the number of arguments it takes.
#[derive(Debug)]
pub struct Callable {
    pub name: String,
    pub arity: usize,
}

impl Callable {
    pub fn new(name: String, arity: usize) -> (callable: Callable)
        ensures
            callable.name == name,
            callable.arity == arity,
    {
        Callable { name, arity }
    }
}

impl Clone for Callable {
    fn clone(&self) -> (copy: Callable)
        ensures
            copy == *self,
    {
        Callable { name: self.name.clone(), arity: self.arity }
    }
}

/// A value of the language.
#[derive(Debug)]
pub enum LoxValue {
    /// A double, as its bit pattern.
    Number(u64),
    String(String),
    Boolean(bool),
    Function(Box<Callable>),
    Nil,
}

/// The text that `{:?}` formats a value as.
pub uninterp spec fn debug_rendering(value: Value) -> Seq<char>;

/// Formats the value with `format!("{:?}", ..)`, through the `Debug` that
/// `LoxValue` derives. The text depends on nothing but the value, which is all
/// that the contract claims: equal values give equal texts.
#[verifier::external_body]
fn debug_text(value: &LoxValue) -> (text: String)
    ensures
        text@ == debug_rendering(value@),
{
    format!("{:?}", value)
}

/// What a `LoxValue` stands for.
pub enum Value {
    Number(u64),
    String(Seq<char>),
    Boolean(bool),
    Function { name: Seq<char>, arity: nat },
    Nil,
}

impl Value {
    /// Truthiness: `nil` and `false` are falsy, every other value is truthy.
    pub open spec fn truthy(self) -> bool {
        match self {
            Value::Nil => false,
            Value::Boolean(b) => b,
            _ => true,
        }
    }

    /// Whether both are of the same variant.
    pub open spec fn same_variant(self, other: Value) -> bool {
        match (self, other) {
            (Value::Number(_), Value::Number(_)) => true,
            (Value::String(_), Value::String(_)) => true,
            (Value::Boolean(_), Value::Boolean(_)) => true,
            (Value::Function { .. }, Value::Function { .. }) => true,
            (Value::Nil, Value::Nil) => true,
            _ => false,
        }
    }

    /// The language's equality. Values of different variants are unequal;
    /// numbers compare as numbers, strings and booleans by what they hold;
    /// `nil` equals `nil`; a callable equals nothing, not even itself.
    pub open spec fn equals(self, other: Value) -> bool {
        match (self, other) {
            (Value::Number(a), Value::Number(b)) => number::same(a, b),
            (Value::String(a), Value::String(b)) => a == b,
            (Value::Boolean(a), Value::Boolean(b)) => a == b,
            (Value::Nil, Value::Nil) => true,
            _ => false,
        }
    }

    /// The text a value is shown as, given the digits of a number, which are
    /// formatted outside this library.
    pub open spec fn text(self, number_text: Seq<char>) -> Seq<char> {
        match self {
            Value::Number(_) => number_text,
            Value::String(s) => s,
            Value::Boolean(b) => if b {
                "true"@
            } else {
                "false"@
            },
            Value::Function { name, .. } => "<function "@ + name + ">"@,
            Value::Nil => "nil"@,
        }
    }
}

impl View for LoxValue {
    type V = Value;

    open spec fn view(&self) -> Value {
        match *self {
            LoxValue::Number(n) => Value::Number(n),
            LoxValue::String(s) => Value::String(s@),
            LoxValue::Boolean(b) => Value::Boolean(b),
            LoxValue::Function(c) => Value::Function { name: c.name@, arity: c.arity as nat },
            LoxValue::Nil => Value::Nil,
        }
    }
}

impl LoxValue {
    /// A callable value of the given name and arity.
    pub fn new_callable(name: String, arity: usize) -> (value: LoxValue)
        ensures
            value@ == (Value::Function { name: name@, arity: arity as nat }),
    {
        LoxValue::Function(Box::new(Callable::new(name, arity)))
    }

    pub fn is_truthy(&self) -> (truthy: bool)
        ensures
            truthy == self@.truthy(),
    {
        match self {
            LoxValue::Nil => false,
            LoxValue::Boolean(val) => *val,
            _ => true,
        }
    }

    pub fn is_number(&self) -> (yes: bool)
        ensures
            yes == (self@ is Number),
    {
        match self {
            LoxValue::Number(_) => true,
            _ => false,
        }
    }

    /// The bits of a number.
    pub fn as_number(&self) -> (bits: u64)
        requires
            self@ is Number,
        ensures
            self@ == Value::Number(bits),
    {
        match self {
            LoxValue::Number(n) => *n,
            _ => vstd::pervasive::unreached(),
        }
    }

    pub fn is_callable(&self) -> (yes: bool)
        ensures
            yes == (self@ is Function),
    {
        match self {
            LoxValue::Function(_) => true,
            _ => false,
        }
    }

    /// The callable that a function value holds.
    pub fn as_callable(&self) -> (callable: &Callable)
        requires
            self@ is Function,
        ensures
            *self == LoxValue::Function(Box::new(*callable)),
    {
        match self {
            LoxValue::Function(c) => c,
            _ => vstd::pervasive::unreached(),
        }
    }

    /// Whether both values are of the same variant.
    pub fn type_matches(&self, other: &LoxValue) -> (same: bool)
        ensures
            same == self@.same_variant(other@),
    {
        match (self, other) {
            (LoxValue::Number(_), LoxValue::Number(_)) => true,
            (LoxValue::String(_), LoxValue::String(_)) => true,
            (LoxValue::Boolean(_), LoxValue::Boolean(_)) => true,
            (LoxValue::Function(_), LoxValue::Function(_)) => true,
            (LoxValue::Nil, LoxValue::Nil) => true,
            _ => false,
        }
    }

    /// The text this value is shown as. A number is shown as `number_text`,
    /// which the caller has formatted; for every other value the argument is
    /// not read.
    pub fn display(&self, number_text: &str) -> (text: String)
        ensures
            text@ == self@.text(number_text@),
    {
        match self {
            LoxValue::Number(_) => number_text.to_owned(),
            LoxValue::String(s) => s.clone(),
            LoxValue::Boolean(b) => if *b {
                "true".to_owned()
            } else {
                "false".to_owned()
            },
            LoxValue::Function(c) => {
                let mut text = "<function ".to_owned();
                text.append(c.name.as_str());
                text.append(">");
                text
            },
            LoxValue::Nil => "nil".to_owned(),
        }
    }

    /// The bits of a number, or for any other value an error that says, with
    /// the value's debug rendering, that it is not a number.
    pub fn try_into_number(self) -> (result: Result<u64, Error>)
        ensures
            match result {
                Ok(bits) => self@ == Value::Number(bits),
                Err(error) => {
                    &&& !(self@ is Number)
                    &&& error matches Error::TryFrom(message)
                    &&& message@ == debug_rendering(self@) + " is not a number"@
                },
            },
    {
        match self {
            LoxValue::Number(n) => Ok(n),
            other => {
                let mut message = debug_text(&other);
                message.append(" is not a number");
                Err(Error::TryFrom(message))
            },
        }
    }
}

impl Clone for LoxValue {
    fn clone(&self) -> (copy: LoxValue)
        ensures
            copy == *self,
    {
        match self {
            LoxValue::Number(n) => LoxValue::Number(*n),
            LoxValue::String(s) => LoxValue::String(s.clone()),
            LoxValue::Boolean(b) => LoxValue::Boolean(*b),
            LoxValue::Function(c) => LoxValue::Function(Box::new((**c).clone())),
            LoxValue::Nil => LoxValue::Nil,
        }
    }
}

impl PartialEq for LoxValue {
    fn eq(&self, other: &LoxValue) -> (equal: bool) {
        match (self, other) {
            (LoxValue::Number(a), LoxValue::Number(b)) => number::equal(*a, *b),
            (LoxValue::String(a), LoxValue::String(b)) => *a == *b,
            (LoxValue::Boolean(a), LoxValue::Boolean(b)) => *a == *b,
            (LoxValue::Function(_), LoxValue::Function(_)) => false,
            (LoxValue::Nil, LoxValue::Nil) => true,
            _ => false,
        }
    }
}

impl vstd::std_specs::cmp::PartialEqSpecImpl for LoxValue {
    open spec fn obeys_eq_spec() -> bool {
        true
    }

    open spec fn eq_spec(&self, other: &LoxValue) -> bool {
        self@.equals(other@)
    }
}

impl From<Literal> for LoxValue {
    fn from(lit: Literal) -> (value: LoxValue) {
        match lit {
            Literal::Number(n) => LoxValue::Number(n),
            Literal::String(s) => LoxValue::String(s),
            Literal::Boolean(b) => LoxValue::Boolean(b),
            Literal::Nil => LoxValue::Nil,
        }
    }
}

impl vstd::std_specs::convert::FromSpecImpl<Literal> for LoxValue {
    open spec fn obeys_from_spec() -> bool {
        true
    }

    open spec fn from_spec(lit: Literal) -> LoxValue {
        match lit {
            Literal::Number(n) => LoxValue::Number(n),
            Literal::String(s) => LoxValue::String(s),
            Literal::Boolean(b) => LoxValue::Boolean(b),
            Literal::Nil => LoxValue::Nil,
        }
    }
}

} // verus!
