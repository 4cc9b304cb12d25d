//! Runtime values, the closures they carry, the built-in functions and the errors of
//! evaluation.
use vstd::prelude::*;
use std::rc::Rc;
use crate::ast::{bool_text, join, names_view, stmt_text, write_names, ParserError, Statement};
use crate::text::{int_text, push_int, push_str, push_string, same_text};
use crate::token::TokenKind;

verus! {

#[derive(Debug, PartialEq, Eq)]
pub enum Object {
    IntegerValue(i32),
    BooleanValue(bool),
    StringValue(String),
    ArrayValue(Vec<Object>),
    /// Entries in the order their keys were first written.
    MapValue(Vec<(String, Object)>),
    /// A value on its way out of a `return`; never seen outside blocks and calls.
    ReturnValue(Box<Object>),
    FunctionValue(Closure),
    BuiltinValue(BuiltinFunction),
    UnitValue,
}

/// A function value: its parameters, its body, and the scope it was made in.
#[derive(Debug, PartialEq, Eq)]
pub struct Closure {
    pub parameters: Rc<Vec<String>>,
    pub body: Rc<Statement>,
    /// Index of the defining scope in the evaluator's environment.
    pub env: usize,
}

#[derive(Debug, PartialEq, Eq, Clone, Copy, Structural)]
pub enum BuiltinFunction {
    Len,
    Append,
    Rest,
    Println,
    Print,
}

#[derive(Debug)]
pub enum EvalError {
    IdentifierNotFound(String),
    TypeMismatch(String),
    ModuloByZero,
    DivisionByZero,
    FunctionNotFound(String),
    /// Expected, then given, number of arguments.
    FunctionCallWrongArity(usize, usize),
    ReturnOutsideExpression,
    UnsupportedOperator(TokenKind),
    ParsingError(ParserError),
    UnsupportedArgumentType(String),
    InvalidIndexUsage,
    InvalidIndexType,
    /// Length of the array, then the index asked for.
    IndexOutOfBounds(usize, i32),
    ValueNotFound(String),
    /// Calls nested deeper than the evaluator allows.
    CallDepthExceeded,
}

/// The mathematical value an object stands for.
pub enum Value {
    Integer(i32),
    Boolean(bool),
    Str(Seq<char>),
    Array(Seq<Value>),
    Dict(Seq<(Seq<char>, Value)>),
    Return(Box<Value>),
    Function(Closure),
    Builtin(BuiltinFunction),
    Unit,
}

impl Object {
    pub open spec fn model(&self) -> Value
        decreases self,
    {
        match self {
            Object::IntegerValue(n) => Value::Integer(*n),
            Object::BooleanValue(b) => Value::Boolean(*b),
            Object::StringValue(s) => Value::Str(s@),
            Object::ArrayValue(v) => Value::Array(
                Seq::new(
                    v@.len(),
                    |i: int|
                        if 0 <= i < v@.len() {
                            v@[i].model()
                        } else {
                            Value::Unit
                        },
                ),
            ),
            Object::MapValue(m) => Value::Dict(
                Seq::new(
                    m@.len(),
                    |i: int|
                        if 0 <= i < m@.len() {
                            (m@[i].0@, m@[i].1.model())
                        } else {
                            (Seq::empty(), Value::Unit)
                        },
                ),
            ),
            Object::ReturnValue(inner) => Value::Return(Box::new((**inner).model())),
            Object::FunctionValue(c) => Value::Function(*c),
            Object::BuiltinValue(b) => Value::Builtin(*b),
            Object::UnitValue => Value::Unit,
        }
    }

    /// A copy of this object.
    pub fn duplicate(&self) -> (r: Object)
        ensures
            r.model() == self.model(),
        decreases self,
    {
        match self {
            Object::IntegerValue(n) => Object::IntegerValue(*n),
            Object::BooleanValue(b) => Object::BooleanValue(*b),
            Object::StringValue(s) => Object::StringValue(s.clone()),
            Object::ArrayValue(v) => {
                let mut out: Vec<Object> = Vec::new();
                let mut i: usize = 0;
                while i < v.len()
                    invariant
                        i <= v@.len(),
                        decreases_to!(*self => *v),
                        out@.len() == i,
                        forall|j: int| 0 <= j < i ==> (#[trigger] out@[j]).model() == v@[j].model(),
                    decreases v@.len() - i,
                {
                    proof {
                        assert(decreases_to!(*v => v[i as int]));
                    }
                    out.push(v[i].duplicate());
                    i += 1;
                }
                let r = Object::ArrayValue(out);
                assert(r.model()->Array_0 =~= self.model()->Array_0);
                r
            },
            Object::MapValue(m) => {
                let mut out: Vec<(String, Object)> = Vec::new();
                let mut i: usize = 0;
                while i < m.len()
                    invariant
                        i <= m@.len(),
                        decreases_to!(*self => *m),
                        out@.len() == i,
                        forall|j: int|
                            0 <= j < i ==> (#[trigger] out@[j]).0@ == m@[j].0@ && out@[j].1.model()
                                == m@[j].1.model(),
                    decreases m@.len() - i,
                {
                    proof {
                        assert(decreases_to!(*m => m[i as int]));
                    }
                    let entry = (m[i].0.clone(), m[i].1.duplicate());
                    out.push(entry);
                    i += 1;
                }
                let r = Object::MapValue(out);
                assert(r.model()->Dict_0 =~= self.model()->Dict_0);
                r
            },
            Object::ReturnValue(inner) => Object::ReturnValue(Box::new(inner.duplicate())),
            Object::FunctionValue(c) => Object::FunctionValue(c.duplicate()),
            Object::BuiltinValue(b) => Object::BuiltinValue(*b),
            Object::UnitValue => Object::UnitValue,
        }
    }
}

impl Closure {
    /// A copy of this closure that shares its parameters and body.
    pub fn duplicate(&self) -> (r: Closure)
        ensures
            r == *self,
    {
        Closure {
            parameters: Rc::clone(&self.parameters),
            body: Rc::clone(&self.body),
            env: self.env,
        }
    }
}

/// The name a built-in function is called by.
pub open spec fn builtin_name(b: BuiltinFunction) -> Seq<char> {
    match b {
        BuiltinFunction::Len => "len"@,
        BuiltinFunction::Append => "append"@,
        BuiltinFunction::Rest => "rest"@,
        BuiltinFunction::Println => "println"@,
        BuiltinFunction::Print => "print"@,
    }
}

/// The built-in function a name calls, if any.
pub open spec fn builtin_named(name: Seq<char>) -> Option<BuiltinFunction> {
    if name == "len"@ {
        Some(BuiltinFunction::Len)
    } else if name == "append"@ {
        Some(BuiltinFunction::Append)
    } else if name == "rest"@ {
        Some(BuiltinFunction::Rest)
    } else if name == "println"@ {
        Some(BuiltinFunction::Println)
    } else if name == "print"@ {
        Some(BuiltinFunction::Print)
    } else {
        None
    }
}

impl BuiltinFunction {
    /// Matches built-in functions.
    pub fn lookup_function(identifier: &str) -> (r: Result<Object, EvalError>)
        ensures
            match builtin_named(identifier@) {
                Some(b) => r == Ok::<Object, EvalError>(Object::BuiltinValue(b)),
                None => r matches Err(EvalError::IdentifierNotFound(n)) && n@ == identifier@,
            },
    {
        if same_text(identifier, "len") {
            Ok(Object::BuiltinValue(BuiltinFunction::Len))
        } else if same_text(identifier, "append") {
            Ok(Object::BuiltinValue(BuiltinFunction::Append))
        } else if same_text(identifier, "rest") {
            Ok(Object::BuiltinValue(BuiltinFunction::Rest))
        } else if same_text(identifier, "println") {
            Ok(Object::BuiltinValue(BuiltinFunction::Println))
        } else if same_text(identifier, "print") {
            Ok(Object::BuiltinValue(BuiltinFunction::Print))
        } else {
            Err(EvalError::IdentifierNotFound(String::from_str(identifier)))
        }
    }

    /// The name this built-in function is called by.
    pub fn name(&self) -> (r: &'static str)
        ensures
            r@ == builtin_name(*self),
    {
        match self {
            BuiltinFunction::Len => "len",
            BuiltinFunction::Append => "append",
            BuiltinFunction::Rest => "rest",
            BuiltinFunction::Println => "println",
            BuiltinFunction::Print => "print",
        }
    }
}

/// The printed form of a value: integers and booleans as literals, strings quoted,
/// arrays as `[a, b]`, maps as `{"k": v}`, functions as `fn(params) body`, unit as `()`.
pub open spec fn value_text(v: Value) -> Seq<char>
    decreases v, 0nat,
{
    match v {
        Value::Integer(n) => int_text(n as int),
        Value::Boolean(b) => bool_text(b),
        Value::Str(s) => "\""@ + s + "\""@,
        Value::Array(vs) => "["@ + values_text(vs) + "]"@,
        Value::Dict(es) => "{"@ + pairs_text(es) + "}"@,
        Value::Return(inner) => "return "@ + value_text(*inner),
        Value::Function(c) => "fn("@ + join(names_view((*c.parameters)@), ", "@) + ") "@
            + stmt_text(*c.body),
        Value::Builtin(b) => "built-in function "@ + builtin_name(b),
        Value::Unit => "()"@,
    }
}

/// Values separated by `", "`.
pub open spec fn values_text(vs: Seq<Value>) -> Seq<char>
    decreases vs, 1nat,
{
    if vs.len() == 0 {
        Seq::empty()
    } else if vs.len() == 1 {
        value_text(vs[0])
    } else {
        values_text(vs.drop_last()) + ", "@ + value_text(vs.last())
    }
}

/// Map entries written `"key": value`, separated by `", "`.
pub open spec fn pairs_text(es: Seq<(Seq<char>, Value)>) -> Seq<char>
    decreases es, 1nat,
{
    if es.len() == 0 {
        Seq::empty()
    } else if es.len() == 1 {
        "\""@ + es[0].0 + "\": "@ + value_text(es[0].1)
    } else {
        pairs_text(es.drop_last()) + ", "@ + "\""@ + es.last().0 + "\": "@ + value_text(
            es.last().1,
        )
    }
}

impl Object {
    /// Appends the printed form of this object.
    pub fn write_to(&self, out: &mut String)
        ensures
            final(out)@ == old(out)@ + value_text(self.model()),
        decreases self,
    {
        match self {
            Object::IntegerValue(n) => push_int(out, *n),
            Object::BooleanValue(b) => {
                if *b {
                    push_str(out, "true");
                } else {
                    push_str(out, "false");
                }
            },
            Object::StringValue(s) => {
                push_str(out, "\"");
                push_string(out, s);
                push_str(out, "\"");
            },
            Object::ArrayValue(v) => {
                push_str(out, "[");
                let ghost start = out@;
                let ghost vs = self.model()->Array_0;
                let mut i: usize = 0;
                assert(out@ =~= start + values_text(vs.take(0)));
                while i < v.len()
                    invariant
                        i <= v@.len(),
                        vs.len() == v@.len(),
                        forall|j: int| 0 <= j < vs.len() ==> vs[j] == (#[trigger] v@[j]).model(),
                        decreases_to!(*self => *v),
                        out@ == start + values_text(vs.take(i as int)),
                    decreases v@.len() - i,
                {
                    if i > 0 {
                        push_str(out, ", ");
                    }
                    proof {
                        assert(decreases_to!(*v => v[i as int]));
                    }
                    v[i].write_to(out);
                    proof {
                        let t = vs.take(i + 1);
                        assert(t.drop_last() =~= vs.take(i as int));
                        assert(t.last() == v@[i as int].model());
                    }
                    i += 1;
                    assert(out@ =~= start + values_text(vs.take(i as int)));
                }
                assert(vs.take(i as int) =~= vs);
                push_str(out, "]");
            },
            Object::MapValue(m) => {
                push_str(out, "{");
                let ghost start = out@;
                let ghost es = self.model()->Dict_0;
                let mut i: usize = 0;
                assert(out@ =~= start + pairs_text(es.take(0)));
                while i < m.len()
                    invariant
                        i <= m@.len(),
                        es.len() == m@.len(),
                        forall|j: int|
                            0 <= j < es.len() ==> es[j] == ((#[trigger] m@[j]).0@, m@[j].1.model()),
                        decreases_to!(*self => *m),
                        out@ == start + pairs_text(es.take(i as int)),
                    decreases m@.len() - i,
                {
                    if i > 0 {
                        push_str(out, ", ");
                    }
                    push_str(out, "\"");
                    push_string(out, &m[i].0);
                    push_str(out, "\": ");
                    proof {
                        assert(decreases_to!(*m => m[i as int]));
                    }
                    m[i].1.write_to(out);
                    proof {
                        let t = es.take(i + 1);
                        assert(t.drop_last() =~= es.take(i as int));
                        assert(t.last() == (m@[i as int].0@, m@[i as int].1.model()));
                    }
                    i += 1;
                    assert(out@ =~= start + pairs_text(es.take(i as int)));
                }
                assert(es.take(i as int) =~= es);
                push_str(out, "}");
            },
            Object::ReturnValue(inner) => {
                push_str(out, "return ");
                inner.write_to(out);
            },
            Object::FunctionValue(c) => {
                push_str(out, "fn(");
                write_names(&c.parameters, out);
                push_str(out, ") ");
                c.body.write_to(out);
            },
            Object::BuiltinValue(b) => {
                push_str(out, "built-in function ");
                push_str(out, b.name());
            },
            Object::UnitValue => push_str(out, "()"),
        }
        assert(out@ =~= old(out)@ + value_text(self.model()));
    }

    /// The printed form of this object.
    pub fn to_string(&self) -> (r: String)
        ensures
            r@ == value_text(self.model()),
    {
        let mut r = String::new();
        self.write_to(&mut r);
        assert(r@ =~= value_text(self.model()));
        r
    }
}

} // verus!
