//! What the operators, indexing and the built-in functions compute from values.
use vstd::prelude::*;
use crate::ast::ParserError;
use crate::object::{value_text, BuiltinFunction, EvalError, Object, Value};
use crate::text::{push_int, push_str};
use crate::token::TokenKind;

verus! {

/// An evaluation error without its message text.
pub enum Failure {
    IdentifierNotFound(Seq<char>),
    TypeMismatch,
    ModuloByZero,
    DivisionByZero,
    FunctionNotFound,
    WrongArity(nat, nat),
    ReturnOutsideExpression,
    UnsupportedOperator(TokenKind),
    ParsingError,
    UnsupportedArgumentType,
    InvalidIndexUsage,
    InvalidIndexType,
    IndexOutOfBounds(nat, int),
    ValueNotFound(Seq<char>),
    CallDepthExceeded,
}

pub open spec fn failure_of(e: EvalError) -> Failure {
    match e {
        EvalError::IdentifierNotFound(n) => Failure::IdentifierNotFound(n@),
        EvalError::TypeMismatch(_) => Failure::TypeMismatch,
        EvalError::ModuloByZero => Failure::ModuloByZero,
        EvalError::DivisionByZero => Failure::DivisionByZero,
        EvalError::FunctionNotFound(_) => Failure::FunctionNotFound,
        EvalError::FunctionCallWrongArity(a, b) => Failure::WrongArity(a as nat, b as nat),
        EvalError::ReturnOutsideExpression => Failure::ReturnOutsideExpression,
        EvalError::UnsupportedOperator(op) => Failure::UnsupportedOperator(op),
        EvalError::ParsingError(_) => Failure::ParsingError,
        EvalError::UnsupportedArgumentType(_) => Failure::UnsupportedArgumentType,
        EvalError::InvalidIndexUsage => Failure::InvalidIndexUsage,
        EvalError::InvalidIndexType => Failure::InvalidIndexType,
        EvalError::IndexOutOfBounds(l, i) => Failure::IndexOutOfBounds(l as nat, i as int),
        EvalError::ValueNotFound(k) => Failure::ValueNotFound(k@),
        EvalError::CallDepthExceeded => Failure::CallDepthExceeded,
    }
}

/// What a computation produced, as values and message-free errors.
pub open spec fn outcome(r: Result<Object, EvalError>) -> Result<Value, Failure> {
    match r {
        Ok(o) => Ok(o.model()),
        Err(e) => Err(failure_of(e)),
    }
}

/// The models of a sequence of objects.
pub open spec fn models(s: Seq<Object>) -> Seq<Value> {
    s.map_values(|o: Object| o.model())
}

/// An array object stands for the array of its elements' values.
pub proof fn lemma_array_model(v: Vec<Object>)
    ensures
        Object::ArrayValue(v).model() == Value::Array(models(v@)),
{
    assert(Object::ArrayValue(v).model()->Array_0 =~= models(v@));
}

/// The entries of a map object as keys and values.
pub open spec fn entry_models(m: Seq<(String, Object)>) -> Seq<(Seq<char>, Value)> {
    m.map_values(|p: (String, Object)| (p.0@, p.1.model()))
}

/// A map object stands for the map of its entries' keys and values.
pub proof fn lemma_map_model(m: Vec<(String, Object)>)
    ensures
        Object::MapValue(m).model() == Value::Dict(entry_models(m@)),
{
    assert(Object::MapValue(m).model()->Dict_0 =~= entry_models(m@));
}

pub open spec fn abs(a: int) -> int {
    if a < 0 {
        -a
    } else {
        a
    }
}

/// 32-bit division, rounding toward zero; the one overflowing case wraps.
pub open spec fn quotient32(a: i32, b: i32) -> i32 {
    if a == i32::MIN && b == -1 {
        i32::MIN
    } else {
        let q = abs(a as int) / abs(b as int);
        (if (a < 0) == (b < 0) {
            q
        } else {
            -q
        }) as i32
    }
}

/// 32-bit remainder: its sign follows the dividend.
pub open spec fn remainder32(a: i32, b: i32) -> i32 {
    let m = abs(a as int) % abs(b as int);
    (if a < 0 {
        -m
    } else {
        m
    }) as i32
}

/// 32-bit negation; the most negative value wraps to itself.
pub open spec fn negate32(a: i32) -> i32 {
    if a == i32::MIN {
        a
    } else {
        (-a) as i32
    }
}

/// What a binary operator gives on two values.
pub open spec fn binary_outcome(op: TokenKind, l: Value, r: Value) -> Result<Value, Failure> {
    match (l, r) {
        (Value::Integer(a), Value::Integer(b)) => match op {
            TokenKind::Plus => Ok(Value::Integer(a.wrapping_add(b))),
            TokenKind::Minus => Ok(Value::Integer(a.wrapping_sub(b))),
            TokenKind::Asterisk => Ok(Value::Integer(a.wrapping_mul(b))),
            TokenKind::Equal => Ok(Value::Boolean(a == b)),
            TokenKind::NotEqual => Ok(Value::Boolean(a != b)),
            TokenKind::LessThan => Ok(Value::Boolean(a < b)),
            TokenKind::GreaterThan => Ok(Value::Boolean(a > b)),
            TokenKind::LessThanEqual => Ok(Value::Boolean(a <= b)),
            TokenKind::GreaterThanEqual => Ok(Value::Boolean(a >= b)),
            TokenKind::Percentage => if b == 0 {
                Err(Failure::ModuloByZero)
            } else {
                Ok(Value::Integer(remainder32(a, b)))
            },
            TokenKind::Slash => if b == 0 {
                Err(Failure::DivisionByZero)
            } else {
                Ok(Value::Integer(quotient32(a, b)))
            },
            _ => Err(Failure::UnsupportedOperator(op)),
        },
        (Value::Boolean(a), Value::Boolean(b)) => match op {
            TokenKind::Equal => Ok(Value::Boolean(a == b)),
            TokenKind::NotEqual => Ok(Value::Boolean(a != b)),
            TokenKind::AndAnd => Ok(Value::Boolean(a && b)),
            TokenKind::OrOr => Ok(Value::Boolean(a || b)),
            _ => Err(Failure::UnsupportedOperator(op)),
        },
        (Value::Str(a), Value::Str(b)) => match op {
            TokenKind::Plus => Ok(Value::Str(a + b)),
            _ => Err(Failure::UnsupportedOperator(op)),
        },
        _ => Err(Failure::TypeMismatch),
    }
}

/// What a prefix operator gives on a value: `!` inverts a boolean and complements the
/// bits of an integer (`-1 - a`), `-` negates an integer.
pub open spec fn unary_outcome(op: TokenKind, v: Value) -> Result<Value, Failure> {
    match op {
        TokenKind::Bang => match v {
            Value::Integer(a) => Ok(Value::Integer((-1 - a) as i32)),
            Value::Boolean(b) => Ok(Value::Boolean(!b)),
            _ => Err(Failure::UnsupportedOperator(op)),
        },
        TokenKind::Minus => match v {
            Value::Integer(a) => Ok(Value::Integer(negate32(a))),
            _ => Err(Failure::UnsupportedOperator(op)),
        },
        _ => Err(Failure::UnsupportedOperator(op)),
    }
}

fn divide(a: i32, b: i32) -> (r: i32)
    requires
        b != 0,
    ensures
        r == quotient32(a, b),
{
    if a == i32::MIN && b == -1 {
        return i32::MIN;
    }
    let x: i64 = if a < 0 { -(a as i64) } else { a as i64 };
    let y: i64 = if b < 0 { -(b as i64) } else { b as i64 };
    let q: i64 = x / y;
    assert(0 <= q <= x) by (nonlinear_arith)
        requires
            0 <= x,
            1 <= y,
            q == x / y,
    ;
    assert(q == 0x8000_0000 ==> y == 1) by (nonlinear_arith)
        requires
            0 <= x <= 0x8000_0000,
            1 <= y,
            q == x / y,
    ;
    if (a < 0) == (b < 0) {
        q as i32
    } else {
        (-q) as i32
    }
}

fn remainder(a: i32, b: i32) -> (r: i32)
    requires
        b != 0,
    ensures
        r == remainder32(a, b),
{
    let x: i64 = if a < 0 { -(a as i64) } else { a as i64 };
    let y: i64 = if b < 0 { -(b as i64) } else { b as i64 };
    let m: i64 = x % y;
    assert(0 <= m < y) by (nonlinear_arith)
        requires
            0 <= x,
            1 <= y,
            m == x % y,
    ;
    if a < 0 {
        (-m) as i32
    } else {
        m as i32
    }
}

fn type_mismatch(operator: TokenKind, left: &Object, right: &Object) -> (r: EvalError)
    ensures
        r is TypeMismatch,
{
    let mut message = String::from_str("Cannot perform operation '");
    push_str(&mut message, operator.text());
    push_str(&mut message, "' between '");
    left.write_to(&mut message);
    push_str(&mut message, "' and '");
    right.write_to(&mut message);
    push_str(&mut message, "'");
    EvalError::TypeMismatch(message)
}

/// Applies a binary operator to two values.
pub fn apply_binary(operator: TokenKind, left: Object, right: Object) -> (r: Result<
    Object,
    EvalError,
>)
    ensures
        outcome(r) == binary_outcome(operator, left.model(), right.model()),
{
    match (left, right) {
        (Object::IntegerValue(lhs), Object::IntegerValue(rhs)) => match operator {
            TokenKind::Plus => Ok(Object::IntegerValue(lhs.wrapping_add(rhs))),
            TokenKind::Minus => Ok(Object::IntegerValue(lhs.wrapping_sub(rhs))),
            TokenKind::Asterisk => Ok(Object::IntegerValue(lhs.wrapping_mul(rhs))),
            TokenKind::Equal => Ok(Object::BooleanValue(lhs == rhs)),
            TokenKind::NotEqual => Ok(Object::BooleanValue(lhs != rhs)),
            TokenKind::LessThan => Ok(Object::BooleanValue(lhs < rhs)),
            TokenKind::GreaterThan => Ok(Object::BooleanValue(lhs > rhs)),
            TokenKind::LessThanEqual => Ok(Object::BooleanValue(lhs <= rhs)),
            TokenKind::GreaterThanEqual => Ok(Object::BooleanValue(lhs >= rhs)),
            TokenKind::Percentage => {
                if rhs == 0 {
                    Err(EvalError::ModuloByZero)
                } else {
                    Ok(Object::IntegerValue(remainder(lhs, rhs)))
                }
            },
            TokenKind::Slash => {
                if rhs == 0 {
                    Err(EvalError::DivisionByZero)
                } else {
                    Ok(Object::IntegerValue(divide(lhs, rhs)))
                }
            },
            _ => Err(EvalError::UnsupportedOperator(operator)),
        },
        (Object::BooleanValue(lhs), Object::BooleanValue(rhs)) => match operator {
            TokenKind::Equal => Ok(Object::BooleanValue(lhs == rhs)),
            TokenKind::NotEqual => Ok(Object::BooleanValue(lhs != rhs)),
            TokenKind::AndAnd => Ok(Object::BooleanValue(lhs && rhs)),
            TokenKind::OrOr => Ok(Object::BooleanValue(lhs || rhs)),
            _ => Err(EvalError::UnsupportedOperator(operator)),
        },
        (Object::StringValue(lhs), Object::StringValue(rhs)) => match operator {
            TokenKind::Plus => Ok(Object::StringValue(lhs.concat(rhs.as_str()))),
            _ => Err(EvalError::UnsupportedOperator(operator)),
        },
        (lhs, rhs) => Err(type_mismatch(operator, &lhs, &rhs)),
    }
}

/// Applies a prefix operator to a value.
pub fn apply_unary(operator: TokenKind, value: Object) -> (r: Result<Object, EvalError>)
    ensures
        outcome(r) == unary_outcome(operator, value.model()),
{
    match operator {
        TokenKind::Bang => match value {
            Object::IntegerValue(lit) => {
                // the bitwise complement of a two's complement integer
                Ok(Object::IntegerValue(-1 - lit))
            },
            Object::BooleanValue(lit) => Ok(Object::BooleanValue(!lit)),
            _ => Err(EvalError::UnsupportedOperator(operator)),
        },
        TokenKind::Minus => match value {
            Object::IntegerValue(lit) => {
                let negated = if lit == i32::MIN {
                    lit
                } else {
                    -lit
                };
                Ok(Object::IntegerValue(negated))
            },
            _ => Err(EvalError::UnsupportedOperator(operator)),
        },
        _ => Err(EvalError::UnsupportedOperator(operator)),
    }
}

/// What indexing a collection gives: an array element by position, a map value by key.
pub open spec fn index_outcome(c: Value, i: Value) -> Result<Value, Failure> {
    match c {
        Value::Array(vs) => match i {
            Value::Integer(n) => if 0 <= n < vs.len() {
                Ok(vs[n as int])
            } else {
                Err(Failure::IndexOutOfBounds(vs.len(), n as int))
            },
            _ => Err(Failure::InvalidIndexType),
        },
        Value::Dict(es) => match i {
            Value::Str(k) => if exists|j: int| 0 <= j < es.len() && (#[trigger] es[j]).0 == k {
                Ok(es[first_key(es, k)].1)
            } else {
                Err(Failure::ValueNotFound(k))
            },
            _ => Err(Failure::InvalidIndexType),
        },
        _ => Err(Failure::InvalidIndexUsage),
    }
}

/// The position of the first entry with key `k`.
pub open spec fn first_key(es: Seq<(Seq<char>, Value)>, k: Seq<char>) -> int {
    choose|j: int|
        0 <= j < es.len() && (#[trigger] es[j]).0 == k && forall|i: int|
            0 <= i < j ==> (#[trigger] es[i]).0 != k
}

/// Reads an element of an array or a value of a map.
pub fn index_value(collection: Object, index: Object) -> (r: Result<Object, EvalError>)
    ensures
        outcome(r) == index_outcome(collection.model(), index.model()),
{
    let ghost cm = collection.model();
    match collection {
        Object::ArrayValue(mut objects) => {
            if let Object::IntegerValue(n) = index {
                if n < 0 || n as usize >= objects.len() {
                    Err(EvalError::IndexOutOfBounds(objects.len(), n))
                } else {
                    let item = objects.remove(n as usize);
                    Ok(item)
                }
            } else {
                Err(EvalError::InvalidIndexType)
            }
        },
        Object::MapValue(mut entries) => {
            if let Object::StringValue(key) = index {
                let ghost es = cm->Dict_0;
                let mut k: usize = 0;
                while k < entries.len()
                    invariant
                        k <= entries@.len(),
                        es.len() == entries@.len(),
                        forall|j: int|
                            0 <= j < es.len() ==> es[j] == ((#[trigger] entries@[j]).0@,
                            entries@[j].1.model()),
                        forall|j: int| 0 <= j < k ==> (#[trigger] es[j]).0 != key@,
                    ensures
                        k <= entries@.len(),
                        forall|j: int| 0 <= j < k ==> (#[trigger] es[j]).0 != key@,
                        k < entries@.len() ==> es[k as int].0 == key@,
                    decreases entries@.len() - k,
                {
                    if entries[k].0 == key {
                        break;
                    }
                    k += 1;
                }
                if k < entries.len() {
                    proof {
                        let j = first_key(es, key@);
                        assert(0 <= k < es.len() && es[k as int].0 == key@);
                        if j != k {
                            assert(j < k || es[k as int].0 != key@);
                        }
                    }
                    let entry = entries.remove(k);
                    Ok(entry.1)
                } else {
                    Err(EvalError::ValueNotFound(key))
                }
            } else {
                Err(EvalError::InvalidIndexType)
            }
        },
        _ => Err(EvalError::InvalidIndexUsage),
    }
}

/// How many bytes UTF-8 takes for a character.
pub open spec fn utf8_width(c: char) -> nat {
    if (c as u32) < 0x80 {
        1
    } else if (c as u32) < 0x800 {
        2
    } else if (c as u32) < 0x10000 {
        3
    } else {
        4
    }
}

/// How many bytes UTF-8 takes for a string.
pub open spec fn utf8_len(s: Seq<char>) -> nat
    decreases s.len(),
{
    if s.len() == 0 {
        0
    } else {
        utf8_len(s.drop_last()) + utf8_width(s.last())
    }
}

proof fn lemma_utf8_len_grows(s: Seq<char>, i: int)
    requires
        0 <= i <= s.len(),
    ensures
        utf8_len(s.take(i)) <= utf8_len(s),
    decreases s.len(),
{
    if i < s.len() {
        lemma_utf8_len_grows(s.drop_last(), i);
        assert(s.drop_last().take(i) =~= s.take(i));
    } else {
        assert(s.take(i) =~= s);
    }
}

/// The UTF-8 length of `text` in bytes, if it fits in an `i32`.
pub fn utf8_length(text: &str) -> (r: Option<i32>)
    ensures
        r == (if utf8_len(text@) <= i32::MAX {
            Some(utf8_len(text@) as i32)
        } else {
            None::<i32>
        }),
{
    let n = text.unicode_len();
    let mut acc: u64 = 0;
    let mut i: usize = 0;
    assert(text@.take(0) =~= Seq::<char>::empty());
    while i < n
        invariant
            n == text@.len(),
            i <= n,
            acc == utf8_len(text@.take(i as int)),
            acc <= i32::MAX,
        decreases n - i,
    {
        let c = text.get_char(i);
        let w: u64 = if (c as u32) < 0x80 {
            1
        } else if (c as u32) < 0x800 {
            2
        } else if (c as u32) < 0x10000 {
            3
        } else {
            4
        };
        proof {
            let t = text@.take(i + 1);
            assert(t.drop_last() =~= text@.take(i as int));
            assert(t.last() == c);
        }
        acc = acc + w;
        i += 1;
        if acc > i32::MAX as u64 {
            proof {
                lemma_utf8_len_grows(text@, i as int);
            }
            return None;
        }
    }
    assert(text@.take(n as int) =~= text@);
    Some(acc as i32)
}

/// What a built-in function returns for the given arguments; `len` counts the bytes of
/// a string's UTF-8 form and the elements of an array.
pub open spec fn builtin_outcome(b: BuiltinFunction, args: Seq<Value>) -> Result<Value, Failure> {
    match b {
        BuiltinFunction::Len => if args.len() != 1 {
            Err(Failure::WrongArity(1, args.len()))
        } else {
            match args[0] {
                Value::Str(s) => if utf8_len(s) <= i32::MAX {
                    Ok(Value::Integer(utf8_len(s) as i32))
                } else {
                    Err(Failure::ParsingError)
                },
                Value::Array(vs) => if vs.len() <= i32::MAX {
                    Ok(Value::Integer(vs.len() as i32))
                } else {
                    Err(Failure::ParsingError)
                },
                _ => Err(Failure::UnsupportedArgumentType),
            }
        },
        BuiltinFunction::Append => if args.len() < 2 {
            Err(Failure::WrongArity(2, args.len()))
        } else {
            match args[0] {
                Value::Array(vs) => Ok(Value::Array(vs + args.drop_first())),
                _ => Err(Failure::UnsupportedArgumentType),
            }
        },
        BuiltinFunction::Rest => if args.len() != 1 {
            Err(Failure::WrongArity(1, args.len()))
        } else {
            match args[0] {
                Value::Array(vs) => Ok(
                    Value::Array(
                        if vs.len() == 0 {
                            vs
                        } else {
                            vs.drop_first()
                        },
                    ),
                ),
                _ => Err(Failure::UnsupportedArgumentType),
            }
        },
        BuiltinFunction::Println | BuiltinFunction::Print => Ok(Value::Unit),
    }
}

/// The printed forms of the values one after another, each followed by a newline when
/// `newline` holds.
pub open spec fn printed_all(args: Seq<Value>, newline: bool) -> Seq<char>
    decreases args.len(),
{
    if args.len() == 0 {
        Seq::empty()
    } else {
        printed_all(args.drop_last(), newline) + value_text(args.last()) + if newline {
            seq!['\n']
        } else {
            Seq::empty()
        }
    }
}

/// What a built-in function writes to the output.
pub open spec fn builtin_output(b: BuiltinFunction, args: Seq<Value>) -> Seq<char> {
    match b {
        BuiltinFunction::Println => printed_all(args, true),
        BuiltinFunction::Print => printed_all(args, false),
        _ => Seq::empty(),
    }
}

fn length_error(n: usize) -> (r: EvalError)
    ensures
        r is ParsingError,
{
    let mut text = String::new();
    if n <= i32::MAX as usize {
        push_int(&mut text, n as i32);
    } else {
        push_str(&mut text, "too many");
    }
    EvalError::ParsingError(ParserError::IntConversionError(text))
}

fn unsupported_argument(builtin: BuiltinFunction) -> (r: EvalError)
    ensures
        r is UnsupportedArgumentType,
{
    let mut message = String::from_str("`");
    push_str(&mut message, builtin.name());
    push_str(&mut message, "` does not take an argument of this type");
    EvalError::UnsupportedArgumentType(message)
}

/// Calls a built-in function on evaluated arguments; `print` and `println` write to
/// `out`.
pub fn call_builtin(builtin: BuiltinFunction, arguments: Vec<Object>, out: &mut String) -> (r: Result<
    Object,
    EvalError,
>)
    ensures
        outcome(r) == builtin_outcome(builtin, models(arguments@)),
        final(out)@ == old(out)@ + builtin_output(builtin, models(arguments@)),
{
    let ghost args = models(arguments@);
    let mut arguments = arguments;
    match builtin {
        BuiltinFunction::Len => {
            if arguments.len() != 1 {
                return Err(EvalError::FunctionCallWrongArity(1, arguments.len()));
            }
            let arg = arguments.remove(0);
            match arg {
                Object::StringValue(text) => match utf8_length(text.as_str()) {
                    Some(n) => Ok(Object::IntegerValue(n)),
                    None => Err(length_error(i32::MAX as usize + 1)),
                },
                Object::ArrayValue(objects) => {
                    proof {
                        lemma_array_model(objects);
                    }
                    let n = objects.len();
                    if n <= i32::MAX as usize {
                        Ok(Object::IntegerValue(n as i32))
                    } else {
                        Err(length_error(n))
                    }
                },
                _ => Err(unsupported_argument(builtin)),
            }
        },
        BuiltinFunction::Append => {
            if arguments.len() < 2 {
                return Err(EvalError::FunctionCallWrongArity(2, arguments.len()));
            }
            let first = arguments.remove(0);
            assert(models(arguments@) =~= args.drop_first());
            match first {
                Object::ArrayValue(mut objects) => {
                    proof {
                        lemma_array_model(objects);
                    }
                    let ghost before = objects@;
                    objects.append(&mut arguments);
                    proof {
                        lemma_array_model(objects);
                        assert(models(objects@) =~= models(before) + args.drop_first());
                    }
                    // a new array; the evaluated arguments are not shared with it
                    Ok(Object::ArrayValue(objects))
                },
                _ => Err(unsupported_argument(builtin)),
            }
        },
        BuiltinFunction::Rest => {
            if arguments.len() != 1 {
                return Err(EvalError::FunctionCallWrongArity(1, arguments.len()));
            }
            let arg = arguments.remove(0);
            match arg {
                Object::ArrayValue(mut objects) => {
                    proof {
                        lemma_array_model(objects);
                    }
                    let ghost before = objects@;
                    if objects.len() > 0 {
                        objects.remove(0);
                    }
                    proof {
                        lemma_array_model(objects);
                        if before.len() > 0 {
                            assert(models(objects@) =~= models(before).drop_first());
                        }
                    }
                    Ok(Object::ArrayValue(objects))
                },
                _ => Err(unsupported_argument(builtin)),
            }
        },
        BuiltinFunction::Println | BuiltinFunction::Print => {
            let newline = builtin == BuiltinFunction::Println;
            let mut i: usize = 0;
            assert(out@ =~= old(out)@ + printed_all(args.take(0), newline));
            while i < arguments.len()
                invariant
                    i <= arguments@.len(),
                    args == models(arguments@),
                    out@ == old(out)@ + printed_all(args.take(i as int), newline),
                decreases arguments@.len() - i,
            {
                arguments[i].write_to(out);
                if newline {
                    crate::text::push_char(out, '\n');
                }
                proof {
                    let t = args.take(i + 1);
                    assert(t.drop_last() =~= args.take(i as int));
                    assert(t.last() == arguments@[i as int].model());
                }
                i += 1;
                assert(out@ =~= old(out)@ + printed_all(args.take(i as int), newline));
            }
            assert(args.take(i as int) =~= args);
            Ok(Object::UnitValue)
        },
    }
}

} // verus!
