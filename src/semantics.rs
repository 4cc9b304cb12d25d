//! The meaning of programs: what evaluating each statement and expression gives, as
//! functions from the evaluation state to the next state and an outcome.
use vstd::prelude::*;
use crate::ast::{names_view, Expression, Statement};
use crate::environment::{lookup_view, rebind_view, ScopeView};
use crate::object::{builtin_named, BuiltinFunction, Closure, Value};
use crate::token::TokenKind;
use crate::ops::{
    binary_outcome, builtin_outcome, builtin_output, index_outcome, unary_outcome, Failure,
};

verus! {

/// What evaluation works on: the scopes made so far and the text printed so far.
pub struct EvalState {
    pub scopes: Seq<ScopeView>,
    pub out: Seq<char>,
}

/// What a step gives: the state after it, and a value or a failure. After a failure
/// evaluation stops, and the state no longer matters.
pub type Step = (EvalState, Result<Value, Failure>);

/// The value that a `return` carries, however deeply wrapped.
pub open spec fn strip(v: Value) -> Value
    decreases v,
{
    match v {
        Value::Return(inner) => strip(*inner),
        _ => v,
    }
}

/// Binds `name` to `v` in scope `scope`.
pub open spec fn bind_state(st: EvalState, scope: int, name: Seq<char>, v: Value) -> EvalState {
    EvalState { scopes: rebind_view(st.scopes, scope, name, v), out: st.out }
}

/// Opens an empty scope inside scope `outer`; it gets the next index.
pub open spec fn enclose_state(st: EvalState, outer: usize) -> EvalState {
    EvalState {
        scopes: st.scopes.push(ScopeView { bindings: Map::empty(), outer: Some(outer) }),
        out: st.out,
    }
}

/// Binds the names to the values, in order.
pub open spec fn bind_all(st: EvalState, scope: int, names: Seq<Seq<char>>, vals: Seq<Value>) -> EvalState
    decreases names.len(),
{
    if names.len() == 0 || vals.len() == 0 {
        st
    } else {
        bind_all(bind_state(st, scope, names[0], vals[0]), scope, names.drop_first(), vals.drop_first())
    }
}

/// An expression evaluated in scope `cur` with `depth` calls still allowed to nest.
pub open spec fn sem_expr(st: EvalState, cur: int, e: Expression, depth: nat) -> Step
    decreases depth, e, 2nat,
{
    match e {
        Expression::IntegerLiteral(n) => (st, Ok(Value::Integer(n))),
        Expression::BooleanLiteral(b) => (st, Ok(Value::Boolean(b))),
        Expression::StringLiteral(s) => (st, Ok(Value::Str(s@))),
        Expression::Identifier(name) => (
            st,
            match lookup_view(st.scopes, cur, name@) {
                Some(v) => Ok(v),
                None => Err(Failure::IdentifierNotFound(name@)),
            },
        ),
        Expression::ArrayLiteral(v) => {
            let (s1, r) = sem_list(st, cur, v@, depth);
            (
                s1,
                match r {
                    Ok(vals) => Ok(Value::Array(vals)),
                    Err(f) => Err(f),
                },
            )
        },
        Expression::MapLiteral(v) => {
            let (s1, r) = sem_entries(st, cur, v@, depth);
            (
                s1,
                match r {
                    Ok(es) => Ok(Value::Dict(es)),
                    Err(f) => Err(f),
                },
            )
        },
        Expression::BinaryExpression { left, operator, right } => {
            let (s1, l) = sem_value(st, cur, *left, depth);
            match l {
                Err(f) => (s1, Err(f)),
                Ok(lv) => {
                    let (s2, r) = sem_value(s1, cur, *right, depth);
                    match r {
                        Err(f) => (s2, Err(f)),
                        Ok(rv) => (s2, binary_outcome(operator, lv, rv)),
                    }
                },
            }
        },
        Expression::UnaryExpression { operator, value } => {
            let (s1, r) = sem_value(st, cur, *value, depth);
            match r {
                Err(f) => (s1, Err(f)),
                Ok(v) => (s1, unary_outcome(operator, v)),
            }
        },
        Expression::IndexExpression { value, index } => {
            let (s1, c) = sem_value(st, cur, *value, depth);
            match c {
                Err(f) => (s1, Err(f)),
                Ok(cv) => {
                    let (s2, i) = sem_value(s1, cur, *index, depth);
                    match i {
                        Err(f) => (s2, Err(f)),
                        Ok(iv) => (s2, index_outcome(cv, iv)),
                    }
                },
            }
        },
        Expression::GroupedExpression(inner) => sem_expr(st, cur, *inner, depth),
        Expression::CallExpression { .. } => sem_call(st, cur, e, depth),
        Expression::IfExpression { .. } => sem_if(st, cur, e, depth),
        Expression::FunctionExpression { parameters, body } => (
            st,
            Ok(Value::Function(Closure { parameters, body, env: cur as usize })),
        ),
    }
}

/// An expression evaluated to a plain value: a `return` is replaced by what it carries.
pub open spec fn sem_value(st: EvalState, cur: int, e: Expression, depth: nat) -> Step
    decreases depth, e, 3nat,
{
    let (s1, r) = sem_expr(st, cur, e, depth);
    (
        s1,
        match r {
            Ok(v) => Ok(strip(v)),
            Err(f) => Err(f),
        },
    )
}

/// Expressions evaluated to plain values, left to right, stopping at the first failure.
pub open spec fn sem_list(st: EvalState, cur: int, es: Seq<Expression>, depth: nat) -> (
    EvalState,
    Result<Seq<Value>, Failure>,
)
    decreases depth, es, 1nat,
{
    if es.len() == 0 {
        (st, Ok(Seq::empty()))
    } else {
        let (s1, v) = sem_value(st, cur, es[0], depth);
        match v {
            Err(f) => (s1, Err(f)),
            Ok(x) => {
                let (s2, r) = sem_list(s1, cur, es.drop_first(), depth);
                (
                    s2,
                    match r {
                        Ok(vals) => Ok(seq![x] + vals),
                        Err(f) => Err(f),
                    },
                )
            },
        }
    }
}

/// The values of a map literal evaluated in the order written.
pub open spec fn sem_entries(
    st: EvalState,
    cur: int,
    es: Seq<(String, Expression)>,
    depth: nat,
) -> (EvalState, Result<Seq<(Seq<char>, Value)>, Failure>)
    decreases depth, es, 1nat,
{
    if es.len() == 0 {
        (st, Ok(Seq::empty()))
    } else {
        let (s1, v) = sem_value(st, cur, es[0].1, depth);
        match v {
            Err(f) => (s1, Err(f)),
            Ok(x) => {
                let (s2, r) = sem_entries(s1, cur, es.drop_first(), depth);
                (
                    s2,
                    match r {
                        Ok(vals) => Ok(seq![(es[0].0@, x)] + vals),
                        Err(f) => Err(f),
                    },
                )
            },
        }
    }
}

/// An `if`: the condition must be a boolean; the branch it selects is evaluated as a
/// statement inside an expression; false without `else` gives unit.
pub open spec fn sem_if(st: EvalState, cur: int, e: Expression, depth: nat) -> Step
    decreases depth, e, 1nat,
{
    match e {
        Expression::IfExpression { condition, consequence, alternative } => {
            let (s1, c) = sem_value(st, cur, *condition, depth);
            match c {
                Err(f) => (s1, Err(f)),
                Ok(Value::Boolean(true)) => sem_stmt(s1, cur, *consequence, true, depth),
                Ok(Value::Boolean(false)) => match alternative {
                    Some(alt) => sem_stmt(s1, cur, *alt, true, depth),
                    None => (s1, Ok(Value::Unit)),
                },
                Ok(_) => (s1, Err(Failure::TypeMismatch)),
            }
        },
        _ => (st, Err(Failure::TypeMismatch)),
    }
}

/// A call: the callee (a built-in function first, when it is a bare name), the arity
/// check, the arguments in the caller's scope, then the body in a fresh scope inside the
/// closure's own scope, one level of calls fewer allowed.
pub open spec fn sem_call(st: EvalState, cur: int, e: Expression, depth: nat) -> Step
    decreases depth, e, 1nat,
{
    match e {
        Expression::CallExpression { path, arguments } => {
            let (s1, f) = match *path {
                Expression::Identifier(name) => match builtin_named(name@) {
                    Some(b) => (st, Ok(Value::Builtin(b))),
                    None => (
                        st,
                        match lookup_view(st.scopes, cur, name@) {
                            Some(v) => Ok(v),
                            None => Err(Failure::IdentifierNotFound(name@)),
                        },
                    ),
                },
                _ => sem_value(st, cur, *path, depth),
            };
            match f {
                Err(fail) => (s1, Err(fail)),
                Ok(Value::Function(c)) => {
                    let names = names_view((*c.parameters)@);
                    if names.len() != arguments@.len() {
                        (s1, Err(Failure::WrongArity(names.len(), arguments@.len())))
                    } else if depth == 0 {
                        (s1, Err(Failure::CallDepthExceeded))
                    } else {
                        let (s2, a) = sem_list(s1, cur, arguments@, depth);
                        match a {
                            Err(fail) => (s2, Err(fail)),
                            Ok(vals) => if c.env >= s2.scopes.len() {
                                (s2, Err(Failure::FunctionNotFound))
                            } else {
                                let scope = s2.scopes.len() as int;
                                let s3 = bind_all(enclose_state(s2, c.env), scope, names, vals);
                                let (s4, r) = sem_stmt(s3, scope, *c.body, true, (depth - 1) as nat);
                                (
                                    s4,
                                    match r {
                                        Ok(v) => Ok(strip(v)),
                                        Err(fail) => Err(fail),
                                    },
                                )
                            },
                        }
                    }
                },
                Ok(Value::Builtin(b)) => {
                    let n = arguments@.len();
                    if (b == BuiltinFunction::Len || b == BuiltinFunction::Rest) && n != 1 {
                        (s1, Err(Failure::WrongArity(1, n)))
                    } else if b == BuiltinFunction::Append && n < 2 {
                        (s1, Err(Failure::WrongArity(2, n)))
                    } else {
                        let (s2, a) = sem_list(s1, cur, arguments@, depth);
                        match a {
                            Err(fail) => (s2, Err(fail)),
                            Ok(vals) => (
                                EvalState { scopes: s2.scopes, out: s2.out + builtin_output(b, vals) },
                                builtin_outcome(b, vals),
                            ),
                        }
                    }
                },
                Ok(_) => (s1, Err(Failure::FunctionNotFound)),
            }
        },
        _ => (st, Err(Failure::FunctionNotFound)),
    }
}

/// A statement evaluated in scope `cur`; `in_expr` tells whether it stands inside an
/// expression, where `return` is allowed.
pub open spec fn sem_stmt(st: EvalState, cur: int, s: Statement, in_expr: bool, depth: nat) -> Step
    decreases depth, s, 2nat,
{
    match s {
        Statement::VarStatement { name, value, .. } => sem_binding(st, cur, name@, value, depth),
        Statement::AssignStatement { name, value } => sem_binding(st, cur, name@, value, depth),
        Statement::ReturnStatement(e) => if !in_expr {
            (st, Err(Failure::ReturnOutsideExpression))
        } else {
            let (s1, r) = sem_expr(st, cur, e, depth);
            (
                s1,
                match r {
                    Err(f) => Err(f),
                    Ok(v) => Ok(
                        if v is Return {
                            v
                        } else {
                            Value::Return(Box::new(v))
                        },
                    ),
                },
            )
        },
        Statement::ExpressionStatement(e) => sem_expr(st, cur, e, depth),
        Statement::BlockStatement(v) => {
            let (s1, r) = sem_seq(enclose_state(st, cur as usize), st.scopes.len() as int, v@, in_expr, depth);
            (s1, r)
        },
    }
}

/// `let` or assignment: the name takes the plain value; a `return` met on the way goes
/// on outward, otherwise the statement gives unit.
pub open spec fn sem_binding(st: EvalState, cur: int, name: Seq<char>, value: Expression, depth: nat) -> Step
    decreases depth, value, 3nat,
{
    let (s1, r) = sem_expr(st, cur, value, depth);
    match r {
        Err(f) => (s1, Err(f)),
        Ok(v) => (
            bind_state(s1, cur, name, strip(v)),
            Ok(
                if v is Return {
                    v
                } else {
                    Value::Unit
                },
            ),
        ),
    }
}

/// Statements in order; a value on its way out of a `return` ends the sequence. The
/// sequence gives its last statement's value, or unit when it is empty.
pub open spec fn sem_seq(st: EvalState, cur: int, ss: Seq<Statement>, in_expr: bool, depth: nat) -> Step
    decreases depth, ss, 1nat,
{
    if ss.len() == 0 {
        (st, Ok(Value::Unit))
    } else {
        let (s1, r) = sem_stmt(st, cur, ss[0], in_expr, depth);
        match r {
            Err(f) => (s1, Err(f)),
            Ok(v) => if v is Return || ss.len() == 1 {
                (s1, Ok(v))
            } else {
                sem_seq(s1, cur, ss.drop_first(), in_expr, depth)
            },
        }
    }
}

/// Top-level statements in order in scope `cur`, each with `depth` nested calls
/// allowed, each giving its plain value; the first failure ends the run.
pub open spec fn sem_program(st: EvalState, cur: int, ss: Seq<Statement>, depth: nat) -> (
    EvalState,
    Result<Seq<Value>, Failure>,
)
    decreases ss.len(),
{
    if ss.len() == 0 {
        (st, Ok(Seq::empty()))
    } else {
        let (s1, v) = sem_stmt(st, cur, ss[0], false, depth);
        match v {
            Err(f) => (s1, Err(f)),
            Ok(x) => {
                let (s2, r) = sem_program(s1, cur, ss.drop_first(), depth);
                (
                    s2,
                    match r {
                        Ok(vals) => Ok(seq![strip(x)] + vals),
                        Err(f) => Err(f),
                    },
                )
            },
        }
    }
}

/// Unwrapping a `return` always ends at a plain value.
pub proof fn lemma_strip_plain(v: Value)
    ensures
        !(strip(v) is Return),
    decreases v,
{
    match v {
        Value::Return(inner) => lemma_strip_plain(*inner),
        _ => {},
    }
}

/// Division and remainder by zero fail, with their own errors, whatever the dividend.
pub proof fn law_division_by_zero(a: i32)
    ensures
        binary_outcome(TokenKind::Slash, Value::Integer(a), Value::Integer(0)) == Err::<
            Value,
            Failure,
        >(Failure::DivisionByZero),
        binary_outcome(TokenKind::Percentage, Value::Integer(a), Value::Integer(0)) == Err::<
            Value,
            Failure,
        >(Failure::ModuloByZero),
{
}

/// A `return` goes no further than the call whose body it is in: what a call gives is
/// never a value on its way out of a `return`.
pub proof fn law_return_stops_at_call(st: EvalState, cur: int, e: Expression, depth: nat)
    ensures
        sem_call(st, cur, e, depth).1 matches Ok(v) ==> !(v is Return),
{
    assert forall|v: Value| !(#[trigger] strip(v) is Return) by {
        lemma_strip_plain(v);
    }
}

/// A `return` met as a statement outside any expression: itself at top level, or the
/// first statement of a bare block standing there.
pub open spec fn bare_return(s: Statement) -> bool
    decreases s,
{
    match s {
        Statement::ReturnStatement(_) => true,
        Statement::BlockStatement(v) => v@.len() > 0 && bare_return(v@[0]),
        _ => false,
    }
}

/// Nothing outside a function or an `if` receives a `return`: one met as a statement
/// there is rejected.
pub proof fn law_bare_return_rejected(st: EvalState, cur: int, s: Statement, depth: nat)
    requires
        bare_return(s),
    ensures
        sem_stmt(st, cur, s, false, depth).1 == Err::<Value, Failure>(Failure::ReturnOutsideExpression),
    decreases s,
{
    match s {
        Statement::BlockStatement(v) => {
            assert(decreases_to!(v => v@));
            assert(decreases_to!(v@ => v@[0]));
            let inner = st.scopes.len() as int;
            let s1 = enclose_state(st, cur as usize);
            law_bare_return_rejected(s1, inner, v@[0], depth);
        },
        _ => {},
    }
}

/// The keys of a map literal, in order.
pub open spec fn literal_keys(es: Seq<(String, Expression)>) -> Seq<Seq<char>> {
    es.map_values(|p: (String, Expression)| p.0@)
}

/// The keys of a map value, in order.
pub open spec fn value_keys(vs: Seq<(Seq<char>, Value)>) -> Seq<Seq<char>> {
    vs.map_values(|p: (Seq<char>, Value)| p.0)
}

proof fn lemma_entries_keys(st: EvalState, cur: int, es: Seq<(String, Expression)>, depth: nat)
    ensures
        sem_entries(st, cur, es, depth).1 matches Ok(vs) ==> value_keys(vs) == literal_keys(es),
    decreases es.len(),
{
    if es.len() > 0 {
        let s1 = sem_value(st, cur, es[0].1, depth).0;
        lemma_entries_keys(s1, cur, es.drop_first(), depth);
        match sem_entries(st, cur, es, depth).1 {
            Ok(vs) => {
                let rest = sem_entries(s1, cur, es.drop_first(), depth).1->Ok_0;
                assert(value_keys(vs) =~= seq![es[0].0@] + value_keys(rest));
                assert(literal_keys(es) =~= seq![es[0].0@] + literal_keys(es.drop_first()));
            },
            Err(_) => {},
        }
    } else {
        assert(literal_keys(es) =~= Seq::<Seq<char>>::empty());
        assert(value_keys(Seq::<(Seq<char>, Value)>::empty()) =~= Seq::<Seq<char>>::empty());
    }
}

/// A map value has the keys of the literal it came from, in the same order; so when the
/// literal's keys are unique, as the parser makes them, so are the map's.
pub proof fn law_map_keys(st: EvalState, cur: int, es: Seq<(String, Expression)>, depth: nat)
    requires
        forall|i: int, j: int| 0 <= i < j < es.len() ==> es[i].0@ != es[j].0@,
    ensures
        sem_entries(st, cur, es, depth).1 matches Ok(vs) ==> {
            &&& value_keys(vs) == literal_keys(es)
            &&& forall|i: int, j: int| 0 <= i < j < vs.len() ==> vs[i].0 != vs[j].0
        },
{
    lemma_entries_keys(st, cur, es, depth);
    match sem_entries(st, cur, es, depth).1 {
        Ok(vs) => {
            assert forall|i: int, j: int| 0 <= i < j < vs.len() implies vs[i].0 != vs[j].0 by {
                assert(value_keys(vs).len() == vs.len());
                assert(literal_keys(es).len() == es.len());
                assert(value_keys(vs)[i] == vs[i].0);
                assert(value_keys(vs)[j] == vs[j].0);
                assert(literal_keys(es)[i] == es[i].0@);
                assert(literal_keys(es)[j] == es[j].0@);
            }
        },
        Err(_) => {},
    }
}

/// `after` differs from `before` at most in scope `cur` and in scopes added after it.
pub open spec fn keeps(before: EvalState, after: EvalState, cur: int) -> bool {
    &&& after.scopes.len() >= before.scopes.len()
    &&& forall|i: int|
        0 <= i < before.scopes.len() && i != cur ==> #[trigger] after.scopes[i] == before.scopes[i]
}

/// The body of a closure.
pub open spec fn body_of(c: Closure) -> Statement {
    *c.body
}

proof fn lemma_keeps_trans(a: EvalState, b: EvalState, c: EvalState, cur: int)
    requires
        keeps(a, b, cur),
        keeps(b, c, cur),
    ensures
        keeps(a, c, cur),
{
    assert forall|i: int| 0 <= i < a.scopes.len() && i != cur implies #[trigger] c.scopes[i]
        == a.scopes[i] by {
        assert(b.scopes[i] == a.scopes[i]);
    }
}

proof fn lemma_keeps_newer(a: EvalState, b: EvalState, cur: int, newer: int)
    requires
        keeps(a, b, newer),
        newer >= a.scopes.len(),
    ensures
        keeps(a, b, cur),
{
}

proof fn lemma_frame_bind_all(st: EvalState, scope: int, names: Seq<Seq<char>>, vals: Seq<Value>)
    requires
        0 <= scope < st.scopes.len(),
    ensures
        keeps(st, bind_all(st, scope, names, vals), scope),
    decreases names.len(),
{
    if names.len() > 0 && vals.len() > 0 {
        let s1 = bind_state(st, scope, names[0], vals[0]);
        lemma_frame_bind_all(s1, scope, names.drop_first(), vals.drop_first());
        lemma_keeps_trans(st, s1, bind_all(s1, scope, names.drop_first(), vals.drop_first()), scope);
    }
}

/// Evaluating an expression changes no scope that existed before it except the current
/// one.
pub proof fn lemma_frame_expr(st: EvalState, cur: int, e: Expression, depth: nat)
    requires
        0 <= cur < st.scopes.len(),
    ensures
        keeps(st, sem_expr(st, cur, e, depth).0, cur),
    decreases depth, e, 2nat,
{
    match e {
        Expression::ArrayLiteral(v) => lemma_frame_list(st, cur, v@, depth),
        Expression::MapLiteral(v) => lemma_frame_entries(st, cur, v@, depth),
        Expression::BinaryExpression { left, operator, right } => {
            lemma_frame_value(st, cur, *left, depth);
            let s1 = sem_value(st, cur, *left, depth).0;
            lemma_frame_value(s1, cur, *right, depth);
            lemma_keeps_trans(st, s1, sem_value(s1, cur, *right, depth).0, cur);
        },
        Expression::UnaryExpression { value, .. } => lemma_frame_value(st, cur, *value, depth),
        Expression::IndexExpression { value, index } => {
            lemma_frame_value(st, cur, *value, depth);
            let s1 = sem_value(st, cur, *value, depth).0;
            lemma_frame_value(s1, cur, *index, depth);
            lemma_keeps_trans(st, s1, sem_value(s1, cur, *index, depth).0, cur);
        },
        Expression::GroupedExpression(inner) => lemma_frame_expr(st, cur, *inner, depth),
        Expression::CallExpression { .. } => lemma_frame_call(st, cur, e, depth),
        Expression::IfExpression { .. } => lemma_frame_if(st, cur, e, depth),
        _ => {},
    }
}

proof fn lemma_frame_value(st: EvalState, cur: int, e: Expression, depth: nat)
    requires
        0 <= cur < st.scopes.len(),
    ensures
        keeps(st, sem_value(st, cur, e, depth).0, cur),
    decreases depth, e, 3nat,
{
    lemma_frame_expr(st, cur, e, depth);
}

proof fn lemma_frame_list(st: EvalState, cur: int, es: Seq<Expression>, depth: nat)
    requires
        0 <= cur < st.scopes.len(),
    ensures
        keeps(st, sem_list(st, cur, es, depth).0, cur),
    decreases depth, es, 1nat,
{
    if es.len() > 0 {
        lemma_frame_value(st, cur, es[0], depth);
        let s1 = sem_value(st, cur, es[0], depth).0;
        lemma_frame_list(s1, cur, es.drop_first(), depth);
        lemma_keeps_trans(st, s1, sem_list(s1, cur, es.drop_first(), depth).0, cur);
    }
}

proof fn lemma_frame_entries(st: EvalState, cur: int, es: Seq<(String, Expression)>, depth: nat)
    requires
        0 <= cur < st.scopes.len(),
    ensures
        keeps(st, sem_entries(st, cur, es, depth).0, cur),
    decreases depth, es, 1nat,
{
    if es.len() > 0 {
        lemma_frame_value(st, cur, es[0].1, depth);
        let s1 = sem_value(st, cur, es[0].1, depth).0;
        lemma_frame_entries(s1, cur, es.drop_first(), depth);
        lemma_keeps_trans(st, s1, sem_entries(s1, cur, es.drop_first(), depth).0, cur);
    }
}

proof fn lemma_frame_if(st: EvalState, cur: int, e: Expression, depth: nat)
    requires
        0 <= cur < st.scopes.len(),
    ensures
        keeps(st, sem_if(st, cur, e, depth).0, cur),
    decreases depth, e, 1nat,
{
    match e {
        Expression::IfExpression { condition, consequence, alternative } => {
            lemma_frame_value(st, cur, *condition, depth);
            let s1 = sem_value(st, cur, *condition, depth).0;
            lemma_frame_stmt(s1, cur, *consequence, true, depth);
            lemma_keeps_trans(st, s1, sem_stmt(s1, cur, *consequence, true, depth).0, cur);
            match alternative {
                Some(alt) => {
                    lemma_frame_stmt(s1, cur, *alt, true, depth);
                    lemma_keeps_trans(st, s1, sem_stmt(s1, cur, *alt, true, depth).0, cur);
                },
                None => {},
            }
        },
        _ => {},
    }
}

/// A call changes no scope that existed before it except the caller's own current one:
/// the callee's parameters and `let`s go into scopes made for the call.
pub proof fn lemma_frame_call(st: EvalState, cur: int, e: Expression, depth: nat)
    requires
        0 <= cur < st.scopes.len(),
    ensures
        keeps(st, sem_call(st, cur, e, depth).0, cur),
    decreases depth, e, 1nat,
{
    match e {
        Expression::CallExpression { path, arguments } => {
            let callee = match *path {
                Expression::Identifier(name) => match builtin_named(name@) {
                    Some(b) => (st, Ok(Value::Builtin(b))),
                    None => (
                        st,
                        match lookup_view(st.scopes, cur, name@) {
                            Some(v) => Ok(v),
                            None => Err(Failure::IdentifierNotFound(name@)),
                        },
                    ),
                },
                _ => sem_value(st, cur, *path, depth),
            };
            if !(*path is Identifier) {
                lemma_frame_value(st, cur, *path, depth);
            }
            let s1 = callee.0;
            lemma_frame_list(s1, cur, arguments@, depth);
            let s2 = sem_list(s1, cur, arguments@, depth).0;
            lemma_keeps_trans(st, s1, s2, cur);
            match callee.1 {
                Ok(Value::Function(c)) => {
                    if c.env < s2.scopes.len() && depth > 0 {
                        let names = names_view((*c.parameters)@);
                        let vals = sem_list(s1, cur, arguments@, depth).1->Ok_0;
                        let scope = s2.scopes.len() as int;
                        let s3 = enclose_state(s2, c.env);
                        lemma_frame_bind_all(s3, scope, names, vals);
                        let s4 = bind_all(s3, scope, names, vals);
                        lemma_frame_stmt(s4, scope, body_of(c), true, (depth - 1) as nat);
                        let s5 = sem_stmt(s4, scope, body_of(c), true, (depth - 1) as nat).0;
                        lemma_keeps_trans(s3, s4, s5, scope);
                        lemma_keeps_newer(s2, s5, cur, scope);
                        lemma_keeps_trans(st, s2, s5, cur);
                    }
                },
                _ => {},
            }
        },
        _ => {},
    }
}

/// Evaluating a statement changes no scope that existed before it except the current
/// one.
pub proof fn lemma_frame_stmt(st: EvalState, cur: int, s: Statement, in_expr: bool, depth: nat)
    requires
        0 <= cur < st.scopes.len(),
    ensures
        keeps(st, sem_stmt(st, cur, s, in_expr, depth).0, cur),
    decreases depth, s, 2nat,
{
    match s {
        Statement::VarStatement { name, value, .. } => lemma_frame_binding(st, cur, name@, value, depth),
        Statement::AssignStatement { name, value } => lemma_frame_binding(st, cur, name@, value, depth),
        Statement::ReturnStatement(e) => if in_expr {
            lemma_frame_expr(st, cur, e, depth);
        },
        Statement::ExpressionStatement(e) => lemma_frame_expr(st, cur, e, depth),
        Statement::BlockStatement(v) => {
            lemma_frame_block(st, cur, v, in_expr, depth);
        },
    }
}

/// A block changes no scope that existed before it: every binding it makes goes into
/// its own new scope or scopes made after that.
proof fn lemma_frame_block(st: EvalState, cur: int, v: Vec<Statement>, in_expr: bool, depth: nat)
    requires
        0 <= cur < st.scopes.len(),
    ensures
        keeps(st, sem_stmt(st, cur, Statement::BlockStatement(v), in_expr, depth).0, -1),
    decreases depth, v, 1nat,
{
    let inner = st.scopes.len() as int;
    let s1 = enclose_state(st, cur as usize);
    lemma_frame_seq(s1, inner, v@, in_expr, depth);
    let s2 = sem_seq(s1, inner, v@, in_expr, depth).0;
    assert forall|i: int| 0 <= i < st.scopes.len() && i != -1 implies #[trigger] s2.scopes[i]
        == st.scopes[i] by {
        assert(s1.scopes[i] == st.scopes[i]);
        assert(s2.scopes[i] == s1.scopes[i]);
    }
}

proof fn lemma_frame_binding(st: EvalState, cur: int, name: Seq<char>, value: Expression, depth: nat)
    requires
        0 <= cur < st.scopes.len(),
    ensures
        keeps(st, sem_binding(st, cur, name, value, depth).0, cur),
    decreases depth, value, 3nat,
{
    lemma_frame_expr(st, cur, value, depth);
}

proof fn lemma_frame_seq(st: EvalState, cur: int, ss: Seq<Statement>, in_expr: bool, depth: nat)
    requires
        0 <= cur < st.scopes.len(),
    ensures
        keeps(st, sem_seq(st, cur, ss, in_expr, depth).0, cur),
    decreases depth, ss, 1nat,
{
    if ss.len() > 0 {
        lemma_frame_stmt(st, cur, ss[0], in_expr, depth);
        let s1 = sem_stmt(st, cur, ss[0], in_expr, depth).0;
        lemma_frame_seq(s1, cur, ss.drop_first(), in_expr, depth);
        lemma_keeps_trans(st, s1, sem_seq(s1, cur, ss.drop_first(), in_expr, depth).0, cur);
    }
}

/// Shadowing: a block's own `let`s go into the block's own scope, so after the block
/// every name has, in the scope around it, the value it had before.
pub proof fn law_block_keeps_outer_bindings(
    st: EvalState,
    cur: int,
    v: Vec<Statement>,
    in_expr: bool,
    depth: nat,
    name: Seq<char>,
)
    requires
        0 <= cur < st.scopes.len(),
    ensures
        lookup_view(sem_stmt(st, cur, Statement::BlockStatement(v), in_expr, depth).0.scopes, cur, name)
            == lookup_view(st.scopes, cur, name),
{
    lemma_frame_block(st, cur, v, in_expr, depth);
    lemma_lookup_unchanged(st.scopes, sem_stmt(st, cur, Statement::BlockStatement(v), in_expr, depth).0.scopes, cur, name);
}

proof fn lemma_lookup_unchanged(a: Seq<ScopeView>, b: Seq<ScopeView>, s: int, name: Seq<char>)
    requires
        0 <= s < a.len() <= b.len(),
        forall|i: int| 0 <= i < a.len() ==> #[trigger] b[i] == a[i],
    ensures
        lookup_view(b, s, name) == lookup_view(a, s, name),
    decreases s,
{
    assert(b[s] == a[s]);
    match a[s].outer {
        Some(o) => if 0 <= o < s {
            lemma_lookup_unchanged(a, b, o as int, name);
        },
        None => {},
    }
}

} // verus!
