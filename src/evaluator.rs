//! The tree-walking evaluator: statements and expressions reduced to values, with a
//! cursor on the scope that evaluation currently stands in. Each step is proved to do
//! what the semantics says.
use vstd::prelude::*;
use std::rc::Rc;
use crate::ast::{names_view, Expression, Program, Statement};
use crate::environment::{
    binding_in, lemma_lookup_view, lookup, scopes_view, Environment, Scope, ScopeView,
};
use crate::object::{BuiltinFunction, Closure, EvalError, Object, Value};
use crate::ops::{
    apply_binary, apply_unary, call_builtin, entry_models, failure_of, index_value,
    lemma_array_model, lemma_map_model, models, outcome, Failure,
};
use crate::ast::stmt_models;
use crate::parser::{p_program, pfail_of, Parser};
use crate::semantics::{
    bind_all, bind_state, enclose_state, sem_binding, sem_call, sem_entries, sem_expr, sem_if,
    sem_list, sem_program, sem_seq, sem_stmt, sem_value, strip, EvalState, Step,
};
use crate::text::push_str;
use crate::token::TokenKind;

verus! {

/// How deeply calls may nest before evaluation stops with `CallDepthExceeded`.
pub const MAX_CALL_DEPTH: u32 = 1000;

/// The result agrees with a step of the semantics: the same value or failure, and on
/// success the same state.
pub open spec fn agrees(r: Result<Object, EvalError>, after: EvalState, step: Step) -> bool {
    &&& outcome(r) == step.1
    &&& r is Ok ==> after == step.0
}

/// What a computation of several values produced, as values and message-free errors.
pub open spec fn list_outcome(r: Result<Vec<Object>, EvalError>) -> Result<Seq<Value>, Failure> {
    match r {
        Ok(v) => Ok(models(v@)),
        Err(e) => Err(failure_of(e)),
    }
}

pub open spec fn agrees_list(
    r: Result<Vec<Object>, EvalError>,
    after: EvalState,
    step: (EvalState, Result<Seq<Value>, Failure>),
) -> bool {
    &&& list_outcome(r) == step.1
    &&& r is Ok ==> after == step.0
}

/// `vals` put in front of the values of a step.
pub open spec fn prefixed<T>(vals: Seq<T>, step: (EvalState, Result<Seq<T>, Failure>)) -> (
    EvalState,
    Result<Seq<T>, Failure>,
) {
    (
        step.0,
        match step.1 {
            Ok(v) => Ok(vals + v),
            Err(f) => Err(f),
        },
    )
}

/// The rest of a statement sequence after a statement that gave `last`.
pub open spec fn seq_rest(
    st: EvalState,
    last: Value,
    cur: int,
    ss: Seq<Statement>,
    in_expr: bool,
    depth: nat,
) -> Step {
    if ss.len() == 0 {
        (st, Ok(last))
    } else {
        sem_seq(st, cur, ss, in_expr, depth)
    }
}

/// The value that a `return` carries, or the value itself when it is not a return.
pub fn unwrap_return(obj: Object) -> (r: Object)
    ensures
        r.model() == strip(obj.model()),
        !(r.model() is Return),
        !(obj.model() is Return) ==> r == obj,
    decreases obj,
{
    match obj {
        Object::ReturnValue(inner) => unwrap_return(*inner),
        other => other,
    }
}

/// No scope binds a name to a value in the middle of a `return`.
pub open spec fn bindings_plain(scopes: Seq<Scope>) -> bool {
    forall|i: int, n: Seq<char>|
        0 <= i < scopes.len() ==> match #[trigger] binding_in(scopes[i].store@, n) {
            Some(v) => !(v is Return),
            None => true,
        }
}

proof fn lemma_lookup_plain(scopes: Seq<Scope>, s: int, n: Seq<char>)
    requires
        bindings_plain(scopes),
    ensures
        match lookup(scopes, s, n) {
            Some(v) => !(v is Return),
            None => true,
        },
    decreases s,
{
    if 0 <= s < scopes.len() {
        assert(match binding_in(scopes[s].store@, n) {
            Some(v) => !(v is Return),
            None => true,
        });
        match binding_in(scopes[s].store@, n) {
            Some(v) => {},
            None => match scopes[s].outer {
                Some(o) => if 0 <= o < s {
                    lemma_lookup_plain(scopes, o as int, n);
                },
                None => {},
            },
        }
    }
}

pub struct Evaluator {
    parser: Parser,
    env: Environment,
    /// The scope that statements are evaluated in.
    current: usize,
    /// What `print` and `println` have written.
    output: String,
}

impl Evaluator {
    pub closed spec fn wf(&self) -> bool {
        &&& self.parser.wf()
        &&& self.env.wf()
        &&& self.current < self.env.scopes@.len()
        &&& bindings_plain(self.env.scopes@)
    }

    /// The scope evaluation currently stands in.
    pub closed spec fn scope(&self) -> int {
        self.current as int
    }

    /// The scopes made so far and what has been printed.
    pub closed spec fn state(&self) -> EvalState {
        EvalState { scopes: scopes_view(self.env.scopes@), out: self.output@ }
    }

    /// The source text being evaluated.
    pub closed spec fn source(&self) -> Seq<char> {
        self.parser.lexer.chars()
    }

    /// Which token of the source the parser stands on.
    pub closed spec fn parse_at(&self) -> nat {
        self.parser.at@
    }

    /// What `print` and `println` have written so far.
    pub closed spec fn printed(&self) -> Seq<char> {
        self.output@
    }

    /// A step of evaluation kept the evaluator well formed, returned to the scope it
    /// started in, and only added scopes.
    pub closed spec fn continues(&self, before: &Evaluator) -> bool {
        &&& self.wf()
        &&& self.current == before.current
        &&& self.env.scopes@.len() >= before.env.scopes@.len()
        &&& self.parser == before.parser
    }

    /// An evaluator for `input`, standing in an empty outermost scope.
    pub fn new(input: &str) -> (r: Self)
        ensures
            r.wf(),
            r.scope() == 0,
            r.source() == input@,
            r.parse_at() == 0,
            r.state() == (EvalState {
                scopes: seq![ScopeView { bindings: Map::empty(), outer: None }],
                out: Seq::empty(),
            }),
    {
        let parser = Parser::new(input);
        let env = Environment::new();
        let r = Evaluator { parser, env, current: 0, output: String::new() };
        assert(bindings_plain(r.env.scopes@));
        proof {
            let b = crate::environment::bindings_map(r.env.scopes@[0].store@);
            assert(b =~= Map::<Seq<char>, Value>::empty());
            assert(r.state().scopes =~= seq![ScopeView { bindings: Map::empty(), outer: None }]);
        }
        r
    }

    /// Hands over what `print` and `println` have written, and clears it.
    pub fn take_output(&mut self) -> (r: String)
        requires
            old(self).wf(),
        ensures
            final(self).wf(),
            final(self).scope() == old(self).scope(),
            r@ == old(self).printed(),
            final(self).state() == (EvalState { scopes: old(self).state().scopes, out: Seq::empty() }),
    {
        let mut r = String::new();
        std::mem::swap(&mut r, &mut self.output);
        r
    }

    /// Parses the whole input, then evaluates the program's statements in turn where
    /// evaluation stands, giving one value per statement.
    pub fn eval_program(&mut self) -> (r: Result<Vec<Object>, EvalError>)
        requires
            old(self).wf(),
        ensures
            final(self).wf(),
            final(self).scope() == old(self).scope(),
            r matches Ok(v) ==> forall|i: int| 0 <= i < v@.len() ==> !((#[trigger] v@[i]).model() is Return),
            match p_program(old(self).source(), old(self).parse_at()).1 {
                Err(f) => r matches Err(EvalError::ParsingError(e)) && pfail_of(e) == f,
                Ok(stmts) => exists|p: Seq<Statement>|
                    stmt_models(p) == stmts && agrees_list(
                        r,
                        final(self).state(),
                        #[trigger] sem_program(old(self).state(), old(self).scope(), p, MAX_CALL_DEPTH as nat),
                    ),
            },
    {
        let program = match self.parser.parse_program() {
            Ok(p) => p,
            Err(e) => {
                return Err(EvalError::ParsingError(e));
            },
        };
        let ghost before = self.state();
        let r = self.eval_statements(&program);
        assert(before == old(self).state());
        assert(stmt_models(program.0@) == p_program(old(self).source(), old(self).parse_at()).1->Ok_0);
        assert(agrees_list(
            r,
            self.state(),
            sem_program(old(self).state(), old(self).scope(), program.0@, MAX_CALL_DEPTH as nat),
        ));
        r
    }

    /// Evaluates the statements of a program in turn, with `MAX_CALL_DEPTH` nested calls
    /// allowed, a top-level `return` giving its value; the first error ends the run.
    pub fn eval_statements(&mut self, program: &Program) -> (r: Result<Vec<Object>, EvalError>)
        requires
            old(self).wf(),
        ensures
            final(self).wf(),
            final(self).scope() == old(self).scope(),
            agrees_list(
                r,
                final(self).state(),
                sem_program(old(self).state(), old(self).scope(), program.0@, MAX_CALL_DEPTH as nat),
            ),
            r matches Ok(v) ==> forall|i: int| 0 <= i < v@.len() ==> !((#[trigger] v@[i]).model() is Return),
    {
        let ghost s0 = self.state();
        let ghost cur = self.scope();
        let ghost ss = program.0@;
        let mut objects: Vec<Object> = Vec::new();
        let mut i: usize = 0;
        assert(ss.subrange(0, ss.len() as int) =~= ss);
        assert(models(objects@) =~= Seq::<Value>::empty());
        assert(prefixed(Seq::<Value>::empty(), sem_program(s0, cur, ss, MAX_CALL_DEPTH as nat))
            =~~= sem_program(s0, cur, ss, MAX_CALL_DEPTH as nat));
        while i < program.0.len()
            invariant
                self.wf(),
                self.scope() == cur,
                cur == old(self).scope(),
                s0 == old(self).state(),
                ss == program.0@,
                i <= ss.len(),
                forall|j: int| 0 <= j < objects@.len() ==> !((#[trigger] objects@[j]).model() is Return),
                sem_program(s0, cur, ss, MAX_CALL_DEPTH as nat) == prefixed(
                    models(objects@),
                    sem_program(self.state(), cur, ss.subrange(i as int, ss.len() as int), MAX_CALL_DEPTH as nat),
                ),
            decreases ss.len() - i,
        {
            let ghost sub = ss.subrange(i as int, ss.len() as int);
            let ghost before = self.state();
            let ghost vals = models(objects@);
            assert(sub[0] == ss[i as int]);
            let obj = self.eval_statement(&program.0[i], false, MAX_CALL_DEPTH)?;
            let plain = unwrap_return(obj);
            objects.push(plain);
            i += 1;
            proof {
                assert(sub.drop_first() =~= ss.subrange(i as int, ss.len() as int));
                assert(models(objects@) =~= vals + seq![plain.model()]);
                let rest = sem_program(self.state(), cur, sub.drop_first(), MAX_CALL_DEPTH as nat);
                match rest.1 {
                    Ok(v) => {
                        assert(vals + (seq![plain.model()] + v) =~= (vals + seq![plain.model()]) + v);
                    },
                    Err(f) => {},
                }
            }
        }
        assert(ss.subrange(i as int, ss.len() as int) =~= Seq::<Statement>::empty());
        assert(models(objects@) + Seq::<Value>::empty() =~= models(objects@));
        Ok(objects)
    }

    /// Evaluates a statement. `in_expression` tells whether it stands inside an
    /// expression (a function body or a branch of an `if`), where `return` is allowed.
    fn eval_statement(&mut self, statement: &Statement, in_expression: bool, depth: u32) -> (r: Result<
        Object,
        EvalError,
    >)
        requires
            old(self).wf(),
        ensures
            final(self).continues(old(self)),
            agrees(
                r,
                final(self).state(),
                sem_stmt(old(self).state(), old(self).scope(), *statement, in_expression, depth as nat),
            ),
        decreases depth, *statement, 2nat,
    {
        match statement {
            Statement::VarStatement { kind: _, name, value } => self.eval_binding(name, value, depth),
            Statement::AssignStatement { name, value } => self.eval_binding(name, value, depth),
            Statement::ReturnStatement(expr) => {
                if !in_expression {
                    // nothing encloses a top-level return to receive its value
                    return Err(EvalError::ReturnOutsideExpression);
                }
                let obj = self.eval_expression(expr, depth)?;
                if let Object::ReturnValue(_) = obj {
                    Ok(obj)
                } else {
                    Ok(Object::ReturnValue(Box::new(obj)))
                }
            },
            Statement::ExpressionStatement(expr) => self.eval_expression(expr, depth),
            Statement::BlockStatement(statements) => self.eval_block(statements, in_expression, depth),
        }
    }

    /// `let` and assignment: the name takes the plain value in the current scope; a
    /// `return` met on the way goes on outward, otherwise the statement gives unit.
    fn eval_binding(&mut self, name: &String, value: &Expression, depth: u32) -> (r: Result<
        Object,
        EvalError,
    >)
        requires
            old(self).wf(),
        ensures
            final(self).continues(old(self)),
            agrees(
                r,
                final(self).state(),
                sem_binding(old(self).state(), old(self).scope(), name@, *value, depth as nat),
            ),
        decreases depth, *value, 3nat,
    {
        let obj = self.eval_expression(value, depth)?;
        let scope = self.current;
        if let Object::ReturnValue(_) = obj {
            // the `return` goes on outward; the name takes the value it carries
            let bound = unwrap_return(obj.duplicate());
            self.bind(scope, name.clone(), bound);
            Ok(obj)
        } else {
            self.bind(scope, name.clone(), obj);
            Ok(Object::UnitValue)
        }
    }

    /// Evaluates statements in a fresh scope inside the current one, stopping at the
    /// first value on its way out of a `return`; the scope is left on every path.
    fn eval_block(&mut self, statements: &Vec<Statement>, in_expression: bool, depth: u32) -> (r: Result<
        Object,
        EvalError,
    >)
        requires
            old(self).wf(),
        ensures
            final(self).continues(old(self)),
            agrees(
                r,
                final(self).state(),
                sem_seq(
                    enclose_state(old(self).state(), old(self).scope() as usize),
                    old(self).state().scopes.len() as int,
                    statements@,
                    in_expression,
                    depth as nat,
                ),
            ),
        decreases depth, *statements, 1nat,
    {
        let inner_env = self.create_enclosed_env();
        let outer_env = self.current;
        self.current = inner_env;
        let ghost s1 = self.state();
        let ghost ss = statements@;
        let ghost d = depth as nat;
        let mut obj = Object::UnitValue;
        let mut i: usize = 0;
        assert(ss.subrange(0, ss.len() as int) =~= ss);
        proof {
            if ss.len() == 0 {
                assert(ss.subrange(0, 0) =~= Seq::<Statement>::empty());
            }
        }
        while i < statements.len()
            invariant_except_break
                !(obj.model() is Return),
                sem_seq(s1, inner_env as int, ss, in_expression, d) == seq_rest(
                    self.state(),
                    obj.model(),
                    inner_env as int,
                    ss.subrange(i as int, ss.len() as int),
                    in_expression,
                    d,
                ),
            invariant
                self.wf(),
                self.current == inner_env,
                inner_env == old(self).env.scopes@.len(),
                outer_env == old(self).current,
                outer_env < old(self).env.scopes@.len(),
                self.env.scopes@.len() >= old(self).env.scopes@.len(),
                self.parser == old(self).parser,
                ss == statements@,
                d == depth as nat,
                s1 == enclose_state(old(self).state(), old(self).current),
                i <= ss.len(),
            ensures
                sem_seq(s1, inner_env as int, ss, in_expression, d) == (self.state(), Ok::<
                    Value,
                    Failure,
                >(obj.model())),
            decreases ss.len() - i,
        {
            proof {
                assert(decreases_to!(*statements => statements[i as int]));
            }
            let ghost sub = ss.subrange(i as int, ss.len() as int);
            let ghost before = self.state();
            assert(sub[0] == ss[i as int]);
            assert(sub.len() > 0);
            match self.eval_statement(&statements[i], in_expression, depth) {
                Ok(o) => {
                    obj = o;
                },
                Err(e) => {
                    self.current = outer_env;
                    return Err(e);
                },
            }
            i += 1;
            proof {
                assert(sub.drop_first() =~= ss.subrange(i as int, ss.len() as int));
                if i == ss.len() {
                    assert(ss.subrange(i as int, ss.len() as int) =~= Seq::<Statement>::empty());
                }
            }
            if let Object::ReturnValue(_) = obj {
                break;
            }
        }
        self.current = outer_env;
        Ok(obj)
    }

    /// Evaluates an expression to a plain value: a value on its way out of a `return`
    /// is replaced by the value it carries.
    fn eval_value(&mut self, expr: &Expression, depth: u32) -> (r: Result<Object, EvalError>)
        requires
            old(self).wf(),
        ensures
            final(self).continues(old(self)),
            agrees(
                r,
                final(self).state(),
                sem_value(old(self).state(), old(self).scope(), *expr, depth as nat),
            ),
            r matches Ok(o) ==> !(o.model() is Return),
        decreases depth, *expr, 3nat,
    {
        let obj = self.eval_expression(expr, depth)?;
        Ok(unwrap_return(obj))
    }

    fn eval_expression(&mut self, expr: &Expression, depth: u32) -> (r: Result<Object, EvalError>)
        requires
            old(self).wf(),
        ensures
            final(self).continues(old(self)),
            agrees(
                r,
                final(self).state(),
                sem_expr(old(self).state(), old(self).scope(), *expr, depth as nat),
            ),
        decreases depth, *expr, 2nat,
    {
        match expr {
            Expression::IntegerLiteral(lit) => Ok(Object::IntegerValue(*lit)),
            Expression::BooleanLiteral(lit) => Ok(Object::BooleanValue(*lit)),
            Expression::StringLiteral(lit) => Ok(Object::StringValue(lit.clone())),
            Expression::Identifier(name) => {
                let r = self.env.get(self.current, name.as_str());
                proof {
                    lemma_lookup_view(self.env.scopes@, self.current as int, name@);
                }
                r
            },
            Expression::ArrayLiteral(expressions) => self.eval_array_expression(expressions, depth),
            Expression::MapLiteral(entries) => self.eval_map_expression(entries, depth),
            Expression::BinaryExpression { .. } => self.eval_binary_expression(expr, depth),
            Expression::UnaryExpression { .. } => self.eval_unary_expression(expr, depth),
            Expression::IndexExpression { .. } => self.eval_index_expression(expr, depth),
            Expression::GroupedExpression(inner) => self.eval_expression(inner, depth),
            Expression::CallExpression { .. } => self.eval_call_expression(expr, depth),
            Expression::IfExpression { .. } => self.eval_if_expression(expr, depth),
            Expression::FunctionExpression { .. } => self.eval_function_expression(expr),
        }
    }

    /// Both operands, left first, then the operator.
    fn eval_binary_expression(&mut self, expr: &Expression, depth: u32) -> (r: Result<
        Object,
        EvalError,
    >)
        requires
            old(self).wf(),
            expr is BinaryExpression,
        ensures
            final(self).continues(old(self)),
            agrees(
                r,
                final(self).state(),
                sem_expr(old(self).state(), old(self).scope(), *expr, depth as nat),
            ),
        decreases depth, *expr, 1nat,
    {
        match expr {
            Expression::BinaryExpression { left, operator, right } => {
                let left_obj = self.eval_value(left, depth)?;
                let right_obj = self.eval_value(right, depth)?;
                apply_binary(*operator, left_obj, right_obj)
            },
            _ => Err(EvalError::UnsupportedOperator(TokenKind::Illegal)),
        }
    }

    fn eval_unary_expression(&mut self, expr: &Expression, depth: u32) -> (r: Result<
        Object,
        EvalError,
    >)
        requires
            old(self).wf(),
            expr is UnaryExpression,
        ensures
            final(self).continues(old(self)),
            agrees(
                r,
                final(self).state(),
                sem_expr(old(self).state(), old(self).scope(), *expr, depth as nat),
            ),
        decreases depth, *expr, 1nat,
    {
        match expr {
            Expression::UnaryExpression { operator, value } => {
                let obj = self.eval_value(value, depth)?;
                apply_unary(*operator, obj)
            },
            _ => Err(EvalError::UnsupportedOperator(TokenKind::Illegal)),
        }
    }

    /// The collection, then the index, then the lookup.
    fn eval_index_expression(&mut self, expr: &Expression, depth: u32) -> (r: Result<
        Object,
        EvalError,
    >)
        requires
            old(self).wf(),
            expr is IndexExpression,
        ensures
            final(self).continues(old(self)),
            agrees(
                r,
                final(self).state(),
                sem_expr(old(self).state(), old(self).scope(), *expr, depth as nat),
            ),
        decreases depth, *expr, 1nat,
    {
        match expr {
            Expression::IndexExpression { value, index } => {
                let collection = self.eval_value(value, depth)?;
                let key = self.eval_value(index, depth)?;
                index_value(collection, key)
            },
            _ => Err(EvalError::InvalidIndexUsage),
        }
    }

    /// A closure that keeps the current scope itself, not a copy of it.
    fn eval_function_expression(&mut self, expr: &Expression) -> (r: Result<Object, EvalError>)
        requires
            old(self).wf(),
            expr is FunctionExpression,
        ensures
            *final(self) == *old(self),
            forall|d: nat| agrees(r, final(self).state(), #[trigger] sem_expr(old(self).state(), old(self).scope(), *expr, d)),
    {
        match expr {
            Expression::FunctionExpression { parameters, body } => {
                let closure = Closure {
                    parameters: Rc::clone(parameters),
                    body: Rc::clone(body),
                    env: self.current,
                };
                Ok(Object::FunctionValue(closure))
            },
            _ => Err(EvalError::FunctionNotFound(String::from_str("not a function expression"))),
        }
    }

    /// Evaluates the elements, left to right, into a new array.
    fn eval_array_expression(&mut self, expressions: &Vec<Expression>, depth: u32) -> (r: Result<
        Object,
        EvalError,
    >)
        requires
            old(self).wf(),
        ensures
            final(self).continues(old(self)),
            agrees(
                r,
                final(self).state(),
                sem_expr(old(self).state(), old(self).scope(), Expression::ArrayLiteral(*expressions), depth as nat),
            ),
        decreases depth, *expressions, 2nat,
    {
        let objects = self.eval_call_expression_arguments(expressions, depth)?;
        proof {
            lemma_array_model(objects);
        }
        Ok(Object::ArrayValue(objects))
    }

    /// Evaluates the values of a map literal, in the order written, into a new map.
    fn eval_map_expression(&mut self, entries: &Vec<(String, Expression)>, depth: u32) -> (r: Result<
        Object,
        EvalError,
    >)
        requires
            old(self).wf(),
        ensures
            final(self).continues(old(self)),
            agrees(
                r,
                final(self).state(),
                sem_expr(old(self).state(), old(self).scope(), Expression::MapLiteral(*entries), depth as nat),
            ),
        decreases depth, *entries, 1nat,
    {
        let ghost s0 = self.state();
        let ghost cur = self.scope();
        let ghost es = entries@;
        let ghost d = depth as nat;
        let mut map: Vec<(String, Object)> = Vec::new();
        let mut i: usize = 0;
        assert(es.subrange(0, es.len() as int) =~= es);
        assert(entry_models(map@) =~= Seq::<(Seq<char>, Value)>::empty());
        assert(prefixed(Seq::<(Seq<char>, Value)>::empty(), sem_entries(s0, cur, es, d)) =~~= sem_entries(s0, cur, es, d));
        while i < entries.len()
            invariant
                self.continues(old(self)),
                self.scope() == cur,
                cur == old(self).scope(),
                s0 == old(self).state(),
                d == depth as nat,
                es == entries@,
                i <= es.len(),
                sem_entries(s0, cur, es, d) == prefixed(
                    entry_models(map@),
                    sem_entries(self.state(), cur, es.subrange(i as int, es.len() as int), d),
                ),
            decreases es.len() - i,
        {
            proof {
                assert(decreases_to!(*entries => entries[i as int]));
            }
            let ghost sub = es.subrange(i as int, es.len() as int);
            let ghost vals = entry_models(map@);
            assert(sub[0] == es[i as int]);
            let value = self.eval_value(&entries[i].1, depth)?;
            let key = entries[i].0.clone();
            let ghost pair = (key@, value.model());
            map.push((key, value));
            i += 1;
            proof {
                assert(sub.drop_first() =~= es.subrange(i as int, es.len() as int));
                assert(entry_models(map@) =~= vals + seq![pair]);
                let rest = sem_entries(self.state(), cur, sub.drop_first(), d);
                match rest.1 {
                    Ok(v) => {
                        assert(vals + (seq![pair] + v) =~= (vals + seq![pair]) + v);
                    },
                    Err(f) => {},
                }
            }
        }
        proof {
            assert(es.subrange(i as int, es.len() as int) =~= Seq::<(String, Expression)>::empty());
            assert(entry_models(map@) + Seq::<(Seq<char>, Value)>::empty() =~= entry_models(map@));
            lemma_map_model(map);
        }
        Ok(Object::MapValue(map))
    }

    /// Evaluates the condition, then the branch it selects as a statement inside an
    /// expression; a false condition without `else` gives unit.
    fn eval_if_expression(&mut self, expr: &Expression, depth: u32) -> (r: Result<Object, EvalError>)
        requires
            old(self).wf(),
            expr is IfExpression,
        ensures
            final(self).continues(old(self)),
            agrees(
                r,
                final(self).state(),
                sem_if(old(self).state(), old(self).scope(), *expr, depth as nat),
            ),
        decreases depth, *expr, 1nat,
    {
        match expr {
            Expression::IfExpression { condition, consequence, alternative } => {
                match self.eval_value(condition, depth)? {
                    Object::BooleanValue(lit) => {
                        if lit {
                            self.eval_statement(consequence, true, depth)
                        } else {
                            match alternative {
                                Some(alt) => self.eval_statement(alt, true, depth),
                                None => Ok(Object::UnitValue),
                            }
                        }
                    },
                    _ => Err(EvalError::TypeMismatch(String::from_str("`if` condition must be a boolean"))),
                }
            },
            _ => Err(EvalError::TypeMismatch(String::from_str("not an `if` expression"))),
        }
    }

    /// Evaluates arguments, left to right, to plain values in the current scope.
    fn eval_call_expression_arguments(&mut self, arguments: &Vec<Expression>, depth: u32) -> (r: Result<
        Vec<Object>,
        EvalError,
    >)
        requires
            old(self).wf(),
        ensures
            final(self).continues(old(self)),
            agrees_list(
                r,
                final(self).state(),
                sem_list(old(self).state(), old(self).scope(), arguments@, depth as nat),
            ),
            r matches Ok(v) ==> v@.len() == arguments@.len() && forall|i: int|
                0 <= i < v@.len() ==> !((#[trigger] v@[i]).model() is Return),
        decreases depth, *arguments, 1nat,
    {
        let ghost s0 = self.state();
        let ghost cur = self.scope();
        let ghost es = arguments@;
        let ghost d = depth as nat;
        let mut objects: Vec<Object> = Vec::new();
        let mut i: usize = 0;
        assert(es.subrange(0, es.len() as int) =~= es);
        assert(models(objects@) =~= Seq::<Value>::empty());
        assert(prefixed(Seq::<Value>::empty(), sem_list(s0, cur, es, d)) =~~= sem_list(s0, cur, es, d));
        while i < arguments.len()
            invariant
                self.continues(old(self)),
                self.scope() == cur,
                cur == old(self).scope(),
                s0 == old(self).state(),
                d == depth as nat,
                es == arguments@,
                i <= es.len(),
                objects@.len() == i,
                forall|j: int| 0 <= j < i ==> !((#[trigger] objects@[j]).model() is Return),
                sem_list(s0, cur, es, d) == prefixed(
                    models(objects@),
                    sem_list(self.state(), cur, es.subrange(i as int, es.len() as int), d),
                ),
            decreases es.len() - i,
        {
            proof {
                assert(decreases_to!(*arguments => arguments[i as int]));
            }
            let ghost sub = es.subrange(i as int, es.len() as int);
            let ghost vals = models(objects@);
            let ghost before = self.state();
            assert(sub[0] == es[i as int]);
            let res = self.eval_value(&arguments[i], depth);
            let obj = match res {
                Ok(o) => o,
                Err(e) => {
                    return Err(e);
                },
            };
            let ghost x = obj.model();
            objects.push(obj);
            i += 1;
            proof {
                assert(sub.drop_first() =~= es.subrange(i as int, es.len() as int));
                assert(models(objects@) =~= vals + seq![x]);
                let rest = sem_list(self.state(), cur, sub.drop_first(), d);
                match rest.1 {
                    Ok(v) => {
                        assert(vals + (seq![x] + v) =~= (vals + seq![x]) + v);
                    },
                    Err(f) => {},
                }
            }
        }
        assert(es.subrange(i as int, es.len() as int) =~= Seq::<Expression>::empty());
        assert(models(objects@) + Seq::<Value>::empty() =~= models(objects@));
        Ok(objects)
    }

    /// Calls a function. A closure gets a fresh scope inside the scope it was made in,
    /// holding its parameters bound to the arguments, which are evaluated in the caller's
    /// scope; a `return` in its body ends the call and goes no further. Built-in
    /// functions are found before bindings of the same name.
    fn eval_call_expression(&mut self, expr: &Expression, depth: u32) -> (r: Result<
        Object,
        EvalError,
    >)
        requires
            old(self).wf(),
            expr is CallExpression,
        ensures
            final(self).continues(old(self)),
            agrees(
                r,
                final(self).state(),
                sem_call(old(self).state(), old(self).scope(), *expr, depth as nat),
            ),
            r matches Ok(o) ==> !(o.model() is Return),
        decreases depth, *expr, 1nat,
    {
        let (path, arguments) = match expr {
            Expression::CallExpression { path, arguments } => (path, arguments),
            _ => {
                return Err(EvalError::FunctionNotFound(String::from_str("not a call")));
            },
        };
        let function = match &**path {
            Expression::Identifier(name) => {
                // built-in functions are searched through before user-defined ones
                match BuiltinFunction::lookup_function(name.as_str()) {
                    Ok(builtin) => builtin,
                    Err(_) => {
                        let found = self.env.get(self.current, name.as_str());
                        proof {
                            lemma_lookup_plain(self.env.scopes@, self.current as int, name@);
                            lemma_lookup_view(self.env.scopes@, self.current as int, name@);
                        }
                        found?
                    },
                }
            },
            _ => self.eval_value(path, depth)?,
        };
        let ghost s1 = self.state();
        match function {
            Object::FunctionValue(closure) => {
                let ghost names = names_view((*closure.parameters)@);
                if closure.parameters.len() != arguments.len() {
                    return Err(
                        EvalError::FunctionCallWrongArity(closure.parameters.len(), arguments.len()),
                    );
                }
                if depth == 0 {
                    return Err(EvalError::CallDepthExceeded);
                }
                // evaluate arguments in the current scope
                let mut values = self.eval_call_expression_arguments(arguments, depth)?;
                let ghost s2 = self.state();
                let ghost vals = models(values@);
                if closure.env >= self.env.scopes.len() {
                    return Err(
                        EvalError::FunctionNotFound(String::from_str("the function's scope is unknown")),
                    );
                }
                let scope = self.enclose_scope(closure.env);
                self.bind_parameters(scope, &closure.parameters, values);
                // evaluate the body in the new scope, then go back to the caller's
                let saved = self.current;
                self.current = scope;
                let result = self.eval_statement(&closure.body, true, depth - 1);
                self.current = saved;
                // a `return` in the body ends here
                Ok(unwrap_return(result?))
            },
            Object::BuiltinValue(builtin) => {
                let n = arguments.len();
                if (builtin == BuiltinFunction::Len || builtin == BuiltinFunction::Rest) && n != 1 {
                    return Err(EvalError::FunctionCallWrongArity(1, n));
                }
                if builtin == BuiltinFunction::Append && n < 2 {
                    return Err(EvalError::FunctionCallWrongArity(2, n));
                }
                let values = self.eval_call_expression_arguments(arguments, depth)?;
                call_builtin(builtin, values, &mut self.output)
            },
            other => {
                let mut message = String::from_str("`");
                other.write_to(&mut message);
                push_str(&mut message, "` cannot be called as a function");
                Err(EvalError::FunctionNotFound(message))
            },
        }
    }

    /// Binds each parameter name, in order, to the argument in the same place.
    fn bind_parameters(&mut self, scope: usize, parameters: &Vec<String>, values: Vec<Object>)
        requires
            old(self).wf(),
            scope < old(self).env.scopes@.len(),
            values@.len() == parameters@.len(),
            forall|j: int| 0 <= j < values@.len() ==> !((#[trigger] values@[j]).model() is Return),
        ensures
            final(self).wf(),
            final(self).current == old(self).current,
            final(self).parser == old(self).parser,
            final(self).env.scopes@.len() == old(self).env.scopes@.len(),
            final(self).state() == bind_all(
                old(self).state(),
                scope as int,
                names_view(parameters@),
                models(values@),
            ),
    {
        let ghost names = names_view(parameters@);
        let ghost vals = models(values@);
        let ghost n = names.len();
        let mut values = values;
        assert(names.subrange(0, n as int) =~= names);
        assert(vals.subrange(0, n as int) =~= vals);
        let mut k: usize = 0;
        while k < parameters.len()
            invariant
                self.wf(),
                self.current == old(self).current,
                self.parser == old(self).parser,
                self.env.scopes@.len() == old(self).env.scopes@.len(),
                scope < self.env.scopes@.len(),
                names == names_view(parameters@),
                n == names.len(),
                vals.len() == n,
                k <= n,
                models(values@) == vals.subrange(k as int, n as int),
                forall|j: int| 0 <= j < values@.len() ==> !((#[trigger] values@[j]).model() is Return),
                bind_all(old(self).state(), scope as int, names, vals) == bind_all(
                    self.state(),
                    scope as int,
                    names.subrange(k as int, n as int),
                    vals.subrange(k as int, n as int),
                ),
            decreases n - k,
        {
            let ghost nsub = names.subrange(k as int, n as int);
            let ghost vsub = vals.subrange(k as int, n as int);
            let value = values.remove(0);
            let name = parameters[k].clone();
            assert(nsub[0] == name@);
            assert(vsub[0] == value.model());
            self.bind(scope, name, value);
            k += 1;
            assert(nsub.drop_first() =~= names.subrange(k as int, n as int));
            assert(vsub.drop_first() =~= vals.subrange(k as int, n as int));
            assert(models(values@) =~= vals.subrange(k as int, n as int));
        }
        assert(names.subrange(n as int, n as int) =~= Seq::<Seq<char>>::empty());
    }

    /// Opens a new scope inside the current one and gives its index.
    fn create_enclosed_env(&mut self) -> (r: usize)
        requires
            old(self).wf(),
        ensures
            final(self).wf(),
            final(self).current == old(self).current,
            final(self).parser == old(self).parser,
            r == old(self).env.scopes@.len(),
            final(self).env.scopes@.len() == r + 1,
            final(self).state() == enclose_state(old(self).state(), old(self).current),
    {
        self.enclose_scope(self.current)
    }

    /// Opens a new scope inside scope `outer` and gives its index.
    fn enclose_scope(&mut self, outer: usize) -> (r: usize)
        requires
            old(self).wf(),
            outer < old(self).env.scopes@.len(),
        ensures
            final(self).wf(),
            final(self).current == old(self).current,
            final(self).parser == old(self).parser,
            r == old(self).env.scopes@.len(),
            final(self).env.scopes@.len() == r + 1,
            final(self).state() == enclose_state(old(self).state(), outer),
    {
        let r = self.env.enclose(outer);
        proof {
            let s = self.env.scopes@;
            assert forall|i: int, n: Seq<char>| 0 <= i < s.len() implies match #[trigger] binding_in(s[i].store@, n) {
                Some(v) => !(v is Return),
                None => true,
            } by {
                if i < r {
                    assert(s[i] == old(self).env.scopes@[i]);
                } else {
                    assert(s[i].store@ =~= Seq::<(String, Object)>::empty());
                }
            }
        }
        r
    }

    /// Binds `name` in scope `scope` to a plain value.
    fn bind(&mut self, scope: usize, name: String, value: Object)
        requires
            old(self).wf(),
            scope < old(self).env.scopes@.len(),
            !(value.model() is Return),
        ensures
            final(self).wf(),
            final(self).current == old(self).current,
            final(self).parser == old(self).parser,
            final(self).env.scopes@.len() == old(self).env.scopes@.len(),
            final(self).state() == bind_state(old(self).state(), scope as int, name@, value.model()),
    {
        let ghost v = value.model();
        let ghost nm = name@;
        self.env.set(scope, name, value);
        proof {
            let s = self.env.scopes@;
            assert forall|i: int, n: Seq<char>| 0 <= i < s.len() implies match #[trigger] binding_in(s[i].store@, n) {
                Some(w) => !(w is Return),
                None => true,
            } by {
                if i != scope {
                    assert(s[i] == old(self).env.scopes@[i]);
                } else if n != nm {
                    assert(binding_in(s[i].store@, n) == binding_in(old(self).env.scopes@[i].store@, n));
                }
            }
        }
    }
}

} // verus!
