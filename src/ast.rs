//! The syntax tree that the parser builds and the evaluator walks, and its printed form.
use vstd::prelude::*;
use std::rc::Rc;
use crate::text::{int_text, push_char, push_int, push_str, push_string};
use crate::token::{kind_text, Token, TokenKind};

verus! {

#[derive(Debug)]
pub struct Program(pub Vec<Statement>);

#[derive(Debug, PartialEq, Eq)]
pub enum Statement {
    VarStatement { kind: TokenKind, name: String, value: Expression },
    ReturnStatement(Expression),
    AssignStatement { name: String, value: Expression },
    ExpressionStatement(Expression),
    BlockStatement(Vec<Statement>),
}

#[derive(Debug, PartialEq, Eq)]
pub enum Expression {
    Identifier(String),
    IntegerLiteral(i32),
    BooleanLiteral(bool),
    StringLiteral(String),
    ArrayLiteral(Vec<Expression>),
    /// Keys are unique; a key written twice keeps its first place and its last value.
    MapLiteral(Vec<(String, Expression)>),
    BinaryExpression { left: Box<Expression>, operator: TokenKind, right: Box<Expression> },
    UnaryExpression { operator: TokenKind, value: Box<Expression> },
    IndexExpression { value: Box<Expression>, index: Box<Expression> },
    GroupedExpression(Box<Expression>),
    CallExpression { path: Box<Expression>, arguments: Vec<Expression> },
    IfExpression {
        condition: Box<Expression>,
        consequence: Box<Statement>,
        alternative: Option<Box<Statement>>,
    },
    /// Parameters and body are shared with every closure made from this expression.
    FunctionExpression { parameters: Rc<Vec<String>>, body: Rc<Statement> },
}

#[derive(Debug)]
pub enum ParserError {
    SyntaxError(String),
    UnexpectedToken(Token),
    InvalidOperandType(Token),
    /// The text of an integer literal that does not fit in 32 bits.
    IntConversionError(String),
    Unknown,
}

/// The mathematical form of an expression: sequences for vectors, characters for
/// strings.
pub enum ExprM {
    Ident(Seq<char>),
    Int(i32),
    Bool(bool),
    Str(Seq<char>),
    Array(Seq<ExprM>),
    Dict(Seq<(Seq<char>, ExprM)>),
    Binary(Box<ExprM>, TokenKind, Box<ExprM>),
    Unary(TokenKind, Box<ExprM>),
    Index(Box<ExprM>, Box<ExprM>),
    Group(Box<ExprM>),
    Call(Box<ExprM>, Seq<ExprM>),
    If(Box<ExprM>, Box<StmtM>, Option<Box<StmtM>>),
    Func(Seq<Seq<char>>, Box<StmtM>),
}

/// The mathematical form of a statement.
pub enum StmtM {
    Var(TokenKind, Seq<char>, ExprM),
    Ret(ExprM),
    Assign(Seq<char>, ExprM),
    Expr(ExprM),
    Block(Seq<StmtM>),
}

impl Expression {
    pub open spec fn model(&self) -> ExprM
        decreases self, 0nat,
    {
        match self {
            Expression::Identifier(s) => ExprM::Ident(s@),
            Expression::IntegerLiteral(n) => ExprM::Int(*n),
            Expression::BooleanLiteral(b) => ExprM::Bool(*b),
            Expression::StringLiteral(s) => ExprM::Str(s@),
            Expression::ArrayLiteral(v) => ExprM::Array(
                Seq::new(v@.len(), |i: int| if 0 <= i < v@.len() { v@[i].model() } else { ExprM::Bool(false) }),
            ),
            Expression::MapLiteral(v) => ExprM::Dict(
                Seq::new(
                    v@.len(),
                    |i: int|
                        if 0 <= i < v@.len() {
                            (v@[i].0@, v@[i].1.model())
                        } else {
                            (Seq::empty(), ExprM::Bool(false))
                        },
                ),
            ),
            Expression::BinaryExpression { left, operator, right } => ExprM::Binary(
                Box::new((**left).model()),
                *operator,
                Box::new((**right).model()),
            ),
            Expression::UnaryExpression { operator, value } => ExprM::Unary(
                *operator,
                Box::new((**value).model()),
            ),
            Expression::IndexExpression { value, index } => ExprM::Index(
                Box::new((**value).model()),
                Box::new((**index).model()),
            ),
            Expression::GroupedExpression(inner) => ExprM::Group(Box::new((**inner).model())),
            Expression::CallExpression { path, arguments } => ExprM::Call(
                Box::new((**path).model()),
                Seq::new(
                    arguments@.len(),
                    |i: int|
                        if 0 <= i < arguments@.len() {
                            arguments@[i].model()
                        } else {
                            ExprM::Bool(false)
                        },
                ),
            ),
            Expression::IfExpression { condition, consequence, alternative } => ExprM::If(
                Box::new((**condition).model()),
                Box::new((**consequence).model()),
                match alternative {
                    Some(alt) => Some(Box::new((**alt).model())),
                    None => None,
                },
            ),
            Expression::FunctionExpression { parameters, body } => ExprM::Func(
                names_view((**parameters)@),
                Box::new((**body).model()),
            ),
        }
    }
}

impl Statement {
    pub open spec fn model(&self) -> StmtM
        decreases self, 0nat,
    {
        match self {
            Statement::VarStatement { kind, name, value } => StmtM::Var(*kind, name@, value.model()),
            Statement::ReturnStatement(e) => StmtM::Ret(e.model()),
            Statement::AssignStatement { name, value } => StmtM::Assign(name@, value.model()),
            Statement::ExpressionStatement(e) => StmtM::Expr(e.model()),
            Statement::BlockStatement(v) => StmtM::Block(
                Seq::new(v@.len(), |i: int| if 0 <= i < v@.len() { v@[i].model() } else { StmtM::Block(Seq::empty()) }),
            ),
        }
    }
}

/// The models of a sequence of expressions.
pub open spec fn expr_models(v: Seq<Expression>) -> Seq<ExprM> {
    v.map_values(|e: Expression| e.model())
}

/// The models of a sequence of statements.
pub open spec fn stmt_models(v: Seq<Statement>) -> Seq<StmtM> {
    v.map_values(|s: Statement| s.model())
}

/// The models of map literal entries.
pub open spec fn entry_exprs(v: Seq<(String, Expression)>) -> Seq<(Seq<char>, ExprM)> {
    v.map_values(|p: (String, Expression)| (p.0@, p.1.model()))
}

pub proof fn lemma_list_models(v: Vec<Expression>)
    ensures
        Expression::ArrayLiteral(v).model() == ExprM::Array(expr_models(v@)),
{
    assert(Expression::ArrayLiteral(v).model()->Array_0 =~= expr_models(v@));
}

pub proof fn lemma_entry_models(v: Vec<(String, Expression)>)
    ensures
        Expression::MapLiteral(v).model() == ExprM::Dict(entry_exprs(v@)),
{
    assert(Expression::MapLiteral(v).model()->Dict_0 =~= entry_exprs(v@));
}

pub proof fn lemma_call_models(p: Box<Expression>, v: Vec<Expression>)
    ensures
        (Expression::CallExpression { path: p, arguments: v }).model() == ExprM::Call(
            Box::new((*p).model()),
            expr_models(v@),
        ),
{
    assert((Expression::CallExpression { path: p, arguments: v }).model()->Call_1 =~= expr_models(v@));
}

pub proof fn lemma_block_models(v: Vec<Statement>)
    ensures
        Statement::BlockStatement(v).model() == StmtM::Block(stmt_models(v@)),
{
    assert(Statement::BlockStatement(v).model()->Block_0 =~= stmt_models(v@));
}

/// `parts` with `sep` between each two of them.
pub open spec fn join(parts: Seq<Seq<char>>, sep: Seq<char>) -> Seq<char>
    decreases parts.len(),
{
    if parts.len() == 0 {
        Seq::empty()
    } else if parts.len() == 1 {
        parts[0]
    } else {
        join(parts.drop_last(), sep) + sep + parts.last()
    }
}

/// The names, each as its characters.
pub open spec fn names_view(names: Seq<String>) -> Seq<Seq<char>> {
    names.map_values(|n: String| n@)
}

pub open spec fn bool_text(b: bool) -> Seq<char> {
    if b {
        "true"@
    } else {
        "false"@
    }
}

/// The printed form of an expression: operators fully parenthesised.
pub open spec fn expr_text(e: Expression) -> Seq<char>
    decreases e, 0nat,
{
    match e {
        Expression::Identifier(s) => s@,
        Expression::IntegerLiteral(n) => int_text(n as int),
        Expression::BooleanLiteral(b) => bool_text(b),
        Expression::StringLiteral(s) => "\""@ + s@ + "\""@,
        Expression::ArrayLiteral(v) => "["@ + exprs_text(v@) + "]"@,
        Expression::MapLiteral(v) => "{"@ + entries_text(v@) + "}"@,
        Expression::BinaryExpression { left, operator, right } => "("@ + expr_text(*left) + " "@
            + kind_text(operator) + " "@ + expr_text(*right) + ")"@,
        Expression::UnaryExpression { operator, value } => "("@ + kind_text(operator) + expr_text(
            *value,
        ) + ")"@,
        Expression::IndexExpression { value, index } => "("@ + expr_text(*value) + "["@
            + expr_text(*index) + "])"@,
        Expression::GroupedExpression(inner) => expr_text(*inner),
        Expression::CallExpression { path, arguments } => expr_text(*path) + "("@ + exprs_text(
            arguments@,
        ) + ")"@,
        Expression::IfExpression { condition, consequence, alternative } => match alternative {
            Some(alt) => "if "@ + expr_text(*condition) + " "@ + stmt_text(*consequence)
                + " else "@ + stmt_text(*alt),
            None => "if "@ + expr_text(*condition) + " "@ + stmt_text(*consequence),
        },
        Expression::FunctionExpression { parameters, body } => "fn("@ + join(
            names_view((*parameters)@),
            ", "@,
        ) + ") "@ + stmt_text(*body),
    }
}

/// Expressions separated by `", "`.
pub open spec fn exprs_text(es: Seq<Expression>) -> Seq<char>
    decreases es, 1nat,
{
    if es.len() == 0 {
        Seq::empty()
    } else if es.len() == 1 {
        expr_text(es[0])
    } else {
        exprs_text(es.drop_last()) + ", "@ + expr_text(es.last())
    }
}

/// Map entries written `"key": value`, separated by `", "`.
pub open spec fn entries_text(es: Seq<(String, Expression)>) -> Seq<char>
    decreases es, 1nat,
{
    if es.len() == 0 {
        Seq::empty()
    } else if es.len() == 1 {
        "\""@ + es[0].0@ + "\": "@ + expr_text(es[0].1)
    } else {
        entries_text(es.drop_last()) + ", "@ + "\""@ + es.last().0@ + "\": "@ + expr_text(
            es.last().1,
        )
    }
}

/// The printed form of a statement.
pub open spec fn stmt_text(s: Statement) -> Seq<char>
    decreases s, 0nat,
{
    match s {
        Statement::VarStatement { kind, name, value } => kind_text(kind) + " "@ + name@ + " = "@
            + expr_text(value) + ";"@,
        Statement::ReturnStatement(e) => "return "@ + expr_text(e) + ";"@,
        Statement::AssignStatement { name, value } => name@ + " = "@ + expr_text(value) + ";"@,
        Statement::ExpressionStatement(e) => expr_text(e),
        Statement::BlockStatement(v) => "{"@ + stmts_text(v@) + "}"@,
    }
}

/// Statements printed one after another.
pub open spec fn stmts_text(ss: Seq<Statement>) -> Seq<char>
    decreases ss, 1nat,
{
    if ss.len() == 0 {
        Seq::empty()
    } else {
        stmts_text(ss.drop_last()) + stmt_text(ss.last())
    }
}

/// Appends `names` separated by `", "`.
pub fn write_names(names: &Vec<String>, out: &mut String)
    ensures
        final(out)@ == old(out)@ + join(names_view(names@), ", "@),
{
    let mut i: usize = 0;
    assert(out@ =~= old(out)@ + join(names_view(names@.take(0)), ", "@));
    while i < names.len()
        invariant
            i <= names@.len(),
            out@ == old(out)@ + join(names_view(names@.take(i as int)), ", "@),
        decreases names@.len() - i,
    {
        if i > 0 {
            push_str(out, ", ");
        }
        push_string(out, &names[i]);
        proof {
            let t = names_view(names@.take(i + 1));
            assert(t.drop_last() =~= names_view(names@.take(i as int)));
            assert(t.last() == names@[i as int]@);
        }
        i += 1;
        assert(out@ =~= old(out)@ + join(names_view(names@.take(i as int)), ", "@));
    }
    assert(names@.take(i as int) =~= names@);
}

impl Expression {
    /// Appends the printed form of this expression.
    pub fn write_to(&self, out: &mut String)
        ensures
            final(out)@ == old(out)@ + expr_text(*self),
        decreases self,
    {
        match self {
            Expression::Identifier(s) => push_string(out, s),
            Expression::IntegerLiteral(n) => push_int(out, *n),
            Expression::BooleanLiteral(b) => {
                if *b {
                    push_str(out, "true");
                } else {
                    push_str(out, "false");
                }
            },
            Expression::StringLiteral(s) => {
                push_str(out, "\"");
                push_string(out, s);
                push_str(out, "\"");
            },
            Expression::ArrayLiteral(v) => {
                push_str(out, "[");
                write_list(v, out);
                push_str(out, "]");
            },
            Expression::MapLiteral(v) => {
                push_str(out, "{");
                let ghost start = out@;
                let mut i: usize = 0;
                assert(out@ =~= start + entries_text(v@.take(0)));
                while i < v.len()
                    invariant
                        i <= v@.len(),
                        decreases_to!(*self => *v),
                        out@ == start + entries_text(v@.take(i as int)),
                    decreases v@.len() - i,
                {
                    if i > 0 {
                        push_str(out, ", ");
                    }
                    push_str(out, "\"");
                    push_string(out, &v[i].0);
                    push_str(out, "\": ");
                    proof {
                        assert(decreases_to!(*v => v[i as int]));
                    }
                    v[i].1.write_to(out);
                    proof {
                        let t = v@.take(i + 1);
                        assert(t.drop_last() =~= v@.take(i as int));
                        assert(t.last() == v@[i as int]);
                    }
                    i += 1;
                    assert(out@ =~= start + entries_text(v@.take(i as int)));
                }
                assert(v@.take(i as int) =~= v@);
                push_str(out, "}");
            },
            Expression::BinaryExpression { left, operator, right } => {
                push_str(out, "(");
                left.write_to(out);
                push_str(out, " ");
                push_str(out, operator.text());
                push_str(out, " ");
                right.write_to(out);
                push_str(out, ")");
            },
            Expression::UnaryExpression { operator, value } => {
                push_str(out, "(");
                push_str(out, operator.text());
                value.write_to(out);
                push_str(out, ")");
            },
            Expression::IndexExpression { value, index } => {
                push_str(out, "(");
                value.write_to(out);
                push_str(out, "[");
                index.write_to(out);
                push_str(out, "])");
            },
            Expression::GroupedExpression(inner) => inner.write_to(out),
            Expression::CallExpression { path, arguments } => {
                path.write_to(out);
                push_str(out, "(");
                write_list(arguments, out);
                push_str(out, ")");
            },
            Expression::IfExpression { condition, consequence, alternative } => {
                push_str(out, "if ");
                condition.write_to(out);
                push_str(out, " ");
                consequence.write_to(out);
                match alternative {
                    Some(alt) => {
                        push_str(out, " else ");
                        alt.write_to(out);
                    },
                    None => {},
                }
            },
            Expression::FunctionExpression { parameters, body } => {
                push_str(out, "fn(");
                write_names(parameters, out);
                push_str(out, ") ");
                body.write_to(out);
            },
        }
        proof {
            reveal_strlit("true");
            reveal_strlit("false");
        }
        assert(out@ =~= old(out)@ + expr_text(*self));
    }

    /// The printed form of this expression: operators fully parenthesised.
    pub fn to_string(&self) -> (r: String)
        ensures
            r@ == expr_text(*self),
    {
        let mut r = String::new();
        self.write_to(&mut r);
        assert(r@ =~= expr_text(*self));
        r
    }
}

/// Appends `v` separated by `", "`.
pub fn write_list(v: &Vec<Expression>, out: &mut String)
    ensures
        final(out)@ == old(out)@ + exprs_text(v@),
    decreases v, 0nat,
{
    let mut i: usize = 0;
    assert(out@ =~= old(out)@ + exprs_text(v@.take(0)));
    while i < v.len()
        invariant
            i <= v@.len(),
            out@ == old(out)@ + exprs_text(v@.take(i as int)),
        decreases v@.len() - i,
    {
        if i > 0 {
            push_str(out, ", ");
        }
        proof {
            assert(decreases_to!(*v => v[i as int]));
        }
        v[i].write_to(out);
        proof {
            let t = v@.take(i + 1);
            assert(t.drop_last() =~= v@.take(i as int));
            assert(t.last() == v@[i as int]);
        }
        i += 1;
        assert(out@ =~= old(out)@ + exprs_text(v@.take(i as int)));
    }
    assert(v@.take(i as int) =~= v@);
}

/// Appends the statements one after another.
pub fn write_statements(v: &Vec<Statement>, out: &mut String)
    ensures
        final(out)@ == old(out)@ + stmts_text(v@),
    decreases v, 0nat,
{
    let mut i: usize = 0;
    assert(out@ =~= old(out)@ + stmts_text(v@.take(0)));
    while i < v.len()
        invariant
            i <= v@.len(),
            out@ == old(out)@ + stmts_text(v@.take(i as int)),
        decreases v@.len() - i,
    {
        proof {
            assert(decreases_to!(*v => v[i as int]));
        }
        v[i].write_to(out);
        proof {
            let t = v@.take(i + 1);
            assert(t.drop_last() =~= v@.take(i as int));
            assert(t.last() == v@[i as int]);
        }
        i += 1;
        assert(out@ =~= old(out)@ + stmts_text(v@.take(i as int)));
    }
    assert(v@.take(i as int) =~= v@);
}

impl Statement {
    /// Appends the printed form of this statement.
    pub fn write_to(&self, out: &mut String)
        ensures
            final(out)@ == old(out)@ + stmt_text(*self),
        decreases self,
    {
        match self {
            Statement::VarStatement { kind, name, value } => {
                push_str(out, kind.text());
                push_str(out, " ");
                push_string(out, name);
                push_str(out, " = ");
                value.write_to(out);
                push_str(out, ";");
            },
            Statement::ReturnStatement(e) => {
                push_str(out, "return ");
                e.write_to(out);
                push_str(out, ";");
            },
            Statement::AssignStatement { name, value } => {
                push_string(out, name);
                push_str(out, " = ");
                value.write_to(out);
                push_str(out, ";");
            },
            Statement::ExpressionStatement(e) => e.write_to(out),
            Statement::BlockStatement(v) => {
                push_str(out, "{");
                write_statements(v, out);
                push_str(out, "}");
            },
        }
        assert(out@ =~= old(out)@ + stmt_text(*self));
    }

    /// The printed form of this statement.
    pub fn to_string(&self) -> (r: String)
        ensures
            r@ == stmt_text(*self),
    {
        let mut r = String::new();
        self.write_to(&mut r);
        assert(r@ =~= stmt_text(*self));
        r
    }
}

impl Program {
    /// The printed form of the program: its statements one after another.
    pub fn to_string(&self) -> (r: String)
        ensures
            r@ == stmts_text(self.0@),
    {
        let mut r = String::new();
        write_statements(&self.0, &mut r);
        assert(r@ =~= stmts_text(self.0@));
        r
    }
}

} // verus!
