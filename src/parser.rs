//! The parser: statements by recursive descent, expressions by precedence climbing.
use vstd::prelude::*;
use std::rc::Rc;
use crate::ast::{
    names_view, entry_exprs, expr_models, lemma_block_models, lemma_call_models, lemma_entry_models,
    lemma_list_models, stmt_models, Expression, ExprM, ParserError, Program, Statement, StmtM,
};
use crate::lexer::{scan, Lexer};
use crate::text::{is_digit, is_digit_char};
use crate::token::{Token, TokenKind};

verus! {

/// The binding power of a token: infix operators bind with a left and a right power,
/// prefix and postfix operators with one.
#[derive(Debug)]
pub enum Precedence {
    Infix(u8, u8),
    Prefix(u8),
    Postfix(u8),
}

/// Left and right binding powers of the infix operators.
pub open spec fn infix_binding(k: TokenKind) -> Option<(u8, u8)> {
    match k {
        TokenKind::AndAnd | TokenKind::OrOr => Some((0, 1)),
        TokenKind::Equal | TokenKind::NotEqual => Some((1, 2)),
        TokenKind::LessThan
        | TokenKind::GreaterThan
        | TokenKind::LessThanEqual
        | TokenKind::GreaterThanEqual => Some((3, 4)),
        TokenKind::Plus | TokenKind::Minus => Some((5, 6)),
        TokenKind::Asterisk | TokenKind::Slash | TokenKind::Percentage => Some((6, 7)),
        _ => None,
    }
}

/// Binding power of the postfix operators: indexing and calls.
pub open spec fn postfix_binding(k: TokenKind) -> Option<u8> {
    match k {
        TokenKind::LeftSquare | TokenKind::LeftParen => Some(8),
        _ => None,
    }
}

/// Binding power of the prefix operators.
pub open spec fn prefix_binding(k: TokenKind) -> Option<u8> {
    match k {
        TokenKind::Bang | TokenKind::Minus => Some(9),
        _ => None,
    }
}

/// How strongly a token that follows an expression binds it from the left;
/// -1 for a token that cannot continue an expression.
pub open spec fn left_power(k: TokenKind) -> int {
    if postfix_binding(k) is Some {
        8
    } else {
        match infix_binding(k) {
            Some((l, _)) => l as int,
            None => -1,
        }
    }
}

/// How strongly the outermost operator of an expression binds; 10 for an expression
/// with no operator outside brackets.
pub open spec fn binding_power(e: Expression) -> int {
    match e {
        Expression::BinaryExpression { operator, .. } => match infix_binding(operator) {
            Some((l, _)) => l as int,
            None => -1,
        },
        Expression::UnaryExpression { .. } => 9,
        Expression::IndexExpression { .. } | Expression::CallExpression { .. } => 8,
        _ => 10,
    }
}

/// The binding power that a parse at minimum power `min` guarantees: every operator
/// binds at least at `min`, and a lone operand binds at 9 or more.
pub open spec fn binds_within(e: Expression, min: u8) -> bool {
    binding_power(e) >= min || binding_power(e) >= 9
}

/// No two entries of a map literal have the same key.
pub open spec fn keys_unique(v: Seq<(String, Expression)>) -> bool {
    forall|i: int, j: int| 0 <= i < j < v.len() ==> v[i].0@ != v[j].0@
}

/// The tree agrees with the binding powers: an operand binds at least as strongly as
/// its operator (strictly, for a right operand), and map keys are unique.
pub open spec fn expr_ok(e: Expression) -> bool
    decreases e,
{
    match e {
        Expression::BinaryExpression { left, operator, right } => {
            &&& infix_binding(operator) is Some
            &&& expr_ok(*left)
            &&& expr_ok(*right)
            &&& binding_power(*left) >= binding_power(e)
            &&& binding_power(*right) > binding_power(e)
        },
        Expression::UnaryExpression { operator, value } => {
            &&& prefix_binding(operator) is Some
            &&& expr_ok(*value)
            &&& binding_power(*value) >= 9
        },
        Expression::IndexExpression { value, index } => {
            &&& expr_ok(*value)
            &&& expr_ok(*index)
            &&& binding_power(*value) >= 8
        },
        Expression::CallExpression { path, arguments } => {
            &&& expr_ok(*path)
            &&& binding_power(*path) >= 8
            &&& forall|i: int| 0 <= i < arguments@.len() ==> expr_ok(#[trigger] arguments@[i])
        },
        Expression::ArrayLiteral(v) => forall|i: int| 0 <= i < v@.len() ==> expr_ok(#[trigger] v@[i]),
        Expression::MapLiteral(v) => {
            &&& keys_unique(v@)
            &&& forall|i: int| 0 <= i < v@.len() ==> expr_ok(#[trigger] v@[i].1)
        },
        Expression::GroupedExpression(inner) => expr_ok(*inner),
        Expression::IfExpression { condition, consequence, alternative } => {
            &&& expr_ok(*condition)
            &&& stmt_ok(*consequence)
            &&& match alternative {
                Some(alt) => stmt_ok(*alt),
                None => true,
            }
        },
        Expression::FunctionExpression { body, .. } => stmt_ok(*body),
        _ => true,
    }
}

/// Every expression in the statement agrees with the binding powers.
pub open spec fn stmt_ok(s: Statement) -> bool
    decreases s,
{
    match s {
        Statement::VarStatement { value, .. } => expr_ok(value),
        Statement::ReturnStatement(e) => expr_ok(e),
        Statement::AssignStatement { value, .. } => expr_ok(value),
        Statement::ExpressionStatement(e) => expr_ok(e),
        Statement::BlockStatement(v) => forall|i: int| 0 <= i < v@.len() ==> stmt_ok(#[trigger] v@[i]),
    }
}

/// The value of a run of decimal digits.
pub open spec fn digits_value(s: Seq<char>) -> int
    decreases s.len(),
{
    if s.len() == 0 {
        0
    } else {
        digits_value(s.drop_last()) * 10 + (s.last() as u32 - '0' as u32)
    }
}

pub open spec fn all_digits(s: Seq<char>) -> bool {
    forall|i: int| 0 <= i < s.len() ==> is_digit_char(#[trigger] s[i])
}

/// The 32-bit integer that a numeral spells, if it is one digit or more and fits.
pub open spec fn numeral_value(s: Seq<char>) -> Option<i32> {
    if s.len() > 0 && all_digits(s) && digits_value(s) <= i32::MAX {
        Some(digits_value(s) as i32)
    } else {
        None
    }
}

proof fn lemma_digits_grow(s: Seq<char>, i: int)
    requires
        all_digits(s),
        0 <= i <= s.len(),
    ensures
        0 <= digits_value(s.take(i)) <= digits_value(s),
    decreases s.len(),
{
    if s.len() > 0 {
        if i == s.len() {
            assert(s.take(i) =~= s);
            lemma_digits_grow(s.drop_last(), i - 1);
        } else {
            lemma_digits_grow(s.drop_last(), i);
            assert(s.drop_last().take(i) =~= s.take(i));
        }
        assert(s.drop_last().take(s.len() - 1) =~= s.drop_last());
    }
}

/// Reads a decimal numeral as a 32-bit integer.
pub fn parse_numeral(text: &str) -> (r: Option<i32>)
    ensures
        r == numeral_value(text@),
{
    let n = text.unicode_len();
    if n == 0 {
        return None;
    }
    let mut acc: i64 = 0;
    let mut i: usize = 0;
    while i < n
        invariant
            n == text@.len(),
            i <= n,
            all_digits(text@.take(i as int)),
            acc == digits_value(text@.take(i as int)),
            0 <= acc <= i32::MAX,
        decreases n - i,
    {
        let c = text.get_char(i);
        if !is_digit(c) {
            return None;
        }
        proof {
            let t = text@.take(i + 1);
            assert(t.drop_last() =~= text@.take(i as int));
            assert(t.last() == c);
        }
        acc = acc * 10 + (c as u32 - '0' as u32) as i64;
        i += 1;
        if acc > i32::MAX as i64 {
            proof {
                assert(all_digits(text@.take(i as int)));
                if all_digits(text@) {
                    lemma_digits_grow(text@, i as int);
                }
            }
            return None;
        }
    }
    assert(text@.take(n as int) =~= text@);
    Some(acc as i32)
}

/// The `k`-th token of `s` (counting from 0): its kind, its text, and the position
/// right after it.
pub open spec fn tok(s: Seq<char>, k: nat) -> (TokenKind, Seq<char>, int)
    decreases k,
{
    if k == 0 {
        scan(s, 0)
    } else {
        scan(s, tok(s, (k - 1) as nat).2)
    }
}

pub open spec fn kind_at(s: Seq<char>, k: nat) -> TokenKind {
    tok(s, k).0
}

pub open spec fn text_at(s: Seq<char>, k: nat) -> Seq<char> {
    tok(s, k).1
}

/// What is left to read when token `k` is the current one: the characters after token
/// `k + 1`, and the tokens `k` and `k + 1` that are not the end of input.
pub open spec fn measure_at(s: Seq<char>, k: nat) -> int {
    (s.len() - tok(s, k + 1).2) + (if kind_at(s, k) != TokenKind::Eof {
        1int
    } else {
        0int
    }) + (if kind_at(s, k + 1) != TokenKind::Eof {
        1int
    } else {
        0int
    })
}

/// Token `a` leaves less to read than token `b`. Every step of a parse reads on; the
/// definitions below check it where they continue after a step, which keeps them total.
pub open spec fn fewer(s: Seq<char>, a: nat, b: nat) -> bool {
    0 <= measure_at(s, a) < measure_at(s, b)
}

pub open spec fn no_more(s: Seq<char>, a: nat, b: nat) -> bool {
    0 <= measure_at(s, a) <= measure_at(s, b)
}

/// A parse error without its message text.
pub enum PFail {
    Syntax,
    Unexpected(TokenKind, Seq<char>),
    InvalidOperand,
    IntConversion(Seq<char>),
    Unknown,
}

pub open spec fn pfail_of(e: ParserError) -> PFail {
    match e {
        ParserError::SyntaxError(_) => PFail::Syntax,
        ParserError::UnexpectedToken(t) => PFail::Unexpected(t.kind, t.literal@),
        ParserError::InvalidOperandType(_) => PFail::InvalidOperand,
        ParserError::IntConversionError(t) => PFail::IntConversion(t@),
        ParserError::Unknown => PFail::Unknown,
    }
}

/// Where a parse step ends (the index of its last token) and what it gives.
pub type PStep<T> = (nat, Result<T, PFail>);

/// Consumes token `k + 1` if it has kind `kind`.
pub open spec fn expect_at(s: Seq<char>, k: nat, kind: TokenKind) -> PStep<()> {
    if kind_at(s, k + 1) == kind {
        (k + 1, Ok(()))
    } else {
        (k, Err(PFail::Unexpected(kind_at(s, k + 1), text_at(s, k + 1))))
    }
}

/// `acc` with `key` bound to `v`: in place when the key is there, else at the end.
pub open spec fn upsert(acc: Seq<(Seq<char>, ExprM)>, key: Seq<char>, v: ExprM) -> Seq<
    (Seq<char>, ExprM),
>
    decreases acc.len(),
{
    if acc.len() == 0 {
        seq![(key, v)]
    } else if acc[0].0 == key {
        acc.update(0, (key, v))
    } else {
        seq![acc[0]] + upsert(acc.drop_first(), key, v)
    }
}

/// The expression that starts at token `k` (`skip`) or `k + 1`, extended by every
/// operator that binds at least at `min`.
pub open spec fn p_expr(s: Seq<char>, k: nat, min: u8, skip: bool) -> PStep<ExprM>
    decreases measure_at(s, k), if skip {
        7nat
    } else {
        4nat
    },
{
    let k1: nat = if skip {
        k
    } else {
        k + 1
    };
    if !skip && !fewer(s, k1, k) {
        (k, Err(PFail::Unknown))
    } else {
        let pre = p_prefix(s, k1);
        match pre.1 {
            Err(f) => (pre.0, Err(f)),
            Ok(left) => if no_more(s, pre.0, k) {
                p_loop(s, pre.0, min, left)
            } else {
                (pre.0, Err(PFail::Unknown))
            },
        }
    }
}

/// The operand that starts at token `k`: a literal, a name, a bracketed form, a prefix
/// operator applied to what follows, an `if` or a function.
pub open spec fn p_prefix(s: Seq<char>, k: nat) -> PStep<ExprM>
    decreases measure_at(s, k), 6nat,
{
    let kind = kind_at(s, k);
    let text = text_at(s, k);
    if kind == TokenKind::Integer {
        match numeral_value(text) {
            Some(n) => (k, Ok(ExprM::Int(n))),
            None => (k, Err(PFail::IntConversion(text))),
        }
    } else if kind == TokenKind::True {
        (k, Ok(ExprM::Bool(true)))
    } else if kind == TokenKind::False {
        (k, Ok(ExprM::Bool(false)))
    } else if kind == TokenKind::String {
        (k, Ok(ExprM::Str(text)))
    } else if kind == TokenKind::Identifier {
        (k, Ok(ExprM::Ident(text)))
    } else if kind == TokenKind::LeftSquare {
        let (k2, r) = p_list(s, k, TokenKind::RightSquare, Seq::empty());
        (
            k2,
            match r {
                Ok(v) => Ok(ExprM::Array(v)),
                Err(f) => Err(f),
            },
        )
    } else if kind == TokenKind::LeftBrace {
        let (k2, r) = p_map(s, k, Seq::empty());
        (
            k2,
            match r {
                Ok(v) => Ok(ExprM::Dict(v)),
                Err(f) => Err(f),
            },
        )
    } else if kind == TokenKind::LeftParen {
        p_grouped(s, k)
    } else if kind == TokenKind::Bang || kind == TokenKind::Minus {
        p_unary(s, k)
    } else if kind == TokenKind::If {
        p_if(s, k)
    } else if kind == TokenKind::Function {
        p_fn(s, k)
    } else {
        (k, Err(PFail::Unexpected(kind, text)))
    }
}

/// Extends `left`, whose last token is `k`, by postfix and infix operators that bind at
/// least at `min`, left to right.
pub open spec fn p_loop(s: Seq<char>, k: nat, min: u8, left: ExprM) -> PStep<ExprM>
    decreases measure_at(s, k), 0nat,
{
    let nk = kind_at(s, k + 1);
    if postfix_binding(nk) is Some {
        if 8 < min {
            (k, Ok(left))
        } else if !fewer(s, k + 1, k) {
            (k, Err(PFail::Unknown))
        } else {
            let k1 = k + 1;
            if nk == TokenKind::LeftSquare {
                if kind_at(s, k1 + 1) == TokenKind::RightSquare {
                    (k1, Err(PFail::Syntax))
                } else {
                    let (k2, i) = p_expr(s, k1, 0, false);
                    match i {
                        Err(f) => (k2, Err(f)),
                        Ok(index) => {
                            let (k3, x) = expect_at(s, k2, TokenKind::RightSquare);
                            match x {
                                Err(f) => (k3, Err(f)),
                                Ok(_) => if fewer(s, k3, k) {
                                    p_loop(s, k3, min, ExprM::Index(Box::new(left), Box::new(index)))
                                } else {
                                    (k3, Err(PFail::Unknown))
                                },
                            }
                        },
                    }
                }
            } else {
                let (k2, c) = p_call(s, k1, left);
                match c {
                    Err(f) => (k2, Err(f)),
                    Ok(call) => if fewer(s, k2, k) {
                        p_loop(s, k2, min, call)
                    } else {
                        (k2, Err(PFail::Unknown))
                    },
                }
            }
        }
    } else {
        match infix_binding(nk) {
            Some((lp, rp)) => if lp < min {
                (k, Ok(left))
            } else if !fewer(s, k + 1, k) {
                (k, Err(PFail::Unknown))
            } else {
                let (k2, r) = p_expr(s, k + 1, rp, false);
                match r {
                    Err(f) => (k2, Err(f)),
                    Ok(right) => if fewer(s, k2, k) {
                        p_loop(s, k2, min, ExprM::Binary(Box::new(left), nk, Box::new(right)))
                    } else {
                        (k2, Err(PFail::Unknown))
                    },
                }
            },
            None => (k, Ok(left)),
        }
    }
}

/// The arguments of a call of `callee`, with `(` token `k`.
pub open spec fn p_call(s: Seq<char>, k: nat, callee: ExprM) -> PStep<ExprM>
    decreases measure_at(s, k), 6nat,
{
    let (k1, r) = p_list(s, k, TokenKind::RightParen, Seq::empty());
    (
        k1,
        match r {
            Ok(v) => Ok(ExprM::Call(Box::new(callee), v)),
            Err(f) => Err(f),
        },
    )
}

/// Comma separated expressions after token `k` up to `end`, appended to `acc`; a comma
/// may stand before `end`.
pub open spec fn p_list(s: Seq<char>, k: nat, end: TokenKind, acc: Seq<ExprM>) -> PStep<Seq<ExprM>>
    decreases measure_at(s, k), 5nat,
{
    if kind_at(s, k + 1) == end {
        (k + 1, Ok(acc))
    } else {
        let (k1, e) = p_expr(s, k, 0, false);
        match e {
            Err(f) => (k1, Err(f)),
            Ok(x) => {
                let acc2 = acc.push(x);
                if kind_at(s, k1 + 1) == TokenKind::Comma {
                    if fewer(s, k1 + 1, k) {
                        p_list(s, k1 + 1, end, acc2)
                    } else {
                        (k1, Err(PFail::Unknown))
                    }
                } else if kind_at(s, k1 + 1) != end {
                    (k1, Err(PFail::Syntax))
                } else if fewer(s, k1, k) {
                    p_list(s, k1, end, acc2)
                } else {
                    (k1, Err(PFail::Unknown))
                }
            },
        }
    }
}

/// Entries `"key": value` after token `k` up to `}`, merged into `acc`.
pub open spec fn p_map(s: Seq<char>, k: nat, acc: Seq<(Seq<char>, ExprM)>) -> PStep<
    Seq<(Seq<char>, ExprM)>,
>
    decreases measure_at(s, k), 5nat,
{
    if kind_at(s, k + 1) == TokenKind::RightBrace {
        (k + 1, Ok(acc))
    } else {
        let (k1, a) = expect_at(s, k, TokenKind::String);
        match a {
            Err(f) => (k1, Err(f)),
            Ok(_) => {
                let key = text_at(s, k1);
                let (k2, b) = expect_at(s, k1, TokenKind::Colon);
                match b {
                    Err(f) => (k2, Err(f)),
                    Ok(_) => if !fewer(s, k2, k) {
                        (k2, Err(PFail::Unknown))
                    } else {
                        let (k3, v) = p_expr(s, k2, 0, false);
                        match v {
                            Err(f) => (k3, Err(f)),
                            Ok(x) => {
                                let acc2 = upsert(acc, key, x);
                                if kind_at(s, k3 + 1) == TokenKind::Comma {
                                    if fewer(s, k3 + 1, k) {
                                        p_map(s, k3 + 1, acc2)
                                    } else {
                                        (k3, Err(PFail::Unknown))
                                    }
                                } else if kind_at(s, k3 + 1) != TokenKind::RightBrace {
                                    (k3, Err(PFail::Syntax))
                                } else if fewer(s, k3, k) {
                                    p_map(s, k3, acc2)
                                } else {
                                    (k3, Err(PFail::Unknown))
                                }
                            },
                        }
                    },
                }
            },
        }
    }
}

proof fn lemma_upsert_at(acc: Seq<(Seq<char>, ExprM)>, key: Seq<char>, v: ExprM, k: int)
    requires
        0 <= k < acc.len(),
        acc[k].0 == key,
        forall|j: int| 0 <= j < k ==> (#[trigger] acc[j]).0 != key,
    ensures
        upsert(acc, key, v) == acc.update(k, (key, v)),
    decreases acc.len(),
{
    if k > 0 {
        assert(acc.drop_first()[k - 1] == acc[k]);
        assert forall|j: int| 0 <= j < k - 1 implies (#[trigger] acc.drop_first()[j]).0 != key by {
            assert(acc.drop_first()[j] == acc[j + 1]);
        }
        lemma_upsert_at(acc.drop_first(), key, v, k - 1);
        assert(seq![acc[0]] + acc.drop_first().update(k - 1, (key, v)) =~= acc.update(k, (key, v)));
    }
}

proof fn lemma_upsert_end(acc: Seq<(Seq<char>, ExprM)>, key: Seq<char>, v: ExprM)
    requires
        forall|j: int| 0 <= j < acc.len() ==> (#[trigger] acc[j]).0 != key,
    ensures
        upsert(acc, key, v) == acc.push((key, v)),
    decreases acc.len(),
{
    if acc.len() > 0 {
        assert forall|j: int| 0 <= j < acc.len() - 1 implies (#[trigger] acc.drop_first()[j]).0 != key by {
            assert(acc.drop_first()[j] == acc[j + 1]);
        }
        assert(acc[0].0 != key);
        lemma_upsert_end(acc.drop_first(), key, v);
        assert(seq![acc[0]] + acc.drop_first().push((key, v)) =~= acc.push((key, v)));
    } else {
        assert(seq![(key, v)] =~= acc.push((key, v)));
    }
}

/// A map literal with `{` token `k`.
pub open spec fn p_expr_map(s: Seq<char>, k: nat) -> PStep<ExprM> {
    let (k1, r) = p_map(s, k, Seq::empty());
    (
        k1,
        match r {
            Ok(v) => Ok(ExprM::Dict(v)),
            Err(f) => Err(f),
        },
    )
}

/// A parenthesised expression, with `(` token `k`.
pub open spec fn p_grouped(s: Seq<char>, k: nat) -> PStep<ExprM>
    decreases measure_at(s, k), 5nat,
{
    if !fewer(s, k + 1, k) {
        (k, Err(PFail::Unknown))
    } else if kind_at(s, k + 1) == TokenKind::RightParen {
        (k + 1, Err(PFail::Syntax))
    } else {
        let (k2, e) = p_expr(s, k + 1, 0, true);
        match e {
            Err(f) => (k2, Err(f)),
            Ok(inner) => {
                let (k3, x) = expect_at(s, k2, TokenKind::RightParen);
                match x {
                    Err(f) => (k3, Err(f)),
                    Ok(_) => (k3, Ok(ExprM::Group(Box::new(inner)))),
                }
            },
        }
    }
}

/// A prefix operator, token `k`, applied to what follows.
pub open spec fn p_unary(s: Seq<char>, k: nat) -> PStep<ExprM>
    decreases measure_at(s, k), 5nat,
{
    let (k1, v) = p_expr(s, k, 9, false);
    match v {
        Err(f) => (k1, Err(f)),
        Ok(value) => (k1, Ok(ExprM::Unary(kind_at(s, k), Box::new(value)))),
    }
}

/// `if` (token `k`) condition `{ ... }`, optionally `else { ... }`.
pub open spec fn p_if(s: Seq<char>, k: nat) -> PStep<ExprM>
    decreases measure_at(s, k), 5nat,
{
    let (k1, c) = p_expr(s, k, 0, false);
    match c {
        Err(f) => (k1, Err(f)),
        Ok(cond) => {
            let (k2, x) = expect_at(s, k1, TokenKind::LeftBrace);
            match x {
                Err(f) => (k2, Err(f)),
                Ok(_) => if !fewer(s, k2, k) {
                    (k2, Err(PFail::Unknown))
                } else {
                    let (k3, b) = p_block(s, k2);
                    match b {
                        Err(f) => (k3, Err(f)),
                        Ok(cons) => if kind_at(s, k3 + 1) == TokenKind::Else {
                            let (k5, y) = expect_at(s, k3 + 1, TokenKind::LeftBrace);
                            match y {
                                Err(f) => (k5, Err(f)),
                                Ok(_) => if !fewer(s, k5, k) {
                                    (k5, Err(PFail::Unknown))
                                } else {
                                    let (k6, a) = p_block(s, k5);
                                    match a {
                                        Err(f) => (k6, Err(f)),
                                        Ok(alt) => (
                                            k6,
                                            Ok(ExprM::If(Box::new(cond), Box::new(cons), Some(Box::new(alt)))),
                                        ),
                                    }
                                },
                            }
                        } else {
                            (k3, Ok(ExprM::If(Box::new(cond), Box::new(cons), None)))
                        },
                    }
                },
            }
        },
    }
}

/// Parameter names after token `k` up to `)`, appended to `acc`.
pub open spec fn p_params(s: Seq<char>, k: nat, acc: Seq<Seq<char>>) -> PStep<Seq<Seq<char>>>
    decreases measure_at(s, k), 1nat,
{
    if kind_at(s, k + 1) == TokenKind::RightParen {
        (k, Ok(acc))
    } else {
        let (k1, a) = expect_at(s, k, TokenKind::Identifier);
        match a {
            Err(f) => (k1, Err(f)),
            Ok(_) => {
                let acc2 = acc.push(text_at(s, k1));
                if kind_at(s, k1 + 1) == TokenKind::Comma {
                    if fewer(s, k1 + 1, k) {
                        p_params(s, k1 + 1, acc2)
                    } else {
                        (k1, Err(PFail::Unknown))
                    }
                } else if kind_at(s, k1 + 1) != TokenKind::RightParen {
                    (k1, Err(PFail::Syntax))
                } else if fewer(s, k1, k) {
                    p_params(s, k1, acc2)
                } else {
                    (k1, Err(PFail::Unknown))
                }
            },
        }
    }
}

/// `fn` (token `k`) `(` names `)` `{ ... }`.
pub open spec fn p_fn(s: Seq<char>, k: nat) -> PStep<ExprM>
    decreases measure_at(s, k), 5nat,
{
    let (k1, a) = expect_at(s, k, TokenKind::LeftParen);
    match a {
        Err(f) => (k1, Err(f)),
        Ok(_) => if !fewer(s, k1, k) {
            (k1, Err(PFail::Unknown))
        } else {
            let (k2, ps) = p_params(s, k1, Seq::empty());
            match ps {
                Err(f) => (k2, Err(f)),
                Ok(names) => {
                    let (k3, b) = expect_at(s, k2, TokenKind::RightParen);
                    match b {
                        Err(f) => (k3, Err(f)),
                        Ok(_) => {
                            let (k4, c) = expect_at(s, k3, TokenKind::LeftBrace);
                            match c {
                                Err(f) => (k4, Err(f)),
                                Ok(_) => if !fewer(s, k4, k) {
                                    (k4, Err(PFail::Unknown))
                                } else {
                                    let (k5, body) = p_block(s, k4);
                                    match body {
                                        Err(f) => (k5, Err(f)),
                                        Ok(b) => (k5, Ok(ExprM::Func(names, Box::new(b)))),
                                    }
                                },
                            }
                        },
                    }
                },
            }
        },
    }
}

/// The statement that starts at token `k`.
pub open spec fn p_stmt(s: Seq<char>, k: nat) -> PStep<StmtM>
    decreases measure_at(s, k), 10nat,
{
    let kind = kind_at(s, k);
    if kind == TokenKind::Let {
        p_var(s, k)
    } else if kind == TokenKind::Return {
        p_ret(s, k)
    } else if kind == TokenKind::LeftBrace {
        p_block(s, k)
    } else if kind == TokenKind::Identifier && kind_at(s, k + 1) == TokenKind::Assign {
        p_assign(s, k)
    } else {
        p_expr_stmt(s, k)
    }
}

/// `let` (token `k`) name `=` expression `;`.
pub open spec fn p_var(s: Seq<char>, k: nat) -> PStep<StmtM>
    decreases measure_at(s, k), 9nat,
{
    let (k1, a) = expect_at(s, k, TokenKind::Identifier);
    match a {
        Err(f) => (k1, Err(f)),
        Ok(_) => {
            let (k2, b) = expect_at(s, k1, TokenKind::Assign);
            match b {
                Err(f) => (k2, Err(f)),
                Ok(_) => if !fewer(s, k2, k) {
                    (k2, Err(PFail::Unknown))
                } else {
                    let (k3, e) = p_expr(s, k2, 0, false);
                    match e {
                        Err(f) => (k3, Err(f)),
                        Ok(value) => {
                            let (k4, c) = expect_at(s, k3, TokenKind::Semicolon);
                            match c {
                                Err(f) => (k4, Err(f)),
                                Ok(_) => (k4, Ok(StmtM::Var(kind_at(s, k), text_at(s, k1), value))),
                            }
                        },
                    }
                },
            }
        },
    }
}

/// Name (token `k`) `=` expression `;`.
pub open spec fn p_assign(s: Seq<char>, k: nat) -> PStep<StmtM>
    decreases measure_at(s, k), 9nat,
{
    let (k1, a) = expect_at(s, k, TokenKind::Assign);
    match a {
        Err(f) => (k1, Err(f)),
        Ok(_) => if !fewer(s, k1, k) {
            (k1, Err(PFail::Unknown))
        } else {
            let (k2, e) = p_expr(s, k1, 0, false);
            match e {
                Err(f) => (k2, Err(f)),
                Ok(value) => {
                    let (k3, c) = expect_at(s, k2, TokenKind::Semicolon);
                    match c {
                        Err(f) => (k3, Err(f)),
                        Ok(_) => (k3, Ok(StmtM::Assign(text_at(s, k), value))),
                    }
                },
            }
        },
    }
}

/// `return` (token `k`) expression `;`.
pub open spec fn p_ret(s: Seq<char>, k: nat) -> PStep<StmtM>
    decreases measure_at(s, k), 9nat,
{
    let (k1, e) = p_expr(s, k, 0, false);
    match e {
        Err(f) => (k1, Err(f)),
        Ok(value) => {
            let (k2, c) = expect_at(s, k1, TokenKind::Semicolon);
            match c {
                Err(f) => (k2, Err(f)),
                Ok(_) => (k2, Ok(StmtM::Ret(value))),
            }
        },
    }
}

/// `{` (token `k`) statements `}`.
pub open spec fn p_block(s: Seq<char>, k: nat) -> PStep<StmtM>
    decreases measure_at(s, k), 9nat,
{
    if !fewer(s, k + 1, k) {
        (k, Err(PFail::Unknown))
    } else {
        let (k1, r) = p_statements(s, k + 1, TokenKind::RightBrace, Seq::empty());
        (
            k1,
            match r {
                Ok(v) => Ok(StmtM::Block(v)),
                Err(f) => Err(f),
            },
        )
    }
}

/// Statements from token `k` on until the current token has kind `end`, appended to
/// `acc`.
pub open spec fn p_statements(s: Seq<char>, k: nat, end: TokenKind, acc: Seq<StmtM>) -> PStep<
    Seq<StmtM>,
>
    decreases measure_at(s, k), 11nat,
{
    if kind_at(s, k) == end {
        (k, Ok(acc))
    } else {
        let (k1, r) = p_stmt(s, k);
        match r {
            Err(f) => (k1, Err(f)),
            Ok(st) => if fewer(s, k1 + 1, k) {
                p_statements(s, k1 + 1, end, acc.push(st))
            } else {
                (k1, Err(PFail::Unknown))
            },
        }
    }
}

/// An expression starting at token `k`, and an optional `;`.
pub open spec fn p_expr_stmt(s: Seq<char>, k: nat) -> PStep<StmtM>
    decreases measure_at(s, k), 9nat,
{
    let (k1, e) = p_expr(s, k, 0, true);
    match e {
        Err(f) => (k1, Err(f)),
        Ok(x) => if kind_at(s, k1 + 1) == TokenKind::Semicolon {
            (k1 + 1, Ok(StmtM::Expr(x)))
        } else {
            (k1, Ok(StmtM::Expr(x)))
        },
    }
}

/// The program that the tokens from `k` to the end of input read as.
pub open spec fn p_program(s: Seq<char>, k: nat) -> PStep<Seq<StmtM>> {
    p_statements(s, k, TokenKind::Eof, Seq::empty())
}

pub struct Parser {
    pub lexer: Lexer,
    pub cur: Token,
    pub next: Token,
    /// Which token of the input `cur` is.
    pub at: Ghost<nat>,
}

/// The tree a parse gave, or its error without message text.
pub open spec fn e_res(r: Result<Expression, ParserError>) -> Result<ExprM, PFail> {
    match r {
        Ok(e) => Ok(e.model()),
        Err(x) => Err(pfail_of(x)),
    }
}

pub open spec fn s_res(r: Result<Statement, ParserError>) -> Result<StmtM, PFail> {
    match r {
        Ok(st) => Ok(st.model()),
        Err(x) => Err(pfail_of(x)),
    }
}

pub open spec fn l_res(r: Result<Vec<Expression>, ParserError>) -> Result<Seq<ExprM>, PFail> {
    match r {
        Ok(v) => Ok(expr_models(v@)),
        Err(x) => Err(pfail_of(x)),
    }
}

pub open spec fn prog_res(r: Result<Program, ParserError>) -> Result<Seq<StmtM>, PFail> {
    match r {
        Ok(p) => Ok(stmt_models(p.0@)),
        Err(x) => Err(pfail_of(x)),
    }
}

/// A parse gave what `step` says, and on success stopped where it says.
pub open spec fn follows<T>(res: Result<T, PFail>, at: nat, step: PStep<T>) -> bool {
    &&& res == step.1
    &&& res is Ok ==> at == step.0
}

impl Parser {
    /// `cur` and `next` are the tokens `at` and `at + 1` of the input, and the lexer
    /// stands right after `next`.
    pub open spec fn wf(&self) -> bool {
        let s = self.lexer.chars();
        &&& self.lexer.wf()
        &&& self.cur.kind == kind_at(s, self.at@)
        &&& self.cur.literal@ == text_at(s, self.at@)
        &&& self.next.kind == kind_at(s, self.at@ + 1)
        &&& self.next.literal@ == text_at(s, self.at@ + 1)
        &&& self.lexer.pos() == tok(s, self.at@ + 1).2
        &&& self.measure() as int == measure_at(s, self.at@)
    }

    /// Still well formed, on the same input.
    pub open spec fn kept(&self, before: &Parser) -> bool {
        &&& self.wf()
        &&& self.lexer.chars() == before.lexer.chars()
    }

    /// What is left to read: the characters not yet scanned and the tokens held that
    /// are not the end of input. Every step of the parser lowers it or keeps it.
    pub open spec fn measure(&self) -> nat {
        self.lexer.remaining() + (if self.cur.kind != TokenKind::Eof {
            1nat
        } else {
            0nat
        }) + (if self.next.kind != TokenKind::Eof {
            1nat
        } else {
            0nat
        })
    }

    /// What holds after a successful parse step: the state is well formed, nothing was
    /// given back, and the current token is the last one the step consumed.
    pub open spec fn advanced(&self, before: &Parser) -> bool {
        &&& self.wf()
        &&& self.measure() <= before.measure()
        &&& self.cur.kind != TokenKind::Eof
    }

    /// A parser whose current and next tokens are the first two tokens of `input`.
    pub fn new(input: &str) -> (r: Self)
        ensures
            r.wf(),
            r.lexer.chars() == input@,
            r.at@ == 0,
    {
        let lexer = Lexer::new(input);
        let mut parser = Parser {
            lexer,
            cur: Token::from_text(TokenKind::Eof, ""),
            next: Token::from_text(TokenKind::Eof, ""),
            at: Ghost(0),
        };
        // consume two tokens to set `cur` and `next`
        parser.eat_token();
        parser.eat_token();
        parser.at = Ghost(0);
        proof {
            parser.lexer.lemma_within();
            let s = input@;
            assert(tok(s, 1) == scan(s, tok(s, 0).2));
        }
        parser
    }

    /// Shifts `next` into `cur` and reads a new `next`.
    pub fn eat_token(&mut self)
        requires
            old(self).lexer.wf(),
        ensures
            final(self).lexer.wf(),
            final(self).at@ == old(self).at@ + 1,
            old(self).wf() ==> final(self).wf(),
            final(self).lexer.chars() == old(self).lexer.chars(),
            final(self).cur == old(self).next,
            (final(self).next.kind, final(self).next.literal@, final(self).lexer.pos()) == scan(
                old(self).lexer.chars(),
                old(self).lexer.pos(),
            ),
            final(self).measure() <= old(self).measure(),
            old(self).cur.kind != TokenKind::Eof ==> final(self).measure() < old(self).measure(),
    {
        proof {
            self.lexer.lemma_within();
        }
        let token = self.lexer.next_token();
        proof {
            self.lexer.lemma_within();
        }
        std::mem::swap(&mut self.cur, &mut self.next);
        self.next = token;
        self.at = Ghost(self.at@ + 1);
        proof {
            let s = self.lexer.chars();
            assert(tok(s, self.at@ + 1) == scan(s, tok(s, self.at@).2));
        }
    }

    /// Consumes the next token if it has the given kind, and fails otherwise.
    pub fn expect_token(&mut self, token_kind: TokenKind) -> (r: Result<Token, ParserError>)
        requires
            old(self).wf(),
        ensures
            final(self).kept(old(self)),
            final(self).measure() <= old(self).measure(),
            old(self).next.kind == token_kind <==> r is Ok,
            expect_at(old(self).lexer.chars(), old(self).at@, token_kind) == (
                final(self).at@,
                match r {
                    Ok(_) => Ok::<(), PFail>(()),
                    Err(e) => Err(pfail_of(e)),
                },
            ),
            match r {
                Ok(t) => {
                    &&& t == old(self).next
                    &&& final(self).cur == old(self).next
                    &&& old(self).cur.kind != TokenKind::Eof ==> final(self).measure() < old(
                        self,
                    ).measure()
                },
                Err(e) => {
                    &&& e == ParserError::UnexpectedToken(old(self).next)
                    &&& *final(self) == *old(self)
                },
            },
    {
        if self.next.kind != token_kind {
            return Err(ParserError::UnexpectedToken(self.next.duplicate()));
        }
        self.eat_token();
        Ok(self.cur.duplicate())
    }

    fn infix_precedence(op: &TokenKind) -> (r: Option<Precedence>)
        ensures
            match r {
                Some(Precedence::Infix(l, rp)) => infix_binding(*op) == Some((l, rp)),
                None => infix_binding(*op) is None,
                _ => false,
            },
    {
        match op {
            TokenKind::AndAnd | TokenKind::OrOr => Some(Precedence::Infix(0, 1)),
            TokenKind::Equal | TokenKind::NotEqual => Some(Precedence::Infix(1, 2)),
            TokenKind::LessThan
            | TokenKind::GreaterThan
            | TokenKind::LessThanEqual
            | TokenKind::GreaterThanEqual => Some(Precedence::Infix(3, 4)),
            TokenKind::Plus | TokenKind::Minus => Some(Precedence::Infix(5, 6)),
            TokenKind::Asterisk | TokenKind::Slash | TokenKind::Percentage => Some(
                Precedence::Infix(6, 7),
            ),
            _ => None,
        }
    }

    fn postfix_precedence(op: &TokenKind) -> (r: Option<Precedence>)
        ensures
            match r {
                Some(Precedence::Postfix(p)) => postfix_binding(*op) == Some(p),
                None => postfix_binding(*op) is None,
                _ => false,
            },
    {
        match op {
            TokenKind::LeftSquare | TokenKind::LeftParen => Some(Precedence::Postfix(8)),
            _ => None,
        }
    }

    fn prefix_precedence(op: &TokenKind) -> (r: Option<Precedence>)
        ensures
            match r {
                Some(Precedence::Prefix(p)) => prefix_binding(*op) == Some(p),
                None => prefix_binding(*op) is None,
                _ => false,
            },
    {
        match op {
            TokenKind::Bang | TokenKind::Minus => Some(Precedence::Prefix(9)),
            _ => None,
        }
    }

    pub fn parse_program(&mut self) -> (r: Result<Program, ParserError>)
        requires
            old(self).wf(),
        ensures
            final(self).kept(old(self)),
            follows(prog_res(r), final(self).at@, p_program(old(self).lexer.chars(), old(self).at@)),
            r matches Ok(p) ==> forall|i: int| 0 <= i < p.0@.len() ==> stmt_ok(#[trigger] p.0@[i]),
    {
        let ghost s0 = self.lexer.chars();
        let mut statements: Vec<Statement> = Vec::new();
        assert(stmt_models(statements@) =~= Seq::<StmtM>::empty());
        while self.cur.kind != TokenKind::Eof
            invariant
                s0 == old(self).lexer.chars(),
                p_program(s0, old(self).at@) == p_statements(
                    s0,
                    self.at@,
                    TokenKind::Eof,
                    stmt_models(statements@),
                ),
                self.wf(),
                self.lexer.chars() == old(self).lexer.chars(),
                forall|i: int| 0 <= i < statements@.len() ==> stmt_ok(#[trigger] statements@[i]),
            decreases self.measure(),
        {
            let statement = self.parse_statement()?;
            let ghost acc = stmt_models(statements@);
            statements.push(statement);
            assert(stmt_models(statements@) =~= acc.push(statement.model()));
            self.eat_token();
        }
        Ok(Program(statements))
    }

    pub fn parse_statement(&mut self) -> (r: Result<Statement, ParserError>)
        requires
            old(self).wf(),
        ensures
            final(self).kept(old(self)),
            follows(s_res(r), final(self).at@, p_stmt(old(self).lexer.chars(), old(self).at@)),
            r matches Ok(s) ==> stmt_ok(s) && final(self).advanced(old(self)),
        decreases old(self).measure(), 10nat,
    {
        match self.cur.kind {
            TokenKind::Let => self.parse_var_statement(),
            TokenKind::Return => self.parse_return_statement(),
            TokenKind::LeftBrace => self.parse_block_statement(),
            TokenKind::Identifier => {
                if self.next.kind == TokenKind::Assign {
                    self.parse_assign_statement()
                } else {
                    self.parse_expression_statement()
                }
            },
            _ => self.parse_expression_statement(),
        }
    }

    /// `let` IDENT `=` expression `;`, with `let` the current token.
    pub fn parse_var_statement(&mut self) -> (r: Result<Statement, ParserError>)
        requires
            old(self).wf(),
            old(self).cur.kind != TokenKind::Eof,
        ensures
            final(self).kept(old(self)),
            follows(s_res(r), final(self).at@, p_var(old(self).lexer.chars(), old(self).at@)),
            r matches Ok(s) ==> stmt_ok(s) && final(self).advanced(old(self)),
        decreases old(self).measure(), 9nat,
    {
        let kind = self.cur.kind;
        let name = self.expect_token(TokenKind::Identifier)?;
        self.expect_token(TokenKind::Assign)?;
        let value = self.parse_expression(0, false)?;
        self.expect_token(TokenKind::Semicolon)?;
        Ok(Statement::VarStatement { kind, name: name.literal, value })
    }

    /// IDENT `=` expression `;`, with the name the current token.
    pub fn parse_assign_statement(&mut self) -> (r: Result<Statement, ParserError>)
        requires
            old(self).wf(),
            old(self).cur.kind != TokenKind::Eof,
        ensures
            final(self).kept(old(self)),
            follows(s_res(r), final(self).at@, p_assign(old(self).lexer.chars(), old(self).at@)),
            r matches Ok(s) ==> stmt_ok(s) && final(self).advanced(old(self)),
        decreases old(self).measure(), 9nat,
    {
        let name = self.cur.literal.clone();
        self.expect_token(TokenKind::Assign)?;
        let value = self.parse_expression(0, false)?;
        self.expect_token(TokenKind::Semicolon)?;
        Ok(Statement::AssignStatement { name, value })
    }

    /// `return` expression `;`, with `return` the current token.
    pub fn parse_return_statement(&mut self) -> (r: Result<Statement, ParserError>)
        requires
            old(self).wf(),
            old(self).cur.kind != TokenKind::Eof,
        ensures
            final(self).kept(old(self)),
            follows(s_res(r), final(self).at@, p_ret(old(self).lexer.chars(), old(self).at@)),
            r matches Ok(s) ==> stmt_ok(s) && final(self).advanced(old(self)),
        decreases old(self).measure(), 9nat,
    {
        let expr = self.parse_expression(0, false)?;
        self.expect_token(TokenKind::Semicolon)?;
        Ok(Statement::ReturnStatement(expr))
    }

    /// Statements up to the matching `}`, with `{` the current token.
    pub fn parse_block_statement(&mut self) -> (r: Result<Statement, ParserError>)
        requires
            old(self).wf(),
            old(self).cur.kind != TokenKind::Eof,
        ensures
            final(self).kept(old(self)),
            follows(s_res(r), final(self).at@, p_block(old(self).lexer.chars(), old(self).at@)),
            r matches Ok(s) ==> stmt_ok(s) && s is BlockStatement && final(self).advanced(
                old(self),
            ),
        decreases old(self).measure(), 9nat,
    {
        let ghost s0 = self.lexer.chars();
        self.eat_token();
        let mut statements: Vec<Statement> = Vec::new();
        assert(stmt_models(statements@) =~= Seq::<StmtM>::empty());
        while self.cur.kind != TokenKind::RightBrace
            invariant
                s0 == old(self).lexer.chars(),
                fewer(s0, old(self).at@ + 1, old(self).at@),
                p_statements(s0, old(self).at@ + 1, TokenKind::RightBrace, Seq::empty())
                    == p_statements(s0, self.at@, TokenKind::RightBrace, stmt_models(statements@)),
                self.wf(),
                self.lexer.chars() == old(self).lexer.chars(),
                self.measure() < old(self).measure(),
                forall|i: int| 0 <= i < statements@.len() ==> stmt_ok(#[trigger] statements@[i]),
            decreases self.measure(),
        {
            let statement = self.parse_statement()?;
            let ghost acc = stmt_models(statements@);
            statements.push(statement);
            assert(stmt_models(statements@) =~= acc.push(statement.model()));
            self.eat_token();
        }
        proof {
            lemma_block_models(statements);
        }
        let r = Statement::BlockStatement(statements);
        assert(stmt_ok(r));
        Ok(r)
    }

    /// An expression, then an optional `;`.
    pub fn parse_expression_statement(&mut self) -> (r: Result<Statement, ParserError>)
        requires
            old(self).wf(),
        ensures
            final(self).kept(old(self)),
            follows(s_res(r), final(self).at@, p_expr_stmt(old(self).lexer.chars(), old(self).at@)),
            r matches Ok(s) ==> stmt_ok(s) && final(self).advanced(old(self)),
        decreases old(self).measure(), 9nat,
    {
        let expr = self.parse_expression(0, true)?;
        // the semicolon is optional
        if self.next.kind == TokenKind::Semicolon {
            self.eat_token();
        }
        Ok(Statement::ExpressionStatement(expr))
    }

    /// Expression parsing by precedence climbing. `min_prec` is the weakest binding
    /// power an operator may have to extend the expression; `skip_eating` starts at the
    /// current token instead of the next one.
    #[verifier::rlimit(100)]
    pub fn parse_expression(&mut self, min_prec: u8, skip_eating: bool) -> (r: Result<
        Expression,
        ParserError,
    >)
        requires
            old(self).wf(),
            !skip_eating ==> old(self).cur.kind != TokenKind::Eof,
        ensures
            final(self).kept(old(self)),
            follows(
                e_res(r),
                final(self).at@,
                p_expr(old(self).lexer.chars(), old(self).at@, min_prec, skip_eating),
            ),
            r matches Ok(e) ==> {
                &&& expr_ok(e)
                &&& binds_within(e, min_prec)
                &&& left_power(final(self).next.kind) < min_prec
                &&& final(self).advanced(old(self))
                &&& !skip_eating ==> final(self).measure() < old(self).measure()
            },
        decreases old(self).measure(), if skip_eating {
            7nat
        } else {
            4nat
        },
    {
        let ghost s0 = self.lexer.chars();
        let ghost k0 = self.at@;
        if !skip_eating {
            self.eat_token();
        }
        let ghost entry = self.measure();
        let ghost k1 = self.at@;
        let mut expr = self.parse_prefix()?;
        assert(left_power(self.next.kind) <= 8);
        assert(p_expr(s0, k0, min_prec, skip_eating) == p_loop(s0, self.at@, min_prec, expr.model()));
        loop
            invariant
                s0 == self.lexer.chars(),
                s0 == old(self).lexer.chars(),
                k0 == old(self).at@,
                p_expr(s0, k0, min_prec, skip_eating) == p_loop(s0, self.at@, min_prec, expr.model()),
                self.wf(),
                self.measure() <= entry,
                entry <= old(self).measure(),
                !skip_eating ==> entry < old(self).measure(),
                self.cur.kind != TokenKind::Eof,
                expr_ok(expr),
                binds_within(expr, min_prec),
                left_power(self.next.kind) <= binding_power(expr),
            ensures
                left_power(self.next.kind) < min_prec,
                p_expr(s0, k0, min_prec, skip_eating) == (self.at@, Ok::<ExprM, PFail>(expr.model())),
            decreases self.measure(),
        {
            if let Some(Precedence::Postfix(postfix_prec)) = Self::postfix_precedence(
                &self.next.kind,
            ) {
                if postfix_prec < min_prec {
                    break;
                }
                self.eat_token();
                if self.cur.kind == TokenKind::LeftSquare {
                    if self.next.kind == TokenKind::RightSquare {
                        return Err(
                            ParserError::SyntaxError(
                                String::from_str(
                                    "Define a valid index to access this structure (e.g. array[0]).",
                                ),
                            ),
                        );
                    }
                    let index = self.parse_expression(0, false)?;
                    self.expect_token(TokenKind::RightSquare)?;
                    expr = Expression::IndexExpression {
                        value: Box::new(expr),
                        index: Box::new(index),
                    };
                } else {
                    expr = self.parse_call_expression(expr)?;
                }
                continue;
            }
            if let Some(Precedence::Infix(left_prec, right_prec)) = Self::infix_precedence(
                &self.next.kind,
            ) {
                if left_prec < min_prec {
                    break;
                }
                self.eat_token();
                let operator = self.cur.kind;
                let right = self.parse_expression(right_prec, false)?;
                expr = Expression::BinaryExpression {
                    left: Box::new(expr),
                    operator,
                    right: Box::new(right),
                };
                continue;
            }
            break;
        }
        Ok(expr)
    }

    /// The operand that starts at the current token.
    #[verifier::rlimit(100)]
    pub fn parse_prefix(&mut self) -> (r: Result<Expression, ParserError>)
        requires
            old(self).wf(),
        ensures
            final(self).kept(old(self)),
            follows(e_res(r), final(self).at@, p_prefix(old(self).lexer.chars(), old(self).at@)),
            r matches Ok(e) ==> {
                &&& expr_ok(e)
                &&& binding_power(e) >= 9
                &&& final(self).advanced(old(self))
            },
        decreases old(self).measure(), 6nat,
    {
        let expr = match self.cur.kind {
            TokenKind::Integer => match parse_numeral(self.cur.literal.as_str()) {
                Some(n) => Expression::IntegerLiteral(n),
                None => {
                    return Err(ParserError::IntConversionError(self.cur.literal.clone()));
                },
            },
            TokenKind::True => Expression::BooleanLiteral(true),
            TokenKind::False => Expression::BooleanLiteral(false),
            TokenKind::String => Expression::StringLiteral(self.cur.literal.clone()),
            TokenKind::Identifier => Expression::Identifier(self.cur.literal.clone()),
            TokenKind::LeftSquare => {
                let elements = self.parse_expression_list(TokenKind::RightSquare)?;
                proof {
                    lemma_list_models(elements);
                }
                Expression::ArrayLiteral(elements)
            },
            TokenKind::LeftBrace => self.parse_map_literal()?,
            TokenKind::LeftParen => self.parse_grouped_expression()?,
            TokenKind::Bang | TokenKind::Minus => self.parse_unary_expression()?,
            TokenKind::If => self.parse_if_expression()?,
            TokenKind::Function => self.parse_function_expression()?,
            _ => {
                return Err(ParserError::UnexpectedToken(self.cur.duplicate()));
            },
        };
        Ok(expr)
    }

    /// The argument list of a call whose callee is `path`, with `(` the current token.
    pub fn parse_call_expression(&mut self, path: Expression) -> (r: Result<
        Expression,
        ParserError,
    >)
        requires
            old(self).wf(),
            old(self).cur.kind != TokenKind::Eof,
            expr_ok(path),
            binding_power(path) >= 8,
        ensures
            final(self).kept(old(self)),
            follows(e_res(r), final(self).at@, p_call(old(self).lexer.chars(), old(self).at@, path.model())),
            r matches Ok(e) ==> expr_ok(e) && e is CallExpression && final(self).advanced(
                old(self),
            ),
        decreases old(self).measure(), 6nat,
    {
        let arguments = self.parse_expression_list(TokenKind::RightParen)?;
        let callee = Box::new(path);
        proof {
            lemma_call_models(callee, arguments);
        }
        Ok(Expression::CallExpression { path: callee, arguments })
    }

    /// A parenthesised expression, with `(` the current token.
    pub fn parse_grouped_expression(&mut self) -> (r: Result<Expression, ParserError>)
        requires
            old(self).wf(),
            old(self).cur.kind != TokenKind::Eof,
        ensures
            final(self).kept(old(self)),
            follows(e_res(r), final(self).at@, p_grouped(old(self).lexer.chars(), old(self).at@)),
            r matches Ok(e) ==> expr_ok(e) && e is GroupedExpression && final(self).advanced(
                old(self),
            ),
        decreases old(self).measure(), 5nat,
    {
        self.eat_token();
        if self.cur.kind == TokenKind::RightParen {
            return Err(
                ParserError::SyntaxError(
                    String::from_str("Empty grouped expression '()' isn't allowed"),
                ),
            );
        }
        let inner = self.parse_expression(0, true)?;
        self.expect_token(TokenKind::RightParen)?;
        Ok(Expression::GroupedExpression(Box::new(inner)))
    }

    /// Comma separated expressions up to `end`, with the opening bracket the current
    /// token. A trailing comma before `end` is allowed.
    fn parse_expression_list(&mut self, end: TokenKind) -> (r: Result<
        Vec<Expression>,
        ParserError,
    >)
        requires
            old(self).wf(),
            old(self).cur.kind != TokenKind::Eof,
            end != TokenKind::Eof,
        ensures
            final(self).kept(old(self)),
            follows(
                l_res(r),
                final(self).at@,
                p_list(old(self).lexer.chars(), old(self).at@, end, Seq::empty()),
            ),
            r matches Ok(v) ==> final(self).advanced(old(self)) && forall|i: int|
                0 <= i < v@.len() ==> expr_ok(#[trigger] v@[i]),
        decreases old(self).measure(), 5nat,
    {
        let ghost s0 = self.lexer.chars();
        let mut expressions: Vec<Expression> = Vec::new();
        assert(expr_models(expressions@) =~= Seq::<ExprM>::empty());
        while self.next.kind != end
            invariant
                s0 == self.lexer.chars(),
                s0 == old(self).lexer.chars(),
                p_list(s0, old(self).at@, end, Seq::empty()) == p_list(
                    s0,
                    self.at@,
                    end,
                    expr_models(expressions@),
                ),
                self.wf(),
                self.measure() <= old(self).measure(),
                self.cur.kind != TokenKind::Eof,
                forall|i: int| 0 <= i < expressions@.len() ==> expr_ok(#[trigger] expressions@[i]),
            decreases self.measure(),
        {
            let expr = self.parse_expression(0, false)?;
            let ghost acc = expr_models(expressions@);
            expressions.push(expr);
            assert(expr_models(expressions@) =~= acc.push(expr.model()));
            if self.next.kind == TokenKind::Comma {
                self.eat_token();
            } else if self.next.kind != end {
                return Err(
                    ParserError::SyntaxError(String::from_str("Expected comma between arguments")),
                );
            }
        }
        self.expect_token(end)?;
        Ok(expressions)
    }

    /// A map literal `{ "key": value, ... }`, with `{` the current token. A key written
    /// twice keeps its first place and takes its last value.
    pub fn parse_map_literal(&mut self) -> (r: Result<Expression, ParserError>)
        requires
            old(self).wf(),
            old(self).cur.kind != TokenKind::Eof,
        ensures
            final(self).kept(old(self)),
            follows(e_res(r), final(self).at@, p_expr_map(old(self).lexer.chars(), old(self).at@)),
            r matches Ok(e) ==> expr_ok(e) && e is MapLiteral && final(self).advanced(old(self)),
        decreases old(self).measure(), 5nat,
    {
        let ghost s0 = self.lexer.chars();
        let mut entries: Vec<(String, Expression)> = Vec::new();
        assert(entry_exprs(entries@) =~= Seq::<(Seq<char>, ExprM)>::empty());
        while self.next.kind != TokenKind::RightBrace
            invariant
                s0 == old(self).lexer.chars(),
                p_map(s0, old(self).at@, Seq::empty()) == p_map(s0, self.at@, entry_exprs(entries@)),
                self.wf(),
                self.lexer.chars() == old(self).lexer.chars(),
                self.measure() <= old(self).measure(),
                self.cur.kind != TokenKind::Eof,
                keys_unique(entries@),
                forall|i: int| 0 <= i < entries@.len() ==> expr_ok(#[trigger] entries@[i].1),
            decreases self.measure(),
        {
            let key = self.expect_token(TokenKind::String)?;
            self.expect_token(TokenKind::Colon)?;
            let value = self.parse_expression(0, false)?;
            let ghost acc = entry_exprs(entries@);
            let ghost pair = (key.literal@, value.model());
            let mut k: usize = 0;
            while k < entries.len()
                invariant
                    k <= entries@.len(),
                    forall|j: int| 0 <= j < k ==> entries@[j].0@ != key.literal@,
                ensures
                    k <= entries@.len(),
                    forall|j: int| 0 <= j < k ==> entries@[j].0@ != key.literal@,
                    k < entries@.len() ==> entries@[k as int].0@ == key.literal@,
                decreases entries@.len() - k,
            {
                if entries[k].0 == key.literal {
                    break;
                }
                k += 1;
            }
            if k < entries.len() {
                let ghost before = entries@;
                entries.set(k, (key.literal, value));
                assert(keys_unique(entries@)) by {
                    assert forall|i: int, j: int| 0 <= i < j < entries@.len() implies entries@[i].0@
                        != entries@[j].0@ by {
                        assert(before[i].0@ != before[j].0@);
                    }
                }
                proof {
                    assert(acc[k as int].0 == pair.0);
                    assert forall|j: int| 0 <= j < k implies (#[trigger] acc[j]).0 != pair.0 by {
                        assert(acc[j].0 == before[j].0@);
                    }
                    lemma_upsert_at(acc, pair.0, pair.1, k as int);
                    assert(entry_exprs(entries@) =~= acc.update(k as int, pair));
                }
            } else {
                proof {
                    assert forall|j: int| 0 <= j < acc.len() implies (#[trigger] acc[j]).0 != pair.0 by {
                        assert(acc[j].0 == entries@[j].0@);
                    }
                    lemma_upsert_end(acc, pair.0, pair.1);
                }
                entries.push((key.literal, value));
                assert(entry_exprs(entries@) =~= acc.push(pair));
            }
            if self.next.kind == TokenKind::Comma {
                self.eat_token();
            } else if self.next.kind != TokenKind::RightBrace {
                return Err(
                    ParserError::SyntaxError(String::from_str("Expected comma between map entries")),
                );
            }
        }
        self.expect_token(TokenKind::RightBrace)?;
        proof {
            lemma_entry_models(entries);
        }
        Ok(Expression::MapLiteral(entries))
    }

    /// `!` or `-` applied to what follows, with the operator the current token.
    pub fn parse_unary_expression(&mut self) -> (r: Result<Expression, ParserError>)
        requires
            old(self).wf(),
            prefix_binding(old(self).cur.kind) is Some,
        ensures
            final(self).kept(old(self)),
            follows(e_res(r), final(self).at@, p_unary(old(self).lexer.chars(), old(self).at@)),
            r matches Ok(e) ==> expr_ok(e) && e is UnaryExpression && final(self).advanced(
                old(self),
            ),
        decreases old(self).measure(), 5nat,
    {
        let operator = self.cur.kind;
        let prefix_prec = match Self::prefix_precedence(&self.cur.kind) {
            Some(Precedence::Prefix(p)) => p,
            _ => 9,
        };
        let value = self.parse_expression(prefix_prec, false)?;
        Ok(Expression::UnaryExpression { operator, value: Box::new(value) })
    }

    /// `if` condition `{ ... }`, optionally followed by `else { ... }`, with `if` the
    /// current token.
    pub fn parse_if_expression(&mut self) -> (r: Result<Expression, ParserError>)
        requires
            old(self).wf(),
            old(self).cur.kind != TokenKind::Eof,
        ensures
            final(self).kept(old(self)),
            follows(e_res(r), final(self).at@, p_if(old(self).lexer.chars(), old(self).at@)),
            r matches Ok(e) ==> expr_ok(e) && e is IfExpression && final(self).advanced(
                old(self),
            ),
        decreases old(self).measure(), 5nat,
    {
        let condition = self.parse_expression(0, false)?;
        self.expect_token(TokenKind::LeftBrace)?;
        let consequence = self.parse_block_statement()?;
        let alternative = if self.next.kind == TokenKind::Else {
            self.eat_token();
            self.expect_token(TokenKind::LeftBrace)?;
            let alt = self.parse_block_statement()?;
            Some(Box::new(alt))
        } else {
            None
        };
        Ok(
            Expression::IfExpression {
                condition: Box::new(condition),
                consequence: Box::new(consequence),
                alternative,
            },
        )
    }

    /// `fn (` names `) { ... }`, with `fn` the current token.
    #[verifier::rlimit(100)]
    pub fn parse_function_expression(&mut self) -> (r: Result<Expression, ParserError>)
        requires
            old(self).wf(),
            old(self).cur.kind != TokenKind::Eof,
        ensures
            final(self).kept(old(self)),
            follows(e_res(r), final(self).at@, p_fn(old(self).lexer.chars(), old(self).at@)),
            r matches Ok(e) ==> expr_ok(e) && e is FunctionExpression && final(self).advanced(
                old(self),
            ),
        decreases old(self).measure(), 5nat,
    {
        let ghost s0 = self.lexer.chars();
        self.expect_token(TokenKind::LeftParen)?;
        let ghost k1 = self.at@;
        let mut parameters: Vec<String> = Vec::new();
        assert(names_view(parameters@) =~= Seq::<Seq<char>>::empty());
        while self.next.kind != TokenKind::RightParen
            invariant
                s0 == old(self).lexer.chars(),
                k1 == old(self).at@ + 1,
                fewer(s0, k1, old(self).at@),
                expect_at(s0, old(self).at@, TokenKind::LeftParen) == (k1, Ok::<(), PFail>(())),
                p_params(s0, k1, Seq::empty()) == p_params(s0, self.at@, names_view(parameters@)),
                self.wf(),
                self.lexer.chars() == old(self).lexer.chars(),
                self.measure() < old(self).measure(),
                self.cur.kind != TokenKind::Eof,
            decreases self.measure(),
        {
            let name = self.expect_token(TokenKind::Identifier)?;
            let ghost acc = names_view(parameters@);
            let ghost n = name.literal@;
            parameters.push(name.literal);
            assert(names_view(parameters@) =~= acc.push(n));
            if self.next.kind == TokenKind::Comma {
                self.eat_token();
            } else if self.next.kind != TokenKind::RightParen {
                return Err(
                    ParserError::SyntaxError(String::from_str("Expected comma between parameters")),
                );
            }
        }
        self.expect_token(TokenKind::RightParen)?;
        self.expect_token(TokenKind::LeftBrace)?;
        let body = self.parse_block_statement()?;
        Ok(Expression::FunctionExpression { parameters: Rc::new(parameters), body: Rc::new(body) })
    }
}

} // verus!
