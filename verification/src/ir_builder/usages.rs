//! How often a name is used in a function body, as the rewriting of
//! return variables counts it.
use vstd::prelude::*;
use crate::ast::{BinaryOp, CommentedStatement, Expression, Statement, TypedParameter, UnaryOp};
use crate::text::{chars_equal, chars_of};

verus! {

/// The binary operators whose operands are searched.
pub open spec fn counted_binary(op: BinaryOp) -> bool {
    match op {
        BinaryOp::Assign | BinaryOp::Add | BinaryOp::Subtract | BinaryOp::Multiply | BinaryOp::Divide
        | BinaryOp::Modulo | BinaryOp::Equal | BinaryOp::NotEqual | BinaryOp::Less | BinaryOp::LessEqual
        | BinaryOp::More | BinaryOp::MoreEqual | BinaryOp::And | BinaryOp::Or | BinaryOp::BitwiseAnd
        | BinaryOp::BitwiseOr | BinaryOp::BitwiseXor | BinaryOp::ShiftLeft | BinaryOp::ShiftRight => true,
        _ => false,
    }
}

/// The unary operators whose operand is searched.
pub open spec fn counted_unary(op: UnaryOp) -> bool {
    !(op is New) && !(op is Delete)
}

/// How often the name `n` occurs in `e`: as a name, in the operands of the
/// counted operators, in subscripts, member bases, calls, conditionals,
/// parentheses and the types of list slots.
pub open spec fn expr_uses(e: Expression, n: Seq<char>) -> nat
    decreases e,
{
    match e {
        Expression::Variable(v) => if v@ == n {
            1
        } else {
            0
        },
        Expression::Binary(op, a, b) => if counted_binary(op) {
            expr_uses(*a, n) + expr_uses(*b, n)
        } else {
            0
        },
        Expression::ArraySubscript(a, i) => expr_uses(*a, n) + match i {
            Some(x) => expr_uses(*x, n),
            None => 0,
        },
        Expression::MemberAccess(b, _) => expr_uses(*b, n),
        Expression::FunctionCall(f, args) => expr_uses(*f, n) + exprs_uses(args@, n),
        Expression::Unary(op, x) => if counted_unary(op) {
            expr_uses(*x, n)
        } else {
            0
        },
        Expression::Parenthesis(x) => expr_uses(*x, n),
        Expression::ConditionalOperator(c, t, f) => expr_uses(*c, n) + expr_uses(*t, n) + expr_uses(*f, n),
        Expression::List(ps) => slots_uses(ps@, n),
        _ => 0,
    }
}

/// The occurrences of `n` in a sequence of expressions.
pub open spec fn exprs_uses(s: Seq<Expression>, n: Seq<char>) -> nat
    decreases s,
{
    if s.len() == 0 {
        0
    } else {
        exprs_uses(s.drop_last(), n) + expr_uses(s.last(), n)
    }
}

/// The occurrences of `n` in the types of list slots.
pub open spec fn slots_uses(s: Seq<Option<TypedParameter>>, n: Seq<char>) -> nat
    decreases s,
{
    if s.len() == 0 {
        0
    } else {
        slots_uses(s.drop_last(), n) + match s.last() {
            Some(p) => expr_uses(p.ty, n),
            None => 0,
        }
    }
}

/// The occurrences of `n` in a statement: in expression statements,
/// initializers, conditions, loops and returns (a block's statements are
/// counted through the collected statements).
pub open spec fn stmt_uses(s: Statement, n: Seq<char>) -> nat
    decreases s,
{
    match s {
        Statement::Expression(e) => expr_uses(e, n),
        Statement::VariableDefinition(_, init) => match init {
            Some(x) => expr_uses(x, n),
            None => 0,
        },
        Statement::If(c, t, e) => expr_uses(c, n) + stmt_uses(*t, n) + match e {
            Some(x) => stmt_uses(*x, n),
            None => 0,
        },
        Statement::While(c, b) => expr_uses(c, n) + stmt_uses(*b, n),
        Statement::DoWhile(b, c) => stmt_uses(*b, n) + expr_uses(c, n),
        Statement::For(init, c, u, b) => (match init {
            Some(x) => stmt_uses(*x, n),
            None => 0,
        }) + (match c {
            Some(x) => expr_uses(x, n),
            None => 0,
        }) + (match u {
            Some(x) => expr_uses(x, n),
            None => 0,
        }) + (match b {
            Some(x) => stmt_uses(*x, n),
            None => 0,
        }),
        Statement::Return(v) => match v {
            Some(x) => expr_uses(x, n),
            None => 0,
        },
        _ => 0,
    }
}

/// The occurrences of `n` in commented statements and the statements
/// collected under them.
pub open spec fn cstmts_uses(ss: Seq<CommentedStatement>, n: Seq<char>) -> nat
    decreases ss,
{
    if ss.len() == 0 {
        0
    } else {
        cstmts_uses(ss.drop_last(), n) + stmt_uses(ss.last().statement, n) + match ss.last().nested_statements {
            Some(m) => cstmts_uses(m@, n),
            None => 0,
        }
    }
}

/// A count, capped at two.
pub open spec fn capped(x: nat) -> nat {
    if x > 2 {
        2
    } else {
        x
    }
}

/// The capped sum of two capped counts.
fn add_capped(a: usize, b: usize) -> (r: usize)
    requires
        a <= 2,
        b <= 2,
    ensures
        r == capped((a + b) as nat),
{
    if a + b > 2 {
        2
    } else {
        a + b
    }
}

/// How often `name` occurs in an expression, counted up to two.
pub fn count_usages_in_expression(expr: &Expression, name: &str) -> (c: usize)
    ensures
        c == capped(expr_uses(*expr, name@)),
    decreases *expr,
{
    match expr {
        Expression::Variable(v) => {
            if chars_equal(chars_of(v.as_str()).as_slice(), chars_of(name).as_slice()) {
                1
            } else {
                0
            }
        },
        Expression::Binary(op, a, b) => {
            if counted_binary_op(*op) {
                let x = count_usages_in_expression(&**a, name);
                let y = count_usages_in_expression(&**b, name);
                add_capped(x, y)
            } else {
                0
            }
        },
        Expression::ArraySubscript(a, i) => {
            let x = count_usages_in_expression(&**a, name);
            match i {
                Some(j) => {
                    let y = count_usages_in_expression(&**j, name);
                    add_capped(x, y)
                },
                None => x,
            }
        },
        Expression::MemberAccess(b, _) => count_usages_in_expression(&**b, name),
        Expression::FunctionCall(f, args) => {
            let x = count_usages_in_expression(&**f, name);
            let y = count_usages_in_expressions(args, name);
            add_capped(x, y)
        },
        Expression::Unary(op, x) => {
            match op {
                UnaryOp::New | UnaryOp::Delete => 0,
                _ => count_usages_in_expression(&**x, name),
            }
        },
        Expression::Parenthesis(x) => count_usages_in_expression(&**x, name),
        Expression::ConditionalOperator(c, t, f) => {
            let x = count_usages_in_expression(&**c, name);
            let y = count_usages_in_expression(&**t, name);
            let z = count_usages_in_expression(&**f, name);
            let xy = add_capped(x, y);
            add_capped(xy, z)
        },
        Expression::List(ps) => count_usages_in_slots(ps, name),
        _ => 0,
    }
}

/// Whether a binary operator's operands are searched.
fn counted_binary_op(op: BinaryOp) -> (b: bool)
    ensures
        b == counted_binary(op),
{
    match op {
        BinaryOp::Assign | BinaryOp::Add | BinaryOp::Subtract | BinaryOp::Multiply | BinaryOp::Divide
        | BinaryOp::Modulo | BinaryOp::Equal | BinaryOp::NotEqual | BinaryOp::Less | BinaryOp::LessEqual
        | BinaryOp::More | BinaryOp::MoreEqual | BinaryOp::And | BinaryOp::Or | BinaryOp::BitwiseAnd
        | BinaryOp::BitwiseOr | BinaryOp::BitwiseXor | BinaryOp::ShiftLeft | BinaryOp::ShiftRight => true,
        _ => false,
    }
}

/// How often `name` occurs in expressions, counted up to two.
fn count_usages_in_expressions(es: &Vec<Expression>, name: &str) -> (c: usize)
    ensures
        c == capped(exprs_uses(es@, name@)),
    decreases es@,
{
    let mut c: usize = 0;
    let mut i: usize = 0;
    assert(es@.take(0) =~= Seq::<Expression>::empty());
    while i < es.len()
        invariant
            i <= es@.len(),
            c == capped(exprs_uses(es@.take(i as int), name@)),
        decreases es@.len() - i,
    {
        assert(es@.take(i + 1).drop_last() =~= es@.take(i as int));
        assert(es@.take(i + 1).last() == es@[i as int]);
        let x = count_usages_in_expression(&es[i], name);
        c = add_capped(c, x);
        i = i + 1;
    }
    assert(es@.take(i as int) =~= es@);
    c
}

/// How often `name` occurs in the types of list slots, counted up to two.
fn count_usages_in_slots(ps: &Vec<Option<TypedParameter>>, name: &str) -> (c: usize)
    ensures
        c == capped(slots_uses(ps@, name@)),
    decreases ps@,
{
    let mut c: usize = 0;
    let mut i: usize = 0;
    assert(ps@.take(0) =~= Seq::<Option<TypedParameter>>::empty());
    while i < ps.len()
        invariant
            i <= ps@.len(),
            c == capped(slots_uses(ps@.take(i as int), name@)),
        decreases ps@.len() - i,
    {
        assert(ps@.take(i + 1).drop_last() =~= ps@.take(i as int));
        assert(ps@.take(i + 1).last() == ps@[i as int]);
        match &ps[i] {
            Some(p) => {
                let x = count_usages_in_expression(&p.ty, name);
                c = add_capped(c, x);
            },
            None => {},
        }
        i = i + 1;
    }
    assert(ps@.take(i as int) =~= ps@);
    c
}

/// How often `name` occurs in an optional expression, counted up to two.
fn count_in_opt(e: &Option<Expression>, name: &str) -> (c: usize)
    ensures
        c == capped(
            match *e {
                Some(x) => expr_uses(x, name@),
                None => 0,
            },
        ),
{
    match e {
        Some(x) => count_usages_in_expression(x, name),
        None => 0,
    }
}

/// How often `name` occurs in a statement, counted up to two.
pub fn count_usages_in_statement(stmt: &Statement, name: &str) -> (c: usize)
    ensures
        c == capped(stmt_uses(*stmt, name@)),
    decreases *stmt,
{
    match stmt {
        Statement::Expression(e) => count_usages_in_expression(e, name),
        Statement::VariableDefinition(_, init) => count_in_opt(init, name),
        Statement::If(c, t, e) => {
            let x = count_usages_in_expression(c, name);
            let y = count_usages_in_statement(&**t, name);
            let z = match e {
                Some(s) => count_usages_in_statement(&**s, name),
                None => 0,
            };
            let xy = add_capped(x, y);
            add_capped(xy, z)
        },
        Statement::While(c, b) => {
            let x = count_usages_in_expression(c, name);
            let y = count_usages_in_statement(&**b, name);
            add_capped(x, y)
        },
        Statement::DoWhile(b, c) => {
            let x = count_usages_in_statement(&**b, name);
            let y = count_usages_in_expression(c, name);
            add_capped(x, y)
        },
        Statement::For(init, c, u, b) => {
            let w = match init {
                Some(s) => count_usages_in_statement(&**s, name),
                None => 0,
            };
            let x = count_in_opt(c, name);
            let y = count_in_opt(u, name);
            let z = match b {
                Some(s) => count_usages_in_statement(&**s, name),
                None => 0,
            };
            let wx = add_capped(w, x);
            let wxy = add_capped(wx, y);
            add_capped(wxy, z)
        },
        Statement::Return(v) => count_in_opt(v, name),
        _ => 0,
    }
}

/// How often `name` occurs in commented statements and the statements
/// collected under them, counted up to two.
pub fn count_usages_in_statements(statements: &Vec<CommentedStatement>, name: &str) -> (c: usize)
    ensures
        c == capped(cstmts_uses(statements@, name@)),
    decreases statements@,
{
    let mut c: usize = 0;
    let mut i: usize = 0;
    assert(statements@.take(0) =~= Seq::<CommentedStatement>::empty());
    while i < statements.len()
        invariant
            i <= statements@.len(),
            c == capped(cstmts_uses(statements@.take(i as int), name@)),
        decreases statements@.len() - i,
    {
        assert(statements@.take(i + 1).drop_last() =~= statements@.take(i as int));
        assert(statements@.take(i + 1).last() == statements@[i as int]);
        let x = count_usages_in_statement(&statements[i].statement, name);
        let y = match &statements[i].nested_statements {
            Some(m) => count_usages_in_statements(m, name),
            None => 0,
        };
        let cx = add_capped(c, x);
        c = add_capped(cx, y);
        i = i + 1;
    }
    assert(statements@.take(i as int) =~= statements@);
    c
}

} // verus!
