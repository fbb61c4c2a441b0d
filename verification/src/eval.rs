//! The evaluator: a token sequence written in prefix or postfix order is
//! folded to a signed 32-bit integer, or rejected with a structured error.
//!
//! Addition, subtraction and multiplication wrap on overflow; division
//! truncates toward zero and wraps on the one overflowing quotient
//! (`i32::MIN / -1`). Dividing by zero is reported as its own error before
//! any division is performed.
use crate::token::{classify_token, is_op_char, spec_classify, TokenKind};
use vstd::prelude::*;
use vstd::wrapping::i32_specs;

verus! {

/// A token as handed in by the caller.
pub type Symbol = String;

/// An expression: an ordered, finite sequence of tokens.
pub type Expr = Vec<Symbol>;

/// The notation an expression is written in: operators first (prefix) or
/// operators last (postfix).
#[derive(Debug, PartialEq, Eq, Structural, Clone, Copy)]
pub enum Order {
    Pre,
    Post,
}

/// Why an expression was rejected.
#[derive(Debug, PartialEq, Eq)]
pub enum EvalError {
    /// Structural malformation: too few operands, leftover tokens, or empty
    /// input, under the order that was requested.
    InvalidSyntax(Order),
    /// A token that is neither an operator nor a parseable integer literal;
    /// carries the offending token's exact text.
    InvalidSymbol(String),
    /// A division whose right operand evaluated to zero.
    DividingByZero,
}

/// The mathematical shape of an [`EvalError`]: the offending token as a
/// sequence of characters rather than a `String`.
pub enum EvalErrorSpec {
    InvalidSyntax(Order),
    InvalidSymbol(Seq<char>),
    DividingByZero,
}

impl View for EvalError {
    type V = EvalErrorSpec;

    open spec fn view(&self) -> EvalErrorSpec {
        match self {
            EvalError::InvalidSyntax(o) => EvalErrorSpec::InvalidSyntax(*o),
            EvalError::InvalidSymbol(s) => EvalErrorSpec::InvalidSymbol(s@),
            EvalError::DividingByZero => EvalErrorSpec::DividingByZero,
        }
    }
}

/// A result as the specifications speak of it: the error replaced by its view.
pub open spec fn result_view<T>(r: Result<T, EvalError>) -> Result<T, EvalErrorSpec> {
    match r {
        Ok(v) => Ok(v),
        Err(e) => Err(e@),
    }
}

/// The quotient of `x` and `d` truncated toward zero, as Rust's `/` computes
/// it on signed integers.
pub open spec fn trunc_div_int(x: int, d: int) -> int
    recommends
        d != 0,
{
    if x == 0 {
        0
    } else if x > 0 && d > 0 {
        x / d
    } else if x < 0 && d < 0 {
        ((x * -1) / (d * -1))
    } else if x < 0 {
        ((x * -1) / d) * -1
    } else {
        (x / (d * -1)) * -1
    }
}

/// Truncating `i32` division that wraps on the one overflowing case,
/// `i32::MIN / -1`.
pub open spec fn div_wrap(l: i32, r: i32) -> i32
    recommends
        r != 0,
{
    let q = trunc_div_int(l as int, r as int);
    if q < i32::MIN || q > i32::MAX {
        i32::MIN
    } else {
        q as i32
    }
}

/// What one operator does to its two operands.
pub open spec fn apply_op(opr: char, l: i32, r: i32) -> i32
    recommends
        is_op_char(opr),
        opr == '/' ==> r != 0,
{
    if opr == '/' {
        div_wrap(l, r)
    } else if opr == '*' {
        i32_specs::wrapping_mul(l, r)
    } else if opr == '+' {
        i32_specs::wrapping_add(l, r)
    } else {
        i32_specs::wrapping_sub(l, r)
    }
}

/// One left-to-right pass of the postfix algorithm over the remaining tokens,
/// carrying the value stack. Returns the final stack, or the first error.
pub open spec fn post_eval_step(toks: Seq<Seq<char>>, stack: Seq<i32>) -> Result<
    Seq<i32>,
    EvalErrorSpec,
>
    decreases toks.len(),
{
    if toks.len() == 0 {
        Ok(stack)
    } else {
        match spec_classify(toks[0]) {
            TokenKind::Op(c) => {
                if stack.len() < 2 {
                    Err(EvalErrorSpec::InvalidSyntax(Order::Post))
                } else {
                    let r = stack.last();
                    let l = stack[stack.len() - 2];
                    if c == '/' && r == 0 {
                        Err(EvalErrorSpec::DividingByZero)
                    } else {
                        post_eval_step(
                            toks.skip(1),
                            stack.take(stack.len() - 2).push(apply_op(c, l, r)),
                        )
                    }
                }
            },
            TokenKind::Int(v) => post_eval_step(toks.skip(1), stack.push(v)),
            TokenKind::Bad => Err(EvalErrorSpec::InvalidSymbol(toks[0])),
        }
    }
}

/// The value of a postfix expression: the result of the stack pass when it
/// ends with exactly one value on the stack.
pub open spec fn spec_eval_post(toks: Seq<Seq<char>>) -> Result<i32, EvalErrorSpec> {
    match post_eval_step(toks, Seq::<i32>::empty()) {
        Ok(stack) => if stack.len() == 1 {
            Ok(stack[0])
        } else {
            Err(EvalErrorSpec::InvalidSyntax(Order::Post))
        },
        Err(e) => Err(e),
    }
}

/// One step of the prefix algorithm: read a token; an operator evaluates its
/// left operand, then its right operand, from the tokens that follow; a
/// literal is its own value. Returns the value and the tokens left over.
///
/// The `fuel` argument only bounds the recursion; any fuel of at least
/// `toks.len()` gives the same answer ([`lemma_pre_eval_rec_fuel`]), and
/// [`pre_eval_at`] fixes the canonical amount.
pub open spec fn pre_eval_rec(toks: Seq<Seq<char>>, fuel: nat) -> Result<
    (i32, Seq<Seq<char>>),
    EvalErrorSpec,
>
    decreases fuel,
{
    if toks.len() == 0 || fuel == 0 {
        Err(EvalErrorSpec::InvalidSyntax(Order::Pre))
    } else {
        let rest = toks.skip(1);
        match spec_classify(toks[0]) {
            TokenKind::Op(c) => match pre_eval_rec(rest, (fuel - 1) as nat) {
                Err(e) => Err(e),
                Ok((lv, rest1)) => match pre_eval_rec(rest1, (fuel - 1) as nat) {
                    Err(e) => Err(e),
                    Ok((rv, rest2)) => {
                        if c == '/' && rv == 0 {
                            Err(EvalErrorSpec::DividingByZero)
                        } else {
                            Ok((apply_op(c, lv, rv), rest2))
                        }
                    },
                },
            },
            TokenKind::Int(v) => Ok((v, rest)),
            TokenKind::Bad => Err(EvalErrorSpec::InvalidSymbol(toks[0])),
        }
    }
}

/// The prefix step with its canonical fuel.
pub open spec fn pre_eval_at(toks: Seq<Seq<char>>) -> Result<(i32, Seq<Seq<char>>), EvalErrorSpec> {
    pre_eval_rec(toks, toks.len())
}

/// A successful prefix step consumes at least one token.
pub proof fn lemma_pre_eval_rec_consumes(toks: Seq<Seq<char>>, fuel: nat)
    ensures
        pre_eval_rec(toks, fuel) matches Ok(p) ==> p.1.len() < toks.len(),
    decreases fuel,
{
    if toks.len() == 0 || fuel == 0 {
    } else {
        let rest = toks.skip(1);
        lemma_pre_eval_rec_consumes(rest, (fuel - 1) as nat);
        match pre_eval_rec(rest, (fuel - 1) as nat) {
            Ok((lv, rest1)) => {
                lemma_pre_eval_rec_consumes(rest1, (fuel - 1) as nat);
            },
            Err(_) => {},
        }
    }
}

/// Any fuel of at least `toks.len()` gives the prefix step the same answer.
pub proof fn lemma_pre_eval_rec_fuel(toks: Seq<Seq<char>>, f1: nat, f2: nat)
    requires
        f1 >= toks.len(),
        f2 >= toks.len(),
    ensures
        pre_eval_rec(toks, f1) == pre_eval_rec(toks, f2),
    decreases f1 + f2,
{
    if toks.len() == 0 {
    } else {
        let rest = toks.skip(1);
        lemma_pre_eval_rec_fuel(rest, (f1 - 1) as nat, (f2 - 1) as nat);
        match pre_eval_rec(rest, (f1 - 1) as nat) {
            Ok((lv, rest1)) => {
                lemma_pre_eval_rec_consumes(rest, (f1 - 1) as nat);
                lemma_pre_eval_rec_fuel(rest1, (f1 - 1) as nat, (f2 - 1) as nat);
            },
            Err(_) => {},
        }
    }
}

/// The value of a prefix expression: the result of the recursive descent,
/// provided it consumed every token.
pub open spec fn spec_eval_pre(toks: Seq<Seq<char>>) -> Result<i32, EvalErrorSpec> {
    match pre_eval_at(toks) {
        Ok((v, rest)) => if rest.len() == 0 {
            Ok(v)
        } else {
            Err(EvalErrorSpec::InvalidSyntax(Order::Pre))
        },
        Err(e) => Err(e),
    }
}

/// The value of an expression under the given order.
pub open spec fn spec_eval(order: Order, toks: Seq<Seq<char>>) -> Result<i32, EvalErrorSpec> {
    match order {
        Order::Pre => spec_eval_pre(toks),
        Order::Post => spec_eval_post(toks),
    }
}

/// Applies one operator to two evaluated operands.
///
/// Callers rule out a zero right operand of `/` beforehand, so this never
/// divides by zero; the remaining arithmetic wraps.
fn eval_expr(opr: char, left: i32, right: i32) -> (v: i32)
    requires
        is_op_char(opr),
        opr == '/' ==> right != 0,
    ensures
        v == apply_op(opr, left, right),
{
    if opr == '/' {
        match left.checked_div(right) {
            Some(q) => q,
            None => i32::MIN,
        }
    } else if opr == '*' {
        left.wrapping_mul(right)
    } else if opr == '+' {
        left.wrapping_add(right)
    } else {
        left.wrapping_sub(right)
    }
}

/// Evaluates a postfix expression with an integer stack: a literal is pushed,
/// an operator pops its right then left operand and pushes the combination.
fn eval_pos(expr: Expr) -> (r: Result<i32, EvalError>)
    ensures
        result_view(r) == spec_eval_post(expr.deep_view()),
{
    let ghost vs = expr.deep_view();
    let mut stack: Vec<i32> = Vec::new();
    let mut i: usize = 0;
    proof {
        assert(vs.skip(0) =~= vs);
    }
    while i < expr.len()
        invariant
            i <= expr.len(),
            vs == expr.deep_view(),
            post_eval_step(vs.skip(i as int), stack@) == post_eval_step(vs, Seq::<i32>::empty()),
        decreases expr.len() - i,
    {
        let ghost toks = vs.skip(i as int);
        let ghost st0 = stack@;
        proof {
            assert(toks[0] == expr[i as int]@);
            assert(toks.skip(1) =~= vs.skip(i + 1));
        }
        match classify_token(expr[i].as_str()) {
            TokenKind::Op(c) => {
                let r = match stack.pop() {
                    None => {
                        return Err(EvalError::InvalidSyntax(Order::Post));
                    },
                    Some(x) => x,
                };
                let l = match stack.pop() {
                    None => {
                        return Err(EvalError::InvalidSyntax(Order::Post));
                    },
                    Some(x) => x,
                };
                if c == '/' && r == 0 {
                    return Err(EvalError::DividingByZero);
                }
                let combined = eval_expr(c, l, r);
                stack.push(combined);
                proof {
                    assert(stack@ =~= st0.take(st0.len() - 2).push(
                        apply_op(c, st0[st0.len() - 2], st0.last()),
                    ));
                    assert(post_eval_step(toks, st0) == post_eval_step(vs.skip(i + 1), stack@));
                }
            },
            TokenKind::Int(v) => {
                stack.push(v);
                proof {
                    assert(stack@ =~= st0.push(v));
                    assert(post_eval_step(toks, st0) == post_eval_step(vs.skip(i + 1), stack@));
                }
            },
            TokenKind::Bad => {
                return Err(EvalError::InvalidSymbol(expr[i].clone()));
            },
        }
        i = i + 1;
    }
    proof {
        assert(vs.skip(expr.len() as int) =~= Seq::<Seq<char>>::empty());
    }
    if stack.len() != 1 {
        return Err(EvalError::InvalidSyntax(Order::Post));
    }
    match stack.pop() {
        Some(v) => Ok(v),
        None => unreached(),
    }
}

/// The recursive-descent worker for prefix evaluation: evaluates one operand
/// starting at index `i` and reports where it stopped reading.
fn eval_pre_aux(expr: &Vec<Symbol>, i: usize) -> (res: (Result<i32, EvalError>, usize))
    requires
        i <= expr.len(),
    ensures
        i <= res.1 <= expr.len(),
        ({
            let vs = expr.deep_view();
            match res.0 {
                Ok(v) => i < res.1 && pre_eval_at(vs.skip(i as int)) == Ok::<
                    (i32, Seq<Seq<char>>),
                    EvalErrorSpec,
                >((v, vs.skip(res.1 as int))),
                Err(e) => pre_eval_at(vs.skip(i as int)) == Err::<
                    (i32, Seq<Seq<char>>),
                    EvalErrorSpec,
                >(e@),
            }
        }),
    decreases expr.len() - i,
{
    let ghost vs = expr.deep_view();
    let ghost toks = vs.skip(i as int);
    if i == expr.len() {
        return (Err(EvalError::InvalidSyntax(Order::Pre)), i);
    }
    proof {
        assert(toks[0] == expr[i as int]@);
        assert(toks.skip(1) =~= vs.skip(i + 1));
    }
    match classify_token(expr[i].as_str()) {
        TokenKind::Op(c) => {
            let (lres, j) = eval_pre_aux(expr, i + 1);
            let lv = match lres {
                Err(e) => {
                    return (Err(e), j);
                },
                Ok(v) => v,
            };
            proof {
                lemma_pre_eval_rec_fuel(vs.skip(j as int), (vs.skip(j as int)).len(), (toks.len()
                    - 1) as nat);
            }
            let (rres, k) = eval_pre_aux(expr, j);
            let rv = match rres {
                Err(e) => {
                    return (Err(e), k);
                },
                Ok(v) => v,
            };
            if c == '/' && rv == 0 {
                return (Err(EvalError::DividingByZero), k);
            }
            (Ok(eval_expr(c, lv, rv)), k)
        },
        TokenKind::Int(v) => (Ok(v), i + 1),
        TokenKind::Bad => (Err(EvalError::InvalidSymbol(expr[i].clone())), i),
    }
}

/// Evaluates a prefix expression by recursive descent, then rejects any
/// tokens left unread.
fn eval_pre(expr: Expr) -> (r: Result<i32, EvalError>)
    ensures
        result_view(r) == spec_eval_pre(expr.deep_view()),
{
    proof {
        assert(expr.deep_view().skip(0) =~= expr.deep_view());
    }
    let (out, j) = eval_pre_aux(&expr, 0);
    match out {
        Err(e) => Err(e),
        Ok(v) => {
            if j < expr.len() {
                Err(EvalError::InvalidSyntax(Order::Pre))
            } else {
                Ok(v)
            }
        },
    }
}

/// Evaluates an expression under the given order.
///
/// Returns `Ok` exactly when the tokens form one complete expression in that
/// order and no division by zero occurs; otherwise the first error found,
/// as [`spec_eval`] lays down.
pub fn eval(order: &Order, expr: Expr) -> (r: Result<i32, EvalError>)
    ensures
        result_view(r) == spec_eval(*order, expr.deep_view()),
{
    match order {
        Order::Pre => eval_pre(expr),
        Order::Post => eval_pos(expr),
    }
}

} // verus!
