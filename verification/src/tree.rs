//! The tree builder and the infix printer: the same prefix/postfix grammars
//! as the evaluator, but producing an explicit binary expression tree, and a
//! renderer that prints a tree in infix notation with the minimum
//! parentheses that operator precedence demands.
use crate::eval::{EvalError, EvalErrorSpec, Expr, Order, Symbol};
use crate::token::{classify_token, is_op_char, spec_classify, TokenKind};
use vstd::prelude::*;

verus! {

/// An expression tree: a leaf holding a number, or an operator with its two
/// subtrees.
#[derive(Debug, PartialEq)]
pub enum ExprTree {
    Num(i32),
    Tree(char, Box<ExprTree>, Box<ExprTree>),
}

/// A well-formed tree carries one of the four operators at every inner node.
/// The tree builder only ever produces such trees.
pub open spec fn wf_tree(t: ExprTree) -> bool
    decreases t,
{
    match t {
        ExprTree::Num(_) => true,
        ExprTree::Tree(c, l, r) => is_op_char(c) && wf_tree(*l) && wf_tree(*r),
    }
}

/// One left-to-right pass of the postfix algorithm, carrying the stack of
/// trees built so far. Returns the final stack, or the first error.
pub open spec fn post_parse_step(toks: Seq<Seq<char>>, stack: Seq<ExprTree>) -> Result<
    Seq<ExprTree>,
    EvalErrorSpec,
>
    decreases toks.len(),
{
    if toks.len() == 0 {
        Ok(stack)
    } else {
        match spec_classify(toks[0]) {
            TokenKind::Op(c) => {
                if stack.len() < 2 {
                    Err(EvalErrorSpec::InvalidSyntax(Order::Post))
                } else {
                    let r = stack.last();
                    let l = stack[stack.len() - 2];
                    post_parse_step(
                        toks.skip(1),
                        stack.take(stack.len() - 2).push(
                            ExprTree::Tree(c, Box::new(l), Box::new(r)),
                        ),
                    )
                }
            },
            TokenKind::Int(v) => post_parse_step(toks.skip(1), stack.push(ExprTree::Num(v))),
            TokenKind::Bad => Err(EvalErrorSpec::InvalidSymbol(toks[0])),
        }
    }
}

/// The tree of a postfix expression: the result of the stack pass when it
/// ends with exactly one tree on the stack.
pub open spec fn spec_parse_post(toks: Seq<Seq<char>>) -> Result<ExprTree, EvalErrorSpec> {
    match post_parse_step(toks, Seq::<ExprTree>::empty()) {
        Ok(stack) => if stack.len() == 1 {
            Ok(stack[0])
        } else {
            Err(EvalErrorSpec::InvalidSyntax(Order::Post))
        },
        Err(e) => Err(e),
    }
}

/// One step of the prefix algorithm: an operator token builds the tree of
/// its left operand, then of its right operand, from the tokens that follow;
/// a literal becomes a leaf. Returns the tree and the tokens left over.
///
/// As with [`crate::eval::pre_eval_rec`], the `fuel` argument only bounds the
/// recursion; any fuel of at least `toks.len()` gives the same answer.
pub open spec fn pre_parse_rec(toks: Seq<Seq<char>>, fuel: nat) -> Result<
    (ExprTree, Seq<Seq<char>>),
    EvalErrorSpec,
>
    decreases fuel,
{
    if toks.len() == 0 || fuel == 0 {
        Err(EvalErrorSpec::InvalidSyntax(Order::Pre))
    } else {
        let rest = toks.skip(1);
        match spec_classify(toks[0]) {
            TokenKind::Op(c) => match pre_parse_rec(rest, (fuel - 1) as nat) {
                Err(e) => Err(e),
                Ok((l, rest1)) => match pre_parse_rec(rest1, (fuel - 1) as nat) {
                    Err(e) => Err(e),
                    Ok((r, rest2)) => Ok(
                        (ExprTree::Tree(c, Box::new(l), Box::new(r)), rest2),
                    ),
                },
            },
            TokenKind::Int(v) => Ok((ExprTree::Num(v), rest)),
            TokenKind::Bad => Err(EvalErrorSpec::InvalidSymbol(toks[0])),
        }
    }
}

/// The prefix step with its canonical fuel.
pub open spec fn pre_parse_at(toks: Seq<Seq<char>>) -> Result<
    (ExprTree, Seq<Seq<char>>),
    EvalErrorSpec,
> {
    pre_parse_rec(toks, toks.len())
}

/// A successful prefix step consumes at least one token.
pub proof fn lemma_pre_parse_rec_consumes(toks: Seq<Seq<char>>, fuel: nat)
    ensures
        pre_parse_rec(toks, fuel) matches Ok(p) ==> p.1.len() < toks.len(),
    decreases fuel,
{
    if toks.len() == 0 || fuel == 0 {
    } else {
        let rest = toks.skip(1);
        lemma_pre_parse_rec_consumes(rest, (fuel - 1) as nat);
        match pre_parse_rec(rest, (fuel - 1) as nat) {
            Ok((l, rest1)) => {
                lemma_pre_parse_rec_consumes(rest1, (fuel - 1) as nat);
            },
            Err(_) => {},
        }
    }
}

/// Any fuel of at least `toks.len()` gives the prefix step the same answer.
pub proof fn lemma_pre_parse_rec_fuel(toks: Seq<Seq<char>>, f1: nat, f2: nat)
    requires
        f1 >= toks.len(),
        f2 >= toks.len(),
    ensures
        pre_parse_rec(toks, f1) == pre_parse_rec(toks, f2),
    decreases f1 + f2,
{
    if toks.len() == 0 {
    } else {
        let rest = toks.skip(1);
        lemma_pre_parse_rec_fuel(rest, (f1 - 1) as nat, (f2 - 1) as nat);
        match pre_parse_rec(rest, (f1 - 1) as nat) {
            Ok((l, rest1)) => {
                lemma_pre_parse_rec_consumes(rest, (f1 - 1) as nat);
                lemma_pre_parse_rec_fuel(rest1, (f1 - 1) as nat, (f2 - 1) as nat);
            },
            Err(_) => {},
        }
    }
}

/// The tree of a prefix expression: the result of the recursive descent,
/// provided it consumed every token.
pub open spec fn spec_parse_pre(toks: Seq<Seq<char>>) -> Result<ExprTree, EvalErrorSpec> {
    match pre_parse_at(toks) {
        Ok((t, rest)) => if rest.len() == 0 {
            Ok(t)
        } else {
            Err(EvalErrorSpec::InvalidSyntax(Order::Pre))
        },
        Err(e) => Err(e),
    }
}

/// The tree of an expression under the given order.
pub open spec fn spec_parse(order: Order, toks: Seq<Seq<char>>) -> Result<ExprTree, EvalErrorSpec> {
    match order {
        Order::Pre => spec_parse_pre(toks),
        Order::Post => spec_parse_post(toks),
    }
}

/// The binding strength of an operator: `*` and `/` bind tighter than `+`
/// and `-`. Precedence only matters when printing, never when parsing.
pub open spec fn spec_prec(c: char) -> int {
    if c == '/' || c == '*' {
        2
    } else if c == '+' || c == '-' {
        1
    } else {
        0
    }
}

/// A child is parenthesized exactly when it is itself an operator node whose
/// operator binds strictly less tightly than its parent's. Equal precedence
/// is never parenthesized: the printer compares precedence only, not
/// associativity.
pub open spec fn needs_paren(child: ExprTree, parent_op: char) -> bool {
    child matches ExprTree::Tree(c, _, _) && spec_prec(c) < spec_prec(parent_op)
}

/// The decimal digits of `n`, most significant first.
pub open spec fn dec_digits(n: nat) -> Seq<char>
    decreases n,
{
    if n < 10 {
        seq![digit_char(n)]
    } else {
        dec_digits(n / 10).push(digit_char(n % 10))
    }
}

/// The character of one decimal digit.
pub open spec fn digit_char(d: nat) -> char
    recommends
        d < 10,
{
    if d == 0 {
        '0'
    } else if d == 1 {
        '1'
    } else if d == 2 {
        '2'
    } else if d == 3 {
        '3'
    } else if d == 4 {
        '4'
    } else if d == 5 {
        '5'
    } else if d == 6 {
        '6'
    } else if d == 7 {
        '7'
    } else if d == 8 {
        '8'
    } else {
        '9'
    }
}

/// The decimal rendering of a signed integer.
pub open spec fn dec_str(v: int) -> Seq<char> {
    if v < 0 {
        seq!['-'] + dec_digits((-v) as nat)
    } else {
        dec_digits(v as nat)
    }
}

/// The infix rendering of a tree: left child, the operator between single
/// spaces, right child, with `( … )` around a child only when
/// [`needs_paren`] says so. Total and deterministic over every tree.
pub open spec fn spec_render(t: ExprTree) -> Seq<char>
    decreases t,
{
    match t {
        ExprTree::Num(v) => dec_str(v as int),
        ExprTree::Tree(c, l, r) => {
            let ls = if needs_paren(*l, c) {
                seq!['(', ' '] + spec_render(*l) + seq![' ', ')']
            } else {
                spec_render(*l)
            };
            let rs = if needs_paren(*r, c) {
                seq!['(', ' '] + spec_render(*r) + seq![' ', ')']
            } else {
                spec_render(*r)
            };
            ls + seq![' ', c, ' '] + rs
        },
    }
}

impl ExprTree {
    /// Builds the tree of an expression assuming the given order.
    ///
    /// Returns `Ok` exactly when the tokens form one complete expression in
    /// that order, as [`spec_parse`] lays down; the tree returned is always
    /// well formed. No division-by-zero check happens here: operands are not
    /// evaluated at build time.
    pub fn parse(order: Order, expr: Expr) -> (r: Result<ExprTree, EvalError>)
        ensures
            crate::eval::result_view(r) == spec_parse(order, expr.deep_view()),
            r matches Ok(t) ==> wf_tree(t),
    {
        let r = match order {
            Order::Pre => ExprTree::parse_pre(expr),
            Order::Post => ExprTree::parse_post(expr),
        };
        proof {
            lemma_spec_parse_wf(order, expr.deep_view());
        }
        r
    }

    /// Builds the tree of a prefix expression by recursive descent, then
    /// rejects any tokens left unread.
    fn parse_pre(expr: Expr) -> (r: Result<ExprTree, EvalError>)
        ensures
            crate::eval::result_view(r) == spec_parse_pre(expr.deep_view()),
    {
        proof {
            assert(expr.deep_view().skip(0) =~= expr.deep_view());
        }
        let (out, j) = ExprTree::parse_pre_aux(&expr, 0);
        match out {
            Err(e) => Err(e),
            Ok(t) => {
                if j < expr.len() {
                    Err(EvalError::InvalidSyntax(Order::Pre))
                } else {
                    Ok(t)
                }
            },
        }
    }

    /// The recursive-descent worker for the prefix grammar: builds one
    /// operand starting at index `i` and reports where it stopped reading.
    fn parse_pre_aux(expr: &Vec<Symbol>, i: usize) -> (res: (Result<ExprTree, EvalError>, usize))
        requires
            i <= expr.len(),
        ensures
            i <= res.1 <= expr.len(),
            ({
                let vs = expr.deep_view();
                match res.0 {
                    Ok(t) => i < res.1 && pre_parse_at(vs.skip(i as int)) == Ok::<
                        (ExprTree, Seq<Seq<char>>),
                        EvalErrorSpec,
                    >((t, vs.skip(res.1 as int))),
                    Err(e) => pre_parse_at(vs.skip(i as int)) == Err::<
                        (ExprTree, Seq<Seq<char>>),
                        EvalErrorSpec,
                    >(e@),
                }
            }),
        decreases expr.len() - i,
    {
        let ghost vs = expr.deep_view();
        let ghost toks = vs.skip(i as int);
        if i == expr.len() {
            return (Err(EvalError::InvalidSyntax(Order::Pre)), i);
        }
        proof {
            assert(toks[0] == expr[i as int]@);
            assert(toks.skip(1) =~= vs.skip(i + 1));
        }
        match classify_token(expr[i].as_str()) {
            TokenKind::Op(c) => {
                let (lres, j) = ExprTree::parse_pre_aux(expr, i + 1);
                let l = match lres {
                    Err(e) => {
                        return (Err(e), j);
                    },
                    Ok(t) => t,
                };
                proof {
                    lemma_pre_parse_rec_fuel(
                        vs.skip(j as int),
                        (vs.skip(j as int)).len(),
                        (toks.len() - 1) as nat,
                    );
                }
                let (rres, k) = ExprTree::parse_pre_aux(expr, j);
                let r = match rres {
                    Err(e) => {
                        return (Err(e), k);
                    },
                    Ok(t) => t,
                };
                (Ok(ExprTree::Tree(c, Box::new(l), Box::new(r))), k)
            },
            TokenKind::Int(v) => (Ok(ExprTree::Num(v)), i + 1),
            TokenKind::Bad => (Err(EvalError::InvalidSymbol(expr[i].clone())), i),
        }
    }

    /// Builds the tree of a postfix expression with a stack of trees: a
    /// literal is pushed as a leaf, an operator pops its right then left
    /// subtree and pushes the combined node.
    fn parse_post(expr: Expr) -> (r: Result<ExprTree, EvalError>)
        ensures
            crate::eval::result_view(r) == spec_parse_post(expr.deep_view()),
    {
        let ghost vs = expr.deep_view();
        let mut stack: Vec<ExprTree> = Vec::new();
        let mut i: usize = 0;
        proof {
            assert(vs.skip(0) =~= vs);
        }
        while i < expr.len()
            invariant
                i <= expr.len(),
                vs == expr.deep_view(),
                post_parse_step(vs.skip(i as int), stack@) == post_parse_step(
                    vs,
                    Seq::<ExprTree>::empty(),
                ),
            decreases expr.len() - i,
        {
            let ghost toks = vs.skip(i as int);
            let ghost st0 = stack@;
            proof {
                assert(toks[0] == expr[i as int]@);
                assert(toks.skip(1) =~= vs.skip(i + 1));
            }
            match classify_token(expr[i].as_str()) {
                TokenKind::Op(c) => {
                    let r = match stack.pop() {
                        None => {
                            return Err(EvalError::InvalidSyntax(Order::Post));
                        },
                        Some(t) => t,
                    };
                    let l = match stack.pop() {
                        None => {
                            return Err(EvalError::InvalidSyntax(Order::Post));
                        },
                        Some(t) => t,
                    };
                    stack.push(ExprTree::Tree(c, Box::new(l), Box::new(r)));
                    proof {
                        assert(stack@ =~= st0.take(st0.len() - 2).push(
                            ExprTree::Tree(
                                c,
                                Box::new(st0[st0.len() - 2]),
                                Box::new(st0.last()),
                            ),
                        ));
                        assert(post_parse_step(toks, st0) == post_parse_step(
                            vs.skip(i + 1),
                            stack@,
                        ));
                    }
                },
                TokenKind::Int(v) => {
                    stack.push(ExprTree::Num(v));
                    proof {
                        assert(stack@ =~= st0.push(ExprTree::Num(v)));
                        assert(post_parse_step(toks, st0) == post_parse_step(
                            vs.skip(i + 1),
                            stack@,
                        ));
                    }
                },
                TokenKind::Bad => {
                    return Err(EvalError::InvalidSymbol(expr[i].clone()));
                },
            }
            i = i + 1;
        }
        proof {
            assert(vs.skip(expr.len() as int) =~= Seq::<Seq<char>>::empty());
        }
        if stack.len() != 1 {
            return Err(EvalError::InvalidSyntax(Order::Post));
        }
        match stack.pop() {
            Some(t) => Ok(t),
            None => unreached(),
        }
    }

    /// The precedence of an operator, for the printer's parenthesization.
    fn get_prec(opr1: &char) -> (p: i32)
        requires
            is_op_char(*opr1),
        ensures
            p == spec_prec(*opr1),
    {
        if *opr1 == '/' || *opr1 == '*' {
            2
        } else {
            1
        }
    }

    /// Checks that every inner node carries one of the four operators, so
    /// the tree may be rendered.
    pub fn is_wf(&self) -> (b: bool)
        ensures
            b == wf_tree(*self),
        decreases *self,
    {
        match self {
            ExprTree::Num(_) => true,
            ExprTree::Tree(c, l, r) => (*c == '/' || *c == '*' || *c == '+' || *c == '-')
                && (**l).is_wf() && (**r).is_wf(),
        }
    }

    /// Whether the printer parenthesizes `child` under an inner node whose
    /// operator is `parent`.
    fn paren_child(child: &ExprTree, parent: &char) -> (b: bool)
        requires
            wf_tree(*child),
            is_op_char(*parent),
        ensures
            b == needs_paren(*child, *parent),
    {
        match child {
            ExprTree::Tree(c2, _, _) => {
                proof {
                    assert(is_op_char(*c2));
                }
                ExprTree::get_prec(c2) < ExprTree::get_prec(parent)
            },
            _ => false,
        }
    }

    /// Renders the tree as an infix expression with the minimum possible
    /// amount of parentheses, exactly as [`spec_render`] lays down.
    pub fn render(&self) -> (out: String)
        requires
            wf_tree(*self),
        ensures
            out@ == spec_render(*self),
        decreases *self,
    {
        match self {
            ExprTree::Num(v) => i32_string(*v),
            ExprTree::Tree(c, l, r) => {
                let mut out = String::new();
                let paren_l = ExprTree::paren_child(l, c);
                let ls = (**l).render();
                if paren_l {
                    out.append("( ");
                    out.append(ls.as_str());
                    out.append(" )");
                    proof {
                        reveal_strlit("( ");
                        reveal_strlit(" )");
                        assert(out@ =~= seq!['(', ' '] + spec_render(**l) + seq![' ', ')']);
                    }
                } else {
                    out.append(ls.as_str());
                }
                let ghost left_part = out@;
                out.append(" ");
                out.append(op_str(c));
                out.append(" ");
                proof {
                    reveal_strlit(" ");
                    assert(out@ =~= left_part + seq![' ', *c, ' ']);
                }
                let ghost mid_part = out@;
                let paren_r = ExprTree::paren_child(r, c);
                let rs = (**r).render();
                if paren_r {
                    out.append("( ");
                    out.append(rs.as_str());
                    out.append(" )");
                    proof {
                        reveal_strlit("( ");
                        reveal_strlit(" )");
                        assert(out@ =~= mid_part + (seq!['(', ' '] + spec_render(**r) + seq![
                            ' ',
                            ')',
                        ]));
                    }
                } else {
                    out.append(rs.as_str());
                }
                proof {
                    assert(out@ =~= spec_render(*self));
                }
                out
            },
        }
    }
}

/// Every tree the builder hands back is well formed: its inner nodes carry
/// only the four operators.
pub proof fn lemma_spec_parse_wf(order: Order, toks: Seq<Seq<char>>)
    ensures
        spec_parse(order, toks) matches Ok(t) ==> wf_tree(t),
{
    match order {
        Order::Pre => {
            lemma_pre_parse_rec_wf(toks, toks.len());
        },
        Order::Post => {
            assert(forall|i: int|
                0 <= i < Seq::<ExprTree>::empty().len() ==> wf_tree(Seq::<ExprTree>::empty()[i]));
            lemma_post_parse_step_wf(toks, Seq::<ExprTree>::empty());
        },
    }
}

/// The postfix pass preserves well-formedness of every tree on the stack.
proof fn lemma_post_parse_step_wf(toks: Seq<Seq<char>>, stack: Seq<ExprTree>)
    requires
        forall|i: int| 0 <= i < stack.len() ==> wf_tree(#[trigger] stack[i]),
    ensures
        post_parse_step(toks, stack) matches Ok(st) ==> forall|i: int|
            0 <= i < st.len() ==> wf_tree(#[trigger] st[i]),
    decreases toks.len(),
{
    if toks.len() == 0 {
    } else {
        match spec_classify(toks[0]) {
            TokenKind::Op(c) => {
                if stack.len() >= 2 {
                    let r = stack.last();
                    let l = stack[stack.len() - 2];
                    let combined = ExprTree::Tree(c, Box::new(l), Box::new(r));
                    let st1 = stack.take(stack.len() - 2).push(combined);
                    assert(wf_tree(combined));
                    assert(forall|i: int| 0 <= i < st1.len() ==> wf_tree(#[trigger] st1[i]));
                    lemma_post_parse_step_wf(toks.skip(1), st1);
                }
            },
            TokenKind::Int(v) => {
                let st1 = stack.push(ExprTree::Num(v));
                assert(forall|i: int| 0 <= i < st1.len() ==> wf_tree(#[trigger] st1[i]));
                lemma_post_parse_step_wf(toks.skip(1), st1);
            },
            TokenKind::Bad => {},
        }
    }
}

/// The prefix step only builds well-formed trees.
proof fn lemma_pre_parse_rec_wf(toks: Seq<Seq<char>>, fuel: nat)
    ensures
        pre_parse_rec(toks, fuel) matches Ok(p) ==> wf_tree(p.0),
    decreases fuel,
{
    if toks.len() == 0 || fuel == 0 {
    } else {
        let rest = toks.skip(1);
        lemma_pre_parse_rec_wf(rest, (fuel - 1) as nat);
        match pre_parse_rec(rest, (fuel - 1) as nat) {
            Ok((l, rest1)) => {
                lemma_pre_parse_rec_wf(rest1, (fuel - 1) as nat);
            },
            Err(_) => {},
        }
    }
}

/// The one-character string of an operator.
fn op_str(c: &char) -> (s: &'static str)
    requires
        is_op_char(*c),
    ensures
        s@ == seq![*c],
{
    if *c == '/' {
        proof {
            reveal_strlit("/");
            assert("/"@ =~= seq!['/']);
        }
        "/"
    } else if *c == '*' {
        proof {
            reveal_strlit("*");
            assert("*"@ =~= seq!['*']);
        }
        "*"
    } else if *c == '+' {
        proof {
            reveal_strlit("+");
            assert("+"@ =~= seq!['+']);
        }
        "+"
    } else {
        proof {
            reveal_strlit("-");
            assert("-"@ =~= seq!['-']);
        }
        "-"
    }
}

/// The one-character string of a decimal digit.
fn digit_str(d: u32) -> (s: &'static str)
    requires
        d < 10,
    ensures
        s@ == seq![digit_char(d as nat)],
{
    if d == 0 {
        proof {
            reveal_strlit("0");
            assert("0"@ =~= seq!['0']);
        }
        "0"
    } else if d == 1 {
        proof {
            reveal_strlit("1");
            assert("1"@ =~= seq!['1']);
        }
        "1"
    } else if d == 2 {
        proof {
            reveal_strlit("2");
            assert("2"@ =~= seq!['2']);
        }
        "2"
    } else if d == 3 {
        proof {
            reveal_strlit("3");
            assert("3"@ =~= seq!['3']);
        }
        "3"
    } else if d == 4 {
        proof {
            reveal_strlit("4");
            assert("4"@ =~= seq!['4']);
        }
        "4"
    } else if d == 5 {
        proof {
            reveal_strlit("5");
            assert("5"@ =~= seq!['5']);
        }
        "5"
    } else if d == 6 {
        proof {
            reveal_strlit("6");
            assert("6"@ =~= seq!['6']);
        }
        "6"
    } else if d == 7 {
        proof {
            reveal_strlit("7");
            assert("7"@ =~= seq!['7']);
        }
        "7"
    } else if d == 8 {
        proof {
            reveal_strlit("8");
            assert("8"@ =~= seq!['8']);
        }
        "8"
    } else {
        proof {
            reveal_strlit("9");
            assert("9"@ =~= seq!['9']);
        }
        "9"
    }
}

/// Appends the decimal digits of `n` to `out`, most significant first.
fn push_digits(out: &mut String, n: u32)
    ensures
        final (out)@ == old(out)@ + dec_digits(n as nat),
    decreases n,
{
    if n < 10 {
        out.append(digit_str(n));
        proof {
            assert(final (out)@ =~= old(out)@ + dec_digits(n as nat));
        }
    } else {
        push_digits(out, n / 10);
        out.append(digit_str(n % 10));
        proof {
            assert(final (out)@ =~= old(out)@ + dec_digits(n as nat));
        }
    }
}

/// The decimal string of a signed 32-bit integer.
fn i32_string(v: i32) -> (out: String)
    ensures
        out@ == dec_str(v as int),
{
    let mut out = String::new();
    if v < 0 {
        out.append("-");
        proof {
            reveal_strlit("-");
            assert(out@ =~= seq!['-']);
        }
        let mag = (-(v as i64)) as u32;
        push_digits(&mut out, mag);
        proof {
            assert(out@ =~= dec_str(v as int));
        }
    } else {
        let mag = v as u32;
        push_digits(&mut out, mag);
        proof {
            assert(out@ =~= dec_str(v as int));
        }
    }
    out
}

} // verus!
