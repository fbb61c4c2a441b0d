//! Relations between the evaluator and the tree builder: evaluating a token
//! sequence gives the same answer as building its tree and evaluating that
//! tree, so any two expressions — in either notation — that denote the same
//! tree evaluate alike.
use crate::eval::{
    apply_op, post_eval_step, pre_eval_rec, spec_eval, spec_eval_post, spec_eval_pre,
    EvalErrorSpec, Order,
};
use crate::token::{spec_classify, TokenKind};
use crate::tree::{
    post_parse_step, pre_parse_rec, spec_parse, spec_parse_post, spec_parse_pre, ExprTree,
};
use vstd::prelude::*;

verus! {

/// The arithmetic meaning of a tree: leaves are their value, an inner node
/// combines its children left to right, failing on a division whose right
/// operand is zero. The first failure propagates.
pub open spec fn eval_tree(t: ExprTree) -> Result<i32, EvalErrorSpec>
    decreases t,
{
    match t {
        ExprTree::Num(v) => Ok(v),
        ExprTree::Tree(c, l, r) => match eval_tree(*l) {
            Err(e) => Err(e),
            Ok(lv) => match eval_tree(*r) {
                Err(e) => Err(e),
                Ok(rv) => {
                    if c == '/' && rv == 0 {
                        Err(EvalErrorSpec::DividingByZero)
                    } else {
                        Ok(apply_op(c, lv, rv))
                    }
                },
            },
        },
    }
}

/// The only way a tree can fail to evaluate is a division by zero.
pub proof fn lemma_eval_tree_err_is_divzero(t: ExprTree)
    ensures
        eval_tree(t) is Err ==> eval_tree(t) == Err::<i32, EvalErrorSpec>(
            EvalErrorSpec::DividingByZero,
        ),
    decreases t,
{
    match t {
        ExprTree::Num(_) => {},
        ExprTree::Tree(c, l, r) => {
            lemma_eval_tree_err_is_divzero(*l);
            lemma_eval_tree_err_is_divzero(*r);
        },
    }
}

/// Every tree on the stack evaluates without error.
pub open spec fn all_eval_ok(ts: Seq<ExprTree>) -> bool {
    forall|i: int| 0 <= i < ts.len() ==> eval_tree(#[trigger] ts[i]) is Ok
}

/// The values of a stack of trees that all evaluate.
pub open spec fn tree_vals(ts: Seq<ExprTree>) -> Seq<i32> {
    Seq::new(ts.len(), |i: int| eval_tree(ts[i])->Ok_0)
}

/// Once a tree on the postfix stack fails to evaluate, every stack the pass
/// can end with holds a failing tree: combining nodes only propagates the
/// failure.
proof fn lemma_post_parse_keeps_err(toks: Seq<Seq<char>>, stack: Seq<ExprTree>)
    requires
        !all_eval_ok(stack),
    ensures
        post_parse_step(toks, stack) matches Ok(st) ==> !all_eval_ok(st),
    decreases toks.len(),
{
    if toks.len() == 0 {
    } else {
        match spec_classify(toks[0]) {
            TokenKind::Op(c) => {
                if stack.len() >= 2 {
                    let r = stack.last();
                    let l = stack[stack.len() - 2];
                    let combined = ExprTree::Tree(c, Box::new(l), Box::new(r));
                    let st1 = stack.take(stack.len() - 2).push(combined);
                    let i = choose|i: int|
                        0 <= i < stack.len() && !(eval_tree(#[trigger] stack[i]) is Ok);
                    if i < stack.len() - 2 {
                        assert(st1[i] == stack[i]);
                        assert(!all_eval_ok(st1));
                    } else {
                        assert(eval_tree(combined) is Err);
                        assert(st1.last() == combined);
                        assert(!all_eval_ok(st1));
                    }
                    lemma_post_parse_keeps_err(toks.skip(1), st1);
                }
            },
            TokenKind::Int(v) => {
                let st1 = stack.push(ExprTree::Num(v));
                let i = choose|i: int|
                    0 <= i < stack.len() && !(eval_tree(#[trigger] stack[i]) is Ok);
                assert(st1[i] == stack[i]);
                assert(!all_eval_ok(st1));
                lemma_post_parse_keeps_err(toks.skip(1), st1);
            },
            TokenKind::Bad => {},
        }
    }
}

/// The postfix value pass follows the postfix tree pass step for step: with
/// matching stacks, either both passes fail on the same token, or the value
/// pass fails with a division by zero that the tree pass only records inside
/// a tree, or both finish with matching stacks.
proof fn lemma_post_steps_agree(toks: Seq<Seq<char>>, tstack: Seq<ExprTree>, vstack: Seq<i32>)
    requires
        vstack.len() == tstack.len(),
        forall|i: int|
            0 <= i < tstack.len() ==> eval_tree(#[trigger] tstack[i]) == Ok::<i32, EvalErrorSpec>(
                vstack[i],
            ),
    ensures
        match post_parse_step(toks, tstack) {
            Ok(ts) => if all_eval_ok(ts) {
                post_eval_step(toks, vstack) == Ok::<Seq<i32>, EvalErrorSpec>(tree_vals(ts))
            } else {
                post_eval_step(toks, vstack) == Err::<Seq<i32>, EvalErrorSpec>(
                    EvalErrorSpec::DividingByZero,
                )
            },
            Err(e) => post_eval_step(toks, vstack) == Err::<Seq<i32>, EvalErrorSpec>(e)
                || post_eval_step(toks, vstack) == Err::<Seq<i32>, EvalErrorSpec>(
                EvalErrorSpec::DividingByZero,
            ),
        },
    decreases toks.len(),
{
    if toks.len() == 0 {
        assert(tree_vals(tstack) =~= vstack);
    } else {
        match spec_classify(toks[0]) {
            TokenKind::Op(c) => {
                if tstack.len() >= 2 {
                    let rt = tstack.last();
                    let lt = tstack[tstack.len() - 2];
                    let rv = vstack.last();
                    let lv = vstack[vstack.len() - 2];
                    let combined = ExprTree::Tree(c, Box::new(lt), Box::new(rt));
                    let ts1 = tstack.take(tstack.len() - 2).push(combined);
                    if c == '/' && rv == 0 {
                        assert(eval_tree(combined) == Err::<i32, EvalErrorSpec>(
                            EvalErrorSpec::DividingByZero,
                        ));
                        assert(ts1.last() == combined);
                        assert(!all_eval_ok(ts1));
                        lemma_post_parse_keeps_err(toks.skip(1), ts1);
                    } else {
                        let vs1 = vstack.take(vstack.len() - 2).push(apply_op(c, lv, rv));
                        assert(eval_tree(combined) == Ok::<i32, EvalErrorSpec>(
                            apply_op(c, lv, rv),
                        ));
                        assert forall|i: int| 0 <= i < ts1.len() implies eval_tree(
                            #[trigger] ts1[i],
                        ) == Ok::<i32, EvalErrorSpec>(vs1[i]) by {
                            if i < ts1.len() - 1 {
                                assert(ts1[i] == tstack[i]);
                                assert(vs1[i] == vstack[i]);
                            }
                        }
                        lemma_post_steps_agree(toks.skip(1), ts1, vs1);
                    }
                }
            },
            TokenKind::Int(v) => {
                let ts1 = tstack.push(ExprTree::Num(v));
                let vs1 = vstack.push(v);
                assert forall|i: int| 0 <= i < ts1.len() implies eval_tree(#[trigger] ts1[i])
                    == Ok::<i32, EvalErrorSpec>(vs1[i]) by {
                    if i < ts1.len() - 1 {
                        assert(ts1[i] == tstack[i]);
                        assert(vs1[i] == vstack[i]);
                    }
                }
                lemma_post_steps_agree(toks.skip(1), ts1, vs1);
            },
            TokenKind::Bad => {},
        }
    }
}

/// Evaluating a postfix expression agrees with building its tree and
/// evaluating that: whenever the builder accepts the tokens, the evaluator
/// returns exactly the tree's arithmetic meaning.
pub proof fn lemma_eval_post_is_tree_eval(toks: Seq<Seq<char>>, t: ExprTree)
    requires
        spec_parse_post(toks) == Ok::<ExprTree, EvalErrorSpec>(t),
    ensures
        spec_eval_post(toks) == eval_tree(t),
{
    lemma_post_steps_agree(toks, Seq::<ExprTree>::empty(), Seq::<i32>::empty());
    let st = post_parse_step(toks, Seq::<ExprTree>::empty())->Ok_0;
    if all_eval_ok(st) {
        assert(post_eval_step(toks, Seq::<i32>::empty()) == Ok::<Seq<i32>, EvalErrorSpec>(
            tree_vals(st),
        ));
        assert(tree_vals(st).len() == 1);
        assert(tree_vals(st)[0] == eval_tree(t)->Ok_0);
    } else {
        lemma_eval_tree_err_is_divzero(t);
        assert(eval_tree(st[0]) is Err);
    }
}

/// The prefix value step follows the prefix tree step for step: when the tree
/// step accepts an operand, the value step returns the tree's meaning with
/// the same leftover tokens; when the tree step fails, the value step fails
/// the same way, unless a division by zero cut it short first.
proof fn lemma_pre_steps_agree(toks: Seq<Seq<char>>, fuel: nat)
    ensures
        match pre_parse_rec(toks, fuel) {
            Ok(p) => pre_eval_rec(toks, fuel) == match eval_tree(p.0) {
                Ok(v) => Ok::<(i32, Seq<Seq<char>>), EvalErrorSpec>((v, p.1)),
                Err(e) => Err::<(i32, Seq<Seq<char>>), EvalErrorSpec>(e),
            },
            Err(e) => pre_eval_rec(toks, fuel) == Err::<(i32, Seq<Seq<char>>), EvalErrorSpec>(e)
                || pre_eval_rec(toks, fuel) == Err::<(i32, Seq<Seq<char>>), EvalErrorSpec>(
                EvalErrorSpec::DividingByZero,
            ),
        },
    decreases fuel,
{
    if toks.len() == 0 || fuel == 0 {
    } else {
        let rest = toks.skip(1);
        match spec_classify(toks[0]) {
            TokenKind::Op(c) => {
                lemma_pre_steps_agree(rest, (fuel - 1) as nat);
                match pre_parse_rec(rest, (fuel - 1) as nat) {
                    Ok((lt, rest1)) => {
                        match eval_tree(lt) {
                            Err(el) => {
                                lemma_eval_tree_err_is_divzero(lt);
                            },
                            Ok(lv) => {
                                lemma_pre_steps_agree(rest1, (fuel - 1) as nat);
                            },
                        }
                    },
                    Err(_) => {},
                }
            },
            TokenKind::Int(_) => {},
            TokenKind::Bad => {},
        }
    }
}

/// Evaluating a prefix expression agrees with building its tree and
/// evaluating that: whenever the builder accepts the tokens, the evaluator
/// returns exactly the tree's arithmetic meaning.
pub proof fn lemma_eval_pre_is_tree_eval(toks: Seq<Seq<char>>, t: ExprTree)
    requires
        spec_parse_pre(toks) == Ok::<ExprTree, EvalErrorSpec>(t),
    ensures
        spec_eval_pre(toks) == eval_tree(t),
{
    lemma_pre_steps_agree(toks, toks.len());
}

/// The evaluator agrees with tree semantics under either order.
pub proof fn lemma_eval_is_tree_eval(order: Order, toks: Seq<Seq<char>>, t: ExprTree)
    requires
        spec_parse(order, toks) == Ok::<ExprTree, EvalErrorSpec>(t),
    ensures
        spec_eval(order, toks) == eval_tree(t),
{
    match order {
        Order::Pre => lemma_eval_pre_is_tree_eval(toks, t),
        Order::Post => lemma_eval_post_is_tree_eval(toks, t),
    }
}

/// Two well-formed expressions that denote the same tree evaluate alike,
/// whatever notation each is written in. In particular a postfix expression
/// and its prefix transliteration always agree.
pub proof fn lemma_orders_agree(
    o1: Order,
    toks1: Seq<Seq<char>>,
    o2: Order,
    toks2: Seq<Seq<char>>,
    t: ExprTree,
)
    requires
        spec_parse(o1, toks1) == Ok::<ExprTree, EvalErrorSpec>(t),
        spec_parse(o2, toks2) == Ok::<ExprTree, EvalErrorSpec>(t),
    ensures
        spec_eval(o1, toks1) == spec_eval(o2, toks2),
{
    lemma_eval_is_tree_eval(o1, toks1, t);
    lemma_eval_is_tree_eval(o2, toks2, t);
}

} // verus!
