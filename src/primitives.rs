//! The built-in procedures and special forms.
use vstd::prelude::*;
use std::rc::Rc;
use crate::exception::{Meta, Exn, ExnV, clone_text};
use crate::ast::{Item, ItemV, Exp, ExpV, Lambda, PrimOp, list_items, texts};
use crate::runtime::{Env, result_view, items_view, refs_view, list_refs, eval_with, eval_each, eval_list};
use crate::semantics::{prim_sem, plus_sem, minus_sem, define_sem, lambda_sem, if_sem, cond_sem, or_sem,
    and_sem, car_sem, cdr_sem, cons_sem, list_sem, quote_sem, display_sem, clauses_sem, body_sem,
    checked_sum, checked_difference, eval_each_sem, numbers, symbol_names, is_false, is_else};

verus! {

/// Runs the primitive `op` on the unevaluated arguments `args`; `meta`
/// locates the combination.
pub fn apply_primitive(op: PrimOp, env: &mut Env, meta: &Meta, args: &Item, fuel: usize) -> (r: Result<Item, Exn>)
    ensures
        (final(env)@, result_view(r)) == prim_sem(op, old(env)@, meta@, args@, fuel as nat),
    decreases fuel, 5nat, 0nat,
{
    match op {
        PrimOp::Plus => prim_plus(env, meta, args, fuel),
        PrimOp::Minus => prim_minus(env, meta, args, fuel),
        PrimOp::Define => prim_define(env, meta, args, fuel),
        PrimOp::Lambda => prim_lambda(env, meta, args),
        PrimOp::If => prim_if(env, meta, args, fuel),
        PrimOp::Cond => prim_cond(env, meta, args, fuel),
        PrimOp::Or => prim_or(env, meta, args, fuel),
        PrimOp::And => prim_and(env, meta, args, fuel),
        PrimOp::Car => prim_car(env, meta, args, fuel),
        PrimOp::Cdr => prim_cdr(env, meta, args, fuel),
        PrimOp::Cons => prim_cons(env, meta, args, fuel),
        PrimOp::List => prim_list(env, meta, args, fuel),
        PrimOp::Quote => prim_quote(env, meta, args),
        PrimOp::Display => prim_display(env, meta, args, fuel),
    }
}

proof fn lemma_sum_none_stays(ns: Seq<int>, k: int)
    requires
        0 <= k <= ns.len(),
        checked_sum(ns.subrange(0, k)) is None,
    ensures
        checked_sum(ns) is None,
    decreases ns.len() - k,
{
    if k == ns.len() {
        assert(ns.subrange(0, k) =~= ns);
    } else {
        assert(ns.subrange(0, k + 1).drop_last() =~= ns.subrange(0, k));
        lemma_sum_none_stays(ns, k + 1);
    }
}

proof fn lemma_difference_none_stays(ns: Seq<int>, k: int)
    requires
        1 <= k <= ns.len(),
        checked_difference(ns.subrange(0, k)) is None,
    ensures
        checked_difference(ns) is None,
    decreases ns.len() - k,
{
    if k == ns.len() {
        assert(ns.subrange(0, k) =~= ns);
    } else {
        assert(ns.subrange(0, k + 1).drop_last() =~= ns.subrange(0, k));
        lemma_difference_none_stays(ns, k + 1);
    }
}

proof fn lemma_names_err_stays(items: Seq<ItemV>, k: int)
    requires
        0 <= k <= items.len(),
        symbol_names(items.subrange(0, k)) is Err,
    ensures
        symbol_names(items) == symbol_names(items.subrange(0, k)),
    decreases items.len() - k,
{
    if k == items.len() {
        assert(items.subrange(0, k) =~= items);
    } else {
        assert(items.subrange(0, k + 1).drop_last() =~= items.subrange(0, k));
        lemma_names_err_stays(items, k + 1);
    }
}

fn number_of(v: &Item) -> (r: i64)
    requires
        v@.exp is Number,
    ensures
        v@.exp == ExpV::Number(r as int),
{
    match &v.exp {
        Exp::Number(n) => *n,
        _ => 0,
    }
}

/// `(+ n ...)`: the sum of the numbers, 0 for none.
pub fn prim_plus(env: &mut Env, meta: &Meta, args: &Item, fuel: usize) -> (r: Result<Item, Exn>)
    ensures
        (final(env)@, result_view(r)) == plus_sem(old(env)@, meta@, args@, fuel as nat),
    decreases fuel, 3nat, 0nat,
{
    let items = list_refs(args);
    let vals = match eval_each(env, &items, true, fuel) {
        Ok(v) => v,
        Err(e) => return Err(e),
    };
    let ghost ns = numbers(items_view(vals@));
    let mut acc: i64 = 0;
    let mut i: usize = 0;
    assert(ns.subrange(0, 0) =~= Seq::<int>::empty());
    while i < vals.len()
        invariant
            i <= vals@.len(),
            ns == numbers(items_view(vals@)),
            forall|j: int| 0 <= j < vals@.len() ==> (#[trigger] vals@[j]).exp is Number,
            checked_sum(ns.subrange(0, i as int)) == Some(acc as int),
            refs_view(items@) == list_items(args@),
            (env@, Ok::<Seq<ItemV>, ExnV>(items_view(vals@))) == eval_each_sem(old(env)@, refs_view(items@), true, fuel as nat),
        decreases vals.len() - i,
    {
        let n = number_of(&vals[i]);
        assert(ns.subrange(0, i + 1).drop_last() =~= ns.subrange(0, i as int));
        assert(ns[i as int] == n as int);
        match acc.checked_add(n) {
            Some(s) => {
                acc = s;
            },
            None => {
                assert(ns.subrange(0, i + 1).last() == n as int);
                assert(checked_sum(ns.subrange(0, i + 1)) is None);
                proof { lemma_sum_none_stays(ns, i + 1); }
                return Err(Exn::other(meta.duplicate(), "integer overflow"));
            },
        }
        i = i + 1;
    }
    assert(ns.subrange(0, i as int) =~= ns);
    Ok(Item::new(meta.duplicate(), Exp::Number(acc)))
}

/// `(- n)` is the negation of n; `(- n m ...)` subtracts the others from n.
pub fn prim_minus(env: &mut Env, meta: &Meta, args: &Item, fuel: usize) -> (r: Result<Item, Exn>)
    ensures
        (final(env)@, result_view(r)) == minus_sem(old(env)@, meta@, args@, fuel as nat),
    decreases fuel, 3nat, 0nat,
{
    let items = list_refs(args);
    if items.len() < 1 {
        return Err(Exn::arity_at_least(meta.duplicate(), 1, items.len()));
    }
    let vals = match eval_each(env, &items, true, fuel) {
        Ok(v) => v,
        Err(e) => return Err(e),
    };
    let ghost ns = numbers(items_view(vals@));
    let first = number_of(&vals[0]);
    if vals.len() == 1 {
        if first == i64::MIN {
            return Err(Exn::other(meta.duplicate(), "integer overflow"));
        }
        return Ok(Item::new(meta.duplicate(), Exp::Number(-first)));
    }
    let mut acc: i64 = first;
    let mut i: usize = 1;
    assert(ns.subrange(0, 1) =~= seq![first as int]);
    while i < vals.len()
        invariant
            1 <= i <= vals@.len(),
            ns == numbers(items_view(vals@)),
            forall|j: int| 0 <= j < vals@.len() ==> (#[trigger] vals@[j]).exp is Number,
            checked_difference(ns.subrange(0, i as int)) == Some(acc as int),
            refs_view(items@) == list_items(args@),
            (env@, Ok::<Seq<ItemV>, ExnV>(items_view(vals@))) == eval_each_sem(old(env)@, refs_view(items@), true, fuel as nat),
        decreases vals.len() - i,
    {
        let n = number_of(&vals[i]);
        assert(ns.subrange(0, i + 1).drop_last() =~= ns.subrange(0, i as int));
        assert(ns[i as int] == n as int);
        match acc.checked_sub(n) {
            Some(d) => {
                acc = d;
            },
            None => {
                assert(ns.subrange(0, i + 1).last() == n as int);
                assert(checked_difference(ns.subrange(0, i + 1)) is None);
                proof { lemma_difference_none_stays(ns, i + 1); }
                return Err(Exn::other(meta.duplicate(), "integer overflow"));
            },
        }
        i = i + 1;
    }
    assert(ns.subrange(0, i as int) =~= ns);
    Ok(Item::new(meta.duplicate(), Exp::Number(acc)))
}

/// The names of items that must all be symbols; a type error at the first that is not.
fn symbol_names_of(items: &Vec<&Item>) -> (r: Result<Vec<String>, Exn>)
    ensures
        match symbol_names(refs_view(items@)) {
            Ok(ns) => r is Ok && texts(r->Ok_0@) == ns,
            Err(e) => r is Err && r->Err_0@ == e,
        },
{
    let ghost s = refs_view(items@);
    let mut names: Vec<String> = Vec::new();
    let mut i: usize = 0;
    assert(s.subrange(0, 0) =~= Seq::<ItemV>::empty());
    assert(texts(names@) =~= Seq::<Seq<char>>::empty());
    while i < items.len()
        invariant
            i <= items@.len(),
            s == refs_view(items@),
            symbol_names(s.subrange(0, i as int)) == Ok::<Seq<Seq<char>>, ExnV>(texts(names@)),
        decreases items.len() - i,
    {
        assert(s.subrange(0, i + 1).drop_last() =~= s.subrange(0, i as int));
        assert(s.subrange(0, i + 1).last() == items@[i as int]@);
        match &items[i].exp {
            Exp::Symbol(name) => {
                let ghost before = names@;
                let t = clone_text(name);
                names.push(t);
                assert(texts(names@) =~= texts(before).push(t@));
            },
            _ => {
                let kind = items[i].exp.kind_name();
                let e = Exn::typ(items[i].meta.duplicate(), "symbol", kind.as_str());
                proof { lemma_names_err_stays(s, i + 1); }
                return Err(e);
            },
        }
        i = i + 1;
    }
    assert(s.subrange(0, i as int) =~= s);
    Ok(names)
}

/// `(define sym expr)` binds the value of expr; `(define (f p ...) body)` binds a lambda.
pub fn prim_define(env: &mut Env, meta: &Meta, args: &Item, fuel: usize) -> (r: Result<Item, Exn>)
    ensures
        (final(env)@, result_view(r)) == define_sem(old(env)@, meta@, args@, fuel as nat),
    decreases fuel, 3nat, 0nat,
{
    let items = list_refs(args);
    if items.len() != 2 {
        return Err(Exn::arity(meta.duplicate(), 2, items.len()));
    }
    let left = items[0];
    let right = items[1];
    match &left.exp {
        Exp::Symbol(k) => {
            let v = match eval_with(env, right, fuel) {
                Ok(v) => v,
                Err(e) => return Err(e),
            };
            env.set(clone_text(k), v);
            Ok(Item::new(meta.duplicate(), Exp::Nil))
        },
        Exp::Pair(_) => {
            let parts = list_refs(left);
            if parts.len() < 1 {
                return Err(Exn::arity_at_least(meta.duplicate(), 1, 0));
            }
            let mut names = match symbol_names_of(&parts) {
                Ok(n) => n,
                Err(e) => return Err(e),
            };
            let ghost all = texts(names@);
            let key = names.remove(0);
            assert(texts(names@) =~= all.drop_first());
            let lambda = Exp::Lambda(Lambda { params: Rc::new(names), body: Rc::new(right.duplicate()) });
            env.set(key, Item::new(left.meta.duplicate(), lambda));
            Ok(Item::new(meta.duplicate(), Exp::Nil))
        },
        _ => {
            let kind = left.exp.kind_name();
            Err(Exn::typ(left.meta.duplicate(), "symbol", kind.as_str()))
        },
    }
}

/// `(lambda (p ...) body)`: a procedure of the parameters.
pub fn prim_lambda(env: &mut Env, meta: &Meta, args: &Item) -> (r: Result<Item, Exn>)
    ensures
        (final(env)@, result_view(r)) == lambda_sem(old(env)@, meta@, args@),
{
    let items = list_refs(args);
    if items.len() != 2 {
        return Err(Exn::arity(meta.duplicate(), 2, items.len()));
    }
    let params = items[0];
    match &params.exp {
        Exp::Pair(_) | Exp::Nil => {},
        _ => {
            let kind = params.exp.kind_name();
            return Err(Exn::typ(params.meta.duplicate(), "pair", kind.as_str()));
        },
    }
    let names = match symbol_names_of(&list_refs(params)) {
        Ok(n) => n,
        Err(e) => return Err(e),
    };
    Ok(Item::new(meta.duplicate(), Exp::Lambda(Lambda { params: Rc::new(names), body: Rc::new(items[1].duplicate()) })))
}

fn is_false_exp(e: &Exp) -> (r: bool)
    ensures
        r == is_false(e@),
{
    match e {
        Exp::Boolean(b) => !*b,
        _ => false,
    }
}

/// `(if test then else)`: only `#f` is false.
pub fn prim_if(env: &mut Env, meta: &Meta, args: &Item, fuel: usize) -> (r: Result<Item, Exn>)
    ensures
        (final(env)@, result_view(r)) == if_sem(old(env)@, meta@, args@, fuel as nat),
    decreases fuel, 3nat, 0nat,
{
    let items = list_refs(args);
    if items.len() != 3 {
        return Err(Exn::arity(meta.duplicate(), 3, items.len()));
    }
    let test = match eval_with(env, items[0], fuel) {
        Ok(t) => t,
        Err(e) => return Err(e),
    };
    let branch = if is_false_exp(&test.exp) { items[2] } else { items[1] };
    match eval_with(env, branch, fuel) {
        Ok(v) => Ok(Item::new(meta.duplicate(), v.exp)),
        Err(e) => Err(e),
    }
}

/// Evaluates `bodies` in order and gives the value of the last, or Nil when there is none.
fn eval_body(env: &mut Env, bodies: &Vec<&Item>, fuel: usize) -> (r: Result<Exp, Exn>)
    ensures
        (final(env)@, match r { Ok(x) => Ok(x@), Err(e) => Err(e@) })
            == body_sem(old(env)@, refs_view(bodies@), 0, ExpV::Nil, fuel as nat),
    decreases fuel, 1nat, 0nat,
{
    let ghost bs = refs_view(bodies@);
    let ghost e0 = env@;
    let mut acc = Exp::Nil;
    let mut j: usize = 0;
    while j < bodies.len()
        invariant
            j <= bodies@.len(),
            bs == refs_view(bodies@),
            e0 == old(env)@,
            body_sem(e0, bs, 0, ExpV::Nil, fuel as nat) == body_sem(env@, bs, j as int, acc@, fuel as nat),
        decreases bodies.len() - j,
    {
        assert(bs[j as int] == bodies@[j as int]@);
        match eval_with(env, bodies[j], fuel) {
            Ok(v) => {
                acc = v.exp;
            },
            Err(e) => return Err(e),
        }
        j = j + 1;
    }
    Ok(acc)
}

fn is_else_exp(e: &Exp) -> (r: bool)
    ensures
        r == is_else(e@),
{
    match e {
        Exp::Symbol(s) => {
            let word = String::from_str("else");
            proof { reveal_strlit("else"); }
            *s == word
        },
        _ => false,
    }
}

fn eval_clauses(env: &mut Env, cls: &Vec<&Item>, meta: &Meta, fuel: usize) -> (r: Result<Item, Exn>)
    ensures
        (final(env)@, result_view(r)) == clauses_sem(old(env)@, refs_view(cls@), 0, meta@, fuel as nat),
    decreases fuel, 2nat, 0nat,
{
    let ghost cs = refs_view(cls@);
    let ghost e0 = env@;
    let mut i: usize = 0;
    while i < cls.len()
        invariant
            i <= cls@.len(),
            cs == refs_view(cls@),
            e0 == old(env)@,
            clauses_sem(e0, cs, 0, meta@, fuel as nat) == clauses_sem(env@, cs, i as int, meta@, fuel as nat),
        decreases cls.len() - i,
    {
        assert(cs[i as int] == cls@[i as int]@);
        let mut parts = list_refs(cls[i]);
        if parts.len() < 1 {
            return Err(Exn::arity_at_least(meta.duplicate(), 1, 0));
        }
        let ghost pv = refs_view(parts@);
        let test = parts[0];
        let bodies = parts.split_off(1);
        assert(refs_view(bodies@) =~= pv.subrange(1, pv.len() as int));
        if is_else_exp(&test.exp) {
            if bodies.len() == 0 {
                return Err(Exn::arity_at_least(meta.duplicate(), 1, 0));
            }
            return match eval_body(env, &bodies, fuel) {
                Ok(x) => Ok(Item::new(meta.duplicate(), x)),
                Err(e) => Err(e),
            };
        }
        let t = match eval_with(env, test, fuel) {
            Ok(t) => t,
            Err(e) => return Err(e),
        };
        if !is_false_exp(&t.exp) {
            return match eval_body(env, &bodies, fuel) {
                Ok(x) => Ok(Item::new(meta.duplicate(), x)),
                Err(e) => Err(e),
            };
        }
        i = i + 1;
    }
    Ok(Item::new(meta.duplicate(), Exp::Nil))
}

/// `(cond (test body ...) ...)`: the bodies of the first clause whose test is not `#f`.
pub fn prim_cond(env: &mut Env, meta: &Meta, args: &Item, fuel: usize) -> (r: Result<Item, Exn>)
    ensures
        (final(env)@, result_view(r)) == cond_sem(old(env)@, meta@, args@, fuel as nat),
    decreases fuel, 3nat, 0nat,
{
    let cls = list_refs(args);
    if cls.len() < 1 {
        return Err(Exn::arity_at_least(meta.duplicate(), 1, 0));
    }
    eval_clauses(env, &cls, meta, fuel)
}

/// `(or x ...)`: `#t` when some value is not `#f`.
pub fn prim_or(env: &mut Env, meta: &Meta, args: &Item, fuel: usize) -> (r: Result<Item, Exn>)
    ensures
        (final(env)@, result_view(r)) == or_sem(old(env)@, meta@, args@, fuel as nat),
    decreases fuel, 3nat, 0nat,
{
    let items = list_refs(args);
    let vals = match eval_each(env, &items, false, fuel) {
        Ok(v) => v,
        Err(e) => return Err(e),
    };
    let ghost vs = items_view(vals@);
    let mut found = false;
    let mut i: usize = 0;
    while i < vals.len()
        invariant
            i <= vals@.len(),
            vs == items_view(vals@),
            found == exists|j: int| 0 <= j < i && !is_false(#[trigger] vs[j].exp),
        decreases vals.len() - i,
    {
        assert(vs[i as int] == vals@[i as int]@);
        if !is_false_exp(&vals[i].exp) {
            found = true;
            assert(!is_false(vs[i as int].exp));
        }
        proof {
            if !found {
                assert forall|j: int| 0 <= j < i + 1 implies is_false(#[trigger] vs[j].exp) by {
                    if j == i {
                    }
                }
            }
        }
        i = i + 1;
    }
    Ok(Item::new(meta.duplicate(), Exp::Boolean(found)))
}

/// `(and x ...)`: `#f` when some value is `#f`.
pub fn prim_and(env: &mut Env, meta: &Meta, args: &Item, fuel: usize) -> (r: Result<Item, Exn>)
    ensures
        (final(env)@, result_view(r)) == and_sem(old(env)@, meta@, args@, fuel as nat),
    decreases fuel, 3nat, 0nat,
{
    let items = list_refs(args);
    let vals = match eval_each(env, &items, false, fuel) {
        Ok(v) => v,
        Err(e) => return Err(e),
    };
    let ghost vs = items_view(vals@);
    let mut all = true;
    let mut i: usize = 0;
    while i < vals.len()
        invariant
            i <= vals@.len(),
            vs == items_view(vals@),
            all == forall|j: int| 0 <= j < i ==> !is_false(#[trigger] vs[j].exp),
        decreases vals.len() - i,
    {
        assert(vs[i as int] == vals@[i as int]@);
        if is_false_exp(&vals[i].exp) {
            all = false;
            assert(is_false(vs[i as int].exp));
        }
        proof {
            if all {
                assert forall|j: int| 0 <= j < i + 1 implies !is_false(#[trigger] vs[j].exp) by {
                    if j == i {
                    }
                }
            }
        }
        i = i + 1;
    }
    Ok(Item::new(meta.duplicate(), Exp::Boolean(all)))
}

/// `(car p)`: the first half of a pair.
pub fn prim_car(env: &mut Env, meta: &Meta, args: &Item, fuel: usize) -> (r: Result<Item, Exn>)
    ensures
        (final(env)@, result_view(r)) == car_sem(old(env)@, meta@, args@, fuel as nat),
    decreases fuel, 3nat, 0nat,
{
    let items = list_refs(args);
    if items.len() != 1 {
        return Err(Exn::arity(meta.duplicate(), 1, items.len()));
    }
    let v = match eval_with(env, items[0], fuel) {
        Ok(v) => v,
        Err(e) => return Err(e),
    };
    match &v.exp {
        Exp::Pair(c) => Ok(Item::new(meta.duplicate(), c.car.exp.duplicate())),
        _ => {
            let kind = v.exp.kind_name();
            Err(Exn::typ(v.meta.duplicate(), "pair", kind.as_str()))
        },
    }
}

/// `(cdr p)`: the second half of a pair.
pub fn prim_cdr(env: &mut Env, meta: &Meta, args: &Item, fuel: usize) -> (r: Result<Item, Exn>)
    ensures
        (final(env)@, result_view(r)) == cdr_sem(old(env)@, meta@, args@, fuel as nat),
    decreases fuel, 3nat, 0nat,
{
    let items = list_refs(args);
    if items.len() != 1 {
        return Err(Exn::arity(meta.duplicate(), 1, items.len()));
    }
    let v = match eval_with(env, items[0], fuel) {
        Ok(v) => v,
        Err(e) => return Err(e),
    };
    match &v.exp {
        Exp::Pair(c) => Ok(Item::new(meta.duplicate(), c.cdr.exp.duplicate())),
        _ => {
            let kind = v.exp.kind_name();
            Err(Exn::typ(v.meta.duplicate(), "pair", kind.as_str()))
        },
    }
}

/// `(cons a d)`: a new pair.
pub fn prim_cons(env: &mut Env, meta: &Meta, args: &Item, fuel: usize) -> (r: Result<Item, Exn>)
    ensures
        (final(env)@, result_view(r)) == cons_sem(old(env)@, meta@, args@, fuel as nat),
    decreases fuel, 3nat, 0nat,
{
    let items = list_refs(args);
    if items.len() != 2 {
        return Err(Exn::arity(meta.duplicate(), 2, items.len()));
    }
    let vals = match eval_each(env, &items, false, fuel) {
        Ok(v) => v,
        Err(e) => return Err(e),
    };
    assert(items_view(vals@)[0] == vals@[0]@);
    assert(items_view(vals@)[1] == vals@[1]@);
    Ok(Item::cons(meta.duplicate(), vals[0].duplicate(), vals[1].duplicate()))
}

/// `(list x ...)`: the list of the values.
pub fn prim_list(env: &mut Env, meta: &Meta, args: &Item, fuel: usize) -> (r: Result<Item, Exn>)
    ensures
        (final(env)@, result_view(r)) == list_sem(old(env)@, meta@, args@, fuel as nat),
    decreases fuel, 3nat, 0nat,
{
    match &args.exp {
        Exp::Pair(c) => match eval_list(env, c, fuel) {
            Ok(c2) => Ok(Item::new(meta.duplicate(), Exp::Pair(c2))),
            Err(e) => Err(e),
        },
        _ => Ok(Item::new(meta.duplicate(), Exp::Nil)),
    }
}

/// `(quote x)`: x itself, unevaluated.
pub fn prim_quote(env: &mut Env, meta: &Meta, args: &Item) -> (r: Result<Item, Exn>)
    ensures
        (final(env)@, result_view(r)) == quote_sem(old(env)@, meta@, args@),
{
    let items = list_refs(args);
    if items.len() != 1 {
        return Err(Exn::arity(meta.duplicate(), 1, items.len()));
    }
    Ok(Item::new(meta.duplicate(), items[0].exp.duplicate()))
}

/// `(display x)`: writes the printed form of x as a line of output.
pub fn prim_display(env: &mut Env, meta: &Meta, args: &Item, fuel: usize) -> (r: Result<Item, Exn>)
    ensures
        (final(env)@, result_view(r)) == display_sem(old(env)@, meta@, args@, fuel as nat),
    decreases fuel, 3nat, 0nat,
{
    let items = list_refs(args);
    if items.len() != 1 {
        return Err(Exn::arity(meta.duplicate(), 1, items.len()));
    }
    let v = match eval_with(env, items[0], fuel) {
        Ok(v) => v,
        Err(e) => return Err(e),
    };
    let ghost before = env@;
    let line = v.exp.format();
    env.output.push(line);
    assert(env@.output =~= before.output.push(line@));
    Ok(Item::new(meta.duplicate(), Exp::Nil))
}

} // verus!
