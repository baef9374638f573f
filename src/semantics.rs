//! The meaning of evaluation, stated over the mathematical model of values and
//! environments. The executable evaluator is proved to compute exactly this.
use vstd::prelude::*;
use crate::exception::{MetaV, ExnV, Arity, arity_err, type_err, other_err};
use crate::ast::{ItemV, ExpV, CellV, PrimOp, mk, pair, list_items, type_name_of, printed};
use crate::parser::fits_i64;

verus! {

/// An environment: the bindings of all scopes, outermost first; the index at
/// which the innermost scope begins; and the lines that `display` wrote.
pub struct EnvV {
    pub bindings: Seq<(Seq<char>, ItemV)>,
    pub scope_start: nat,
    pub output: Seq<Seq<char>>,
}

/// The innermost binding of `key` among the first `n` bindings.
pub open spec fn lookup_in(bs: Seq<(Seq<char>, ItemV)>, key: Seq<char>, n: int) -> Option<ItemV>
    decreases n,
{
    if n <= 0 {
        None
    } else if bs[n - 1].0 == key {
        Some(bs[n - 1].1)
    } else {
        lookup_in(bs, key, n - 1)
    }
}

/// What a symbol is bound to: the innermost scope that binds it decides.
pub open spec fn lookup(e: EnvV, key: Seq<char>) -> Option<ItemV> {
    lookup_in(e.bindings, key, e.bindings.len() as int)
}

/// The index of the binding of `key` among the bindings `start..n`, the last one first.
pub open spec fn scope_index(bs: Seq<(Seq<char>, ItemV)>, key: Seq<char>, start: int, n: int) -> Option<int>
    decreases n - start,
{
    if n <= start {
        None
    } else if bs[n - 1].0 == key {
        Some(n - 1)
    } else {
        scope_index(bs, key, start, n - 1)
    }
}

/// Binds `key` in the innermost scope, replacing a binding of it there.
pub open spec fn env_set(e: EnvV, key: Seq<char>, v: ItemV) -> EnvV {
    match scope_index(e.bindings, key, e.scope_start as int, e.bindings.len() as int) {
        Some(i) => EnvV { bindings: e.bindings.update(i, (key, v)), ..e },
        None => EnvV { bindings: e.bindings.push((key, v)), ..e },
    }
}

/// Binds the first `n` parameters to the first `n` arguments, in order.
pub open spec fn bind_params(e: EnvV, params: Seq<Seq<char>>, args: Seq<ItemV>, n: nat) -> EnvV
    decreases n,
{
    if n == 0 {
        e
    } else {
        let prev = bind_params(e, params, args, (n - 1) as nat);
        env_set(prev, params[n - 1], args[n - 1])
    }
}

/// The environment after a call returns: the callee's scope is gone, the
/// caller's scope is back, and what was displayed stays.
pub open spec fn leave_scope(after: EnvV, caller: EnvV) -> EnvV {
    EnvV {
        bindings: if after.bindings.len() >= caller.bindings.len() {
            after.bindings.subrange(0, caller.bindings.len() as int)
        } else {
            after.bindings
        },
        scope_start: caller.scope_start,
        output: after.output,
    }
}

/// The environment in which a lambda's body runs: a new scope over the caller's.
pub open spec fn enter_scope(e: EnvV) -> EnvV {
    EnvV { scope_start: e.bindings.len(), ..e }
}

pub open spec fn too_deep() -> Seq<char> {
    "recursion too deep"@
}

pub open spec fn undefined_symbol() -> Seq<char> {
    "tried to look up undefined symbol"@
}

pub open spec fn overflow() -> Seq<char> {
    "integer overflow"@
}

/// The numbers held by values already known to be numbers.
pub open spec fn numbers(vs: Seq<ItemV>) -> Seq<int> {
    vs.map_values(|v: ItemV| match v.exp {
        ExpV::Number(n) => n,
        _ => 0,
    })
}

/// The sum of `ns`, or `None` when a partial sum leaves the range of `i64`.
pub open spec fn checked_sum(ns: Seq<int>) -> Option<int>
    decreases ns.len(),
{
    if ns.len() == 0 {
        Some(0)
    } else {
        match checked_sum(ns.drop_last()) {
            Some(s) => if fits_i64(s + ns.last()) { Some(s + ns.last()) } else { None },
            None => None,
        }
    }
}

/// `ns[0] - ns[1] - ...`, or `None` when a partial difference leaves the range of `i64`.
pub open spec fn checked_difference(ns: Seq<int>) -> Option<int>
    decreases ns.len(),
{
    if ns.len() <= 1 {
        if ns.len() == 1 { Some(ns[0]) } else { Some(0) }
    } else {
        match checked_difference(ns.drop_last()) {
            Some(d) => if fits_i64(d - ns.last()) { Some(d - ns.last()) } else { None },
            None => None,
        }
    }
}

/// The names of a sequence of symbols, or a type error at the first value that is none.
pub open spec fn symbol_names(items: Seq<ItemV>) -> Result<Seq<Seq<char>>, ExnV>
    decreases items.len(),
{
    if items.len() == 0 {
        Ok(Seq::empty())
    } else {
        match symbol_names(items.drop_last()) {
            Err(e) => Err(e),
            Ok(names) => match items.last().exp {
                ExpV::Symbol(s) => Ok(names.push(s)),
                _ => Err(type_err(items.last().meta, "symbol"@, type_name_of(items.last().exp))),
            },
        }
    }
}

pub open spec fn is_false(e: ExpV) -> bool {
    e == ExpV::Boolean(false)
}

/// The list `l` with its elements replaced, in order, by `vals`; cells,
/// locations and the final cdr stay.
pub open spec fn rebuild(l: ItemV, vals: Seq<ItemV>) -> ItemV
    decreases l,
{
    match l.exp {
        ExpV::Pair(c) => if (c.car.exp is Nil && c.cdr.exp is Nil) || vals.len() == 0 {
            l
        } else {
            pair(l.meta, vals[0], rebuild(*c.cdr, vals.drop_first()))
        },
        _ => l,
    }
}

pub open spec fn cell_item(c: CellV) -> ItemV {
    ItemV { meta: crate::exception::empty_meta(), exp: ExpV::Pair(c) }
}

pub open spec fn cell_of(l: ItemV, default: CellV) -> CellV {
    match l.exp {
        ExpV::Pair(c) => c,
        _ => default,
    }
}

pub open spec fn check_exact(items: Seq<ItemV>, n: nat, meta: MetaV) -> Option<ExnV> {
    if items.len() != n {
        Some(arity_err(meta, Arity::Exact(n as usize), items.len()))
    } else {
        None
    }
}

pub open spec fn is_else(e: ExpV) -> bool {
    e == ExpV::Symbol("else"@)
}

// ---------------------------------------------------------------------------
// Evaluation

/// Evaluates `item` in `e` with `fuel` nested calls left: the environment
/// afterwards and the value or the diagnostic.
pub open spec fn eval_sem(e: EnvV, item: ItemV, fuel: nat) -> (EnvV, Result<ItemV, ExnV>)
    decreases fuel, 0nat, 0nat,
{
    match item.exp {
        ExpV::Pair(c) => if c.car.exp is Nil && c.cdr.exp is Nil {
            (e, Ok(mk(item.meta, ExpV::Nil)))
        } else if fuel == 0 {
            (e, Err(other_err(item.meta, too_deep())))
        } else {
            apply_sem(e, *c.car, *c.cdr, item.meta, (fuel - 1) as nat)
        },
        ExpV::Symbol(s) => match lookup(e, s) {
            Some(v) => (e, Ok(v)),
            None => (e, Err(other_err(item.meta, undefined_symbol()))),
        },
        _ => (e, Ok(item)),
    }
}

/// A combination: `head` is evaluated, then applied to the unevaluated `args`.
pub open spec fn apply_sem(e: EnvV, head: ItemV, args: ItemV, meta: MetaV, fuel: nat) -> (EnvV, Result<ItemV, ExnV>)
    decreases fuel, 6nat, 0nat,
{
    let (e1, r) = eval_sem(e, head, fuel);
    match r {
        Err(x) => (e1, Err(x)),
        Ok(f) => match f.exp {
            ExpV::Primitive(op) => prim_sem(op, e1, meta, args, fuel),
            ExpV::Lambda(params, body) => {
                let items = list_items(args);
                if items.len() != params.len() {
                    (e1, Err(arity_err(meta, Arity::Exact(params.len() as usize), items.len())))
                } else {
                    let (e2, r2) = eval_each_sem(e1, items, false, fuel);
                    match r2 {
                        Err(x) => (e2, Err(x)),
                        Ok(vs) => {
                            let scope = bind_params(enter_scope(e2), params, vs, params.len());
                            let (e3, r3) = eval_sem(scope, *body, fuel);
                            (leave_scope(e3, e2), r3)
                        },
                    }
                }
            },
            _ => (e1, Err(type_err(meta, "procedure"@, type_name_of(f.exp)))),
        },
    }
}

/// Evaluates `items` left to right; with `numeric`, each value must be a number.
pub open spec fn eval_each_sem(e: EnvV, items: Seq<ItemV>, numeric: bool, fuel: nat) -> (EnvV, Result<Seq<ItemV>, ExnV>)
    decreases fuel, 1nat, items.len(),
{
    if items.len() == 0 {
        (e, Ok(Seq::empty()))
    } else {
        let (e1, r1) = eval_each_sem(e, items.drop_last(), numeric, fuel);
        match r1 {
            Err(x) => (e1, Err(x)),
            Ok(vs) => {
                let (e2, r2) = eval_sem(e1, items.last(), fuel);
                match r2 {
                    Err(x) => (e2, Err(x)),
                    Ok(v) => if numeric && !(v.exp is Number) {
                        (e2, Err(type_err(v.meta, "number"@, type_name_of(v.exp))))
                    } else {
                        (e2, Ok(vs.push(v)))
                    },
                }
            },
        }
    }
}

/// Evaluates the elements of a list, keeping its cells.
pub open spec fn eval_list_sem(e: EnvV, c: CellV, fuel: nat) -> (EnvV, Result<CellV, ExnV>)
    decreases fuel, 2nat, 0nat,
{
    let (e1, r) = eval_each_sem(e, list_items(cell_item(c)), false, fuel);
    match r {
        Err(x) => (e1, Err(x)),
        Ok(vs) => (e1, Ok(cell_of(rebuild(cell_item(c), vs), c))),
    }
}

/// Evaluates `bodies[j..]` in order; the value of the last one, or `acc` when none is left.
pub open spec fn body_sem(e: EnvV, bodies: Seq<ItemV>, j: int, acc: ExpV, fuel: nat) -> (EnvV, Result<ExpV, ExnV>)
    decreases fuel, 1nat, bodies.len() - j,
{
    if j < 0 || j >= bodies.len() {
        (e, Ok(acc))
    } else {
        let (e1, r) = eval_sem(e, bodies[j], fuel);
        match r {
            Err(x) => (e1, Err(x)),
            Ok(v) => body_sem(e1, bodies, j + 1, v.exp, fuel),
        }
    }
}

/// Tries the clauses `cls[i..]` of a `cond` in order.
pub open spec fn clauses_sem(e: EnvV, cls: Seq<ItemV>, i: int, meta: MetaV, fuel: nat) -> (EnvV, Result<ItemV, ExnV>)
    decreases fuel, 2nat, cls.len() - i,
{
    if i < 0 || i >= cls.len() {
        (e, Ok(mk(meta, ExpV::Nil)))
    } else {
        let parts = list_items(cls[i]);
        if parts.len() < 1 {
            (e, Err(arity_err(meta, Arity::AtLeast(1), 0)))
        } else {
            let test = parts[0];
            let bodies = parts.subrange(1, parts.len() as int);
            if is_else(test.exp) {
                if bodies.len() == 0 {
                    (e, Err(arity_err(meta, Arity::AtLeast(1), 0)))
                } else {
                    let (e1, r) = body_sem(e, bodies, 0, ExpV::Nil, fuel);
                    (e1, match r { Ok(x) => Ok(mk(meta, x)), Err(x) => Err(x) })
                }
            } else {
                let (e1, r) = eval_sem(e, test, fuel);
                match r {
                    Err(x) => (e1, Err(x)),
                    Ok(t) => if is_false(t.exp) {
                        clauses_sem(e1, cls, i + 1, meta, fuel)
                    } else {
                        let (e2, r2) = body_sem(e1, bodies, 0, ExpV::Nil, fuel);
                        (e2, match r2 { Ok(x) => Ok(mk(meta, x)), Err(x) => Err(x) })
                    },
                }
            }
        }
    }
}

/// A primitive applied to its unevaluated arguments.
pub open spec fn prim_sem(op: PrimOp, e: EnvV, meta: MetaV, args: ItemV, fuel: nat) -> (EnvV, Result<ItemV, ExnV>)
    decreases fuel, 5nat, 0nat,
{
    match op {
        PrimOp::Plus => plus_sem(e, meta, args, fuel),
        PrimOp::Minus => minus_sem(e, meta, args, fuel),
        PrimOp::Define => define_sem(e, meta, args, fuel),
        PrimOp::Lambda => lambda_sem(e, meta, args),
        PrimOp::If => if_sem(e, meta, args, fuel),
        PrimOp::Cond => cond_sem(e, meta, args, fuel),
        PrimOp::Or => or_sem(e, meta, args, fuel),
        PrimOp::And => and_sem(e, meta, args, fuel),
        PrimOp::Car => car_sem(e, meta, args, fuel),
        PrimOp::Cdr => cdr_sem(e, meta, args, fuel),
        PrimOp::Cons => cons_sem(e, meta, args, fuel),
        PrimOp::List => list_sem(e, meta, args, fuel),
        PrimOp::Quote => quote_sem(e, meta, args),
        PrimOp::Display => display_sem(e, meta, args, fuel),
    }
}

/// `(+ n ...)`: the sum of the numbers, 0 for none.
pub open spec fn plus_sem(e: EnvV, meta: MetaV, args: ItemV, fuel: nat) -> (EnvV, Result<ItemV, ExnV>)
    decreases fuel, 3nat, 0nat,
{
    let (e1, r) = eval_each_sem(e, list_items(args), true, fuel);
    match r {
        Err(x) => (e1, Err(x)),
        Ok(vs) => match checked_sum(numbers(vs)) {
            Some(s) => (e1, Ok(mk(meta, ExpV::Number(s)))),
            None => (e1, Err(other_err(meta, overflow()))),
        },
    }
}

/// `(- n)` is the negation of n; `(- n m ...)` subtracts the others from n.
pub open spec fn minus_sem(e: EnvV, meta: MetaV, args: ItemV, fuel: nat) -> (EnvV, Result<ItemV, ExnV>)
    decreases fuel, 3nat, 0nat,
{
    let items = list_items(args);
    if items.len() < 1 {
        (e, Err(arity_err(meta, Arity::AtLeast(1), items.len())))
    } else {
        let (e1, r) = eval_each_sem(e, items, true, fuel);
        match r {
            Err(x) => (e1, Err(x)),
            Ok(vs) => {
                let ns = numbers(vs);
                let d = if ns.len() == 1 {
                    if fits_i64(-ns[0]) { Some(-ns[0]) } else { None }
                } else {
                    checked_difference(ns)
                };
                match d {
                    Some(n) => (e1, Ok(mk(meta, ExpV::Number(n)))),
                    None => (e1, Err(other_err(meta, overflow()))),
                }
            },
        }
    }
}

/// `(define sym expr)` binds the value of expr; `(define (f p ...) body)` binds a lambda.
pub open spec fn define_sem(e: EnvV, meta: MetaV, args: ItemV, fuel: nat) -> (EnvV, Result<ItemV, ExnV>)
    decreases fuel, 3nat, 0nat,
{
    let items = list_items(args);
    match check_exact(items, 2, meta) {
        Some(x) => (e, Err(x)),
        None => {
            let left = items[0];
            let right = items[1];
            match left.exp {
                ExpV::Symbol(k) => {
                    let (e1, r) = eval_sem(e, right, fuel);
                    match r {
                        Ok(v) => (env_set(e1, k, v), Ok(mk(meta, ExpV::Nil))),
                        Err(x) => (e1, Err(x)),
                    }
                },
                ExpV::Pair(_) => {
                    let parts = list_items(left);
                    if parts.len() < 1 {
                        (e, Err(arity_err(meta, Arity::AtLeast(1), 0)))
                    } else {
                        match symbol_names(parts) {
                            Err(x) => (e, Err(x)),
                            Ok(names) => (
                                env_set(e, names[0], mk(left.meta, ExpV::Lambda(names.drop_first(), Box::new(right)))),
                                Ok(mk(meta, ExpV::Nil)),
                            ),
                        }
                    }
                },
                _ => (e, Err(type_err(left.meta, "symbol"@, type_name_of(left.exp)))),
            }
        },
    }
}

/// `(lambda (p ...) body)`: a procedure of the parameters.
pub open spec fn lambda_sem(e: EnvV, meta: MetaV, args: ItemV) -> (EnvV, Result<ItemV, ExnV>) {
    let items = list_items(args);
    match check_exact(items, 2, meta) {
        Some(x) => (e, Err(x)),
        None => {
            let params = items[0];
            if !(params.exp is Pair || params.exp is Nil) {
                (e, Err(type_err(params.meta, "pair"@, type_name_of(params.exp))))
            } else {
                match symbol_names(list_items(params)) {
                    Err(x) => (e, Err(x)),
                    Ok(names) => (e, Ok(mk(meta, ExpV::Lambda(names, Box::new(items[1]))))),
                }
            }
        },
    }
}

/// `(if test then else)`: only `#f` is false.
pub open spec fn if_sem(e: EnvV, meta: MetaV, args: ItemV, fuel: nat) -> (EnvV, Result<ItemV, ExnV>)
    decreases fuel, 3nat, 0nat,
{
    let items = list_items(args);
    match check_exact(items, 3, meta) {
        Some(x) => (e, Err(x)),
        None => {
            let (e1, r) = eval_sem(e, items[0], fuel);
            match r {
                Err(x) => (e1, Err(x)),
                Ok(t) => {
                    let branch = if is_false(t.exp) { items[2] } else { items[1] };
                    let (e2, r2) = eval_sem(e1, branch, fuel);
                    (e2, match r2 { Ok(v) => Ok(mk(meta, v.exp)), Err(x) => Err(x) })
                },
            }
        },
    }
}

/// `(cond (test body ...) ...)`: the bodies of the first clause whose test is not `#f`.
pub open spec fn cond_sem(e: EnvV, meta: MetaV, args: ItemV, fuel: nat) -> (EnvV, Result<ItemV, ExnV>)
    decreases fuel, 3nat, 0nat,
{
    let cls = list_items(args);
    if cls.len() < 1 {
        (e, Err(arity_err(meta, Arity::AtLeast(1), 0)))
    } else {
        clauses_sem(e, cls, 0, meta, fuel)
    }
}

/// `(or x ...)`: `#t` when some value is not `#f`.
pub open spec fn or_sem(e: EnvV, meta: MetaV, args: ItemV, fuel: nat) -> (EnvV, Result<ItemV, ExnV>)
    decreases fuel, 3nat, 0nat,
{
    let (e1, r) = eval_each_sem(e, list_items(args), false, fuel);
    match r {
        Err(x) => (e1, Err(x)),
        Ok(vs) => (e1, Ok(mk(meta, ExpV::Boolean(exists|i: int| 0 <= i < vs.len() && !is_false(#[trigger] vs[i].exp))))),
    }
}

/// `(and x ...)`: `#f` when some value is `#f`.
pub open spec fn and_sem(e: EnvV, meta: MetaV, args: ItemV, fuel: nat) -> (EnvV, Result<ItemV, ExnV>)
    decreases fuel, 3nat, 0nat,
{
    let (e1, r) = eval_each_sem(e, list_items(args), false, fuel);
    match r {
        Err(x) => (e1, Err(x)),
        Ok(vs) => (e1, Ok(mk(meta, ExpV::Boolean(forall|i: int| 0 <= i < vs.len() ==> !is_false(#[trigger] vs[i].exp))))),
    }
}

/// `(car p)`: the first half of a pair.
pub open spec fn car_sem(e: EnvV, meta: MetaV, args: ItemV, fuel: nat) -> (EnvV, Result<ItemV, ExnV>)
    decreases fuel, 3nat, 0nat,
{
    let items = list_items(args);
    match check_exact(items, 1, meta) {
        Some(x) => (e, Err(x)),
        None => {
            let (e1, r) = eval_sem(e, items[0], fuel);
            match r {
                Err(x) => (e1, Err(x)),
                Ok(v) => match v.exp {
                    ExpV::Pair(c) => (e1, Ok(mk(meta, c.car.exp))),
                    _ => (e1, Err(type_err(v.meta, "pair"@, type_name_of(v.exp)))),
                },
            }
        },
    }
}

/// `(cdr p)`: the second half of a pair.
pub open spec fn cdr_sem(e: EnvV, meta: MetaV, args: ItemV, fuel: nat) -> (EnvV, Result<ItemV, ExnV>)
    decreases fuel, 3nat, 0nat,
{
    let items = list_items(args);
    match check_exact(items, 1, meta) {
        Some(x) => (e, Err(x)),
        None => {
            let (e1, r) = eval_sem(e, items[0], fuel);
            match r {
                Err(x) => (e1, Err(x)),
                Ok(v) => match v.exp {
                    ExpV::Pair(c) => (e1, Ok(mk(meta, c.cdr.exp))),
                    _ => (e1, Err(type_err(v.meta, "pair"@, type_name_of(v.exp)))),
                },
            }
        },
    }
}

/// `(cons a d)`: a new pair.
pub open spec fn cons_sem(e: EnvV, meta: MetaV, args: ItemV, fuel: nat) -> (EnvV, Result<ItemV, ExnV>)
    decreases fuel, 3nat, 0nat,
{
    let items = list_items(args);
    match check_exact(items, 2, meta) {
        Some(x) => (e, Err(x)),
        None => {
            let (e1, r) = eval_each_sem(e, items, false, fuel);
            match r {
                Err(x) => (e1, Err(x)),
                Ok(vs) => (e1, Ok(pair(meta, vs[0], vs[1]))),
            }
        },
    }
}

/// `(list x ...)`: the list of the values.
pub open spec fn list_sem(e: EnvV, meta: MetaV, args: ItemV, fuel: nat) -> (EnvV, Result<ItemV, ExnV>)
    decreases fuel, 3nat, 0nat,
{
    match args.exp {
        ExpV::Pair(c) => {
            let (e1, r) = eval_list_sem(e, c, fuel);
            match r {
                Err(x) => (e1, Err(x)),
                Ok(c2) => (e1, Ok(mk(meta, ExpV::Pair(c2)))),
            }
        },
        _ => (e, Ok(mk(meta, ExpV::Nil))),
    }
}

/// `(quote x)`: x itself, unevaluated.
pub open spec fn quote_sem(e: EnvV, meta: MetaV, args: ItemV) -> (EnvV, Result<ItemV, ExnV>) {
    let items = list_items(args);
    match check_exact(items, 1, meta) {
        Some(x) => (e, Err(x)),
        None => (e, Ok(mk(meta, items[0].exp))),
    }
}

/// `(display x)`: writes the printed form of x as a line of output.
pub open spec fn display_sem(e: EnvV, meta: MetaV, args: ItemV, fuel: nat) -> (EnvV, Result<ItemV, ExnV>)
    decreases fuel, 3nat, 0nat,
{
    let items = list_items(args);
    match check_exact(items, 1, meta) {
        Some(x) => (e, Err(x)),
        None => {
            let (e1, r) = eval_sem(e, items[0], fuel);
            match r {
                Err(x) => (e1, Err(x)),
                Ok(v) => (EnvV { output: e1.output.push(printed(v.exp)), ..e1 }, Ok(mk(meta, ExpV::Nil))),
            }
        },
    }
}

} // verus!
