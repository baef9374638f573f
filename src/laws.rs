//! Properties that hold of the evaluator for all inputs, proved from its semantics.
use vstd::prelude::*;
use crate::exception::{MetaV, ExnV};
use crate::ast::{ItemV, ExpV, PrimOp, CellV, mk, pair, list_items};
use crate::runtime::{initial_env, prim_item};
use crate::semantics::{EnvV, eval_sem, eval_each_sem, apply_sem, prim_sem, quote_sem, define_sem, list_sem, eval_list_sem, lookup, lookup_in, env_set, scope_index, rebuild, cell_item,
    cell_of};

verus! {

/// Numbers, booleans, lambdas, primitives and Nil evaluate to themselves and
/// leave the environment as it was.
pub proof fn self_evaluation(e: EnvV, item: ItemV, fuel: nat)
    requires
        item.exp is Number || item.exp is Boolean || item.exp is Lambda || item.exp is Primitive
            || item.exp is Nil,
    ensures
        eval_sem(e, item, fuel) == (e, Ok::<ItemV, ExnV>(item)),
{
}

/// The list `(a b)` as the reader builds it: each cell at the opening paren.
pub open spec fn list2(m: MetaV, a: ItemV, b: ItemV) -> ItemV {
    pair(m, a, pair(m, b, mk(m, ExpV::Nil)))
}

/// The list `(a b c)` as the reader builds it.
pub open spec fn list3(m: MetaV, a: ItemV, b: ItemV, c: ItemV) -> ItemV {
    pair(m, a, pair(m, b, pair(m, c, mk(m, ExpV::Nil))))
}

/// Whether `head` is a symbol bound in `e` to the primitive `op`.
pub open spec fn names_primitive(e: EnvV, head: ItemV, op: PrimOp) -> bool {
    &&& head.exp is Symbol
    &&& lookup(e, head.exp->Symbol_0) matches Some(v)
    &&& v.exp == ExpV::Primitive(op)
}

/// `(quote x)` evaluates to x itself, located at the combination, for every
/// datum the reader can produce (the reader never produces a bare Nil).
pub proof fn quote_identity(e: EnvV, m: MetaV, head: ItemV, x: ItemV, fuel: nat)
    requires
        names_primitive(e, head, PrimOp::Quote),
        !(x.exp is Nil),
        fuel >= 1,
    ensures
        eval_sem(e, list2(m, head, x), fuel) == (e, Ok::<ItemV, ExnV>(mk(m, x.exp))),
{
    let args = pair(m, x, mk(m, ExpV::Nil));
    let f = (fuel - 1) as nat;
    assert(list_items(mk(m, ExpV::Nil)) =~= Seq::<ItemV>::empty());
    assert(list_items(args) =~= seq![x]);
    let v = lookup(e, head.exp->Symbol_0)->Some_0;
    assert(eval_sem(e, head, f) == (e, Ok::<ItemV, ExnV>(v)));
    assert(prim_sem(PrimOp::Quote, e, m, args, f) == quote_sem(e, m, args));
    assert(apply_sem(e, head, args, m, f) == prim_sem(PrimOp::Quote, e, m, args, f));
    assert(eval_sem(e, list2(m, head, x), fuel) == apply_sem(e, head, args, m, f));
}

proof fn lemma_scope_index(bs: Seq<(Seq<char>, ItemV)>, k: Seq<char>, start: int, n: int)
    requires
        n <= bs.len(),
    ensures
        match scope_index(bs, k, start, n) {
            Some(i) => start <= i < n && bs[i].0 == k && forall|j: int| i < j < n ==> (#[trigger] bs[j]).0 != k,
            None => forall|j: int| start <= j < n ==> (#[trigger] bs[j]).0 != k,
        },
    decreases n - start,
{
    if n > start && bs[n - 1].0 != k {
        lemma_scope_index(bs, k, start, n - 1);
    }
}

proof fn lemma_lookup_skip(bs: Seq<(Seq<char>, ItemV)>, k: Seq<char>, m: int, n: int)
    requires
        0 <= m <= n <= bs.len(),
        forall|j: int| m <= j < n ==> (#[trigger] bs[j]).0 != k,
    ensures
        lookup_in(bs, k, n) == lookup_in(bs, k, m),
    decreases n - m,
{
    if n > m {
        lemma_lookup_skip(bs, k, m, n - 1);
    }
}

proof fn lemma_lookup_prefix(a: Seq<(Seq<char>, ItemV)>, b: Seq<(Seq<char>, ItemV)>, k: Seq<char>, n: int)
    requires
        0 <= n <= a.len(),
        n <= b.len(),
        forall|j: int| 0 <= j < n ==> a[j] == b[j],
    ensures
        lookup_in(a, k, n) == lookup_in(b, k, n),
    decreases n,
{
    if n > 0 {
        lemma_lookup_prefix(a, b, k, n - 1);
    }
}

/// After `k` is bound to `v` in the innermost scope, `k` is bound to `v`.
pub proof fn lookup_after_set(e: EnvV, k: Seq<char>, v: ItemV)
    ensures
        lookup(env_set(e, k, v), k) == Some(v),
{
    let bs = e.bindings;
    let n = bs.len() as int;
    lemma_scope_index(bs, k, e.scope_start as int, n);
    match scope_index(bs, k, e.scope_start as int, n) {
        Some(i) => {
            let nb = bs.update(i, (k, v));
            lemma_lookup_skip(nb, k, i + 1, n);
        },
        None => {},
    }
}

/// Bindings of other symbols in deeper scopes leave a lookup as it was.
pub proof fn lookup_through_deeper(e: EnvV, deeper: Seq<(Seq<char>, ItemV)>, start: nat, out: Seq<Seq<char>>, k: Seq<char>)
    requires
        forall|j: int| 0 <= j < deeper.len() ==> (#[trigger] deeper[j]).0 != k,
    ensures
        lookup(EnvV { bindings: e.bindings + deeper, scope_start: start, output: out }, k) == lookup(e, k),
{
    let all = e.bindings + deeper;
    let n = e.bindings.len() as int;
    assert forall|j: int| n <= j < all.len() implies (#[trigger] all[j]).0 != k by {
        assert(all[j] == deeper[j - n]);
    }
    lemma_lookup_skip(all, k, n, all.len() as int);
    lemma_lookup_prefix(all, e.bindings, k, n);
}

/// After `(define s x)` succeeds, `s` evaluates to the value of x, in the
/// scope where it was defined and in every deeper scope that does not bind
/// `s` again.
pub proof fn define_then_lookup(
    e: EnvV,
    m: MetaV,
    head: ItemV,
    name: ItemV,
    x: ItemV,
    fuel: nat,
    deeper: Seq<(Seq<char>, ItemV)>,
    start: nat,
    at: MetaV,
)
    requires
        names_primitive(e, head, PrimOp::Define),
        name.exp is Symbol,
        !(x.exp is Nil),
        forall|j: int| 0 <= j < deeper.len() ==> (#[trigger] deeper[j]).0 != name.exp->Symbol_0,
    ensures
        ({
            let (e1, r) = eval_sem(e, list3(m, head, name, x), fuel);
            let v = eval_sem(e, x, (fuel - 1) as nat).1->Ok_0;
            let inner = EnvV { bindings: e1.bindings + deeper, scope_start: start, output: e1.output };
            r is Ok ==> {
                &&& eval_sem(e1, mk(at, name.exp), fuel) == (e1, Ok::<ItemV, ExnV>(v))
                &&& eval_sem(inner, mk(at, name.exp), fuel) == (inner, Ok::<ItemV, ExnV>(v))
            }
        }),
{
    let s = name.exp->Symbol_0;
    let args = pair(m, name, pair(m, x, mk(m, ExpV::Nil)));
    assert(list_items(mk(m, ExpV::Nil)) =~= Seq::<ItemV>::empty());
    assert(list_items(pair(m, x, mk(m, ExpV::Nil))) =~= seq![x]);
    assert(list_items(args) =~= seq![name, x]);
    let (e1, r) = eval_sem(e, list3(m, head, name, x), fuel);
    if r is Ok {
        let f = (fuel - 1) as nat;
        let hv = lookup(e, head.exp->Symbol_0)->Some_0;
        assert(eval_sem(e, head, f) == (e, Ok::<ItemV, ExnV>(hv)));
        assert(prim_sem(PrimOp::Define, e, m, args, f) == define_sem(e, m, args, f));
        assert(apply_sem(e, head, args, m, f) == prim_sem(PrimOp::Define, e, m, args, f));
        assert(eval_sem(e, list3(m, head, name, x), fuel) == apply_sem(e, head, args, m, f));
        let (ex, rx) = eval_sem(e, x, (fuel - 1) as nat);
        let v = rx->Ok_0;
        assert(e1 == env_set(ex, s, v));
        lookup_after_set(ex, s, v);
        lookup_through_deeper(e1, deeper, start, e1.output, s);
    }
}

proof fn lemma_rebuild_items(l: ItemV, vs: Seq<ItemV>)
    requires
        vs.len() == list_items(l).len(),
        forall|i: int| 0 <= i < vs.len() ==> !((#[trigger] vs[i]).exp is Nil),
    ensures
        list_items(rebuild(l, vs)) == vs,
    decreases l,
{
    match l.exp {
        ExpV::Pair(c) => {
            if (c.car.exp is Nil && c.cdr.exp is Nil) || vs.len() == 0 {
                assert(vs =~= Seq::<ItemV>::empty());
            } else {
                lemma_rebuild_items(*c.cdr, vs.drop_first());
                assert(!(vs[0].exp is Nil));
                assert(vs =~= seq![vs[0]] + vs.drop_first());
            }
        },
        _ => {
            assert(vs =~= Seq::<ItemV>::empty());
        },
    }
}

/// `(list a ...)` gives a list as long as its arguments, whose elements read
/// along the cdrs are the arguments' values in order (when no value is a
/// bare Nil, which would end the walk early).
pub proof fn list_walks_to_arguments(e: EnvV, m: MetaV, head: ItemV, args: ItemV, fuel: nat)
    requires
        names_primitive(e, head, PrimOp::List),
        fuel >= 1,
    ensures
        ({
            let (e1, r) = eval_sem(e, pair(m, head, args), fuel);
            let (e2, rs) = eval_each_sem(e, list_items(args), false, (fuel - 1) as nat);
            &&& (r is Ok <==> rs is Ok)
            &&& e1 == e2
            &&& rs is Ok && (forall|i: int| 0 <= i < rs->Ok_0.len() ==> !((#[trigger] rs->Ok_0[i]).exp is Nil)) ==> {
                &&& list_items(r->Ok_0) == rs->Ok_0
                &&& list_items(r->Ok_0).len() == list_items(args).len()
            }
        }),
{
    let (e2, rs) = eval_each_sem(e, list_items(args), false, (fuel - 1) as nat);
    let f = (fuel - 1) as nat;
    let hv = lookup(e, head.exp->Symbol_0)->Some_0;
    assert(eval_sem(e, head, f) == (e, Ok::<ItemV, ExnV>(hv)));
    assert(prim_sem(PrimOp::List, e, m, args, f) == list_sem(e, m, args, f));
    assert(apply_sem(e, head, args, m, f) == prim_sem(PrimOp::List, e, m, args, f));
    assert(eval_sem(e, pair(m, head, args), fuel) == apply_sem(e, head, args, m, f));
    match args.exp {
        ExpV::Pair(c) => {
            assert(list_items(cell_item(c)) == list_items(args));
            assert(eval_list_sem(e, c, f) == (e2, match rs { Ok(vs) => Ok::<CellV, ExnV>(cell_of(rebuild(cell_item(c), vs), c)), Err(x) => Err(x) }));
            if rs is Ok && (forall|i: int| 0 <= i < rs->Ok_0.len() ==> !((#[trigger] rs->Ok_0[i]).exp is Nil)) {
                let vs = rs->Ok_0;
                lemma_each_len(e, list_items(args), false, (fuel - 1) as nat);
                lemma_rebuild_items(cell_item(c), vs);
                let rb = rebuild(cell_item(c), vs);
                assert(list_items(mk(m, ExpV::Pair(cell_of(rb, c)))) == list_items(rb));
            }
        },
        _ => {
            assert(list_items(args) =~= Seq::<ItemV>::empty());
        },
    }
}

proof fn lemma_each_len(e: EnvV, items: Seq<ItemV>, numeric: bool, fuel: nat)
    ensures
        eval_each_sem(e, items, numeric, fuel).1 is Ok ==> eval_each_sem(e, items, numeric, fuel).1->Ok_0.len() == items.len(),
    decreases items.len(),
{
    if items.len() > 0 {
        lemma_each_len(e, items.drop_last(), numeric, fuel);
    }
}

/// The starting environment binds `quote`, `define` and `list` to their
/// primitives, so the laws above hold there for those names.
pub proof fn initial_env_names_primitives()
    ensures
        lookup(initial_env(), "quote"@) == Some(prim_item(PrimOp::Quote)),
        lookup(initial_env(), "define"@) == Some(prim_item(PrimOp::Define)),
        lookup(initial_env(), "list"@) == Some(prim_item(PrimOp::List)),
{
    reveal_strlit("+");
    reveal_strlit("-");
    reveal_strlit("define");
    reveal_strlit("lambda");
    reveal_strlit("if");
    reveal_strlit("cond");
    reveal_strlit("or");
    reveal_strlit("and");
    reveal_strlit("car");
    reveal_strlit("cdr");
    reveal_strlit("cons");
    reveal_strlit("list");
    reveal_strlit("quote");
    reveal_strlit("display");
    let bs = initial_env().bindings;
    assert(bs.len() == 14);
    assert(bs[0].0 == "+"@);
    assert(bs[1].0 == "-"@);
    assert(bs[2].0 == "define"@);
    assert(bs[3].0 == "lambda"@);
    assert(bs[4].0 == "if"@);
    assert(bs[5].0 == "cond"@);
    assert(bs[6].0 == "or"@);
    assert(bs[7].0 == "and"@);
    assert(bs[8].0 == "car"@);
    assert(bs[9].0 == "cdr"@);
    assert(bs[10].0 == "cons"@);
    assert(bs[11].0 == "list"@);
    assert(bs[12].0 == "quote"@);
    assert(bs[13].0 == "display"@);
    assert("define"@[0] != "lambda"@[0]);
    assert("define"@[0] != "cond"@[0]);
    lemma_lookup_skip(bs, "quote"@, 13, 14);
    lemma_lookup_skip(bs, "list"@, 12, 14);
    lemma_lookup_skip(bs, "define"@, 3, 14);
    assert(bs[12] == ("quote"@, prim_item(PrimOp::Quote)));
    assert(bs[11] == ("list"@, prim_item(PrimOp::List)));
    assert(bs[2] == ("define"@, prim_item(PrimOp::Define)));
}

} // verus!
