//! Environments and the evaluator.
use vstd::prelude::*;
use crate::exception::{Meta, Exn, ExnV, clone_text, empty_meta};
use crate::ast::{texts, Item, ItemV, CellV, Exp, ExpV, LispCell, PrimOp, list_items, mk, cons};
use crate::semantics::{EnvV, lookup, lookup_in, env_set, scope_index, enter_scope, leave_scope,
    bind_params, eval_sem, apply_sem, eval_each_sem, eval_list_sem, rebuild, cell_item};
use crate::primitives::apply_primitive;

verus! {

/// The deepest nesting of calls that `eval` follows before it gives up.
pub const MAX_DEPTH: usize = 1000;

/// One symbol bound to one value.
pub struct Binding {
    pub name: String,
    pub value: Item,
}

/// The scopes of a running program as one stack of bindings: the innermost
/// scope is the part from `scope_start` on. `output` holds what `display` wrote.
pub struct Env {
    pub bindings: Vec<Binding>,
    pub scope_start: usize,
    pub output: Vec<String>,
}

pub open spec fn bindings_view(bs: Seq<Binding>) -> Seq<(Seq<char>, ItemV)> {
    bs.map_values(|b: Binding| (b.name@, b.value@))
}

impl View for Env {
    type V = EnvV;

    open spec fn view(&self) -> EnvV {
        EnvV {
            bindings: bindings_view(self.bindings@),
            scope_start: self.scope_start as nat,
            output: texts(self.output@),
        }
    }
}

pub open spec fn result_view(r: Result<Item, Exn>) -> Result<ItemV, ExnV> {
    match r {
        Ok(i) => Ok(i@),
        Err(e) => Err(e@),
    }
}

pub open spec fn values_view(r: Result<Vec<Item>, Exn>) -> Result<Seq<ItemV>, ExnV> {
    match r {
        Ok(v) => Ok(items_view(v@)),
        Err(e) => Err(e@),
    }
}

pub open spec fn cell_result_view(r: Result<LispCell, Exn>) -> Result<CellV, ExnV> {
    match r {
        Ok(c) => Ok(c@),
        Err(e) => Err(e@),
    }
}

pub open spec fn items_view(s: Seq<Item>) -> Seq<ItemV> {
    s.map_values(|x: Item| x@)
}

pub open spec fn refs_view(s: Seq<&Item>) -> Seq<ItemV> {
    s.map_values(|x: &Item| x@)
}

pub open spec fn prim_item(op: PrimOp) -> ItemV {
    mk(empty_meta(), ExpV::Primitive(op))
}

/// The root scope: every primitive under its name.
pub open spec fn initial_env() -> EnvV {
    EnvV {
        bindings: seq![
            ("+"@, prim_item(PrimOp::Plus)),
            ("-"@, prim_item(PrimOp::Minus)),
            ("define"@, prim_item(PrimOp::Define)),
            ("lambda"@, prim_item(PrimOp::Lambda)),
            ("if"@, prim_item(PrimOp::If)),
            ("cond"@, prim_item(PrimOp::Cond)),
            ("or"@, prim_item(PrimOp::Or)),
            ("and"@, prim_item(PrimOp::And)),
            ("car"@, prim_item(PrimOp::Car)),
            ("cdr"@, prim_item(PrimOp::Cdr)),
            ("cons"@, prim_item(PrimOp::Cons)),
            ("list"@, prim_item(PrimOp::List)),
            ("quote"@, prim_item(PrimOp::Quote)),
            ("display"@, prim_item(PrimOp::Display)),
        ],
        scope_start: 0,
        output: Seq::empty(),
    }
}

impl Binding {
    pub fn duplicate(&self) -> (r: Binding)
        ensures
            r.name@ == self.name@,
            r.value@ == self.value@,
    {
        Binding { name: clone_text(&self.name), value: self.value.duplicate() }
    }
}

impl Env {
    /// Binds `key` in the innermost scope, replacing a binding of it there.
    pub fn set(&mut self, key: String, val: Item)
        ensures
            final(self)@ == env_set(old(self)@, key@, val@),
    {
        let ghost old_bs = self.bindings@;
        let ghost bs = bindings_view(old_bs);
        let ghost start = self.scope_start as int;
        let mut n = self.bindings.len();
        while n > self.scope_start
            invariant
                n <= self.bindings@.len(),
                self.bindings@ == old_bs,
                bs == bindings_view(old_bs),
                self.scope_start == start,
                self.output == old(self).output,
                bs == old(self)@.bindings,
                start == old(self)@.scope_start,
                scope_index(bs, key@, start, bs.len() as int) == scope_index(bs, key@, start, n as int),
            decreases n,
        {
            if self.bindings[n - 1].name == key {
                let ghost kv = key@;
                let ghost vv = val@;
                self.bindings.set(n - 1, Binding { name: key, value: val });
                assert(bindings_view(self.bindings@) =~= bs.update(n - 1, (kv, vv)));
                return;
            }
            n = n - 1;
        }
        self.bindings.push(Binding { name: key, value: val });
        assert(bindings_view(self.bindings@) =~= bs.push((key@, val@)));
    }

    /// The value that `key` is bound to in the innermost scope that binds it.
    pub fn get(&self, key: &str) -> (r: Option<&Item>)
        ensures
            match lookup(self@, key@) {
                Some(v) => r matches Some(x) && x@ == v,
                None => r is None,
            },
    {
        let k = String::from_str(key);
        let mut n = self.bindings.len();
        while n > 0
            invariant
                n <= self.bindings@.len(),
                k@ == key@,
                lookup(self@, key@) == lookup_in(self@.bindings, key@, n as int),
            decreases n,
        {
            let b = &self.bindings[n - 1];
            if b.name == k {
                return Some(&b.value);
            }
            n = n - 1;
        }
        None
    }

    /// Hands over the lines that `display` wrote, and forgets them.
    pub fn take_output(&mut self) -> (r: Vec<String>)
        ensures
            texts(r@) == old(self)@.output,
            final(self)@ == (EnvV { output: Seq::empty(), ..old(self)@ }),
    {
        let mut out: Vec<String> = Vec::new();
        core::mem::swap(&mut out, &mut self.output);
        assert(texts(self.output@) =~= Seq::<Seq<char>>::empty());
        out
    }

    /// A child scope: the same bindings, and a new empty innermost scope.
    pub fn new_scope(&self) -> (r: Env)
        ensures
            r@ == enter_scope(self@),
    {
        let mut bindings: Vec<Binding> = Vec::new();
        let mut i: usize = 0;
        while i < self.bindings.len()
            invariant
                i <= self.bindings@.len(),
                bindings_view(bindings@) == bindings_view(self.bindings@).subrange(0, i as int),
            decreases self.bindings.len() - i,
        {
            let ghost before = bindings@;
            let b = self.bindings[i].duplicate();
            bindings.push(b);
            assert(bindings_view(bindings@) =~= bindings_view(before).push((b.name@, b.value@)));
            i = i + 1;
            assert(bindings_view(bindings@) =~= bindings_view(self.bindings@).subrange(0, i as int));
        }
        let mut output: Vec<String> = Vec::new();
        let mut j: usize = 0;
        while j < self.output.len()
            invariant
                j <= self.output@.len(),
                texts(output@) == texts(self.output@).subrange(0, j as int),
            decreases self.output.len() - j,
        {
            let ghost before = output@;
            let t = clone_text(&self.output[j]);
            output.push(t);
            assert(texts(output@) =~= texts(before).push(t@));
            j = j + 1;
            assert(texts(output@) =~= texts(self.output@).subrange(0, j as int));
        }
        assert(bindings_view(bindings@) =~= bindings_view(self.bindings@));
        assert(texts(output@) =~= texts(self.output@));
        Env { bindings, scope_start: self.bindings.len(), output }
    }
}

fn bind_prim(env: &mut Env, name: &str, op: PrimOp)
    ensures
        final(env)@ == (EnvV { bindings: old(env)@.bindings.push((name@, prim_item(op))), ..old(env)@ }),
{
    env.bindings.push(Binding { name: String::from_str(name), value: Item::prim(Meta::empty(), op) });
    assert(bindings_view(env.bindings@) =~= bindings_view(old(env).bindings@).push((name@, prim_item(op))));
}

/// The environment a program starts in: the primitives, and nothing written yet.
pub fn default_env() -> (r: Env)
    ensures
        r@ == initial_env(),
{
    let mut env = Env { bindings: Vec::new(), scope_start: 0, output: Vec::new() };
    assert(bindings_view(env.bindings@) =~= Seq::empty());
    assert(texts(env.output@) =~= Seq::<Seq<char>>::empty());
    bind_prim(&mut env, "+", PrimOp::Plus);
    bind_prim(&mut env, "-", PrimOp::Minus);
    bind_prim(&mut env, "define", PrimOp::Define);
    bind_prim(&mut env, "lambda", PrimOp::Lambda);
    bind_prim(&mut env, "if", PrimOp::If);
    bind_prim(&mut env, "cond", PrimOp::Cond);
    bind_prim(&mut env, "or", PrimOp::Or);
    bind_prim(&mut env, "and", PrimOp::And);
    bind_prim(&mut env, "car", PrimOp::Car);
    bind_prim(&mut env, "cdr", PrimOp::Cdr);
    bind_prim(&mut env, "cons", PrimOp::Cons);
    bind_prim(&mut env, "list", PrimOp::List);
    bind_prim(&mut env, "quote", PrimOp::Quote);
    bind_prim(&mut env, "display", PrimOp::Display);
    assert(env@.bindings =~= initial_env().bindings);
    env
}

/// The elements of a list, as `list_items` reads them.
pub fn list_refs<'a>(l: &'a Item) -> (r: Vec<&'a Item>)
    ensures
        refs_view(r@) == list_items(l@),
{
    let mut v: Vec<&'a Item> = Vec::new();
    let mut cur = l;
    loop
        invariant
            refs_view(v@) + list_items(cur@) == list_items(l@),
        decreases list_items(cur@).len(),
    {
        match &cur.exp {
            Exp::Pair(c) => {
                if c.car.exp.is_nil() && c.cdr.exp.is_nil() {
                    assert(refs_view(v@) =~= list_items(l@));
                    return v;
                }
                let ghost before = v@;
                v.push(&*c.car);
                assert(refs_view(v@) =~= refs_view(before).push(c.car@));
                assert(refs_view(v@) + list_items(c.cdr@) =~= refs_view(before) + list_items(cur@));
                cur = &*c.cdr;
            },
            _ => {
                assert(refs_view(v@) =~= list_items(l@));
                return v;
            },
        }
    }
}

/// Evaluates `item` with the full depth budget.
pub fn eval(env: &mut Env, item: &Item) -> (r: Result<Item, Exn>)
    ensures
        (final(env)@, result_view(r)) == eval_sem(old(env)@, item@, MAX_DEPTH as nat),
{
    eval_with(env, item, MAX_DEPTH)
}

/// Evaluates `item` with `fuel` nested calls left.
pub fn eval_with(env: &mut Env, item: &Item, fuel: usize) -> (r: Result<Item, Exn>)
    ensures
        (final(env)@, result_view(r)) == eval_sem(old(env)@, item@, fuel as nat),
    decreases fuel, 0nat, 0nat,
{
    match &item.exp {
        Exp::Pair(c) => {
            if c.car.exp.is_nil() && c.cdr.exp.is_nil() {
                Ok(Item::new(item.meta.duplicate(), Exp::Nil))
            } else if fuel == 0 {
                Err(Exn::other(item.meta.duplicate(), "recursion too deep"))
            } else {
                apply_function(env, &c.car, &c.cdr, &item.meta, fuel - 1)
            }
        },
        Exp::Symbol(s) => {
            match env.get(s.as_str()) {
                Some(v) => Ok(v.duplicate()),
                None => Err(Exn::other(item.meta.duplicate(), "tried to look up undefined symbol")),
            }
        },
        _ => Ok(item.duplicate()),
    }
}

/// Applies the value of `head` to the unevaluated arguments `args`; `meta`
/// locates the combination.
pub fn apply_function(env: &mut Env, head: &Item, args: &Item, meta: &Meta, fuel: usize) -> (r: Result<Item, Exn>)
    ensures
        (final(env)@, result_view(r)) == apply_sem(old(env)@, head@, args@, meta@, fuel as nat),
    decreases fuel, 6nat, 0nat,
{
    let f = match eval_with(env, head, fuel) {
        Ok(f) => f,
        Err(e) => return Err(e),
    };
    match &f.exp {
        Exp::Primitive(op) => apply_primitive(*op, env, meta, args, fuel),
        Exp::Lambda(l) => {
            let items = list_refs(args);
            let params: &Vec<String> = &l.params;
            if items.len() != params.len() {
                return Err(Exn::arity(meta.duplicate(), params.len(), items.len()));
            }
            let vals = match eval_each(env, &items, false, fuel) {
                Ok(v) => v,
                Err(e) => return Err(e),
            };
            let ghost caller = env@;
            let saved_start = env.scope_start;
            let saved_len = env.bindings.len();
            env.scope_start = saved_len;
            assert(env@ == enter_scope(caller));
            let ghost ps = crate::ast::texts(params@);
            let ghost vs = items_view(vals@);
            let mut i: usize = 0;
            while i < params.len()
                invariant
                    i <= params@.len(),
                    vals@.len() == params@.len(),
                    ps == crate::ast::texts(params@),
                    vs == items_view(vals@),
                    env@ == bind_params(enter_scope(caller), ps, vs, i as nat),
                decreases params.len() - i,
            {
                env.set(clone_text(&params[i]), vals[i].duplicate());
                i = i + 1;
            }
            let body: &Item = &l.body;
            let r = eval_with(env, body, fuel);
            let ghost e3 = env@;
            env.bindings.truncate(saved_len);
            env.scope_start = saved_start;
            proof {
                let expect = leave_scope(e3, caller);
                assert(env@.bindings =~= expect.bindings);
                assert(env@ == expect);
            }
            r
        },
        _ => {
            let name = f.exp.kind_name();
            Err(Exn::typ(meta.duplicate(), "procedure", name.as_str()))
        },
    }
}

proof fn lemma_each_err_stays(e: EnvV, s: Seq<ItemV>, k: int, numeric: bool, fuel: nat)
    requires
        0 <= k <= s.len(),
        eval_each_sem(e, s.subrange(0, k), numeric, fuel).1 is Err,
    ensures
        eval_each_sem(e, s, numeric, fuel) == eval_each_sem(e, s.subrange(0, k), numeric, fuel),
    decreases s.len() - k,
{
    if k == s.len() {
        assert(s.subrange(0, k) =~= s);
    } else {
        assert(s.subrange(0, k + 1).drop_last() =~= s.subrange(0, k));
        lemma_each_err_stays(e, s, k + 1, numeric, fuel);
    }
}

/// Evaluates `items` left to right; with `numeric`, stops at the first value
/// that is not a number.
pub fn eval_each(env: &mut Env, items: &Vec<&Item>, numeric: bool, fuel: usize) -> (r: Result<Vec<Item>, Exn>)
    ensures
        (final(env)@, values_view(r)) == eval_each_sem(old(env)@, refs_view(items@), numeric, fuel as nat),
        r matches Ok(v) ==> v@.len() == items@.len(),
        numeric ==> (r matches Ok(v) ==> forall|i: int| 0 <= i < v@.len() ==> (#[trigger] v@[i]).exp is Number),
    decreases fuel, 1nat, 0nat,
{
    let ghost e0 = env@;
    let ghost s = refs_view(items@);
    let mut vals: Vec<Item> = Vec::new();
    let mut i: usize = 0;
    assert(s.subrange(0, 0) =~= Seq::<ItemV>::empty());
    assert(items_view(vals@) =~= Seq::<ItemV>::empty());
    while i < items.len()
        invariant
            i <= items@.len(),
            s == refs_view(items@),
            e0 == old(env)@,
            vals@.len() == i,
            eval_each_sem(e0, s.subrange(0, i as int), numeric, fuel as nat) == (env@, Ok::<Seq<ItemV>, ExnV>(items_view(vals@))),
            numeric ==> forall|j: int| 0 <= j < vals@.len() ==> (#[trigger] vals@[j]).exp is Number,
        decreases items.len() - i,
    {
        assert(s.subrange(0, i + 1).drop_last() =~= s.subrange(0, i as int));
        assert(s.subrange(0, i + 1).last() == items@[i as int]@);
        let v = match eval_with(env, items[i], fuel) {
            Ok(v) => v,
            Err(x) => {
                assert(eval_each_sem(e0, s.subrange(0, i + 1), numeric, fuel as nat) == (env@, Err::<Seq<ItemV>, ExnV>(x@)));
                proof { lemma_each_err_stays(e0, s, i + 1, numeric, fuel as nat); }
                return Err(x);
            },
        };
        if numeric {
            match &v.exp {
                Exp::Number(_) => {},
                _ => {
                    let name = v.exp.kind_name();
                    let x = Exn::typ(v.meta.duplicate(), "number", name.as_str());
                    assert(eval_each_sem(e0, s.subrange(0, i + 1), numeric, fuel as nat) == (env@, Err::<Seq<ItemV>, ExnV>(x@)));
                    proof { lemma_each_err_stays(e0, s, i + 1, numeric, fuel as nat); }
                    return Err(x);
                },
            }
        }
        let ghost before = vals@;
        vals.push(v);
        assert(items_view(vals@) =~= items_view(before).push(v@));
        i = i + 1;
    }
    assert(s.subrange(0, i as int) =~= s);
    Ok(vals)
}

fn cell_refs<'a>(c: &'a LispCell) -> (r: Vec<&'a Item>)
    ensures
        refs_view(r@) == list_items(cell_item(c@)),
{
    if c.car.exp.is_nil() && c.cdr.exp.is_nil() {
        let v: Vec<&'a Item> = Vec::new();
        assert(refs_view(v@) =~= list_items(cell_item(c@)));
        v
    } else {
        let rest = list_refs(&c.cdr);
        let mut v: Vec<&'a Item> = Vec::new();
        v.push(&*c.car);
        let mut i: usize = 0;
        while i < rest.len()
            invariant
                i <= rest@.len(),
                refs_view(v@) == seq![c.car@] + refs_view(rest@).subrange(0, i as int),
            decreases rest.len() - i,
        {
            let ghost before = v@;
            v.push(rest[i]);
            assert(refs_view(v@) =~= refs_view(before).push(rest@[i as int]@));
            i = i + 1;
            assert(refs_view(v@) =~= seq![c.car@] + refs_view(rest@).subrange(0, i as int));
        }
        assert(refs_view(v@) =~= list_items(cell_item(c@)));
        v
    }
}

fn rebuild_item(l: &Item, vals: &Vec<Item>, k: usize) -> (r: Item)
    requires
        k <= vals@.len(),
    ensures
        r@ == rebuild(l@, items_view(vals@).subrange(k as int, vals@.len() as int)),
    decreases l,
{
    let ghost rest = items_view(vals@).subrange(k as int, vals@.len() as int);
    match &l.exp {
        Exp::Pair(c) => {
            if (c.car.exp.is_nil() && c.cdr.exp.is_nil()) || k >= vals.len() {
                l.duplicate()
            } else {
                assert(rest.drop_first() =~= items_view(vals@).subrange(k + 1, vals@.len() as int));
                let tail = rebuild_item(&c.cdr, vals, k + 1);
                Item::cons(l.meta.duplicate(), vals[k].duplicate(), tail)
            }
        },
        _ => l.duplicate(),
    }
}

/// Evaluates the elements of a list in order; the result keeps the list's cells.
pub fn eval_list(env: &mut Env, list: &LispCell, fuel: usize) -> (r: Result<LispCell, Exn>)
    ensures
        (final(env)@, cell_result_view(r)) == eval_list_sem(old(env)@, list@, fuel as nat),
    decreases fuel, 2nat, 0nat,
{
    let items = cell_refs(list);
    let vals = match eval_each(env, &items, false, fuel) {
        Ok(v) => v,
        Err(e) => return Err(e),
    };
    let ghost vs = items_view(vals@);
    if (list.car.exp.is_nil() && list.cdr.exp.is_nil()) || vals.len() == 0 {
        Ok(list.duplicate())
    } else {
        assert(vs.drop_first() =~= items_view(vals@).subrange(1, vals@.len() as int));
        let tail = rebuild_item(&list.cdr, &vals, 1);
        Ok(cons(vals[0].duplicate(), tail))
    }
}

} // verus!
