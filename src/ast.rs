//! Values: the expression tree the reader produces and the evaluator walks.
use vstd::prelude::*;
use std::rc::Rc;
use crate::exception::{Meta, MetaV, Exn, clone_text, other_err, empty_meta};
use crate::text::{int_text, push_int, push_text};

verus! {

/// Relies on `Rc::clone`: the new handle points at the same value.
#[verifier::external_body]
fn share<T>(rc: &Rc<T>) -> (r: Rc<T>)
    ensures
        r == *rc,
{
    Rc::clone(rc)
}

/// The built-in procedures and special forms.
#[derive(Clone, Copy, PartialEq, Eq, Debug)]
pub enum PrimOp {
    Plus,
    Minus,
    Define,
    Lambda,
    If,
    Cond,
    Or,
    And,
    Car,
    Cdr,
    Cons,
    List,
    Quote,
    Display,
}

/// A cons cell.
pub struct LispCell {
    pub car: Box<Item>,
    pub cdr: Box<Item>,
}

/// A user procedure: its parameter names and its body.
pub struct Lambda {
    pub params: Rc<Vec<String>>,
    pub body: Rc<Item>,
}

/// A value. Numbers are 64-bit signed integers; `Char` and `Str` have no
/// read syntax yet.
pub enum Exp {
    Nil,
    Boolean(bool),
    Number(i64),
    Char(char),
    Symbol(String),
    Str(String),
    Pair(LispCell),
    Primitive(PrimOp),
    Lambda(Lambda),
}

/// A value together with the location it came from.
pub struct Item {
    pub meta: Meta,
    pub exp: Exp,
}

// ---------------------------------------------------------------------------
// The mathematical model

pub struct CellV {
    pub car: Box<ItemV>,
    pub cdr: Box<ItemV>,
}

pub enum ExpV {
    Nil,
    Boolean(bool),
    Number(int),
    Char(char),
    Symbol(Seq<char>),
    Str(Seq<char>),
    Pair(CellV),
    Primitive(PrimOp),
    Lambda(Seq<Seq<char>>, Box<ItemV>),
}

pub struct ItemV {
    pub meta: MetaV,
    pub exp: ExpV,
}

pub open spec fn texts(v: Seq<String>) -> Seq<Seq<char>> {
    v.map_values(|s: String| s@)
}

pub open spec fn item_view(i: Item) -> ItemV {
    ItemV { meta: i.meta@, exp: exp_view(i.exp) }
}

pub open spec fn exp_view(e: Exp) -> ExpV
    decreases e,
{
    match e {
        Exp::Nil => ExpV::Nil,
        Exp::Boolean(b) => ExpV::Boolean(b),
        Exp::Number(n) => ExpV::Number(n as int),
        Exp::Char(c) => ExpV::Char(c),
        Exp::Symbol(s) => ExpV::Symbol(s@),
        Exp::Str(s) => ExpV::Str(s@),
        Exp::Pair(c) => ExpV::Pair(CellV {
            car: Box::new(ItemV { meta: c.car.meta@, exp: exp_view(c.car.exp) }),
            cdr: Box::new(ItemV { meta: c.cdr.meta@, exp: exp_view(c.cdr.exp) }),
        }),
        Exp::Primitive(p) => ExpV::Primitive(p),
        Exp::Lambda(l) => ExpV::Lambda(
            texts((*l.params)@),
            Box::new(ItemV { meta: l.body.meta@, exp: exp_view(l.body.exp) }),
        ),
    }
}

impl View for Item {
    type V = ItemV;

    open spec fn view(&self) -> ItemV {
        item_view(*self)
    }
}

impl View for Exp {
    type V = ExpV;

    open spec fn view(&self) -> ExpV {
        exp_view(*self)
    }
}

impl View for LispCell {
    type V = CellV;

    open spec fn view(&self) -> CellV {
        CellV { car: Box::new(item_view(*self.car)), cdr: Box::new(item_view(*self.cdr)) }
    }
}

pub open spec fn mk(meta: MetaV, exp: ExpV) -> ItemV {
    ItemV { meta, exp }
}

pub open spec fn pair(meta: MetaV, car: ItemV, cdr: ItemV) -> ItemV {
    ItemV { meta, exp: ExpV::Pair(CellV { car: Box::new(car), cdr: Box::new(cdr) }) }
}

/// The pair of two Nils that the reader makes of `()`: it stands for the empty list.
pub open spec fn is_empty_pair(e: ExpV) -> bool {
    match e {
        ExpV::Pair(c) => c.car.exp is Nil && c.cdr.exp is Nil,
        _ => false,
    }
}

/// The elements of a list, read along the cdrs until something other than a
/// non-empty pair is met.
pub open spec fn list_items(l: ItemV) -> Seq<ItemV>
    decreases l,
{
    match l.exp {
        ExpV::Pair(c) => if c.car.exp is Nil && c.cdr.exp is Nil {
            Seq::empty()
        } else {
            seq![*c.car] + list_items(*c.cdr)
        },
        _ => Seq::empty(),
    }
}

/// The list `l` with `x` added at its end, when `l` ends in Nil; the new
/// cell and its terminator take the location of the Nil they replace.
pub open spec fn appended(l: ItemV, x: ItemV) -> Option<ItemV>
    decreases l,
{
    match l.exp {
        ExpV::Nil => Some(pair(l.meta, x, mk(l.meta, ExpV::Nil))),
        ExpV::Pair(c) => match appended(*c.cdr, x) {
            Some(r) => Some(pair(l.meta, *c.car, r)),
            None => None,
        },
        _ => None,
    }
}

/// The name of a value's kind, as diagnostics print it.
pub open spec fn type_name_of(e: ExpV) -> Seq<char> {
    match e {
        ExpV::Nil => "()"@,
        ExpV::Number(_) => "number"@,
        ExpV::Symbol(_) => "symbol"@,
        ExpV::Primitive(_) => "primitive function"@,
        ExpV::Pair(_) => "pair"@,
        ExpV::Lambda(_, _) => "lambda function"@,
        ExpV::Boolean(_) => "boolean"@,
        ExpV::Char(_) => "char"@,
        ExpV::Str(_) => "string"@,
    }
}

/// The printed form of a value.
pub open spec fn printed(e: ExpV) -> Seq<char>
    decreases e, 0nat,
{
    match e {
        ExpV::Nil => "()"@,
        ExpV::Boolean(b) => if b { "#t"@ } else { "#f"@ },
        ExpV::Number(n) => int_text(n),
        ExpV::Char(c) => seq![c],
        ExpV::Symbol(s) => s,
        ExpV::Str(s) => s,
        ExpV::Pair(c) => if c.car.exp is Nil && c.cdr.exp is Nil {
            "()"@
        } else {
            "("@ + printed(c.car.exp) + printed_tail(c.cdr.exp) + ")"@
        },
        ExpV::Primitive(_) => "primitive function"@,
        ExpV::Lambda(_, _) => "lambda function"@,
    }
}

/// The printed form of what follows the first element of a list: the other
/// elements, each after a space, or ` . ` and a final value that is not a list.
pub open spec fn printed_tail(e: ExpV) -> Seq<char>
    decreases e, 1nat,
{
    match e {
        ExpV::Nil => Seq::empty(),
        ExpV::Pair(c) => if c.car.exp is Nil && c.cdr.exp is Nil {
            Seq::empty()
        } else {
            " "@ + printed(c.car.exp) + printed_tail(c.cdr.exp)
        },
        _ => " . "@ + printed(e),
    }
}

// ---------------------------------------------------------------------------
// Construction and copying

pub fn cons(car: Item, cdr: Item) -> (r: LispCell)
    ensures
        r@ == (CellV { car: Box::new(car@), cdr: Box::new(cdr@) }),
{
    LispCell::new(car, cdr)
}

impl LispCell {
    pub fn new(car: Item, cdr: Item) -> (r: LispCell)
        ensures
            r@ == (CellV { car: Box::new(car@), cdr: Box::new(cdr@) }),
    {
        LispCell { car: Box::new(car), cdr: Box::new(cdr) }
    }

    pub fn set_cdr(&mut self, cdr: Item)
        ensures
            final(self)@ == (CellV { car: old(self)@.car, cdr: Box::new(cdr@) }),
    {
        self.cdr = Box::new(cdr);
    }

    /// Adds `item` at the end of the list that starts with this cell.
    pub fn append(&mut self, item: Item) -> (r: Result<(), Exn>)
        ensures
            match appended(*old(self)@.cdr, item@) {
                Some(rest) => r is Ok && final(self)@ == (CellV { car: old(self)@.car, cdr: Box::new(rest) }),
                None => r is Err && final(self)@ == old(self)@
                    && r->Err_0@ == other_err(empty_meta(), "tried to append to an unproper list"@),
            },
    {
        match appended_item(&self.cdr, item) {
            Some(rest) => {
                self.set_cdr(rest);
                Ok(())
            },
            None => Err(Exn::other(Meta::empty(), "tried to append to an unproper list")),
        }
    }

    pub fn duplicate(&self) -> (r: LispCell)
        ensures
            r@ == self@,
        decreases self,
    {
        LispCell { car: Box::new(self.car.duplicate()), cdr: Box::new(self.cdr.duplicate()) }
    }
}

impl Item {
    pub fn new(meta: Meta, exp: Exp) -> (r: Item)
        ensures
            r@ == mk(meta@, exp@),
    {
        Item { meta: meta, exp: exp }
    }

    pub fn cons(meta: Meta, car: Item, cdr: Item) -> (r: Item)
        ensures
            r@ == pair(meta@, car@, cdr@),
    {
        Item { meta: meta, exp: Exp::Pair(cons(car, cdr)) }
    }

    pub fn prim(meta: Meta, fun: PrimOp) -> (r: Item)
        ensures
            r@ == mk(meta@, ExpV::Primitive(fun)),
    {
        Self::new(meta, Exp::Primitive(fun))
    }

    /// A copy with the same content; lambdas share their code with this one.
    pub fn duplicate(&self) -> (r: Item)
        ensures
            r@ == self@,
        decreases self,
    {
        Item { meta: self.meta.duplicate(), exp: self.exp.duplicate() }
    }
}

impl Exp {
    pub fn duplicate(&self) -> (r: Exp)
        ensures
            r@ == self@,
        decreases self,
    {
        match self {
            Exp::Nil => Exp::Nil,
            Exp::Boolean(b) => Exp::Boolean(*b),
            Exp::Number(n) => Exp::Number(*n),
            Exp::Char(c) => Exp::Char(*c),
            Exp::Symbol(s) => Exp::Symbol(clone_text(s)),
            Exp::Str(s) => Exp::Str(clone_text(s)),
            Exp::Pair(c) => Exp::Pair(c.duplicate()),
            Exp::Primitive(p) => Exp::Primitive(*p),
            Exp::Lambda(l) => Exp::Lambda(Lambda { params: share(&l.params), body: share(&l.body) }),
        }
    }

    pub fn kind_name(&self) -> (r: String)
        ensures
            r@ == type_name_of(self@),
    {
        let s: &str = match self {
            Exp::Nil => "()",
            Exp::Number(_) => "number",
            Exp::Symbol(_) => "symbol",
            Exp::Primitive(_) => "primitive function",
            Exp::Pair(_) => "pair",
            Exp::Lambda(_) => "lambda function",
            Exp::Boolean(_) => "boolean",
            Exp::Char(_) => "char",
            Exp::Str(_) => "string",
        };
        String::from_str(s)
    }

    /// The printed form of the value.
    pub fn format(&self) -> (r: String)
        ensures
            r@ == printed(self@),
    {
        let mut s = String::new();
        push_format(&mut s, self);
        s
    }

    pub fn is_nil(&self) -> (r: bool)
        ensures
            r == (self@ is Nil),
    {
        match self {
            Exp::Nil => true,
            _ => false,
        }
    }
}

fn appended_item(l: &Item, x: Item) -> (r: Option<Item>)
    ensures
        match appended(l@, x@) {
            Some(v) => r matches Some(ri) && ri@ == v,
            None => r is None,
        },
    decreases l,
{
    match &l.exp {
        Exp::Nil => Some(Item::cons(l.meta.duplicate(), x, Item::new(l.meta.duplicate(), Exp::Nil))),
        Exp::Pair(c) => match appended_item(&c.cdr, x) {
            Some(rest) => Some(Item::cons(l.meta.duplicate(), c.car.duplicate(), rest)),
            None => None,
        },
        _ => None,
    }
}

pub fn push_format(s: &mut String, e: &Exp)
    ensures
        final(s)@ == old(s)@ + printed(e@),
    decreases e, 0nat,
{
    match e {
        Exp::Nil => push_text(s, "()"),
        Exp::Boolean(b) => if *b { push_text(s, "#t") } else { push_text(s, "#f") },
        Exp::Number(n) => push_int(s, *n),
        Exp::Char(c) => {
            s.push(*c);
            assert(final(s)@ =~= old(s)@ + printed(e@));
        },
        Exp::Symbol(t) => push_text(s, t.as_str()),
        Exp::Str(t) => push_text(s, t.as_str()),
        Exp::Pair(c) => {
            if c.car.exp.is_nil() && c.cdr.exp.is_nil() {
                push_text(s, "()");
            } else {
                push_text(s, "(");
                push_format(s, &c.car.exp);
                push_format_tail(s, &c.cdr.exp);
                push_text(s, ")");
                assert(final(s)@ =~= old(s)@ + printed(e@));
            }
        },
        Exp::Primitive(_) => push_text(s, "primitive function"),
        Exp::Lambda(_) => push_text(s, "lambda function"),
    }
}

fn push_format_tail(s: &mut String, e: &Exp)
    ensures
        final(s)@ == old(s)@ + printed_tail(e@),
    decreases e, 1nat,
{
    match e {
        Exp::Nil => {
            assert(final(s)@ =~= old(s)@ + printed_tail(e@));
        },
        Exp::Pair(c) => {
            if c.car.exp.is_nil() && c.cdr.exp.is_nil() {
                assert(final(s)@ =~= old(s)@ + printed_tail(e@));
            } else {
                push_text(s, " ");
                push_format(s, &c.car.exp);
                push_format_tail(s, &c.cdr.exp);
                assert(final(s)@ =~= old(s)@ + printed_tail(e@));
            }
        },
        _ => {
            push_text(s, " . ");
            push_format(s, e);
            assert(final(s)@ =~= old(s)@ + printed_tail(e@));
        },
    }
}

impl Item {
    /// The printed form of the value; the location plays no part.
    pub fn format(&self) -> (r: String)
        ensures
            r@ == printed(self@.exp),
    {
        self.exp.format()
    }
}

} // verus!
