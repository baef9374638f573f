//! Source locations and the diagnostics that carry them.
use vstd::prelude::*;
use crate::text::{decimal, repeat, push_decimal, push_repeat, push_text};

verus! {

/// Where a token or value came from in the source.
pub struct Meta {
    pub line: usize,
    pub position: usize,
    pub token_length: usize,
    pub file_name: Option<String>,
    pub code: String,
}

/// The mathematical content of a `Meta`.
pub struct MetaV {
    pub line: nat,
    pub position: nat,
    pub token_length: nat,
    pub file_name: Option<Seq<char>>,
    pub code: Seq<char>,
}

pub open spec fn opt_text(o: Option<String>) -> Option<Seq<char>> {
    match o {
        Some(s) => Some(s@),
        None => None,
    }
}

impl View for Meta {
    type V = MetaV;

    open spec fn view(&self) -> MetaV {
        MetaV {
            line: self.line as nat,
            position: self.position as nat,
            token_length: self.token_length as nat,
            file_name: opt_text(self.file_name),
            code: self.code@,
        }
    }
}

/// The location used where none is known.
pub open spec fn empty_meta() -> MetaV {
    MetaV { line: 0, position: 0, token_length: 0, file_name: None, code: Seq::empty() }
}

/// How many arguments a procedure wants.
#[derive(Clone, Copy, PartialEq, Eq, Debug)]
pub enum Arity {
    Exact(usize),
    AtLeast(usize),
}

/// What went wrong.
pub enum Condition {
    Syntax(String),
    Arity(Arity, usize),
    Type(String, String),
    Other(String),
}

pub enum ConditionV {
    Syntax(Seq<char>),
    Arity(Arity, nat),
    Type(Seq<char>, Seq<char>),
    Other(Seq<char>),
}

impl View for Condition {
    type V = ConditionV;

    open spec fn view(&self) -> ConditionV {
        match self {
            Condition::Syntax(m) => ConditionV::Syntax(m@),
            Condition::Arity(a, f) => ConditionV::Arity(*a, *f as nat),
            Condition::Type(e, f) => ConditionV::Type(e@, f@),
            Condition::Other(m) => ConditionV::Other(m@),
        }
    }
}

/// A diagnostic: a condition and the location it points at.
pub struct Exn {
    pub meta: Meta,
    pub condition: Condition,
}

pub struct ExnV {
    pub meta: MetaV,
    pub condition: ConditionV,
}

impl View for Exn {
    type V = ExnV;

    open spec fn view(&self) -> ExnV {
        ExnV { meta: self.meta@, condition: self.condition@ }
    }
}

pub open spec fn syntax_err(meta: MetaV, msg: Seq<char>) -> ExnV {
    ExnV { meta, condition: ConditionV::Syntax(msg) }
}

pub open spec fn arity_err(meta: MetaV, expected: Arity, found: nat) -> ExnV {
    ExnV { meta, condition: ConditionV::Arity(expected, found) }
}

pub open spec fn type_err(meta: MetaV, expected: Seq<char>, found: Seq<char>) -> ExnV {
    ExnV { meta, condition: ConditionV::Type(expected, found) }
}

pub open spec fn other_err(meta: MetaV, msg: Seq<char>) -> ExnV {
    ExnV { meta, condition: ConditionV::Other(msg) }
}

pub fn clone_text(s: &String) -> (r: String)
    ensures
        r@ == s@,
{
    s.clone()
}

impl Meta {
    pub fn new(line: usize, pos: usize, length: usize, file: Option<String>, code: String) -> (r: Meta)
        ensures
            r.line == line,
            r.position == pos,
            r.token_length == length,
            r.file_name == file,
            r.code == code,
    {
        Meta { line: line, position: pos, token_length: length, file_name: file, code: code }
    }

    pub fn empty() -> (r: Meta)
        ensures
            r@ == empty_meta(),
    {
        Meta { line: 0, position: 0, token_length: 0, file_name: None, code: String::new() }
    }

    /// A copy with the same content.
    pub fn duplicate(&self) -> (r: Meta)
        ensures
            r@ == self@,
    {
        let file_name = match &self.file_name {
            Some(f) => Some(clone_text(f)),
            None => None,
        };
        Meta {
            line: self.line,
            position: self.position,
            token_length: self.token_length,
            file_name,
            code: clone_text(&self.code),
        }
    }
}

impl Condition {
    pub fn duplicate(&self) -> (r: Condition)
        ensures
            r@ == self@,
    {
        match self {
            Condition::Syntax(m) => Condition::Syntax(clone_text(m)),
            Condition::Arity(a, f) => Condition::Arity(*a, *f),
            Condition::Type(e, f) => Condition::Type(clone_text(e), clone_text(f)),
            Condition::Other(m) => Condition::Other(clone_text(m)),
        }
    }
}

impl Exn {
    pub fn new(meta: Meta, cond: Condition) -> (r: Exn)
        ensures
            r.meta == meta,
            r.condition == cond,
    {
        Exn { meta: meta, condition: cond }
    }

    pub fn syntax(meta: Meta, msg: &str) -> (r: Exn)
        ensures
            r@ == syntax_err(meta@, msg@),
    {
        Exn::new(meta, Condition::Syntax(String::from_str(msg)))
    }

    pub fn arity(meta: Meta, expected: usize, found: usize) -> (r: Exn)
        ensures
            r@ == arity_err(meta@, Arity::Exact(expected), found as nat),
    {
        Exn::new(meta, Condition::Arity(Arity::Exact(expected), found))
    }

    /// An arity diagnostic for a procedure that takes `expected` or more arguments.
    pub fn arity_at_least(meta: Meta, expected: usize, found: usize) -> (r: Exn)
        ensures
            r@ == arity_err(meta@, Arity::AtLeast(expected), found as nat),
    {
        Exn::new(meta, Condition::Arity(Arity::AtLeast(expected), found))
    }

    pub fn typ(meta: Meta, expected: &str, found: &str) -> (r: Exn)
        ensures
            r@ == type_err(meta@, expected@, found@),
    {
        Exn::new(meta, Condition::Type(String::from_str(expected), String::from_str(found)))
    }

    pub fn other(meta: Meta, msg: &str) -> (r: Exn)
        ensures
            r@ == other_err(meta@, msg@),
    {
        Exn::new(meta, Condition::Other(String::from_str(msg)))
    }
}

// ---------------------------------------------------------------------------
// Rendering a diagnostic

/// The title line's text for a condition.
pub open spec fn title(c: ConditionV) -> Seq<char> {
    match c {
        ConditionV::Syntax(_) => "wrong syntax"@,
        ConditionV::Arity(_, _) => "wrong number of arguments"@,
        ConditionV::Type(_, _) => "mismatched types"@,
        ConditionV::Other(_) => "unknown"@,
    }
}

/// The detail message written after the caret.
pub open spec fn detail(c: ConditionV) -> Seq<char> {
    match c {
        ConditionV::Syntax(m) => m,
        ConditionV::Arity(Arity::Exact(a), f) =>
            "expected "@ + decimal(a as nat) + " arguments, found "@ + decimal(f),
        ConditionV::Arity(Arity::AtLeast(a), f) =>
            "expected at least "@ + decimal(a as nat) + " arguments, found "@ + decimal(f),
        ConditionV::Type(e, f) => "expected "@ + e + ", found "@ + f,
        ConditionV::Other(m) => m,
    }
}

/// Where the `-->` line points: `file:line:col`, or `line:col` without a file.
pub open spec fn location(m: MetaV) -> Seq<char> {
    let lc = decimal(m.line) + ":"@ + decimal(m.position);
    match m.file_name {
        Some(f) => f + ":"@ + lc,
        None => lc,
    }
}

/// The full text of a diagnostic. A location with line 0 is unknown: then the
/// `-->` line and the source frame are left out.
pub open spec fn diagnostic(e: ExnV) -> Seq<char> {
    let head = "exception: "@ + title(e.condition) + "\n"@;
    if e.meta.line == 0 {
        head + detail(e.condition) + "\n"@
    } else {
        let pad = repeat(' ', decimal(e.meta.line).len());
        head + pad + "--> "@ + location(e.meta) + "\n"@
            + pad + " |\n"@
            + decimal(e.meta.line) + " | "@ + e.meta.code + "\n"@
            + pad + " |"@ + repeat(' ', e.meta.position) + repeat('^', e.meta.token_length)
            + " "@ + detail(e.condition) + "\n"@
    }
}

fn push_detail(s: &mut String, c: &Condition)
    ensures
        final(s)@ == old(s)@ + detail(c@),
{
    match c {
        Condition::Syntax(m) => push_text(s, m.as_str()),
        Condition::Arity(a, f) => {
            match a {
                Arity::Exact(n) => {
                    push_text(s, "expected ");
                    push_decimal(s, *n as u64);
                }
                Arity::AtLeast(n) => {
                    push_text(s, "expected at least ");
                    push_decimal(s, *n as u64);
                }
            }
            push_text(s, " arguments, found ");
            push_decimal(s, *f as u64);
        }
        Condition::Type(e, f) => {
            push_text(s, "expected ");
            push_text(s, e.as_str());
            push_text(s, ", found ");
            push_text(s, f.as_str());
        }
        Condition::Other(m) => push_text(s, m.as_str()),
    }
    assert(final(s)@ =~= old(s)@ + detail(c@));
}

fn push_title(s: &mut String, c: &Condition)
    ensures
        final(s)@ == old(s)@ + title(c@),
{
    match c {
        Condition::Syntax(_) => push_text(s, "wrong syntax"),
        Condition::Arity(_, _) => push_text(s, "wrong number of arguments"),
        Condition::Type(_, _) => push_text(s, "mismatched types"),
        Condition::Other(_) => push_text(s, "unknown"),
    }
}

impl Exn {
    /// The diagnostic text, with a caret under the offending token.
    pub fn render(&self) -> (r: String)
        ensures
            r@ == diagnostic(self@),
    {
        let mut s = String::new();
        push_text(&mut s, "exception: ");
        push_title(&mut s, &self.condition);
        push_text(&mut s, "\n");
        if self.meta.line == 0 {
            push_detail(&mut s, &self.condition);
            push_text(&mut s, "\n");
        } else {
            let mut num = String::new();
            push_decimal(&mut num, self.meta.line as u64);
            let width = num.as_str().unicode_len();
            push_repeat(&mut s, ' ', width);
            push_text(&mut s, "--> ");
            match &self.meta.file_name {
                Some(f) => {
                    push_text(&mut s, f.as_str());
                    push_text(&mut s, ":");
                }
                None => {}
            }
            push_text(&mut s, num.as_str());
            push_text(&mut s, ":");
            push_decimal(&mut s, self.meta.position as u64);
            push_text(&mut s, "\n");
            push_repeat(&mut s, ' ', width);
            push_text(&mut s, " |\n");
            push_text(&mut s, num.as_str());
            push_text(&mut s, " | ");
            push_text(&mut s, self.meta.code.as_str());
            push_text(&mut s, "\n");
            push_repeat(&mut s, ' ', width);
            push_text(&mut s, " |");
            push_repeat(&mut s, ' ', self.meta.position);
            push_repeat(&mut s, '^', self.meta.token_length);
            push_text(&mut s, " ");
            push_detail(&mut s, &self.condition);
            push_text(&mut s, "\n");
        }
        assert(s@ =~= diagnostic(self@));
        s
    }
}

} // verus!
