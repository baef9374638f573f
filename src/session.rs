//! Running source text: one form at a time for the interactive loop, or all
//! forms of a file in order.
use vstd::prelude::*;
use crate::exception::{Exn, ExnV, opt_text};
use crate::ast::{Item, ItemV};
use crate::parser::{TokenV, lex, lex_spec, read_form, tokens_view, parse, parse_at};
use crate::runtime::{Env, MAX_DEPTH, eval, result_view};
use crate::semantics::{EnvV, eval_sem};

verus! {

/// Reads the first form of `code` and evaluates it.
pub open spec fn parse_eval_sem(code: Seq<char>, e: EnvV) -> (EnvV, Result<ItemV, ExnV>) {
    match read_form(lex_spec(code, None), 0) {
        Err(x) => (e, Err(x)),
        Ok((form, _)) => eval_sem(e, form, MAX_DEPTH as nat),
    }
}

/// Reads and evaluates the forms from token `pos` on, in order, stopping at the first error.
pub open spec fn run_sem(e: EnvV, toks: Seq<TokenV>, pos: int) -> (EnvV, Result<(), ExnV>)
    decreases toks.len() - pos,
{
    if pos < 0 || pos >= toks.len() {
        (e, Ok(()))
    } else {
        match read_form(toks, pos) {
            Err(x) => (e, Err(x)),
            Ok((form, p)) => {
                let (e1, r) = eval_sem(e, form, MAX_DEPTH as nat);
                match r {
                    Err(x) => (e1, Err(x)),
                    Ok(_) => if p <= pos || p > toks.len() {
                        (e1, Ok(()))
                    } else {
                        run_sem(e1, toks, p)
                    },
                }
            },
        }
    }
}

/// Reads the first form of `code` and evaluates it in `env`.
pub fn parse_eval(code: &str, env: &mut Env) -> (r: Result<Item, Exn>)
    requires
        code@.len() < usize::MAX,
    ensures
        (final(env)@, result_view(r)) == parse_eval_sem(code@, old(env)@),
{
    let tokens = lex(code, None);
    match parse(tokens.as_slice()) {
        Ok((form, _)) => eval(env, &form),
        Err(e) => Err(e),
    }
}

/// Evaluates every form of a source text in order; the first error stops the run.
pub fn exec_source(env: &mut Env, code: &str, file: Option<String>) -> (r: Result<(), Exn>)
    requires
        code@.len() < usize::MAX,
    ensures
        (final(env)@, match r { Ok(()) => Ok(()), Err(e) => Err(e@) })
            == run_sem(old(env)@, lex_spec(code@, opt_text(file)), 0),
{
    let ghost fv = opt_text(file);
    let tokens = lex(code, file);
    let ghost toks = tokens_view(tokens@);
    let mut pos: usize = 0;
    let ghost e0 = env@;
    while pos < tokens.len()
        invariant
            pos <= tokens@.len(),
            toks == tokens_view(tokens@),
            toks == lex_spec(code@, fv),
            fv == opt_text(file),
            e0 == old(env)@,
            run_sem(e0, toks, 0) == run_sem(env@, toks, pos as int),
        decreases tokens@.len() - pos,
    {
        match parse_at(tokens.as_slice(), pos) {
            Err(e) => {
                assert(run_sem(env@, toks, pos as int) == (env@, Err::<(), ExnV>(e@)));
                return Err(e);
            },
            Ok((form, next)) => {
                match eval(env, &form) {
                    Err(e) => {
                        return Err(e);
                    },
                    Ok(_) => {},
                }
                pos = next;
            },
        }
    }
    Ok(())
}

} // verus!
