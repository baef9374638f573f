//! Printing a datum and reading the text back gives the datum again.
use vstd::prelude::*;
use crate::ast::{ItemV, ExpV, printed, printed_tail};
use crate::parser::{TokenV, lex_state, lex_spec, flush, is_delimiter, read_form, read_rest, is_numeral, numeral_value, unsigned_part, has_sign, is_digit, digits_value, fits_i64};
use crate::text::{decimal, digit_char, int_text};

verus! {

pub open spec fn is_symbol_char(c: char) -> bool {
    c != ' ' && c != '\n' && c != ';' && !is_delimiter(c)
}

/// A token the reader turns into a symbol.
pub open spec fn is_symbol_text(s: Seq<char>) -> bool {
    &&& s.len() > 0
    &&& forall|i: int| 0 <= i < s.len() ==> is_symbol_char(#[trigger] s[i])
    &&& !is_numeral(s)
    &&& s[0] != '#'
}

/// The values a form is read as: numbers, booleans, symbols, the empty list,
/// and lists of these that end in Nil.
pub open spec fn is_datum(v: ItemV) -> bool
    decreases v, 0nat,
{
    match v.exp {
        ExpV::Number(n) => fits_i64(n),
        ExpV::Boolean(_) => true,
        ExpV::Symbol(s) => is_symbol_text(s),
        ExpV::Pair(c) => (c.car.exp is Nil && c.cdr.exp is Nil) || (is_datum(*c.car) && is_datum_tail(*c.cdr)),
        _ => false,
    }
}

/// The rest of a list after its first element: Nil, or more data.
pub open spec fn is_datum_tail(d: ItemV) -> bool
    decreases d, 1nat,
{
    match d.exp {
        ExpV::Nil => true,
        ExpV::Pair(c) => !(c.car.exp is Nil && c.cdr.exp is Nil) && is_datum(*c.car) && is_datum_tail(*c.cdr),
        _ => false,
    }
}

/// Equal values, locations aside.
pub open spec fn same_shape(a: ItemV, b: ItemV) -> bool
    decreases a,
{
    match (a.exp, b.exp) {
        (ExpV::Pair(x), ExpV::Pair(y)) => same_shape(*x.car, *y.car) && same_shape(*x.cdr, *y.cdr),
        _ => a.exp == b.exp,
    }
}

/// The token texts of a datum's printed form.
pub open spec fn tokens_of(v: ItemV) -> Seq<Seq<char>>
    decreases v, 0nat,
{
    match v.exp {
        ExpV::Number(n) => seq![int_text(n)],
        ExpV::Boolean(b) => seq![if b { "#t"@ } else { "#f"@ }],
        ExpV::Symbol(s) => seq![s],
        ExpV::Pair(c) => if c.car.exp is Nil && c.cdr.exp is Nil {
            seq![seq!['('], seq![')']]
        } else {
            seq![seq!['(']] + tokens_of(*c.car) + tail_tokens(*c.cdr) + seq![seq![')']]
        },
        _ => Seq::empty(),
    }
}

pub open spec fn tail_tokens(d: ItemV) -> Seq<Seq<char>>
    decreases d, 1nat,
{
    match d.exp {
        ExpV::Pair(c) => if c.car.exp is Nil && c.cdr.exp is Nil {
            Seq::empty()
        } else {
            tokens_of(*c.car) + tail_tokens(*c.cdr)
        },
        _ => Seq::empty(),
    }
}

// ---------------------------------------------------------------------------
// The lexer on one line without comments, token texts only

pub struct TextLex {
    pub toks: Seq<Seq<char>>,
    pub pending: Option<Seq<char>>,
}

pub open spec fn tflush(st: TextLex) -> TextLex {
    match st.pending {
        Some(p) => TextLex { toks: st.toks.push(p), pending: None },
        None => st,
    }
}

pub open spec fn tstep(st: TextLex, c: char) -> TextLex {
    if c == ' ' {
        tflush(st)
    } else if is_delimiter(c) {
        TextLex { toks: tflush(st).toks.push(seq![c]), pending: None }
    } else {
        match st.pending {
            Some(p) => TextLex { toks: st.toks, pending: Some(p.push(c)) },
            None => TextLex { toks: st.toks, pending: Some(seq![c]) },
        }
    }
}

pub open spec fn tfold(st: TextLex, s: Seq<char>) -> TextLex
    decreases s.len(),
{
    if s.len() == 0 {
        st
    } else {
        tstep(tfold(st, s.drop_last()), s.last())
    }
}

pub open spec fn tok_texts(s: Seq<TokenV>) -> Seq<Seq<char>> {
    s.map_values(|t: TokenV| t.text)
}

proof fn lemma_tfold_concat(st: TextLex, a: Seq<char>, b: Seq<char>)
    ensures
        tfold(st, a + b) == tfold(tfold(st, a), b),
    decreases b.len(),
{
    if b.len() == 0 {
        assert(a + b =~= a);
    } else {
        assert((a + b).drop_last() =~= a + b.drop_last());
        assert((a + b).last() == b.last());
        lemma_tfold_concat(st, a, b.drop_last());
    }
}

proof fn lemma_lex_text(code: Seq<char>, file: Option<Seq<char>>, n: nat)
    requires
        n <= code.len(),
        forall|i: int| 0 <= i < code.len() ==> (#[trigger] code[i]) != '\n' && code[i] != ';',
    ensures
        ({
            let st = lex_state(code, file, n);
            let t = tfold(TextLex { toks: Seq::empty(), pending: None }, code.subrange(0, n as int));
            &&& tok_texts(st.tokens) == t.toks
            &&& !st.comment
            &&& match st.pending {
                Some(p) => t.pending == Some(p.text),
                None => t.pending is None,
            }
        }),
    decreases n,
{
    let init = TextLex { toks: Seq::empty(), pending: None };
    if n == 0 {
        assert(tok_texts(Seq::<TokenV>::empty()) =~= Seq::<Seq<char>>::empty());
        assert(code.subrange(0, 0) =~= Seq::<char>::empty());
    } else {
        lemma_lex_text(code, file, (n - 1) as nat);
        let prev = lex_state(code, file, (n - 1) as nat);
        let c = code[n - 1];
        assert(code.subrange(0, n as int).drop_last() =~= code.subrange(0, n - 1));
        assert(code.subrange(0, n as int).last() == c);
        let f = flush(prev);
        match prev.pending {
            Some(p) => {
                assert(tok_texts(f.tokens) =~= tok_texts(prev.tokens).push(p.text));
            },
            None => {},
        }
        if is_delimiter(c) {
            let t = crate::parser::single(c, prev.line, prev.col + 1, file, prev.line_text);
            assert(tok_texts(f.tokens.push(t)) =~= tok_texts(f.tokens).push(seq![c]));
        }
    }
}

/// The token texts of a line with no comment, read by the lexer.
proof fn lemma_lex_spec_text(code: Seq<char>, file: Option<Seq<char>>)
    requires
        forall|i: int| 0 <= i < code.len() ==> (#[trigger] code[i]) != '\n' && code[i] != ';',
    ensures
        tok_texts(lex_spec(code, file)) == tflush(tfold(TextLex { toks: Seq::empty(), pending: None }, code)).toks,
{
    lemma_lex_text(code, file, code.len());
    assert(code.subrange(0, code.len() as int) =~= code);
    let st = lex_state(code, file, code.len());
    match st.pending {
        Some(p) => {
            assert(tok_texts(flush(st).tokens) =~= tok_texts(st.tokens).push(p.text));
        },
        None => {},
    }
}

// ---------------------------------------------------------------------------
// Printed text of a datum

pub open spec fn plain(s: Seq<char>) -> bool {
    forall|i: int| 0 <= i < s.len() ==> (#[trigger] s[i]) != '\n' && s[i] != ';'
}

pub open spec fn atom_text(t: Seq<char>) -> bool {
    &&& t.len() > 0
    &&& forall|i: int| 0 <= i < t.len() ==> is_symbol_char(#[trigger] t[i])
}

proof fn lemma_plain_concat(a: Seq<char>, b: Seq<char>)
    requires
        plain(a),
        plain(b),
    ensures
        plain(a + b),
{
    assert forall|i: int| 0 <= i < (a + b).len() implies (#[trigger] (a + b)[i]) != '\n' && (a + b)[i] != ';' by {
        if i >= a.len() {
            assert((a + b)[i] == b[i - a.len()]);
        }
    }
}

proof fn lemma_digit(d: nat)
    requires
        d < 10,
    ensures
        is_digit(digit_char(d)),
        digit_char(d) as int - '0' as int == d,
{
}

proof fn lemma_decimal(n: nat)
    ensures
        decimal(n).len() > 0,
        forall|i: int| 0 <= i < decimal(n).len() ==> is_digit(#[trigger] decimal(n)[i]),
        digits_value(decimal(n)) == n,
    decreases n,
{
    if n < 10 {
        lemma_digit(n);
        assert(decimal(n).drop_last() =~= Seq::<char>::empty());
        assert(digits_value(Seq::<char>::empty()) == 0);
        assert(decimal(n).last() == digit_char(n));
    } else {
        lemma_decimal(n / 10);
        lemma_digit(n % 10);
        assert(decimal(n).drop_last() =~= decimal(n / 10));
        assert(decimal(n).last() == digit_char(n % 10));
        assert(digits_value(decimal(n)) == digits_value(decimal(n / 10)) * 10 + (n % 10));
        assert((n / 10) * 10 + n % 10 == n);
        assert forall|i: int| 0 <= i < decimal(n).len() implies is_digit(#[trigger] decimal(n)[i]) by {
            if i < decimal(n / 10).len() {
                assert(decimal(n)[i] == decimal(n / 10)[i]);
            }
        }
    }
}

proof fn lemma_int_text(n: int)
    ensures
        atom_text(int_text(n)),
        is_numeral(int_text(n)),
        numeral_value(int_text(n)) == n,
        int_text(n)[0] != '#',
{
    let t = int_text(n);
    if n < 0 {
        let d = decimal((-n) as nat);
        lemma_decimal((-n) as nat);
        assert(t[0] == '-');
        assert(unsigned_part(t) =~= d);
        assert forall|i: int| 0 <= i < t.len() implies is_symbol_char(#[trigger] t[i]) by {
            if i > 0 {
                assert(t[i] == d[i - 1]);
                assert(is_digit(d[i - 1]));
            }
        }
    } else {
        lemma_decimal(n as nat);
        assert(is_digit(t[0]));
        assert(!has_sign(t));
        assert forall|i: int| 0 <= i < t.len() implies is_symbol_char(#[trigger] t[i]) by {
            assert(is_digit(t[i]));
        }
    }
}

proof fn lemma_fold_atom(st: TextLex, t: Seq<char>)
    requires
        st.pending is None,
        atom_text(t),
    ensures
        tfold(st, t) == (TextLex { toks: st.toks, pending: Some(t) }),
    decreases t.len(),
{
    assert(is_symbol_char(t[t.len() - 1]));
    if t.len() == 1 {
        assert(t.drop_last() =~= Seq::<char>::empty());
        assert(tfold(st, Seq::<char>::empty()) == st);
        assert(tfold(st, t.drop_last()) == st);
        assert(seq![t.last()] =~= t);
    } else {
        assert forall|i: int| 0 <= i < t.drop_last().len() implies is_symbol_char(#[trigger] t.drop_last()[i]) by {
            assert(t.drop_last()[i] == t[i]);
        }
        lemma_fold_atom(st, t.drop_last());
        assert(t.drop_last().push(t.last()) =~= t);
    }
}

proof fn lemma_atom_plain(t: Seq<char>)
    requires
        atom_text(t),
    ensures
        plain(t),
{
    assert forall|i: int| 0 <= i < t.len() implies (#[trigger] t[i]) != '\n' && t[i] != ';' by {
        assert(is_symbol_char(t[i]));
    }
}

proof fn lemma_bool_texts()
    ensures
        "#t"@ == seq!['#', 't'],
        "#f"@ == seq!['#', 'f'],
        "()"@ == seq!['(', ')'],
        "("@ == seq!['('],
        ")"@ == seq![')'],
        " "@ == seq![' '],
{
    reveal_strlit("#t");
    reveal_strlit("#f");
    reveal_strlit("()");
    reveal_strlit("(");
    reveal_strlit(")");
    reveal_strlit(" ");
    assert("#t"@ =~= seq!['#', 't']);
    assert("#f"@ =~= seq!['#', 'f']);
    assert("()"@ =~= seq!['(', ')']);
    assert("("@ =~= seq!['(']);
    assert(")"@ =~= seq![')']);
    assert(" "@ =~= seq![' ']);
}

proof fn lemma_atom_of_datum(v: ItemV)
    requires
        is_datum(v),
        !(v.exp is Pair),
    ensures
        tokens_of(v) == seq![printed(v.exp)],
        atom_text(printed(v.exp)),
{
    lemma_bool_texts();
    match v.exp {
        ExpV::Number(n) => {
            lemma_int_text(n);
        },
        ExpV::Boolean(b) => {
            let t = printed(v.exp);
            assert forall|i: int| 0 <= i < t.len() implies is_symbol_char(#[trigger] t[i]) by {}
        },
        _ => {},
    }
}

proof fn lemma_printed_plain(v: ItemV)
    requires
        is_datum(v),
    ensures
        plain(printed(v.exp)),
    decreases v, 0nat,
{
    lemma_bool_texts();
    match v.exp {
        ExpV::Pair(c) => {
            if !(c.car.exp is Nil && c.cdr.exp is Nil) {
                lemma_printed_plain(*c.car);
                lemma_tail_plain(*c.cdr);
                lemma_plain_concat("("@, printed(c.car.exp));
                lemma_plain_concat("("@ + printed(c.car.exp), printed_tail(c.cdr.exp));
                lemma_plain_concat("("@ + printed(c.car.exp) + printed_tail(c.cdr.exp), ")"@);
            }
        },
        _ => {
            lemma_atom_of_datum(v);
            lemma_atom_plain(printed(v.exp));
        },
    }
}

proof fn lemma_tail_plain(d: ItemV)
    requires
        is_datum_tail(d),
    ensures
        plain(printed_tail(d.exp)),
    decreases d, 1nat,
{
    lemma_bool_texts();
    match d.exp {
        ExpV::Pair(c) => {
            lemma_printed_plain(*c.car);
            lemma_tail_plain(*c.cdr);
            lemma_plain_concat(" "@, printed(c.car.exp));
            lemma_plain_concat(" "@ + printed(c.car.exp), printed_tail(c.cdr.exp));
        },
        _ => {},
    }
}

proof fn lemma_fold_datum(st: TextLex, v: ItemV)
    requires
        st.pending is None,
        is_datum(v),
    ensures
        tflush(tfold(st, printed(v.exp))) == (TextLex { toks: st.toks + tokens_of(v), pending: None }),
    decreases v, 0nat,
{
    lemma_bool_texts();
    match v.exp {
        ExpV::Pair(c) => {
            if c.car.exp is Nil && c.cdr.exp is Nil {
                assert(seq!['(', ')'].drop_last() =~= seq!['(']);
                assert(seq!['('].drop_last() =~= Seq::<char>::empty());
                assert(tfold(st, Seq::<char>::empty()) == st);
                assert(tfold(st, seq!['('].drop_last()) == st);
                assert(tfold(st, seq!['(']) == TextLex { toks: st.toks.push(seq!['(']), pending: None });
                assert(tfold(st, seq!['(', ')'].drop_last()) == TextLex { toks: st.toks.push(seq!['(']), pending: None });
                assert(st.toks.push(seq!['(']).push(seq![')']) =~= st.toks + tokens_of(v));
            } else {
                let car = *c.car;
                let cdr = *c.cdr;
                let whole = printed(v.exp);
                assert(whole =~= seq!['('] + (printed(car.exp) + (printed_tail(cdr.exp) + seq![')'])));
                lemma_tfold_concat(st, seq!['('], printed(car.exp) + (printed_tail(cdr.exp) + seq![')']));
                assert(seq!['('].drop_last() =~= Seq::<char>::empty());
                assert(tfold(st, Seq::<char>::empty()) == st);
                assert(tfold(st, seq!['('].drop_last()) == st);
                let s1 = tfold(st, seq!['(']);
                assert(s1 == TextLex { toks: st.toks.push(seq!['(']), pending: None });
                lemma_tfold_concat(s1, printed(car.exp), printed_tail(cdr.exp) + seq![')']);
                let s2 = tfold(s1, printed(car.exp));
                lemma_fold_datum(s1, car);
                lemma_fold_tail(s2, cdr);
                assert(st.toks.push(seq!['(']) + tokens_of(car) + tail_tokens(cdr) + seq![seq![')']]
                    =~= st.toks + tokens_of(v));
            }
        },
        _ => {
            lemma_atom_of_datum(v);
            lemma_fold_atom(st, printed(v.exp));
            assert(st.toks.push(printed(v.exp)) =~= st.toks + tokens_of(v));
        },
    }
}

proof fn lemma_fold_tail(st: TextLex, d: ItemV)
    requires
        is_datum_tail(d),
    ensures
        tfold(st, printed_tail(d.exp) + seq![')'])
            == (TextLex { toks: tflush(st).toks + tail_tokens(d) + seq![seq![')']], pending: None }),
    decreases d, 1nat,
{
    lemma_bool_texts();
    match d.exp {
        ExpV::Pair(c) => {
            let car = *c.car;
            let cdr = *c.cdr;
            assert(printed_tail(d.exp) + seq![')'] =~= seq![' '] + (printed(car.exp) + (printed_tail(cdr.exp) + seq![')'])));
            lemma_tfold_concat(st, seq![' '], printed(car.exp) + (printed_tail(cdr.exp) + seq![')']));
            assert(seq![' '].drop_last() =~= Seq::<char>::empty());
            assert(tfold(st, Seq::<char>::empty()) == st);
            assert(tfold(st, seq![' '].drop_last()) == st);
            let s1 = tfold(st, seq![' ']);
            assert(s1 == tflush(st));
            lemma_tfold_concat(s1, printed(car.exp), printed_tail(cdr.exp) + seq![')']);
            let s2 = tfold(s1, printed(car.exp));
            lemma_fold_datum(s1, car);
            lemma_fold_tail(s2, cdr);
            assert(tflush(st).toks + tokens_of(car) + tail_tokens(cdr) + seq![seq![')']]
                =~= tflush(st).toks + tail_tokens(d) + seq![seq![')']]);
        },
        _ => {
            assert(printed_tail(d.exp) + seq![')'] =~= seq![')']);
            assert(seq![')'].drop_last() =~= Seq::<char>::empty());
            assert(tfold(st, Seq::<char>::empty()) == st);
            assert(tfold(st, seq![')'].drop_last()) == st);
            assert(tflush(st).toks + tail_tokens(d) + seq![seq![')']] =~= tflush(st).toks.push(seq![')']));
        },
    }
}

// ---------------------------------------------------------------------------
// Reading the tokens of a datum

proof fn lemma_first_token(v: ItemV)
    requires
        is_datum(v),
    ensures
        tokens_of(v).len() > 0,
        tokens_of(v)[0] != seq![')'],
        v.exp is Pair ==> tokens_of(v)[0] == seq!['('],
{
    if v.exp is Pair {
        assert(tokens_of(v)[0] == seq!['(']);
        assert(seq!['('][0] != seq![')'][0]);
    } else {
        lemma_atom_of_datum(v);
        let t = printed(v.exp);
        assert(is_symbol_char(t[0]));
        if t == seq![')'] {
            assert(t[0] == ')');
        }
    }
}

proof fn lemma_read_datum(toks: Seq<TokenV>, pos: int, v: ItemV)
    requires
        is_datum(v),
        0 <= pos,
        pos + tokens_of(v).len() <= toks.len(),
        forall|i: int| 0 <= i < tokens_of(v).len() ==> (#[trigger] toks[pos + i]).text == tokens_of(v)[i],
    ensures
        read_form(toks, pos) matches Ok((w, p)) && p == pos + tokens_of(v).len() && same_shape(w, v),
    decreases v, 1nat,
{
    lemma_bool_texts();
    lemma_first_token(v);
    assert(toks[pos + 0].text == tokens_of(v)[0]);
    assert(pos + 0 == pos);
    let t = toks[pos];
    match v.exp {
        ExpV::Pair(c) => {
            if c.car.exp is Nil && c.cdr.exp is Nil {
                assert(toks[pos + 1].text == tokens_of(v)[1]);
                assert(read_rest(toks, pos + 1, t.meta) == Ok::<(ItemV, int), crate::exception::ExnV>((crate::ast::mk(t.meta, ExpV::Nil), pos + 2)));
                let w = crate::ast::pair(crate::parser::list_meta(t.meta, toks[pos + 1].meta),
                    crate::ast::mk(t.meta, ExpV::Nil), crate::ast::mk(t.meta, ExpV::Nil));
                assert(same_shape(crate::ast::mk(t.meta, ExpV::Nil), *c.car));
                assert(same_shape(crate::ast::mk(t.meta, ExpV::Nil), *c.cdr));
                assert(same_shape(w, v));
                assert(read_form(toks, pos) == Ok::<(ItemV, int), crate::exception::ExnV>((w, pos + 2)));
            } else {
                let k = tail_tokens(v).len() as int;
                assert(tail_tokens(v) == tokens_of(*c.car) + tail_tokens(*c.cdr));
                assert(tokens_of(v) == seq![seq!['(']] + tail_tokens(v) + seq![seq![')']]);
                assert forall|i: int| 0 <= i < k implies (#[trigger] toks[pos + 1 + i]).text == tail_tokens(v)[i] by {
                    assert(toks[pos + (1 + i)].text == tokens_of(v)[1 + i]);
                    assert(pos + (1 + i) == pos + 1 + i);
                }
                assert(toks[pos + (k + 1)].text == tokens_of(v)[k + 1]);
                assert(pos + (k + 1) == pos + 1 + k);
                lemma_read_tail(toks, pos + 1, t.meta, v);
                let (tl, q) = read_rest(toks, pos + 1, t.meta)->Ok_0;
                assert(same_shape(tl, v));
                assert(tl.exp is Pair);
                let w = ItemV { meta: crate::parser::list_meta(t.meta, toks[q - 1].meta), exp: tl.exp };
                assert(same_shape(w, v));
                assert(read_form(toks, pos) == Ok::<(ItemV, int), crate::exception::ExnV>((w, q)));
            }
        },
        _ => {
            lemma_atom_of_datum(v);
            let s = printed(v.exp);
            assert(t.text == s);
            assert(is_symbol_char(s[0]));
            assert(s != seq!['(']);
            assert(s != seq!['\'']);
            match v.exp {
                ExpV::Number(n) => {
                    lemma_int_text(n);
                },
                ExpV::Boolean(b) => {
                    assert(!is_digit(unsigned_part(s)[0]));
                },
                _ => {},
            }
        },
    }
}

proof fn lemma_read_tail(toks: Seq<TokenV>, p: int, open: crate::exception::MetaV, d: ItemV)
    requires
        is_datum_tail(d),
        0 <= p,
        p + tail_tokens(d).len() < toks.len(),
        forall|i: int| 0 <= i < tail_tokens(d).len() ==> (#[trigger] toks[p + i]).text == tail_tokens(d)[i],
        toks[p + tail_tokens(d).len()].text == seq![')'],
    ensures
        read_rest(toks, p, open) matches Ok((t, q)) && q == p + tail_tokens(d).len() + 1 && same_shape(t, d),
    decreases d, 0nat,
{
    match d.exp {
        ExpV::Pair(c) => {
            let car = *c.car;
            let cdr = *c.cdr;
            let ka = tokens_of(car).len() as int;
            let kt = tail_tokens(cdr).len() as int;
            assert(tail_tokens(d) == tokens_of(car) + tail_tokens(cdr));
            lemma_first_token(car);
            assert(toks[p + 0].text == tail_tokens(d)[0]);
            assert(p + 0 == p);
            assert forall|i: int| 0 <= i < ka implies (#[trigger] toks[p + i]).text == tokens_of(car)[i] by {
                assert(tail_tokens(d)[i] == tokens_of(car)[i]);
            }
            lemma_read_datum(toks, p, car);
            assert forall|i: int| 0 <= i < kt implies (#[trigger] toks[p + ka + i]).text == tail_tokens(cdr)[i] by {
                assert(toks[p + (ka + i)].text == tail_tokens(d)[ka + i]);
                assert(p + (ka + i) == p + ka + i);
            }
            assert(p + ka + kt == p + tail_tokens(d).len());
            lemma_read_tail(toks, p + ka, open, cdr);
        },
        _ => {},
    }
}

/// Printing a datum and reading the printed text back gives a value of the
/// same shape: the same numbers, booleans, symbols and list structure.
pub proof fn print_then_read(v: ItemV, file: Option<Seq<char>>)
    requires
        is_datum(v),
    ensures
        read_form(lex_spec(printed(v.exp), file), 0) matches Ok((w, _)) && same_shape(w, v),
{
    let text = printed(v.exp);
    let init = TextLex { toks: Seq::empty(), pending: None };
    lemma_printed_plain(v);
    lemma_lex_spec_text(text, file);
    lemma_fold_datum(init, v);
    let toks = lex_spec(text, file);
    assert(Seq::<Seq<char>>::empty() + tokens_of(v) =~= tokens_of(v));
    assert(tok_texts(toks) == tokens_of(v));
    assert forall|i: int| 0 <= i < tokens_of(v).len() implies (#[trigger] toks[0 + i]).text == tokens_of(v)[i] by {
        assert(0 + i == i);
        assert(tok_texts(toks)[i] == toks[i].text);
    }
    lemma_read_datum(toks, 0, v);
}

// ---------------------------------------------------------------------------
// What the reader produces

/// A token text the lexer can produce: one delimiter, or an atom.
pub open spec fn good_token(t: Seq<char>) -> bool {
    (t.len() == 1 && is_delimiter(t[0])) || atom_text(t)
}

proof fn lemma_lex_tokens_good(code: Seq<char>, file: Option<Seq<char>>, n: nat)
    requires
        n <= code.len(),
    ensures
        forall|i: int| 0 <= i < lex_state(code, file, n).tokens.len()
            ==> good_token(#[trigger] lex_state(code, file, n).tokens[i].text),
        lex_state(code, file, n).pending matches Some(p) ==> atom_text(p.text),
    decreases n,
{
    if n > 0 {
        lemma_lex_tokens_good(code, file, (n - 1) as nat);
        let prev = lex_state(code, file, (n - 1) as nat);
        let c = code[n - 1];
        let f = flush(prev);
        assert forall|i: int| 0 <= i < f.tokens.len() implies good_token(#[trigger] f.tokens[i].text) by {
            if i < prev.tokens.len() {
                assert(f.tokens[i] == prev.tokens[i]);
            }
        }
        let st = lex_state(code, file, n);
        if c != '\n' && !prev.comment && c != ';' && c != ' ' {
            if is_delimiter(c) {
                let t = crate::parser::single(c, prev.line, prev.col + 1, file, prev.line_text);
                assert(st.tokens == f.tokens.push(t));
                assert forall|i: int| 0 <= i < st.tokens.len() implies good_token(#[trigger] st.tokens[i].text) by {
                    if i < f.tokens.len() {
                        assert(st.tokens[i] == f.tokens[i]);
                    } else {
                        assert(st.tokens[i] == t);
                    }
                }
            } else {
                assert(is_symbol_char(c));
                match prev.pending {
                    Some(p) => {
                        let q = p.text.push(c);
                        assert forall|i: int| 0 <= i < q.len() implies is_symbol_char(#[trigger] q[i]) by {
                            if i < p.text.len() {
                                assert(q[i] == p.text[i]);
                            }
                        }
                    },
                    None => {
                        assert forall|i: int| 0 <= i < seq![c].len() implies is_symbol_char(#[trigger] seq![c][i]) by {}
                    },
                }
            }
        }
    }
}

proof fn lemma_lex_spec_good(code: Seq<char>, file: Option<Seq<char>>)
    ensures
        forall|i: int| 0 <= i < lex_spec(code, file).len() ==> good_token(#[trigger] lex_spec(code, file)[i].text),
{
    lemma_lex_tokens_good(code, file, code.len());
    let st = lex_state(code, file, code.len());
    let f = flush(st);
    assert forall|i: int| 0 <= i < f.tokens.len() implies good_token(#[trigger] f.tokens[i].text) by {
        if i < st.tokens.len() {
            assert(f.tokens[i] == st.tokens[i]);
        }
    }
}

proof fn lemma_quote_symbol()
    ensures
        is_symbol_text("quote"@),
{
    reveal_strlit("quote");
    let q = "quote"@;
    assert(q =~= seq!['q', 'u', 'o', 't', 'e']);
    assert(!has_sign(q));
    assert(!is_digit(unsigned_part(q)[0]));
    assert forall|i: int| 0 <= i < q.len() implies is_symbol_char(#[trigger] q[i]) by {}
}

proof fn lemma_read_is_datum(toks: Seq<TokenV>, pos: int)
    requires
        forall|i: int| 0 <= i < toks.len() ==> good_token(#[trigger] toks[i].text),
    ensures
        read_form(toks, pos) matches Ok((v, _)) ==> is_datum(v),
    decreases toks.len() - pos, 0nat,
{
    if 0 <= pos < toks.len() {
        let t = toks[pos];
        if t.text == seq!['('] {
            lemma_rest_is_tail(toks, pos + 1, t.meta);
            match read_rest(toks, pos + 1, t.meta) {
                Ok((tail, p)) => {
                    let m = crate::parser::list_meta(t.meta, toks[p - 1].meta);
                    if tail.exp is Nil {
                        assert(is_datum(crate::ast::pair(m, crate::ast::mk(t.meta, ExpV::Nil), crate::ast::mk(t.meta, ExpV::Nil))));
                    } else {
                        assert(is_datum(ItemV { meta: m, exp: tail.exp }));
                    }
                },
                Err(_) => {},
            }
        } else if t.text == seq![')'] {
        } else if t.text == seq!['\''] {
            lemma_read_is_datum(toks, pos + 1);
            lemma_quote_symbol();
            match read_form(toks, pos + 1) {
                Ok((d, p)) => {
                    let nil = crate::ast::mk(d.meta, ExpV::Nil);
                    assert(is_datum_tail(nil));
                    assert(!(d.exp is Nil));
                    assert(is_datum_tail(crate::ast::pair(d.meta, d, nil)));
                    let sym = crate::ast::mk(t.meta, ExpV::Symbol("quote"@));
                    assert(is_datum(sym));
                    assert(is_datum(crate::ast::pair(t.meta, sym, crate::ast::pair(d.meta, d, nil))));
                },
                Err(_) => {},
            }
        } else {
            assert(good_token(t.text));
            if t.text.len() == 1 && is_delimiter(t.text[0]) {
                assert(t.text =~= seq![t.text[0]]);
            }
            assert(atom_text(t.text));
            let s = t.text;
            if !is_numeral(s) && s[0] != '#' {
                assert(is_symbol_text(s));
            }
        }
    }
}

proof fn lemma_rest_is_tail(toks: Seq<TokenV>, pos: int, open: crate::exception::MetaV)
    requires
        forall|i: int| 0 <= i < toks.len() ==> good_token(#[trigger] toks[i].text),
    ensures
        read_rest(toks, pos, open) matches Ok((t, _)) ==> is_datum_tail(t),
    decreases toks.len() - pos, 1nat,
{
    if 0 <= pos < toks.len() && toks[pos].text != seq![')'] {
        lemma_read_is_datum(toks, pos);
        match read_form(toks, pos) {
            Ok((e, p1)) => {
                if !(p1 <= pos || p1 > toks.len()) {
                    lemma_rest_is_tail(toks, p1, open);
                }
            },
            Err(_) => {},
        }
    }
}

/// A form read from source text, printed, and read again, gives a value of the
/// same shape as the first reading.
pub proof fn read_print_round_trip(code: Seq<char>, file: Option<Seq<char>>)
    requires
        read_form(lex_spec(code, file), 0) is Ok,
    ensures
        ({
            let v = read_form(lex_spec(code, file), 0)->Ok_0.0;
            read_form(lex_spec(printed(v.exp), None), 0) matches Ok((w, _)) && same_shape(w, v)
        }),
{
    lemma_lex_spec_good(code, file);
    lemma_read_is_datum(lex_spec(code, file), 0);
    print_then_read(read_form(lex_spec(code, file), 0)->Ok_0.0, None);
}

} // verus!
