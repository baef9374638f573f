//! The lexer, which cuts source text into located tokens, and the reader,
//! which turns tokens into values.
use vstd::prelude::*;
use crate::exception::{opt_text, Meta, MetaV, Exn, ExnV, syntax_err, clone_text, empty_meta};
use crate::ast::{Item, ItemV, Exp, ExpV, mk, pair};
use crate::text::push_text;
use vstd::std_specs::iter::IteratorSpec;

verus! {

broadcast use vstd::string::group_string_axioms;

/// A piece of source text and where it stands.
pub struct Token {
    pub meta: Meta,
    pub string: String,
}

pub struct TokenV {
    pub meta: MetaV,
    pub text: Seq<char>,
}

impl View for Token {
    type V = TokenV;

    open spec fn view(&self) -> TokenV {
        TokenV { meta: self.meta@, text: self.string@ }
    }
}

pub open spec fn tokens_view(ts: Seq<Token>) -> Seq<TokenV> {
    ts.map_values(|t: Token| t@)
}

// ---------------------------------------------------------------------------
// Lexer model

/// The lexer's state after a prefix of the source: the finished tokens, the
/// atom being read, the current line and column, whether the rest of the line
/// is a comment, and the text of the current line.
pub struct LexState {
    pub tokens: Seq<TokenV>,
    pub pending: Option<TokenV>,
    pub line: nat,
    pub col: nat,
    pub comment: bool,
    pub line_text: Seq<char>,
}

/// The characters from `start` up to the next line feed or the end.
pub open spec fn line_from(code: Seq<char>, start: int) -> Seq<char>
    decreases code.len() - start,
{
    if start < 0 || start >= code.len() || code[start] == '\n' {
        Seq::empty()
    } else {
        seq![code[start]] + line_from(code, start + 1)
    }
}

pub open spec fn is_delimiter(c: char) -> bool {
    c == '(' || c == ')' || c == '\''
}

/// A one-character token at the given line and column.
pub open spec fn single(c: char, line: nat, col: nat, file: Option<Seq<char>>, code: Seq<char>) -> TokenV {
    TokenV {
        meta: MetaV { line, position: col, token_length: 1, file_name: file, code },
        text: seq![c],
    }
}

pub open spec fn flush(st: LexState) -> LexState {
    match st.pending {
        Some(t) => LexState { tokens: st.tokens.push(t), pending: None, ..st },
        None => st,
    }
}

/// One character of the source, at index `k`.
pub open spec fn lex_step(st: LexState, c: char, file: Option<Seq<char>>, code: Seq<char>, k: int) -> LexState {
    if c == '\n' {
        LexState { line: st.line + 1, col: 0, comment: false, line_text: line_from(code, k + 1), ..flush(st) }
    } else {
        let col = st.col + 1;
        if st.comment {
            LexState { col, ..st }
        } else if c == ';' {
            LexState { col, comment: true, ..flush(st) }
        } else if c == ' ' {
            LexState { col, ..flush(st) }
        } else if is_delimiter(c) {
            let f = flush(st);
            LexState { col, tokens: f.tokens.push(single(c, st.line, col, file, st.line_text)), ..f }
        } else {
            match st.pending {
                Some(t) => LexState {
                    col,
                    pending: Some(TokenV {
                        meta: MetaV { token_length: t.meta.token_length + 1, ..t.meta },
                        text: t.text.push(c),
                    }),
                    ..st
                },
                None => LexState { col, pending: Some(single(c, st.line, col, file, st.line_text)), ..st },
            }
        }
    }
}

pub open spec fn lex_state(code: Seq<char>, file: Option<Seq<char>>, n: nat) -> LexState
    decreases n,
{
    if n == 0 {
        LexState {
            tokens: Seq::empty(),
            pending: None,
            line: 1,
            col: 0,
            comment: false,
            line_text: line_from(code, 0),
        }
    } else {
        lex_step(lex_state(code, file, (n - 1) as nat), code[n - 1], file, code, n - 1)
    }
}

/// The tokens of a source text.
pub open spec fn lex_spec(code: Seq<char>, file: Option<Seq<char>>) -> Seq<TokenV> {
    flush(lex_state(code, file, code.len())).tokens
}

// ---------------------------------------------------------------------------
// Lexer

impl Token {
    pub fn new(line: usize, position: usize, c: char, file: Option<String>, code: String) -> (r: Token)
        ensures
            r@.meta == (MetaV { line: line as nat, position: position as nat, token_length: 1, file_name: opt_text(file), code: code@ }),
            r@.text == seq![c],
    {
        let mut s = String::new();
        s.push(c);
        Token { meta: Meta::new(line, position, 1, file, code), string: s }
    }

    /// Whether the token is the single character `c`.
    pub fn is_char(&self, c: char) -> (r: bool)
        ensures
            r == (self@.text == seq![c]),
    {
        let s = self.string.as_str();
        if s.unicode_len() == 1 {
            let d = s.get_char(0);
            if d == c {
                assert(self@.text =~= seq![c]);
                true
            } else {
                false
            }
        } else {
            false
        }
    }
}

fn clone_file(file: &Option<String>) -> (r: Option<String>)
    ensures
        opt_text(r) == opt_text(*file),
{
    match file {
        Some(f) => Some(clone_text(f)),
        None => None,
    }
}

/// The characters of a string, in order.
pub fn chars_of(s: &str) -> (r: Vec<char>)
    ensures
        r@ == s@,
{
    let mut v: Vec<char> = Vec::new();
    let mut it = s.chars();
    loop
        invariant
            v@ + it.remaining() == s@,
            it.decrease() is Some,
        decreases it.decrease()->0,
    {
        match it.next() {
            Some(c) => {
                v.push(c);
            },
            None => {
                assert(v@ =~= s@);
                return v;
            },
        }
    }
}

fn line_text_at(code: &Vec<char>, start: usize) -> (r: String)
    requires
        start <= code@.len(),
    ensures
        r@ == line_from(code@, start as int),
{
    let mut s = String::new();
    let mut j = start;
    while j < code.len() && code[j] != '\n'
        invariant
            start <= j <= code.len(),
            s@ + line_from(code@, j as int) == line_from(code@, start as int),
        decreases code.len() - j,
    {
        s.push(code[j]);
        j = j + 1;
        assert(s@ + line_from(code@, j as int) =~= line_from(code@, start as int));
    }
    assert(s@ =~= line_from(code@, start as int));
    s
}

fn flush_pending(tokens: &mut Vec<Token>, pending: &mut Option<Token>)
    ensures
        ({
            let st = LexState {
                tokens: tokens_view(old(tokens)@),
                pending: match *old(pending) { Some(t) => Some(t@), None => None },
                line: 0, col: 0, comment: false, line_text: Seq::empty(),
            };
            &&& tokens_view(final(tokens)@) == flush(st).tokens
            &&& final(pending).is_none()
        }),
{
    let p = pending.take();
    match p {
        Some(t) => {
            tokens.push(t);
            assert(tokens_view(tokens@) =~= tokens_view(old(tokens)@).push(t@));
        },
        None => {},
    }
}

/// Cuts source text into tokens. Spaces and line feeds separate atoms, `;`
/// starts a comment that runs to the end of the line, and `(`, `)` and `'`
/// are tokens of their own.
pub fn lex(code: &str, file: Option<String>) -> (r: Vec<Token>)
    requires
        code@.len() < usize::MAX,
    ensures
        tokens_view(r@) == lex_spec(code@, opt_text(file)),
{
    let chars = chars_of(code);
    let ghost fv = opt_text(file);
    let mut tokens: Vec<Token> = Vec::new();
    let mut pending: Option<Token> = None;
    let mut line: usize = 1;
    let mut col: usize = 0;
    let mut comment = false;
    let mut line_text = line_text_at(&chars, 0);
    let mut i: usize = 0;
    assert(tokens_view(tokens@) =~= Seq::<TokenV>::empty());
    while i < chars.len()
        invariant
            i <= chars.len(),
            chars@ == code@,
            code@.len() < usize::MAX,
            fv == opt_text(file),
            line <= i + 1,
            col <= i,
            pending is Some ==> pending->0.meta.token_length <= i,
            ({
                let st = lex_state(code@, fv, i as nat);
                &&& tokens_view(tokens@) == st.tokens
                &&& match pending { Some(t) => st.pending == Some(t@), None => st.pending is None }
                &&& st.line == line
                &&& st.col == col
                &&& st.comment == comment
                &&& st.line_text == line_text@
            }),
        decreases chars.len() - i,
    {
        let c = chars[i];
        let ghost st = lex_state(code@, fv, i as nat);
        if c == '\n' {
            flush_pending(&mut tokens, &mut pending);
            line = line + 1;
            col = 0;
            comment = false;
            line_text = line_text_at(&chars, i + 1);
        } else {
            col = col + 1;
            if comment {
            } else if c == ';' {
                flush_pending(&mut tokens, &mut pending);
                comment = true;
            } else if c == ' ' {
                flush_pending(&mut tokens, &mut pending);
            } else if c == '(' || c == ')' || c == '\'' {
                flush_pending(&mut tokens, &mut pending);
                let t = Token::new(line, col, c, clone_file(&file), clone_text(&line_text));
                tokens.push(t);
                assert(tokens_view(tokens@) =~= flush(st).tokens.push(single(c, st.line, col as nat, fv, st.line_text)));
            } else {
                match pending {
                    Some(mut t) => {
                        t.string.push(c);
                        t.meta.token_length = t.meta.token_length + 1;
                        pending = Some(t);
                    },
                    None => {
                        pending = Some(Token::new(line, col, c, clone_file(&file), clone_text(&line_text)));
                    },
                }
            }
        }
        i = i + 1;
    }
    flush_pending(&mut tokens, &mut pending);
    tokens
}

// ---------------------------------------------------------------------------
// Reader model

pub open spec fn is_digit(c: char) -> bool {
    '0' <= c && c <= '9'
}

/// The value of a run of decimal digits.
pub open spec fn digits_value(d: Seq<char>) -> int
    decreases d.len(),
{
    if d.len() == 0 {
        0
    } else {
        digits_value(d.drop_last()) * 10 + (d.last() as int - '0' as int)
    }
}

pub open spec fn has_sign(s: Seq<char>) -> bool {
    s.len() > 0 && (s[0] == '+' || s[0] == '-')
}

pub open spec fn unsigned_part(s: Seq<char>) -> Seq<char> {
    if has_sign(s) { s.drop_first() } else { s }
}

/// An optional sign followed by one or more decimal digits.
pub open spec fn is_numeral(s: Seq<char>) -> bool {
    &&& unsigned_part(s).len() > 0
    &&& forall|i: int| 0 <= i < unsigned_part(s).len() ==> is_digit(#[trigger] unsigned_part(s)[i])
}

pub open spec fn numeral_value(s: Seq<char>) -> int {
    if has_sign(s) && s[0] == '-' {
        -digits_value(unsigned_part(s))
    } else {
        digits_value(unsigned_part(s))
    }
}

pub open spec fn fits_i64(n: int) -> bool {
    i64::MIN <= n <= i64::MAX
}

/// An atom: a number, `#t` or `#f`, or else a symbol.
pub open spec fn read_atom(t: TokenV) -> Result<ItemV, ExnV> {
    let s = t.text;
    if is_numeral(s) {
        if fits_i64(numeral_value(s)) {
            Ok(mk(t.meta, ExpV::Number(numeral_value(s))))
        } else {
            Err(syntax_err(t.meta, "number out of range"@))
        }
    } else if s.len() > 0 && s[0] == '#' {
        if s == seq!['#', 't'] {
            Ok(mk(t.meta, ExpV::Boolean(true)))
        } else if s == seq!['#', 'f'] {
            Ok(mk(t.meta, ExpV::Boolean(false)))
        } else {
            Err(syntax_err(t.meta, "Unexpected token: "@ + s))
        }
    } else {
        Ok(mk(t.meta, ExpV::Symbol(s)))
    }
}

pub open spec fn end_of_input() -> Seq<char> {
    "unexpected end of input"@
}

/// The location of a whole list: its opening paren, stretched to the closing
/// one when both stand on the same line (columns count from 1).
pub open spec fn list_meta(open: MetaV, close: MetaV) -> MetaV {
    if close.line == open.line && 1 <= open.position <= close.position {
        MetaV { token_length: (close.position - open.position + 1) as nat, ..open }
    } else {
        open
    }
}

/// Reads the form that starts at token `pos`: the form and the index of the
/// first token after it.
pub open spec fn read_form(toks: Seq<TokenV>, pos: int) -> Result<(ItemV, int), ExnV>
    decreases toks.len() - pos, 0nat,
{
    if pos < 0 || pos >= toks.len() {
        Err(syntax_err(empty_meta(), end_of_input()))
    } else {
        let t = toks[pos];
        if t.text == seq!['('] {
            match read_rest(toks, pos + 1, t.meta) {
                Ok((tail, p)) => {
                    let m = list_meta(t.meta, toks[p - 1].meta);
                    if tail.exp is Nil {
                        Ok((pair(m, mk(t.meta, ExpV::Nil), mk(t.meta, ExpV::Nil)), p))
                    } else {
                        Ok((ItemV { meta: m, exp: tail.exp }, p))
                    }
                },
                Err(e) => Err(e),
            }
        } else if t.text == seq![')'] {
            Err(syntax_err(t.meta, "Found unexpected \")\""@))
        } else if t.text == seq!['\''] {
            match read_form(toks, pos + 1) {
                Ok((d, p)) => Ok((
                    pair(t.meta, mk(t.meta, ExpV::Symbol("quote"@)), pair(d.meta, d, mk(d.meta, ExpV::Nil))),
                    p,
                )),
                Err(e) => Err(e),
            }
        } else {
            match read_atom(t) {
                Ok(a) => Ok((a, pos + 1)),
                Err(e) => Err(e),
            }
        }
    }
}

/// Reads the elements of a list up to its closing paren: the chain of cells
/// (each located at the opening paren `open`) and the index after the paren.
pub open spec fn read_rest(toks: Seq<TokenV>, pos: int, open: MetaV) -> Result<(ItemV, int), ExnV>
    decreases toks.len() - pos, 1nat,
{
    if pos < 0 || pos >= toks.len() {
        Err(syntax_err(open, end_of_input()))
    } else if toks[pos].text == seq![')'] {
        Ok((mk(open, ExpV::Nil), pos + 1))
    } else {
        match read_form(toks, pos) {
            Err(e) => Err(e),
            Ok((e, p1)) => if p1 <= pos || p1 > toks.len() {
                // never taken: a form spans at least one token
                Err(syntax_err(open, end_of_input()))
            } else {
                match read_rest(toks, p1, open) {
                    Err(x) => Err(x),
                    Ok((tail, p2)) => Ok((pair(open, e, tail), p2)),
                }
            },
        }
    }
}

pub open spec fn read_view(r: Result<(Item, usize), Exn>) -> Result<(ItemV, int), ExnV> {
    match r {
        Ok((i, p)) => Ok((i@, p as int)),
        Err(e) => Err(e@),
    }
}

// ---------------------------------------------------------------------------
// Reader

proof fn lemma_digits_push(d: Seq<char>, c: char)
    ensures
        digits_value(d.push(c)) == digits_value(d) * 10 + (c as int - '0' as int),
{
    assert(d.push(c).drop_last() =~= d);
}

const NUMERAL_CAP: u128 = 18446744073709551616;

/// Reads a numeral: `None` when the text is none, `Some(None)` when its value
/// does not fit in an `i64`.
fn read_numeral(s: &Vec<char>) -> (r: Option<Option<i64>>)
    ensures
        r is None <==> !is_numeral(s@),
        r matches Some(Some(v)) ==> fits_i64(numeral_value(s@)) && v as int == numeral_value(s@),
        r matches Some(None) ==> !fits_i64(numeral_value(s@)),
{
    let signed = s.len() > 0 && (s[0] == '+' || s[0] == '-');
    let start: usize = if signed { 1 } else { 0 };
    assert(unsigned_part(s@) =~= s@.subrange(start as int, s@.len() as int));
    if start == s.len() {
        return None;
    }
    let mut acc: u128 = 0;
    let mut j: usize = start;
    assert(s@.subrange(start as int, j as int) =~= Seq::<char>::empty());
    while j < s.len()
        invariant
            start <= j <= s@.len(),
            unsigned_part(s@) == s@.subrange(start as int, s@.len() as int),
            forall|i: int| start <= i < j ==> is_digit(s@[i]),
            acc as int == if digits_value(s@.subrange(start as int, j as int)) >= NUMERAL_CAP {
                NUMERAL_CAP as int
            } else {
                digits_value(s@.subrange(start as int, j as int))
            },
        decreases s.len() - j,
    {
        let c = s[j];
        if !('0' <= c && c <= '9') {
            assert(!is_digit(unsigned_part(s@)[j - start]));
            return None;
        }
        let d: u128 = (c as u32 - '0' as u32) as u128;
        let ghost prev = s@.subrange(start as int, j as int);
        proof {
            assert(s@.subrange(start as int, j + 1) =~= prev.push(c));
            lemma_digits_push(prev, c);
        }
        if acc >= NUMERAL_CAP {
            assert(digits_value(prev) * 10 + d >= NUMERAL_CAP) by (nonlinear_arith)
                requires digits_value(prev) >= NUMERAL_CAP, d >= 0;
        } else {
            let next = acc * 10 + d;
            acc = if next >= NUMERAL_CAP { NUMERAL_CAP } else { next };
        }
        j = j + 1;
    }
    assert(s@.subrange(start as int, j as int) =~= unsigned_part(s@));
    let negative = signed && s[0] == '-';
    let v: i128 = if negative { -(acc as i128) } else { acc as i128 };
    if -9223372036854775808i128 <= v && v <= 9223372036854775807i128 {
        Some(Some(v as i64))
    } else {
        Some(None)
    }
}

fn parse_atom(token: &Token) -> (r: Result<Item, Exn>)
    ensures
        match read_atom(token@) {
            Ok(i) => r matches Ok(ri) && ri@ == i,
            Err(e) => r matches Err(re) && re@ == e,
        },
{
    let s = chars_of(token.string.as_str());
    match read_numeral(&s) {
        Some(Some(v)) => return Ok(Item::new(token.meta.duplicate(), Exp::Number(v))),
        Some(None) => return Err(Exn::syntax(token.meta.duplicate(), "number out of range")),
        None => {},
    }
    if s.len() > 0 && s[0] == '#' {
        if s.len() == 2 && s[1] == 't' {
            assert(token@.text =~= seq!['#', 't']);
            Ok(Item::new(token.meta.duplicate(), Exp::Boolean(true)))
        } else if s.len() == 2 && s[1] == 'f' {
            assert(token@.text =~= seq!['#', 'f']);
            Ok(Item::new(token.meta.duplicate(), Exp::Boolean(false)))
        } else {
            assert(token@.text != seq!['#', 't']);
            assert(token@.text != seq!['#', 'f']);
            let mut msg = String::from_str("Unexpected token: ");
            push_text(&mut msg, token.string.as_str());
            Err(Exn::syntax(token.meta.duplicate(), msg.as_str()))
        }
    } else {
        Ok(Item::new(token.meta.duplicate(), Exp::Symbol(clone_text(&token.string))))
    }
}

/// Reads the form that starts at token `pos`: the form and the index after it.
pub fn parse_at(tokens: &[Token], pos: usize) -> (r: Result<(Item, usize), Exn>)
    requires
        pos <= tokens@.len(),
    ensures
        read_view(r) == read_form(tokens_view(tokens@), pos as int),
        r matches Ok((_, p)) ==> pos < p <= tokens@.len(),
    decreases tokens@.len() - pos, 0nat,
{
    let ghost toks = tokens_view(tokens@);
    if pos >= tokens.len() {
        return Err(Exn::syntax(Meta::empty(), "unexpected end of input"));
    }
    let t = &tokens[pos];
    assert(toks[pos as int] == t@);
    if t.is_char('(') {
        parse_list(tokens, pos + 1, &t.meta)
    } else if t.is_char(')') {
        Err(Exn::syntax(t.meta.duplicate(), "Found unexpected \")\""))
    } else if t.is_char('\'') {
        parse_quote(tokens, pos + 1, &t.meta)
    } else {
        match parse_atom(t) {
            Ok(a) => Ok((a, pos + 1)),
            Err(e) => Err(e),
        }
    }
}

/// Reads a list whose opening paren, located at `meta`, stands just before `pos`.
fn parse_list(tokens: &[Token], pos: usize, meta: &Meta) -> (r: Result<(Item, usize), Exn>)
    requires
        1 <= pos <= tokens@.len(),
        tokens_view(tokens@)[pos - 1].text == seq!['('],
        tokens_view(tokens@)[pos - 1].meta == meta@,
    ensures
        read_view(r) == read_form(tokens_view(tokens@), pos - 1),
        r matches Ok((_, p)) ==> pos < p <= tokens@.len(),
    decreases tokens@.len() - pos, 2nat,
{
    let ghost toks = tokens_view(tokens@);
    match parse_rest(tokens, pos, meta) {
        Ok((tail, p)) => {
            let close = &tokens[p - 1].meta;
            assert(toks[p - 1] == tokens@[p - 1]@);
            let mut m = meta.duplicate();
            if close.line == meta.line && 1 <= meta.position && meta.position <= close.position {
                m.token_length = close.position - meta.position + 1;
            }
            if tail.exp.is_nil() {
                Ok((Item::cons(m, Item::new(meta.duplicate(), Exp::Nil), Item::new(meta.duplicate(), Exp::Nil)), p))
            } else {
                Ok((Item::new(m, tail.exp), p))
            }
        },
        Err(e) => Err(e),
    }
}

fn parse_rest(tokens: &[Token], pos: usize, meta: &Meta) -> (r: Result<(Item, usize), Exn>)
    requires
        pos <= tokens@.len(),
    ensures
        read_view(r) == read_rest(tokens_view(tokens@), pos as int, meta@),
        r matches Ok((_, p)) ==> pos < p <= tokens@.len(),
    decreases tokens@.len() - pos, 1nat,
{
    let ghost toks = tokens_view(tokens@);
    if pos >= tokens.len() {
        return Err(Exn::syntax(meta.duplicate(), "unexpected end of input"));
    }
    assert(toks[pos as int] == tokens@[pos as int]@);
    if tokens[pos].is_char(')') {
        return Ok((Item::new(meta.duplicate(), Exp::Nil), pos + 1));
    }
    match parse_at(tokens, pos) {
        Err(e) => Err(e),
        Ok((e, p1)) => {
            match parse_rest(tokens, p1, meta) {
                Err(x) => Err(x),
                Ok((tail, p2)) => Ok((Item::cons(meta.duplicate(), e, tail), p2)),
            }
        },
    }
}

/// Reads the form after a `'`, located at `meta`, that stands just before `pos`.
fn parse_quote(tokens: &[Token], pos: usize, meta: &Meta) -> (r: Result<(Item, usize), Exn>)
    requires
        1 <= pos <= tokens@.len(),
        tokens_view(tokens@)[pos - 1].text == seq!['\''],
        tokens_view(tokens@)[pos - 1].meta == meta@,
    ensures
        read_view(r) == read_form(tokens_view(tokens@), pos - 1),
        r matches Ok((_, p)) ==> pos < p <= tokens@.len(),
    decreases tokens@.len() - pos, 2nat,
{
    let ghost toks = tokens_view(tokens@);
    assert(toks[pos - 1].text != seq!['(']);
    assert(toks[pos - 1].text != seq![')']);
    match parse_at(tokens, pos) {
        Ok((datum, p)) => {
            let dm = datum.meta.duplicate();
            let dm2 = datum.meta.duplicate();
            let quoted = Item::cons(dm, datum, Item::new(dm2, Exp::Nil));
            let sym = Item::new(meta.duplicate(), Exp::Symbol(String::from_str("quote")));
            Ok((Item::cons(meta.duplicate(), sym, quoted), p))
        },
        Err(e) => Err(e),
    }
}

/// Reads the first form of `tokens`: the form and the tokens after it.
pub fn parse<'a>(tokens: &'a [Token]) -> (r: Result<(Item, &'a [Token]), Exn>)
    ensures
        match read_form(tokens_view(tokens@), 0) {
            Ok((i, p)) => r matches Ok((ri, rest)) && ri@ == i
                && tokens_view(rest@) == tokens_view(tokens@).subrange(p, tokens@.len() as int),
            Err(e) => r matches Err(re) && re@ == e,
        },
{
    match parse_at(tokens, 0) {
        Ok((item, p)) => {
            let (_, rest) = tokens.split_at(p);
            assert(tokens_view(rest@) =~= tokens_view(tokens@).subrange(p as int, tokens@.len() as int));
            Ok((item, rest))
        },
        Err(e) => Err(e),
    }
}

} // verus!
