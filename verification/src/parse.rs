//! The grammar of the language, as a parser from characters to syntax.
//!
//! Each grammar function below takes the input and a position and gives the
//! parsed value with the position after it, or `None` when the input there
//! does not match. Alternatives are tried in order and the first that
//! matches wins; repetitions take as many items as match. Whitespace may
//! stand between any two tokens.
use vstd::prelude::*;

use crate::error::{just_error, single_error, ErrorV};
use crate::repl_cmd::ReplCmd;
use crate::syntax::{Command, CommandV, Ctor, CtorV, Span, Spanned, Syntax, SyntaxV};
use crate::text::{
    alpha, alphanumeric, byte_offset, byte_offsets, chars_of, decimal, digit, digit_char, is_alpha,
    is_alphanumeric, is_digit, is_whitespace, offsets_of, push_char, whitespace,
};

verus! {

// ---------------------------------------------------------------- tokens

/// The position after the whitespace that starts at `p`.
pub open spec fn ws_end(s: Seq<char>, p: nat) -> nat
    decreases s.len() - p,
{
    if p < s.len() && is_whitespace(s[p as int]) {
        ws_end(s, p + 1)
    } else {
        p
    }
}

/// The position after the letters and digits that start at `p`.
pub open spec fn alnum_end(s: Seq<char>, p: nat) -> nat
    decreases s.len() - p,
{
    if p < s.len() && is_alphanumeric(s[p as int]) {
        alnum_end(s, p + 1)
    } else {
        p
    }
}

/// A character that may continue an identifier.
pub open spec fn is_ident_char(c: char) -> bool {
    is_alphanumeric(c) || c == '_'
}

/// The position after the identifier characters that start at `p`.
pub open spec fn ident_rest_end(s: Seq<char>, p: nat) -> nat
    decreases s.len() - p,
{
    if p < s.len() && is_ident_char(s[p as int]) {
        ident_rest_end(s, p + 1)
    } else {
        p
    }
}

/// The position after the digits that start at `p`.
pub open spec fn digits_end(s: Seq<char>, p: nat) -> nat
    decreases s.len() - p,
{
    if p < s.len() && is_digit(s[p as int]) {
        digits_end(s, p + 1)
    } else {
        p
    }
}

/// An identifier (a letter or `_`, then letters, digits and `_`) at `p`.
pub open spec fn ident_at(s: Seq<char>, p: nat) -> Option<nat> {
    if p < s.len() && (is_alpha(s[p as int]) || s[p as int] == '_') {
        Some(ident_rest_end(s, p + 1))
    } else {
        None
    }
}

/// The keyword `k` at `p`: an identifier that is exactly `k`.
pub open spec fn keyword_at(s: Seq<char>, p: nat, k: Seq<char>) -> Option<nat> {
    match ident_at(s, p) {
        Some(q) => if s.subrange(p as int, q as int) == k { Some(q) } else { None },
        None => None,
    }
}

/// A name (a letter, then letters and digits) at `p`.
pub open spec fn name_at(s: Seq<char>, p: nat) -> Option<nat> {
    if p < s.len() && is_alpha(s[p as int]) {
        Some(alnum_end(s, p + 1))
    } else {
        None
    }
}

/// The exact characters `t` at `p`.
pub open spec fn token_at(s: Seq<char>, p: nat, t: Seq<char>) -> Option<nat> {
    if p + t.len() <= s.len() && s.subrange(p as int, (p + t.len()) as int) == t {
        Some(p + t.len())
    } else {
        None
    }
}

/// The character `c` at `p`.
pub open spec fn char_at(s: Seq<char>, p: nat, c: char) -> bool {
    p < s.len() && s[p as int] == c
}

/// The value of a sequence of decimal digits.
pub open spec fn digits_value(d: Seq<char>) -> nat
    decreases d.len(),
{
    if d.len() == 0 {
        0
    } else {
        digits_value(d.drop_last()) * 10 + ((d.last() as nat - '0' as nat) as nat)
    }
}

/// A natural number at `p`: `0`, or a nonzero digit followed by digits,
/// whose value fits in `usize`.
pub open spec fn nat_at(s: Seq<char>, p: nat) -> Option<(usize, nat)> {
    if p < s.len() && s[p as int] == '0' {
        Some((0, p + 1))
    } else if p < s.len() && '1' <= s[p as int] && s[p as int] <= '9' {
        let q = digits_end(s, p + 1);
        let v = digits_value(s.subrange(p as int, q as int));
        if v <= usize::MAX { Some((v as usize, q)) } else { None }
    } else {
        None
    }
}

fn skip_ws(s: &Vec<char>, p: usize) -> (q: usize)
    requires
        p <= s@.len(),
    ensures
        q == ws_end(s@, p as nat),
        p <= q <= s@.len(),
{
    let mut q = p;
    while q < s.len() && whitespace(s[q])
        invariant
            p <= q <= s@.len(),
            ws_end(s@, p as nat) == ws_end(s@, q as nat),
        decreases s@.len() - q,
    {
        q = q + 1;
    }
    q
}

fn alnum_run(s: &Vec<char>, p: usize) -> (q: usize)
    requires
        p <= s@.len(),
    ensures
        q == alnum_end(s@, p as nat),
        p <= q <= s@.len(),
{
    let mut q = p;
    while q < s.len() && alphanumeric(s[q])
        invariant
            p <= q <= s@.len(),
            alnum_end(s@, p as nat) == alnum_end(s@, q as nat),
        decreases s@.len() - q,
    {
        q = q + 1;
    }
    q
}

fn ident_rest_run(s: &Vec<char>, p: usize) -> (q: usize)
    requires
        p <= s@.len(),
    ensures
        q == ident_rest_end(s@, p as nat),
        p <= q <= s@.len(),
{
    let mut q = p;
    while q < s.len() && (alphanumeric(s[q]) || s[q] == '_')
        invariant
            p <= q <= s@.len(),
            ident_rest_end(s@, p as nat) == ident_rest_end(s@, q as nat),
        decreases s@.len() - q,
    {
        q = q + 1;
    }
    q
}

fn name_token(s: &Vec<char>, p: usize) -> (r: Option<usize>)
    requires
        p <= s@.len(),
    ensures
        r is Some == name_at(s@, p as nat) is Some,
        r matches Some(q) ==> name_at(s@, p as nat) == Some(q as nat) && p < q <= s@.len(),
{
    if p < s.len() && alpha(s[p]) {
        Some(alnum_run(s, p + 1))
    } else {
        None
    }
}

/// Whether `s[p..q]` holds exactly the characters of `w`.
fn same_chars(s: &Vec<char>, p: usize, q: usize, w: &str) -> (b: bool)
    requires
        p <= q <= s@.len(),
    ensures
        b == (s@.subrange(p as int, q as int) == w@),
{
    let n = w.unicode_len();
    if q - p != n {
        return false;
    }
    let mut i: usize = 0;
    while i < n
        invariant
            n == w@.len(),
            q - p == n,
            p <= q <= s@.len(),
            i <= n,
            forall|k: int| 0 <= k < i ==> s@[p + k] == w@[k],
        decreases n - i,
    {
        if s[p + i] != w.get_char(i) {
            proof {
                assert(s@.subrange(p as int, q as int)[i as int] != w@[i as int]);
            }
            return false;
        }
        i = i + 1;
    }
    proof {
        assert(s@.subrange(p as int, q as int) =~= w@);
    }
    true
}

fn keyword(s: &Vec<char>, p: usize, k: &str) -> (r: Option<usize>)
    requires
        p <= s@.len(),
    ensures
        r is Some == keyword_at(s@, p as nat, k@) is Some,
        r matches Some(q) ==> keyword_at(s@, p as nat, k@) == Some(q as nat) && p < q <= s@.len(),
{
    if p < s.len() && (alpha(s[p]) || s[p] == '_') {
        let q = ident_rest_run(s, p + 1);
        if same_chars(s, p, q, k) {
            Some(q)
        } else {
            None
        }
    } else {
        None
    }
}

fn token(s: &Vec<char>, p: usize, t: &str) -> (r: Option<usize>)
    requires
        p <= s@.len(),
    ensures
        r is Some == token_at(s@, p as nat, t@) is Some,
        r matches Some(q) ==> token_at(s@, p as nat, t@) == Some(q as nat) && p <= q <= s@.len(),
{
    let n = t.unicode_len();
    if n <= s.len() - p && same_chars(s, p, p + n, t) {
        Some(p + n)
    } else {
        None
    }
}

fn at_char(s: &Vec<char>, p: usize, c: char) -> (b: bool)
    ensures
        b == char_at(s@, p as nat, c),
        b ==> p < s@.len() <= usize::MAX,
{
    p < s.len() && s[p] == c
}

proof fn lemma_digits_value_prefix(d: Seq<char>, i: int)
    requires
        0 <= i <= d.len(),
        forall|k: int| 0 <= k < d.len() ==> is_digit(#[trigger] d[k]),
    ensures
        digits_value(d.take(i)) <= digits_value(d),
    decreases d.len() - i,
{
    if i < d.len() {
        lemma_digits_value_prefix(d.drop_last(), i);
        assert(d.drop_last().take(i) =~= d.take(i));
    } else {
        assert(d.take(i) =~= d);
    }
}

fn natural(s: &Vec<char>, p: usize) -> (r: Option<(usize, usize)>)
    requires
        p <= s@.len(),
    ensures
        r is Some == nat_at(s@, p as nat) is Some,
        r matches Some((v, q)) ==> nat_at(s@, p as nat) == Some((v, q as nat)) && p < q <= s@.len(),
{
    if p < s.len() && s[p] == '0' {
        return Some((0, p + 1));
    }
    if !(p < s.len() && '1' <= s[p] && s[p] <= '9') {
        return None;
    }
    let mut q = p;
    let mut value: usize = 0;
    let mut overflow = false;
    while q < s.len() && digit(s[q])
        invariant
            p <= q <= s@.len(),
            digits_end(s@, (p + 1) as nat) == digits_end(s@, if q == p { (p + 1) as nat } else { q as nat }),
            forall|k: int| p <= k < q ==> is_digit(#[trigger] s@[k]),
            !overflow ==> value == digits_value(s@.subrange(p as int, q as int)),
            overflow ==> digits_value(s@.subrange(p as int, q as int)) > usize::MAX,
        decreases s@.len() - q,
    {
        let d = (s[q] as u32 - '0' as u32) as usize;
        proof {
            let sub = s@.subrange(p as int, q + 1);
            assert(sub.drop_last() =~= s@.subrange(p as int, q as int));
            assert(digits_value(sub) == digits_value(s@.subrange(p as int, q as int)) * 10 + d);
        }
        if !overflow {
            if value > (usize::MAX - d) / 10 {
                overflow = true;
                proof {
                    assert(value * 10 + d > usize::MAX) by (nonlinear_arith)
                        requires value > (usize::MAX - d) / 10, d < 10;
                }
            } else {
                proof {
                    assert(value * 10 + d <= usize::MAX) by (nonlinear_arith)
                        requires value <= (usize::MAX - d) / 10, d < 10;
                }
                value = value * 10 + d;
            }
        } else {
            proof {
                assert(digits_value(s@.subrange(p as int, q as int)) * 10 + d > usize::MAX) by (nonlinear_arith)
                    requires digits_value(s@.subrange(p as int, q as int)) > usize::MAX;
            }
        }
        q = q + 1;
    }
    if overflow {
        None
    } else {
        Some((value, q))
    }
}


// ---------------------------------------------------------------- grammar

/// The span from `a` to `b`.
pub open spec fn sp(a: nat, b: nat) -> Span {
    Span { start: a as usize, end: b as usize }
}

/// A parenthesized group of parameters that share a type.
pub struct ParamV {
    pub names: Seq<Seq<char>>,
    pub typ: SyntaxV,
    pub typ_span: Span,
}

/// Functions of the parameters `names`, all of type `typ`, around `body`.
pub open spec fn fun_names(names: Seq<Seq<char>>, typ: SyntaxV, typ_span: Span, body: SyntaxV) -> SyntaxV
    decreases names.len(),
{
    if names.len() == 0 {
        body
    } else {
        SyntaxV::Fun {
            param_name: names[0],
            param_type: Box::new(typ),
            param_type_span: typ_span,
            body: Box::new(fun_names(names.drop_first(), typ, typ_span, body)),
        }
    }
}

/// Functions of the parameter groups `params` around `body`.
pub open spec fn fun_params(params: Seq<ParamV>, body: SyntaxV) -> SyntaxV
    decreases params.len(),
{
    if params.len() == 0 {
        body
    } else {
        fun_names(params[0].names, params[0].typ, params[0].typ_span, fun_params(params.drop_first(), body))
    }
}

/// Products over the parameters `names`, all of type `typ`, around `body`;
/// each product's span runs from `start` to the end of its body.
pub open spec fn prod_names(names: Seq<Seq<char>>, typ: SyntaxV, typ_span: Span, start: usize, body: SyntaxV, body_span: Span) -> (SyntaxV, Span)
    decreases names.len(),
{
    if names.len() == 0 {
        (body, body_span)
    } else {
        let inner = prod_names(names.drop_first(), typ, typ_span, start, body, body_span);
        (
            SyntaxV::Prod {
                param_name: names[0],
                param_type: Box::new(typ),
                param_type_span: typ_span,
                body_type: Box::new(inner.0),
                body_type_span: inner.1,
            },
            Span { start, end: inner.1.end },
        )
    }
}

/// Products over the spanned parameter groups `items` around `body`.
pub open spec fn prod_fold(items: Seq<(ParamV, Span)>, body: SyntaxV, body_span: Span) -> (SyntaxV, Span)
    decreases items.len(),
{
    if items.len() == 0 {
        (body, body_span)
    } else {
        let inner = prod_fold(items.drop_first(), body, body_span);
        prod_names(items[0].0.names, items[0].0.typ, items[0].0.typ_span, items[0].1.start, inner.0, inner.1)
    }
}

/// Names, each with whitespace around it, as many as there are.
pub open spec fn names_more(s: Seq<char>, p: nat) -> (Seq<Seq<char>>, nat)
    decreases s.len() - p,
{
    let a = ws_end(s, p);
    match name_at(s, a) {
        Some(b) => {
            let c = ws_end(s, b);
            if p < c && c <= s.len() {
                let rest = names_more(s, c);
                (seq![s.subrange(a as int, b as int)] + rest.0, rest.1)
            } else {
                (Seq::empty(), p)
            }
        },
        None => (Seq::empty(), p),
    }
}

/// `( names : TYPE )`: a parameter group, whose type is a term when `full`
/// and an application otherwise.
pub open spec fn param_at(s: Seq<char>, p: nat, full: bool) -> Option<(ParamV, nat)>
    decreases s.len() - p, 2nat,
{
    let a = ws_end(s, p);
    if char_at(s, a, '(') {
        let names = names_more(s, a + 1);
        let c = ws_end(s, names.1);
        if names.0.len() > 0 && char_at(s, c, ':') {
            let d = ws_end(s, c + 1);
            if p < d && d <= s.len() {
                match type_at(s, d, full) {
                    Some((t, e)) => if char_at(s, e, ')') {
                        Some((ParamV { names: names.0, typ: t, typ_span: sp(d, e) }, e + 1))
                    } else {
                        None
                    },
                    None => None,
                }
            } else {
                None
            }
        } else {
            None
        }
    } else {
        None
    }
}

/// Parameter groups, as many as there are.
pub open spec fn params_more(s: Seq<char>, p: nat, full: bool) -> (Seq<ParamV>, nat)
    decreases s.len() - p, 3nat,
{
    match param_at(s, p, full) {
        Some((pa, q)) => if p < q && q <= s.len() {
            let rest = params_more(s, q, full);
            (seq![pa] + rest.0, rest.1)
        } else {
            (Seq::empty(), p)
        },
        None => (Seq::empty(), p),
    }
}

/// `( TERM )`.
pub open spec fn parens_at(s: Seq<char>, p: nat) -> Option<(SyntaxV, nat)>
    decreases s.len() - p, 1nat,
{
    let a = ws_end(s, p);
    if char_at(s, a, '(') {
        let b = ws_end(s, a + 1);
        if p < b && b <= s.len() {
            match syntax_at(s, b) {
                Some((t, c)) => if char_at(s, c, ')') { Some((t, c + 1)) } else { None },
                None => None,
            }
        } else {
            None
        }
    } else {
        None
    }
}

/// `Sort n`: the universe of level `n`.
pub open spec fn sort_at(s: Seq<char>, p: nat) -> Option<(SyntaxV, nat)> {
    match keyword_at(s, ws_end(s, p), "Sort"@) {
        Some(b) => match nat_at(s, ws_end(s, b)) {
            Some((v, d)) => Some((SyntaxV::Sort { level: v }, d)),
            None => None,
        },
        None => None,
    }
}

/// `Type n` or `Type`: the universe of level `n + 1`, or of level 1.
pub open spec fn type_sort_at(s: Seq<char>, p: nat) -> Option<(SyntaxV, nat)> {
    match keyword_at(s, ws_end(s, p), "Type"@) {
        Some(b) => {
            let c = ws_end(s, b);
            match nat_at(s, c) {
                Some((v, d)) => if v < usize::MAX { Some((SyntaxV::Sort { level: (v + 1) as usize }, d)) } else { None },
                None => Some((SyntaxV::Sort { level: 1 }, c)),
            }
        },
        None => None,
    }
}

/// `fun PARAMS => TERM`, with at least one parameter group.
pub open spec fn fun_at(s: Seq<char>, p: nat) -> Option<(SyntaxV, nat)>
    decreases s.len() - p, 1nat,
{
    match keyword_at(s, ws_end(s, p), "fun"@) {
        Some(b) => {
            let c = ws_end(s, b);
            if p < c && c <= s.len() {
                let params = params_more(s, c, true);
                if params.0.len() > 0 {
                    match token_at(s, ws_end(s, params.1), "=>"@) {
                        Some(f) => {
                            let g = ws_end(s, f);
                            if p < g && g <= s.len() {
                                match syntax_at(s, g) {
                                    Some((body, h)) => Some((fun_params(params.0, body), h)),
                                    None => None,
                                }
                            } else {
                                None
                            }
                        },
                        None => None,
                    }
                } else {
                    None
                }
            } else {
                None
            }
        },
        None => None,
    }
}

/// `let name PARAMS := TERM ; TERM`.
pub open spec fn let_at(s: Seq<char>, p: nat) -> Option<(SyntaxV, nat)>
    decreases s.len() - p, 1nat,
{
    match keyword_at(s, ws_end(s, p), "let"@) {
        Some(b) => {
            let c = ws_end(s, b);
            match name_at(s, c) {
                Some(d) => {
                    let e = ws_end(s, d);
                    if p < e && e <= s.len() {
                        let params = params_more(s, e, true);
                        match token_at(s, ws_end(s, params.1), ":="@) {
                            Some(h) => {
                                let i = ws_end(s, h);
                                if p < i && i <= s.len() {
                                    match syntax_at(s, i) {
                                        Some((value, j)) => {
                                            let k = ws_end(s, j);
                                            if char_at(s, k, ';') {
                                                let l = ws_end(s, k + 1);
                                                if p < l && l <= s.len() {
                                                    match syntax_at(s, l) {
                                                        Some((body, m)) => Some((
                                                            SyntaxV::Let {
                                                                name: s.subrange(c as int, d as int),
                                                                value: Box::new(fun_params(params.0, value)),
                                                                body: Box::new(body),
                                                            },
                                                            m,
                                                        )),
                                                        None => None,
                                                    }
                                                } else {
                                                    None
                                                }
                                            } else {
                                                None
                                            }
                                        },
                                        None => None,
                                    }
                                } else {
                                    None
                                }
                            },
                            None => None,
                        }
                    } else {
                        None
                    }
                },
                None => None,
            }
        },
        None => None,
    }
}

/// A variable: a name.
pub open spec fn variable_at(s: Seq<char>, p: nat) -> Option<(SyntaxV, nat)> {
    match name_at(s, p) {
        Some(q) => Some((SyntaxV::Var { name: s.subrange(p as int, q as int), name_span: sp(p, q) }, q)),
        None => None,
    }
}

/// A keyword that stands for a term by itself.
pub open spec fn word_at(s: Seq<char>, p: nat, k: Seq<char>, t: SyntaxV) -> Option<(SyntaxV, nat)> {
    match keyword_at(s, p, k) {
        Some(q) => Some((t, q)),
        None => None,
    }
}

/// An atom: a number, a parenthesized term, `Prop`, `Sort n`, `Type n`,
/// `unit`, `Unit`, `Nat`, a function, a `let`, or a variable, tried in
/// that order.
pub open spec fn atom_at(s: Seq<char>, p: nat) -> Option<(SyntaxV, nat)>
    decreases s.len() - p, 4nat,
{
    match nat_at(s, p) {
        Some((v, q)) => Some((SyntaxV::Nat { value: v }, q)),
        None => match parens_at(s, p) {
            Some(r) => Some(r),
            None => match word_at(s, p, "Prop"@, SyntaxV::Sort { level: 0 }) {
                Some(r) => Some(r),
                None => match sort_at(s, p) {
                    Some(r) => Some(r),
                    None => match type_sort_at(s, p) {
                        Some(r) => Some(r),
                        None => match word_at(s, p, "unit"@, SyntaxV::Unit) {
                            Some(r) => Some(r),
                            None => match word_at(s, p, "Unit"@, SyntaxV::UnitType) {
                                Some(r) => Some(r),
                                None => match word_at(s, p, "Nat"@, SyntaxV::NatType) {
                                    Some(r) => Some(r),
                                    None => match fun_at(s, p) {
                                        Some(r) => Some(r),
                                        None => match let_at(s, p) {
                                            Some(r) => Some(r),
                                            None => variable_at(s, p),
                                        },
                                    },
                                },
                            },
                        },
                    },
                },
            },
        },
    }
}

/// The arguments after a callee `acc` spanning `acc_span`: further atoms,
/// applied from left to right.
pub open spec fn app_rest(s: Seq<char>, p: nat, acc: SyntaxV, acc_span: Span) -> (SyntaxV, nat)
    decreases s.len() - p, 5nat,
{
    let a = ws_end(s, p);
    if p <= a && a <= s.len() {
        match atom_at(s, a) {
            Some((x, b)) => {
                let c = ws_end(s, b);
                if p < c && c <= s.len() {
                    app_rest(
                        s,
                        c,
                        SyntaxV::App { callee: Box::new(acc), callee_span: acc_span, arg: Box::new(x), arg_span: sp(a, b) },
                        Span { start: acc_span.start, end: b as usize },
                    )
                } else {
                    (acc, p)
                }
            },
            None => (acc, p),
        }
    } else {
        (acc, p)
    }
}

/// An application: one or more atoms.
pub open spec fn app_at(s: Seq<char>, p: nat) -> Option<(SyntaxV, nat)>
    decreases s.len() - p, 6nat,
{
    let a = ws_end(s, p);
    if p <= a && a <= s.len() {
        match atom_at(s, a) {
            Some((x, b)) => {
                let c = ws_end(s, b);
                if p < c && c <= s.len() {
                    Some(app_rest(s, c, x, sp(a, b)))
                } else {
                    None
                }
            },
            None => None,
        }
    } else {
        None
    }
}

/// One domain of a product type and its arrow: a parameter group whose
/// type is an application, or a bare application, then `->`.
pub open spec fn prod_item(s: Seq<char>, p: nat) -> Option<((ParamV, Span), nat)>
    decreases s.len() - p, 7nat,
{
    let a = ws_end(s, p);
    if p <= a && a <= s.len() {
        let param = match param_at(s, a, false) {
            Some((pa, b)) => Some((pa, b)),
            None => match app_at(s, a) {
                Some((x, b)) => Some((ParamV { names: seq![Seq::<char>::empty()], typ: x, typ_span: sp(a, b) }, b)),
                None => None,
            },
        };
        match param {
            Some((pa, b)) => match token_at(s, ws_end(s, b), "->"@) {
                Some(d) => Some(((pa, sp(a, b)), ws_end(s, d))),
                None => None,
            },
            None => None,
        }
    } else {
        None
    }
}

/// Domains of a product type, as many as there are.
pub open spec fn prod_items(s: Seq<char>, p: nat) -> (Seq<(ParamV, Span)>, nat)
    decreases s.len() - p, 8nat,
{
    match prod_item(s, p) {
        Some((it, q)) => if p < q && q <= s.len() {
            let rest = prod_items(s, q);
            (seq![it] + rest.0, rest.1)
        } else {
            (Seq::empty(), p)
        },
        None => (Seq::empty(), p),
    }
}

/// A term: domains with arrows, then an application as the codomain.
pub open spec fn prod_at(s: Seq<char>, p: nat) -> Option<(SyntaxV, nat)>
    decreases s.len() - p, 9nat,
{
    let items = prod_items(s, p);
    let q = items.1;
    if p <= q && q <= s.len() {
        match app_at(s, q) {
            Some((body, e)) => Some((prod_fold(items.0, body, sp(q, e)).0, e)),
            None => None,
        }
    } else {
        None
    }
}

/// A term.
pub open spec fn syntax_at(s: Seq<char>, p: nat) -> Option<(SyntaxV, nat)>
    decreases s.len() - p, 10nat,
{
    prod_at(s, p)
}

/// A term when `full`, an application otherwise.
pub open spec fn type_at(s: Seq<char>, p: nat, full: bool) -> Option<(SyntaxV, nat)>
    decreases s.len() - p, 11nat,
{
    if full { syntax_at(s, p) } else { app_at(s, p) }
}


// ---------------------------------------------------------------- commands

/// Spanned parameter groups of an inductive type, as many as there are.
pub open spec fn ind_params_more(s: Seq<char>, p: nat) -> (Seq<(ParamV, Span)>, nat)
    decreases s.len() - p,
{
    let a = ws_end(s, p);
    match param_at(s, a, true) {
        Some((pa, b)) => {
            let c = ws_end(s, b);
            if p < c && c <= s.len() {
                let rest = ind_params_more(s, c);
                (seq![(pa, sp(a, b))] + rest.0, rest.1)
            } else {
                (Seq::empty(), p)
            }
        },
        None => (Seq::empty(), p),
    }
}

/// Constructors `| name : TERM`, as many as there are.
pub open spec fn ctors_more(s: Seq<char>, p: nat) -> (Seq<CtorV>, nat)
    decreases s.len() - p,
{
    let a = ws_end(s, p);
    if char_at(s, a, '|') {
        let b = ws_end(s, a + 1);
        match name_at(s, b) {
            Some(c) => {
                let d = ws_end(s, c);
                if char_at(s, d, ':') {
                    let e = ws_end(s, d + 1);
                    match syntax_at(s, e) {
                        Some((t, f)) => {
                            let g = ws_end(s, f);
                            if p < g && g <= s.len() {
                                let rest = ctors_more(s, g);
                                (
                                    seq![CtorV { name: s.subrange(b as int, c as int), name_span: sp(b, c), typ: t, typ_span: sp(e, f) }]
                                        + rest.0,
                                    rest.1,
                                )
                            } else {
                                (Seq::empty(), p)
                            }
                        },
                        None => (Seq::empty(), p),
                    }
                } else {
                    (Seq::empty(), p)
                }
            },
            None => (Seq::empty(), p),
        }
    } else {
        (Seq::empty(), p)
    }
}

/// `def name PARAMS := TERM`.
pub open spec fn def_at(s: Seq<char>, p: nat) -> Option<(CommandV, nat)> {
    match keyword_at(s, ws_end(s, p), "def"@) {
        Some(b) => {
            let c = ws_end(s, b);
            match name_at(s, c) {
                Some(d) => {
                    let params = params_more(s, ws_end(s, d), true);
                    match token_at(s, ws_end(s, params.1), ":="@) {
                        Some(h) => match syntax_at(s, ws_end(s, h)) {
                            Some((value, j)) => Some((
                                CommandV::Def { name: s.subrange(c as int, d as int), name_span: sp(c, d), value: fun_params(params.0, value) },
                                j,
                            )),
                            None => None,
                        },
                        None => None,
                    }
                },
                None => None,
            }
        },
        None => None,
    }
}

/// `inductive name PARAMS : TERM CTORS`; the parameters become products
/// around the type.
pub open spec fn inductive_at(s: Seq<char>, p: nat) -> Option<(CommandV, nat)> {
    match keyword_at(s, ws_end(s, p), "inductive"@) {
        Some(b) => {
            let c = ws_end(s, b);
            match name_at(s, c) {
                Some(d) => {
                    let params = ind_params_more(s, ws_end(s, d));
                    let g = ws_end(s, params.1);
                    if char_at(s, g, ':') {
                        let h = ws_end(s, g + 1);
                        match syntax_at(s, h) {
                            Some((t, i)) => {
                                let ctors = ctors_more(s, ws_end(s, i));
                                let typ = prod_fold(params.0, t, sp(h, i));
                                Some((
                                    CommandV::Inductive {
                                        name: s.subrange(c as int, d as int),
                                        name_span: sp(c, d),
                                        typ: typ.0,
                                        typ_span: typ.1,
                                        ctors: ctors.0,
                                    },
                                    ctors.1,
                                ))
                            },
                            None => None,
                        }
                    } else {
                        None
                    }
                },
                None => None,
            }
        },
        None => None,
    }
}

/// A command: a definition or an inductive type.
pub open spec fn command_at(s: Seq<char>, p: nat) -> Option<(CommandV, nat)> {
    match def_at(s, p) {
        Some(r) => Some(r),
        None => inductive_at(s, p),
    }
}

/// A REPL line: a command, else a term.
pub open spec fn repl_cmd_at(s: Seq<char>) -> Option<(crate::repl_cmd::ReplCmdV, nat)> {
    match command_at(s, 0) {
        Some((c, q)) => Some((crate::repl_cmd::ReplCmdV::Command { command: c }, q)),
        None => match syntax_at(s, 0) {
            Some((t, q)) => Some((crate::repl_cmd::ReplCmdV::Syntax { syntax: t }, q)),
            None => None,
        },
    }
}

/// What parsing a whole REPL line gives: the line, or an error at the first
/// character after the command or term it starts with, or an error over the
/// whole line when it starts with neither.
pub open spec fn repl_cmd_result(s: Seq<char>) -> Result<crate::repl_cmd::ReplCmdV, ErrorV> {
    match repl_cmd_at(s) {
        Some((c, q)) => if q == s.len() {
            Ok(c)
        } else {
            Err(ErrorV { span: sp(q, q + 1), message: "unexpected input"@ })
        },
        None => Err(ErrorV { span: sp(0, s.len()), message: "could not parse input"@ }),
    }
}


proof fn lemma_ws_end_bounds(s: Seq<char>, p: nat)
    ensures
        p <= ws_end(s, p),
        p <= s.len() ==> ws_end(s, p) <= s.len(),
    decreases s.len() - p,
{
    if p < s.len() && is_whitespace(s[p as int]) {
        lemma_ws_end_bounds(s, p + 1);
    }
}

/// The parameter groups of an inductive type are read in the order they are
/// written: each group is the one written at its span, and each span ends
/// no later than the next one starts.
pub proof fn law_ind_params_in_order(s: Seq<char>, p: nat)
    requires
        s.len() <= usize::MAX,
        p <= s.len(),
    ensures
        ({
            let items = ind_params_more(s, p).0;
            &&& forall|k: int| 0 <= k < items.len() ==>
                param_at(s, (#[trigger] items[k]).1.start as nat, true) == Some((items[k].0, items[k].1.end as nat))
            &&& forall|k: int| 0 <= k < items.len() - 1 ==> #[trigger] items[k].1.end <= items[k + 1].1.start
            &&& items.len() > 0 ==> p <= items[0].1.start
            &&& forall|k: int| 0 <= k < items.len() ==> (#[trigger] items[k]).1.end <= s.len()
        }),
    decreases s.len() - p,
{
    let a = ws_end(s, p);
    lemma_ws_end_bounds(s, p);
    if let Some((pa, b)) = param_at(s, a, true) {
        let c = ws_end(s, b);
        lemma_ws_end_bounds(s, b);
        if p < c && c <= s.len() {
            law_ind_params_in_order(s, c);
            let rest = ind_params_more(s, c).0;
            let items = ind_params_more(s, p).0;
            assert(items == seq![(pa, sp(a, b))] + rest);
            assert forall|k: int| 0 <= k < items.len() - 1 implies #[trigger] items[k].1.end <= items[k + 1].1.start by {
                if k > 0 {
                    assert(items[k] == rest[k - 1]);
                    assert(items[k + 1] == rest[k]);
                }
            }
            assert forall|k: int| 0 <= k < items.len() implies
                param_at(s, (#[trigger] items[k]).1.start as nat, true) == Some((items[k].0, items[k].1.end as nat))
                && items[k].1.end <= s.len() by {
                if k > 0 {
                    assert(items[k] == rest[k - 1]);
                }
            }
        }
    }
}

/// The parsed type of an inductive type starts with its first parameter
/// group: the outermost product binds the group's first name at its type.
pub proof fn law_prod_fold_first(items: Seq<(ParamV, Span)>, body: SyntaxV, body_span: Span)
    requires
        items.len() > 0,
        items[0].0.names.len() > 0,
    ensures
        prod_fold(items, body, body_span).0 matches SyntaxV::Prod { param_name, param_type, .. }
            && param_name == items[0].0.names[0] && *param_type == items[0].0.typ,
{
}


// ---------------------------------------------------------------- byte offsets

/// The span `sp` of character positions in `s`, as byte offsets into the
/// UTF-8 encoding of `s`.
pub open spec fn span_in_bytes(s: Seq<char>, sp: Span) -> Span {
    Span { start: byte_offset(s, sp.start as int) as usize, end: byte_offset(s, sp.end as int) as usize }
}

/// The syntax `x` with every span turned into byte offsets into `s`.
pub open spec fn syntax_in_bytes(x: SyntaxV, s: Seq<char>) -> SyntaxV
    decreases x,
{
    match x {
        SyntaxV::Fun { param_name, param_type, param_type_span, body } => SyntaxV::Fun {
            param_name,
            param_type: Box::new(syntax_in_bytes(*param_type, s)),
            param_type_span: span_in_bytes(s, param_type_span),
            body: Box::new(syntax_in_bytes(*body, s)),
        },
        SyntaxV::Prod { param_name, param_type, param_type_span, body_type, body_type_span } => SyntaxV::Prod {
            param_name,
            param_type: Box::new(syntax_in_bytes(*param_type, s)),
            param_type_span: span_in_bytes(s, param_type_span),
            body_type: Box::new(syntax_in_bytes(*body_type, s)),
            body_type_span: span_in_bytes(s, body_type_span),
        },
        SyntaxV::Var { name, name_span } => SyntaxV::Var { name, name_span: span_in_bytes(s, name_span) },
        SyntaxV::App { callee, callee_span, arg, arg_span } => SyntaxV::App {
            callee: Box::new(syntax_in_bytes(*callee, s)),
            callee_span: span_in_bytes(s, callee_span),
            arg: Box::new(syntax_in_bytes(*arg, s)),
            arg_span: span_in_bytes(s, arg_span),
        },
        SyntaxV::Let { name, value, body } => SyntaxV::Let {
            name,
            value: Box::new(syntax_in_bytes(*value, s)),
            body: Box::new(syntax_in_bytes(*body, s)),
        },
        _ => x,
    }
}

/// The constructor declaration `c` with its spans in byte offsets into `s`.
pub open spec fn ctor_in_bytes(c: CtorV, s: Seq<char>) -> CtorV {
    CtorV {
        name: c.name,
        name_span: span_in_bytes(s, c.name_span),
        typ: syntax_in_bytes(c.typ, s),
        typ_span: span_in_bytes(s, c.typ_span),
    }
}

/// The command `c` with every span in byte offsets into `s`.
pub open spec fn command_in_bytes(c: CommandV, s: Seq<char>) -> CommandV {
    match c {
        CommandV::Def { name, name_span, value } => CommandV::Def {
            name,
            name_span: span_in_bytes(s, name_span),
            value: syntax_in_bytes(value, s),
        },
        CommandV::Inductive { name, name_span, typ, typ_span, ctors } => CommandV::Inductive {
            name,
            name_span: span_in_bytes(s, name_span),
            typ: syntax_in_bytes(typ, s),
            typ_span: span_in_bytes(s, typ_span),
            ctors: ctors.map_values(|c: CtorV| ctor_in_bytes(c, s)),
        },
    }
}

/// What `repl_cmd` gives for the line `s`: what `repl_cmd_result` gives,
/// with every span in byte offsets into the line's UTF-8 encoding. (A line
/// whose encoding is longer than `usize` counts cannot be a string; it is
/// refused.)
pub open spec fn repl_line_result(s: Seq<char>) -> Result<crate::repl_cmd::ReplCmdV, ErrorV> {
    if byte_offset(s, s.len() as int) > usize::MAX {
        Err(ErrorV { span: sp(0, 0), message: "input too long"@ })
    } else {
        match repl_cmd_result(s) {
            Ok(crate::repl_cmd::ReplCmdV::Command { command }) => Ok(crate::repl_cmd::ReplCmdV::Command { command: command_in_bytes(command, s) }),
            Ok(crate::repl_cmd::ReplCmdV::Syntax { syntax }) => Ok(crate::repl_cmd::ReplCmdV::Syntax { syntax: syntax_in_bytes(syntax, s) }),
            Err(e) => Err(ErrorV { span: span_in_bytes(s, e.span), message: e.message }),
        }
    }
}


// ---------------------------------------------------------------- numerals

proof fn lemma_digit_char_value(d: nat)
    requires
        d < 10,
    ensures
        is_digit(digit_char(d)),
        ((digit_char(d) as nat - '0' as nat) as nat) == d,
        d > 0 ==> '1' <= digit_char(d),
{
    assert('0' as nat == 48);
    assert('1' as nat == 49);
    assert('2' as nat == 50);
    assert('3' as nat == 51);
    assert('4' as nat == 52);
    assert('5' as nat == 53);
    assert('6' as nat == 54);
    assert('7' as nat == 55);
    assert('8' as nat == 56);
    assert('9' as nat == 57);
}

proof fn lemma_decimal_digits(n: nat)
    ensures
        decimal(n).len() >= 1,
        forall|i: int| 0 <= i < decimal(n).len() ==> is_digit(#[trigger] decimal(n)[i]),
        n == 0 ==> decimal(n) == seq!['0'],
        n > 0 ==> '1' <= decimal(n)[0] && decimal(n)[0] <= '9',
        digits_value(decimal(n)) == n,
    decreases n,
{
    if n < 10 {
        lemma_digit_char_value(n);
        let d = decimal(n);
        assert(d == seq![digit_char(n)]);
        assert(d.drop_last() =~= Seq::<char>::empty());
        assert(digits_value(d.drop_last()) == 0);
        assert(d.last() == digit_char(n));
        assert(digits_value(d) == digits_value(d.drop_last()) * 10 + ((d.last() as nat - '0' as nat) as nat));
    } else {
        lemma_decimal_digits(n / 10);
        lemma_digit_char_value(n % 10);
        let d = decimal(n);
        let h = decimal(n / 10);
        assert(d == h.push(digit_char(n % 10)));
        assert(d.drop_last() =~= h);
        assert forall|i: int| 0 <= i < d.len() implies is_digit(#[trigger] d[i]) by {
            if i < h.len() {
                assert(d[i] == h[i]);
            }
        }
        assert(d[0] == h[0]);
        assert(d.last() == digit_char(n % 10));
        assert(digits_value(d) == digits_value(h) * 10 + ((d.last() as nat - '0' as nat) as nat));
        assert((n / 10) * 10 + n % 10 == n);
    }
}

proof fn lemma_digits_end_all(s: Seq<char>, p: nat)
    requires
        p <= s.len(),
        forall|i: int| 0 <= i < s.len() ==> is_digit(#[trigger] s[i]),
    ensures
        digits_end(s, p) == s.len(),
    decreases s.len() - p,
{
    if p < s.len() {
        lemma_digits_end_all(s, p + 1);
    }
}

/// The displayed form of a number is read back as that number.
pub proof fn law_numeral_roundtrip(n: usize)
    ensures
        nat_at(decimal(n as nat), 0) == Some((n, decimal(n as nat).len())),
{
    let s = decimal(n as nat);
    lemma_decimal_digits(n as nat);
    if n > 0 {
        lemma_digits_end_all(s, 1);
        assert(s.subrange(0, s.len() as int) =~= s);
    }
}

proof fn lemma_nothing_at_end(s: Seq<char>)
    ensures
        atom_at(s, s.len()) is None,
        ws_end(s, s.len()) == s.len(),
{
    let e = s.len();
    assert(ws_end(s, e) == e);
    assert(nat_at(s, e) is None);
    assert(parens_at(s, e) is None);
    assert(ident_at(s, e) is None);
    assert(keyword_at(s, e, "Prop"@) is None);
    assert(keyword_at(s, e, "Sort"@) is None);
    assert(keyword_at(s, e, "Type"@) is None);
    assert(keyword_at(s, e, "unit"@) is None);
    assert(keyword_at(s, e, "Unit"@) is None);
    assert(keyword_at(s, e, "Nat"@) is None);
    assert(keyword_at(s, e, "fun"@) is None);
    assert(keyword_at(s, e, "let"@) is None);
    assert(word_at(s, e, "Prop"@, SyntaxV::Sort { level: 0 }) is None);
    assert(sort_at(s, e) is None);
    assert(type_sort_at(s, e) is None);
    assert(word_at(s, e, "unit"@, SyntaxV::Unit) is None);
    assert(word_at(s, e, "Unit"@, SyntaxV::UnitType) is None);
    assert(word_at(s, e, "Nat"@, SyntaxV::NatType) is None);
    assert(fun_at(s, e) is None);
    assert(let_at(s, e) is None);
    assert(variable_at(s, e) is None);
}

/// A line that holds the displayed form of a number is read as that number.
pub proof fn law_numeral_line(n: usize)
    ensures
        repl_cmd_result(decimal(n as nat)) == Ok::<crate::repl_cmd::ReplCmdV, ErrorV>(
            crate::repl_cmd::ReplCmdV::Syntax { syntax: SyntaxV::Nat { value: n } },
        ),
{
    let s = decimal(n as nat);
    let e = s.len();
    lemma_decimal_digits(n as nat);
    law_numeral_roundtrip(n);
    lemma_nothing_at_end(s);
    assert(is_digit(s[0]));
    assert(ws_end(s, 0) == 0);
    assert(ident_at(s, 0) is None);
    assert(keyword_at(s, 0, "def"@) is None);
    assert(keyword_at(s, 0, "inductive"@) is None);
    assert(def_at(s, 0) is None);
    assert(inductive_at(s, 0) is None);
    assert(command_at(s, 0) is None);
    let x = SyntaxV::Nat { value: n };
    assert(atom_at(s, 0) == Some((x, e)));
    assert(app_rest(s, e, x, sp(0, e)) == (x, e));
    assert(app_at(s, 0) == Some((x, e)));
    assert(param_at(s, 0, false) is None);
    reveal_strlit("->");
    assert(token_at(s, e, "->"@) is None);
    assert(prod_item(s, 0) is None);
    assert(prod_items(s, 0) == (Seq::<(ParamV, Span)>::empty(), 0nat));
    assert(prod_fold(Seq::<(ParamV, Span)>::empty(), x, sp(0, e)).0 == x);
    assert(syntax_at(s, 0) == Some((x, e)));
}

// ---------------------------------------------------------------- the parser

/// A parameter group as parsed.
struct Param {
    names: Vec<String>,
    typ: Spanned<Box<Syntax>>,
}

spec fn param_view(pa: Param) -> ParamV {
    ParamV { names: crate::context::names_view(pa.names@), typ: (*pa.typ.inner)@, typ_span: pa.typ.span }
}

spec fn params_view(ps: Seq<Param>) -> Seq<ParamV> {
    ps.map_values(|pa: Param| param_view(pa))
}

spec fn items_view(ps: Seq<(Param, Span)>) -> Seq<(ParamV, Span)> {
    ps.map_values(|it: (Param, Span)| (param_view(it.0), it.1))
}

/// The model of a parse result.
pub open spec fn parsed(r: Option<(Syntax, usize)>) -> Option<(SyntaxV, nat)> {
    match r {
        Some((t, q)) => Some((t@, q as nat)),
        None => None,
    }
}

fn string_range(s: &Vec<char>, a: usize, b: usize) -> (r: String)
    requires
        a <= b <= s@.len(),
    ensures
        r@ == s@.subrange(a as int, b as int),
{
    let mut r = String::new();
    let mut i = a;
    while i < b
        invariant
            a <= i <= b <= s@.len(),
            r@ == s@.subrange(a as int, i as int),
        decreases b - i,
    {
        push_char(&mut r, s[i]);
        i = i + 1;
        proof {
            assert(r@ =~= s@.subrange(a as int, i as int));
        }
    }
    r
}

fn copy_spanned(t: &Spanned<Box<Syntax>>) -> (r: Spanned<Box<Syntax>>)
    ensures
        (*r.inner)@ == (*t.inner)@,
        r.span == t.span,
{
    Spanned { inner: Box::new((*t.inner).duplicate()), span: t.span }
}

fn wrap_fun_names(names: &Vec<String>, typ: &Spanned<Box<Syntax>>, body: Syntax) -> (r: Syntax)
    ensures
        r@ == fun_names(crate::context::names_view(names@), (*typ.inner)@, typ.span, body@),
{
    let ghost ns = crate::context::names_view(names@);
    let mut acc = body;
    let mut j = names.len();
    while j > 0
        invariant
            j <= names@.len(),
            ns == crate::context::names_view(names@),
            acc@ == fun_names(ns.skip(j as int), (*typ.inner)@, typ.span, body@),
        decreases j,
    {
        proof {
            assert(ns.skip(j - 1).drop_first() =~= ns.skip(j as int));
            assert(ns.skip(j - 1)[0] == names@[j - 1]@);
        }
        acc = Syntax::Fun { param_name: names[j - 1].clone(), param_type: copy_spanned(typ), body: Box::new(acc) };
        j = j - 1;
    }
    proof {
        assert(ns.skip(0) =~= ns);
    }
    acc
}

fn desugar_fun_params(params: &Vec<Param>, body: Syntax) -> (r: Syntax)
    ensures
        r@ == fun_params(params_view(params@), body@),
{
    let ghost ps = params_view(params@);
    let mut acc = body;
    let mut i = params.len();
    while i > 0
        invariant
            i <= params@.len(),
            ps == params_view(params@),
            acc@ == fun_params(ps.skip(i as int), body@),
        decreases i,
    {
        proof {
            assert(ps.skip(i - 1).drop_first() =~= ps.skip(i as int));
            assert(ps.skip(i - 1)[0] == param_view(params@[i - 1]));
        }
        acc = wrap_fun_names(&params[i - 1].names, &params[i - 1].typ, acc);
        i = i - 1;
    }
    proof {
        assert(ps.skip(0) =~= ps);
    }
    acc
}

fn wrap_prod_names(names: &Vec<String>, typ: &Spanned<Box<Syntax>>, start: usize, body: Syntax, body_span: Span) -> (r: (Syntax, Span))
    ensures
        (r.0@, r.1) == prod_names(crate::context::names_view(names@), (*typ.inner)@, typ.span, start, body@, body_span),
{
    let ghost ns = crate::context::names_view(names@);
    let mut acc = body;
    let mut acc_span = body_span;
    let mut j = names.len();
    while j > 0
        invariant
            j <= names@.len(),
            ns == crate::context::names_view(names@),
            (acc@, acc_span) == prod_names(ns.skip(j as int), (*typ.inner)@, typ.span, start, body@, body_span),
        decreases j,
    {
        proof {
            assert(ns.skip(j - 1).drop_first() =~= ns.skip(j as int));
            assert(ns.skip(j - 1)[0] == names@[j - 1]@);
        }
        let end = acc_span.end;
        acc = Syntax::Prod {
            param_name: names[j - 1].clone(),
            param_type: copy_spanned(typ),
            body_type: Spanned { inner: Box::new(acc), span: acc_span },
        };
        acc_span = Span { start, end };
        j = j - 1;
    }
    proof {
        assert(ns.skip(0) =~= ns);
    }
    (acc, acc_span)
}

fn fold_prods(items: &Vec<(Param, Span)>, body: Syntax, body_span: Span) -> (r: (Syntax, Span))
    ensures
        (r.0@, r.1) == prod_fold(items_view(items@), body@, body_span),
{
    let ghost its = items_view(items@);
    let mut acc = body;
    let mut acc_span = body_span;
    let mut i = items.len();
    while i > 0
        invariant
            i <= items@.len(),
            its == items_view(items@),
            (acc@, acc_span) == prod_fold(its.skip(i as int), body@, body_span),
        decreases i,
    {
        proof {
            assert(its.skip(i - 1).drop_first() =~= its.skip(i as int));
            assert(its.skip(i - 1)[0] == (param_view(items@[i - 1].0), items@[i - 1].1));
        }
        let item = &items[i - 1];
        let (next, next_span) = wrap_prod_names(&item.0.names, &item.0.typ, item.1.start, acc, acc_span);
        acc = next;
        acc_span = next_span;
        i = i - 1;
    }
    proof {
        assert(its.skip(0) =~= its);
    }
    (acc, acc_span)
}

fn parse_names(s: &Vec<char>, p: usize) -> (r: (Vec<String>, usize))
    requires
        p <= s@.len(),
    ensures
        (crate::context::names_view(r.0@), r.1 as nat) == names_more(s@, p as nat),
        p <= r.1 <= s@.len(),
    decreases s@.len() - p,
{
    let a = skip_ws(s, p);
    match name_token(s, a) {
        Some(b) => {
            let c = skip_ws(s, b);
            if p < c && c <= s.len() {
                let (mut rest, e) = parse_names(s, c);
                let ghost old_rest = rest@;
                rest.insert(0, string_range(s, a, b));
                proof {
                    assert(crate::context::names_view(rest@) =~= seq![s@.subrange(a as int, b as int)] + crate::context::names_view(old_rest));
                }
                (rest, e)
            } else {
                (Vec::new(), p)
            }
        },
        None => (Vec::new(), p),
    }
}

fn parse_param(s: &Vec<char>, p: usize, full: bool) -> (r: Option<(Param, usize)>)
    requires
        p <= s@.len(),
    ensures
        (match r { Some((pa, q)) => Some((param_view(pa), q as nat)), None => None }) == param_at(s@, p as nat, full),
        r matches Some((_, q)) ==> q <= s@.len(),
    decreases s@.len() - p, 2nat,
{
    let a = skip_ws(s, p);
    if at_char(s, a, '(') {
        let (names, b) = parse_names(s, a + 1);
        let c = skip_ws(s, b);
        if names.len() > 0 && at_char(s, c, ':') {
            let d = skip_ws(s, c + 1);
            if p < d && d <= s.len() {
                match parse_type(s, d, full) {
                    Some((t, e)) => if at_char(s, e, ')') {
                        Some((Param { names, typ: Spanned { inner: Box::new(t), span: Span { start: d, end: e } } }, e + 1))
                    } else {
                        None
                    },
                    None => None,
                }
            } else {
                None
            }
        } else {
            None
        }
    } else {
        None
    }
}

fn parse_params(s: &Vec<char>, p: usize, full: bool) -> (r: (Vec<Param>, usize))
    requires
        p <= s@.len(),
    ensures
        (params_view(r.0@), r.1 as nat) == params_more(s@, p as nat, full),
        p <= r.1 <= s@.len(),
    decreases s@.len() - p, 3nat,
{
    match parse_param(s, p, full) {
        Some((pa, q)) => if p < q && q <= s.len() {
            let (mut rest, e) = parse_params(s, q, full);
            let ghost old_rest = rest@;
            let ghost pv = param_view(pa);
            rest.insert(0, pa);
            proof {
                assert(params_view(rest@) =~= seq![pv] + params_view(old_rest));
            }
            (rest, e)
        } else {
            (Vec::new(), p)
        },
        None => (Vec::new(), p),
    }
}

fn parse_parens(s: &Vec<char>, p: usize) -> (r: Option<(Syntax, usize)>)
    requires
        p <= s@.len(),
    ensures
        parsed(r) == parens_at(s@, p as nat),
        r matches Some((_, q)) ==> q <= s@.len(),
    decreases s@.len() - p, 1nat,
{
    let a = skip_ws(s, p);
    if at_char(s, a, '(') {
        let b = skip_ws(s, a + 1);
        if p < b && b <= s.len() {
            match parse_syntax(s, b) {
                Some((t, c)) => if at_char(s, c, ')') { Some((t, c + 1)) } else { None },
                None => None,
            }
        } else {
            None
        }
    } else {
        None
    }
}

fn parse_sort(s: &Vec<char>, p: usize) -> (r: Option<(Syntax, usize)>)
    requires
        p <= s@.len(),
    ensures
        parsed(r) == sort_at(s@, p as nat),
        r matches Some((_, q)) ==> q <= s@.len(),
{
    match keyword(s, skip_ws(s, p), "Sort") {
        Some(b) => match natural(s, skip_ws(s, b)) {
            Some((v, d)) => Some((Syntax::Sort { level: v }, d)),
            None => None,
        },
        None => None,
    }
}

fn parse_type_sort(s: &Vec<char>, p: usize) -> (r: Option<(Syntax, usize)>)
    requires
        p <= s@.len(),
    ensures
        parsed(r) == type_sort_at(s@, p as nat),
        r matches Some((_, q)) ==> q <= s@.len(),
{
    match keyword(s, skip_ws(s, p), "Type") {
        Some(b) => {
            let c = skip_ws(s, b);
            match natural(s, c) {
                Some((v, d)) => if v < usize::MAX { Some((Syntax::Sort { level: v + 1 }, d)) } else { None },
                None => Some((Syntax::Sort { level: 1 }, c)),
            }
        },
        None => None,
    }
}

fn parse_fun(s: &Vec<char>, p: usize) -> (r: Option<(Syntax, usize)>)
    requires
        p <= s@.len(),
    ensures
        parsed(r) == fun_at(s@, p as nat),
        r matches Some((_, q)) ==> q <= s@.len(),
    decreases s@.len() - p, 1nat,
{
    match keyword(s, skip_ws(s, p), "fun") {
        Some(b) => {
            let c = skip_ws(s, b);
            if p < c && c <= s.len() {
                let (params, d) = parse_params(s, c, true);
                if params.len() > 0 {
                    match token(s, skip_ws(s, d), "=>") {
                        Some(f) => {
                            let g = skip_ws(s, f);
                            if p < g && g <= s.len() {
                                match parse_syntax(s, g) {
                                    Some((body, h)) => Some((desugar_fun_params(&params, body), h)),
                                    None => None,
                                }
                            } else {
                                None
                            }
                        },
                        None => None,
                    }
                } else {
                    None
                }
            } else {
                None
            }
        },
        None => None,
    }
}

fn parse_let(s: &Vec<char>, p: usize) -> (r: Option<(Syntax, usize)>)
    requires
        p <= s@.len(),
    ensures
        parsed(r) == let_at(s@, p as nat),
        r matches Some((_, q)) ==> q <= s@.len(),
    decreases s@.len() - p, 1nat,
{
    let b = match keyword(s, skip_ws(s, p), "let") {
        Some(b) => b,
        None => return None,
    };
    let c = skip_ws(s, b);
    let d = match name_token(s, c) {
        Some(d) => d,
        None => return None,
    };
    let e = skip_ws(s, d);
    if !(p < e && e <= s.len()) {
        return None;
    }
    let (params, f) = parse_params(s, e, true);
    let h = match token(s, skip_ws(s, f), ":=") {
        Some(h) => h,
        None => return None,
    };
    let i = skip_ws(s, h);
    if !(p < i && i <= s.len()) {
        return None;
    }
    let (value, j) = match parse_syntax(s, i) {
        Some(r) => r,
        None => return None,
    };
    let k = skip_ws(s, j);
    if !at_char(s, k, ';') {
        return None;
    }
    let l = skip_ws(s, k + 1);
    if !(p < l && l <= s.len()) {
        return None;
    }
    let (body, m) = match parse_syntax(s, l) {
        Some(r) => r,
        None => return None,
    };
    let name = string_range(s, c, d);
    let value = desugar_fun_params(&params, value);
    Some((Syntax::Let { name, value: Box::new(value), body: Box::new(body) }, m))
}

fn parse_variable(s: &Vec<char>, p: usize) -> (r: Option<(Syntax, usize)>)
    requires
        p <= s@.len(),
    ensures
        parsed(r) == variable_at(s@, p as nat),
        r matches Some((_, q)) ==> q <= s@.len(),
{
    match name_token(s, p) {
        Some(q) => Some((Syntax::Var { name: Spanned { inner: string_range(s, p, q), span: Span { start: p, end: q } } }, q)),
        None => None,
    }
}

fn parse_word(s: &Vec<char>, p: usize, k: &str, t: Syntax) -> (r: Option<(Syntax, usize)>)
    requires
        p <= s@.len(),
    ensures
        parsed(r) == word_at(s@, p as nat, k@, t@),
        r matches Some((_, q)) ==> q <= s@.len(),
{
    match keyword(s, p, k) {
        Some(q) => Some((t, q)),
        None => None,
    }
}

fn parse_atom(s: &Vec<char>, p: usize) -> (r: Option<(Syntax, usize)>)
    requires
        p <= s@.len(),
    ensures
        parsed(r) == atom_at(s@, p as nat),
        r matches Some((_, q)) ==> q <= s@.len(),
    decreases s@.len() - p, 4nat,
{
    match natural(s, p) {
        Some((v, q)) => return Some((Syntax::Nat { value: v }, q)),
        None => {},
    }
    match parse_parens(s, p) {
        Some(r) => return Some(r),
        None => {},
    }
    match parse_word(s, p, "Prop", Syntax::Sort { level: 0 }) {
        Some(r) => return Some(r),
        None => {},
    }
    match parse_sort(s, p) {
        Some(r) => return Some(r),
        None => {},
    }
    match parse_type_sort(s, p) {
        Some(r) => return Some(r),
        None => {},
    }
    match parse_word(s, p, "unit", Syntax::Unit) {
        Some(r) => return Some(r),
        None => {},
    }
    match parse_word(s, p, "Unit", Syntax::UnitType) {
        Some(r) => return Some(r),
        None => {},
    }
    match parse_word(s, p, "Nat", Syntax::NatType) {
        Some(r) => return Some(r),
        None => {},
    }
    match parse_fun(s, p) {
        Some(r) => return Some(r),
        None => {},
    }
    match parse_let(s, p) {
        Some(r) => return Some(r),
        None => {},
    }
    parse_variable(s, p)
}

fn parse_app_rest(s: &Vec<char>, p: usize, acc: Syntax, acc_span: Span) -> (r: (Syntax, usize))
    requires
        p <= s@.len(),
    ensures
        (r.0@, r.1 as nat) == app_rest(s@, p as nat, acc@, acc_span),
        r.1 <= s@.len(),
    decreases s@.len() - p, 5nat,
{
    let a = skip_ws(s, p);
    if p <= a && a <= s.len() {
        match parse_atom(s, a) {
            Some((x, b)) => {
                let c = skip_ws(s, b);
                if p < c && c <= s.len() {
                    let app = Syntax::App {
                        callee: Spanned { inner: Box::new(acc), span: acc_span },
                        arg: Spanned { inner: Box::new(x), span: Span { start: a, end: b } },
                    };
                    parse_app_rest(s, c, app, Span { start: acc_span.start, end: b })
                } else {
                    (acc, p)
                }
            },
            None => (acc, p),
        }
    } else {
        (acc, p)
    }
}

fn parse_app(s: &Vec<char>, p: usize) -> (r: Option<(Syntax, usize)>)
    requires
        p <= s@.len(),
    ensures
        parsed(r) == app_at(s@, p as nat),
        r matches Some((_, q)) ==> q <= s@.len(),
    decreases s@.len() - p, 6nat,
{
    let a = skip_ws(s, p);
    if p <= a && a <= s.len() {
        match parse_atom(s, a) {
            Some((x, b)) => {
                let c = skip_ws(s, b);
                if p < c && c <= s.len() {
                    Some(parse_app_rest(s, c, x, Span { start: a, end: b }))
                } else {
                    None
                }
            },
            None => None,
        }
    } else {
        None
    }
}

fn parse_prod_item(s: &Vec<char>, p: usize) -> (r: Option<((Param, Span), usize)>)
    requires
        p <= s@.len(),
    ensures
        (match r { Some((it, q)) => Some(((param_view(it.0), it.1), q as nat)), None => None }) == prod_item(s@, p as nat),
        r matches Some((_, q)) ==> q <= s@.len(),
    decreases s@.len() - p, 7nat,
{
    let a = skip_ws(s, p);
    if p <= a && a <= s.len() {
        let param = match parse_param(s, a, false) {
            Some((pa, b)) => Some((pa, b)),
            None => match parse_app(s, a) {
                Some((x, b)) => {
                    let mut names: Vec<String> = Vec::new();
                    names.push(String::new());
                    proof {
                        assert(crate::context::names_view(names@) =~= seq![Seq::<char>::empty()]);
                    }
                    Some((Param { names, typ: Spanned { inner: Box::new(x), span: Span { start: a, end: b } } }, b))
                },
                None => None,
            },
        };
        match param {
            Some((pa, b)) => match token(s, skip_ws(s, b), "->") {
                Some(d) => Some(((pa, Span { start: a, end: b }), skip_ws(s, d))),
                None => None,
            },
            None => None,
        }
    } else {
        None
    }
}

fn parse_prod_items(s: &Vec<char>, p: usize) -> (r: (Vec<(Param, Span)>, usize))
    requires
        p <= s@.len(),
    ensures
        (items_view(r.0@), r.1 as nat) == prod_items(s@, p as nat),
        r.1 <= s@.len(),
    decreases s@.len() - p, 8nat,
{
    match parse_prod_item(s, p) {
        Some((it, q)) => if p < q && q <= s.len() {
            let (mut rest, e) = parse_prod_items(s, q);
            let ghost old_rest = rest@;
            let ghost iv = (param_view(it.0), it.1);
            rest.insert(0, it);
            proof {
                assert(items_view(rest@) =~= seq![iv] + items_view(old_rest));
            }
            (rest, e)
        } else {
            (Vec::new(), p)
        },
        None => (Vec::new(), p),
    }
}

fn parse_prod(s: &Vec<char>, p: usize) -> (r: Option<(Syntax, usize)>)
    requires
        p <= s@.len(),
    ensures
        parsed(r) == prod_at(s@, p as nat),
        r matches Some((_, q)) ==> q <= s@.len(),
    decreases s@.len() - p, 9nat,
{
    let (items, q) = parse_prod_items(s, p);
    if p <= q && q <= s.len() {
        match parse_app(s, q) {
            Some((body, e)) => {
                let (t, _) = fold_prods(&items, body, Span { start: q, end: e });
                Some((t, e))
            },
            None => None,
        }
    } else {
        None
    }
}

fn parse_syntax(s: &Vec<char>, p: usize) -> (r: Option<(Syntax, usize)>)
    requires
        p <= s@.len(),
    ensures
        parsed(r) == syntax_at(s@, p as nat),
        r matches Some((_, q)) ==> q <= s@.len(),
    decreases s@.len() - p, 10nat,
{
    parse_prod(s, p)
}

fn parse_type(s: &Vec<char>, p: usize, full: bool) -> (r: Option<(Syntax, usize)>)
    requires
        p <= s@.len(),
    ensures
        parsed(r) == type_at(s@, p as nat, full),
        r matches Some((_, q)) ==> q <= s@.len(),
    decreases s@.len() - p, 11nat,
{
    if full { parse_syntax(s, p) } else { parse_app(s, p) }
}


fn parse_ind_params(s: &Vec<char>, p: usize) -> (r: (Vec<(Param, Span)>, usize))
    requires
        p <= s@.len(),
    ensures
        (items_view(r.0@), r.1 as nat) == ind_params_more(s@, p as nat),
        r.1 <= s@.len(),
    decreases s@.len() - p,
{
    let a = skip_ws(s, p);
    match parse_param(s, a, true) {
        Some((pa, b)) => {
            let c = skip_ws(s, b);
            if p < c && c <= s.len() {
                let (mut rest, e) = parse_ind_params(s, c);
                let ghost old_rest = rest@;
                let ghost iv = (param_view(pa), Span { start: a, end: b });
                rest.insert(0, (pa, Span { start: a, end: b }));
                proof {
                    assert(items_view(rest@) =~= seq![iv] + items_view(old_rest));
                }
                (rest, e)
            } else {
                (Vec::new(), p)
            }
        },
        None => (Vec::new(), p),
    }
}

fn parse_ctors(s: &Vec<char>, p: usize) -> (r: (Vec<Ctor>, usize))
    requires
        p <= s@.len(),
    ensures
        (r.0@.map_values(|c: Ctor| c@), r.1 as nat) == ctors_more(s@, p as nat),
        r.1 <= s@.len(),
    decreases s@.len() - p,
{
    let a = skip_ws(s, p);
    if !at_char(s, a, '|') {
        return (Vec::new(), p);
    }
    let b = skip_ws(s, a + 1);
    let c = match name_token(s, b) {
        Some(c) => c,
        None => return (Vec::new(), p),
    };
    let d = skip_ws(s, c);
    if !at_char(s, d, ':') {
        return (Vec::new(), p);
    }
    let e = skip_ws(s, d + 1);
    let (t, f) = match parse_syntax(s, e) {
        Some(r) => r,
        None => return (Vec::new(), p),
    };
    let g = skip_ws(s, f);
    if !(p < g && g <= s.len()) {
        return (Vec::new(), p);
    }
    let (mut rest, h) = parse_ctors(s, g);
    let ctor = Ctor {
        name: Spanned { inner: string_range(s, b, c), span: Span { start: b, end: c } },
        typ: Spanned { inner: t, span: Span { start: e, end: f } },
    };
    let ghost old_rest = rest@;
    let ghost cv = ctor@;
    rest.insert(0, ctor);
    proof {
        assert(rest@.map_values(|c: Ctor| c@) =~= seq![cv] + old_rest.map_values(|c: Ctor| c@));
    }
    (rest, h)
}

/// The model of a command parse result.
pub open spec fn parsed_command(r: Option<(Command, usize)>) -> Option<(CommandV, nat)> {
    match r {
        Some((c, q)) => Some((c@, q as nat)),
        None => None,
    }
}

fn parse_def(s: &Vec<char>, p: usize) -> (r: Option<(Command, usize)>)
    requires
        p <= s@.len(),
    ensures
        parsed_command(r) == def_at(s@, p as nat),
        r matches Some((_, q)) ==> q <= s@.len(),
{
    let b = match keyword(s, skip_ws(s, p), "def") {
        Some(b) => b,
        None => return None,
    };
    let c = skip_ws(s, b);
    let d = match name_token(s, c) {
        Some(d) => d,
        None => return None,
    };
    let (params, f) = parse_params(s, skip_ws(s, d), true);
    let h = match token(s, skip_ws(s, f), ":=") {
        Some(h) => h,
        None => return None,
    };
    let (value, j) = match parse_syntax(s, skip_ws(s, h)) {
        Some(r) => r,
        None => return None,
    };
    let name = Spanned { inner: string_range(s, c, d), span: Span { start: c, end: d } };
    Some((Command::Def { name, value: desugar_fun_params(&params, value) }, j))
}

fn parse_inductive(s: &Vec<char>, p: usize) -> (r: Option<(Command, usize)>)
    requires
        p <= s@.len(),
    ensures
        parsed_command(r) == inductive_at(s@, p as nat),
        r matches Some((_, q)) ==> q <= s@.len(),
{
    let b = match keyword(s, skip_ws(s, p), "inductive") {
        Some(b) => b,
        None => return None,
    };
    let c = skip_ws(s, b);
    let d = match name_token(s, c) {
        Some(d) => d,
        None => return None,
    };
    let (params, f) = parse_ind_params(s, skip_ws(s, d));
    let g = skip_ws(s, f);
    if !at_char(s, g, ':') {
        return None;
    }
    let h = skip_ws(s, g + 1);
    let (t, i) = match parse_syntax(s, h) {
        Some(r) => r,
        None => return None,
    };
    let (ctors, k) = parse_ctors(s, skip_ws(s, i));
    let (typ, typ_span) = fold_prods(&params, t, Span { start: h, end: i });
    let name = Spanned { inner: string_range(s, c, d), span: Span { start: c, end: d } };
    Some((Command::Inductive { name, typ: Spanned { inner: typ, span: typ_span }, ctors }, k))
}

fn parse_command(s: &Vec<char>, p: usize) -> (r: Option<(Command, usize)>)
    requires
        p <= s@.len(),
    ensures
        parsed_command(r) == command_at(s@, p as nat),
        r matches Some((_, q)) ==> q <= s@.len(),
{
    match parse_def(s, p) {
        Some(r) => Some(r),
        None => parse_inductive(s, p),
    }
}

/// The byte offset of the character position `i`, from the table `offs`.
fn offset_at(s: &Vec<char>, offs: &Vec<usize>, i: usize) -> (r: usize)
    requires
        offsets_of(s@, offs@),
    ensures
        r == byte_offset(s@, i as int),
{
    if i < offs.len() {
        offs[i]
    } else {
        offs[offs.len() - 1]
    }
}

/// The span `sp` in byte offsets.
fn span_to_bytes(s: &Vec<char>, offs: &Vec<usize>, sp: Span) -> (r: Span)
    requires
        offsets_of(s@, offs@),
    ensures
        r == span_in_bytes(s@, sp),
{
    Span { start: offset_at(s, offs, sp.start), end: offset_at(s, offs, sp.end) }
}

fn spanned_to_bytes(s: &Vec<char>, offs: &Vec<usize>, x: Spanned<Box<Syntax>>) -> (r: Spanned<Box<Syntax>>)
    requires
        offsets_of(s@, offs@),
    ensures
        (*r.inner)@ == syntax_in_bytes((*x.inner)@, s@),
        r.span == span_in_bytes(s@, x.span),
    decreases x, 1nat,
{
    let span = span_to_bytes(s, offs, x.span);
    Spanned { inner: Box::new(syntax_to_bytes(s, offs, *x.inner)), span }
}

/// The syntax `x` with every span in byte offsets.
fn syntax_to_bytes(s: &Vec<char>, offs: &Vec<usize>, x: Syntax) -> (r: Syntax)
    requires
        offsets_of(s@, offs@),
    ensures
        r@ == syntax_in_bytes(x@, s@),
    decreases x, 0nat,
{
    match x {
        Syntax::Fun { param_name, param_type, body } => Syntax::Fun {
            param_name,
            param_type: spanned_to_bytes(s, offs, param_type),
            body: Box::new(syntax_to_bytes(s, offs, *body)),
        },
        Syntax::Prod { param_name, param_type, body_type } => Syntax::Prod {
            param_name,
            param_type: spanned_to_bytes(s, offs, param_type),
            body_type: spanned_to_bytes(s, offs, body_type),
        },
        Syntax::Var { name } => {
            let span = span_to_bytes(s, offs, name.span);
            Syntax::Var { name: Spanned { inner: name.inner, span } }
        },
        Syntax::App { callee, arg } => Syntax::App {
            callee: spanned_to_bytes(s, offs, callee),
            arg: spanned_to_bytes(s, offs, arg),
        },
        Syntax::Let { name, value, body } => Syntax::Let {
            name,
            value: Box::new(syntax_to_bytes(s, offs, *value)),
            body: Box::new(syntax_to_bytes(s, offs, *body)),
        },
        other => other,
    }
}

/// The command `c` with every span in byte offsets.
fn command_to_bytes(s: &Vec<char>, offs: &Vec<usize>, c: Command) -> (r: Command)
    requires
        offsets_of(s@, offs@),
    ensures
        r@ == command_in_bytes(c@, s@),
{
    match c {
        Command::Def { name, value } => {
            let span = span_to_bytes(s, offs, name.span);
            Command::Def { name: Spanned { inner: name.inner, span }, value: syntax_to_bytes(s, offs, value) }
        },
        Command::Inductive { name, typ, ctors } => {
            let ghost cs = ctors@.map_values(|c: Ctor| c@);
            let name_span = span_to_bytes(s, offs, name.span);
            let typ_span = span_to_bytes(s, offs, typ.span);
            let typ_inner = syntax_to_bytes(s, offs, typ.inner);
            let mut ctors = ctors;
            let mut out: Vec<Ctor> = Vec::new();
            while ctors.len() > 0
                invariant
                    offsets_of(s@, offs@),
                    out@.len() + ctors@.len() == cs.len(),
                    forall|k: int| 0 <= k < out@.len() ==> (#[trigger] out@[k])@ == ctor_in_bytes(cs[k], s@),
                    forall|k: int| 0 <= k < ctors@.len() ==> (#[trigger] ctors@[k])@ == cs[out@.len() + k],
                decreases ctors@.len(),
            {
                let ghost before = ctors@;
                let ctor = ctors.remove(0);
                proof {
                    assert(ctor@ == cs[out@.len() as int]);
                    assert forall|k: int| 0 <= k < ctors@.len() implies (#[trigger] ctors@[k])@ == cs[out@.len() + 1 + k] by {
                        assert(ctors@[k] == before[k + 1]);
                    }
                }
                let name_span_c = span_to_bytes(s, offs, ctor.name.span);
                let typ_span_c = span_to_bytes(s, offs, ctor.typ.span);
                let converted = Ctor {
                    name: Spanned { inner: ctor.name.inner, span: name_span_c },
                    typ: Spanned { inner: syntax_to_bytes(s, offs, ctor.typ.inner), span: typ_span_c },
                };
                out.push(converted);
            }
            let r = Command::Inductive { name: Spanned { inner: name.inner, span: name_span }, typ: Spanned { inner: typ_inner, span: typ_span }, ctors: out };
            proof {
                assert(out@.map_values(|c: Ctor| c@) =~= cs.map_values(|c: CtorV| ctor_in_bytes(c, s@)));
            }
            r
        },
    }
}

/// Parses one REPL line: a command, else a term, which must take up the
/// whole line. Spans are byte offsets into the line.
pub fn repl_cmd(input: &str) -> (r: crate::error::Result<ReplCmd>)
    ensures
        match repl_line_result(input@) {
            Ok(c) => r matches Ok(x) && x@ == c,
            Err(e) => r matches Err(es) && just_error(es, e),
        },
{
    let s = chars_of(input);
    let offs = match byte_offsets(&s) {
        Some(o) => o,
        None => return Err(single_error(Span { start: 0, end: 0 }, "input too long".to_owned())),
    };
    let (cmd, q) = match parse_command(&s, 0) {
        Some((c, q)) => (ReplCmd::Command { command: command_to_bytes(&s, &offs, c) }, q),
        None => match parse_syntax(&s, 0) {
            Some((t, q)) => (ReplCmd::Syntax { syntax: syntax_to_bytes(&s, &offs, t) }, q),
            None => {
                let span = span_to_bytes(&s, &offs, Span { start: 0, end: s.len() });
                return Err(single_error(span, "could not parse input".to_owned()));
            },
        },
    };
    if q == s.len() {
        Ok(cmd)
    } else {
        let span = span_to_bytes(&s, &offs, Span { start: q, end: q + 1 });
        Err(single_error(span, "unexpected input".to_owned()))
    }
}

} // verus!
