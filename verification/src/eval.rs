//! Evaluation of the opaque expressions embedded in a template.
//!
//! The compiler never interprets an expression: it carves its tokens
//! out of the stream and keeps them verbatim. At render time those
//! tokens are evaluated against the environment of named values. The
//! expression language is small: literal atoms, names, `Some`, `None`,
//! bracketed lists, parenthesised grouping, references, ranges, and one
//! binary comparison or arithmetic operator.

use vstd::prelude::*;

use vstd::string::StringExecFns;

use crate::token::{
    lemma_toks_view_at, lemma_toks_view_len, slice_toks, toks_view,
    Delim, Punc, TokX, Token,
};
use crate::value::{
    clone_value, env_view, lookup, s_lookup, val_view, vals_view, EnvX, ValX, Value,
};

verus! {

/// What went wrong while rendering a template.
#[derive(Clone, Copy, PartialEq, Eq, Structural, Debug)]
pub enum RenderError {
    /// An expression named a value the environment does not hold.
    Unbound,
    /// An expression the evaluator cannot interpret.
    BadExpr,
    /// An arithmetic operation overflowed.
    Arith,
    /// A value of the wrong kind met an operator, guard or specifier.
    TypeMismatch,
    /// A value with no natural display form was interpolated.
    NotDisplayable,
    /// A format specifier the renderer cannot interpret.
    BadSpec,
    /// No arm of a match accepted the scrutinee.
    NoArm,
    /// A pattern the matcher cannot interpret, or a loop or binding
    /// pattern that rejected its value.
    BadPattern,
    /// An escape hatch whose code the renderer cannot interpret.
    OpaqueEscape,
    /// Nested formattable values ran deeper than the render depth.
    TooDeep,
}

/// Whether the token is a binary operator at expression level.
pub open spec fn s_is_op(t: TokX) -> bool {
    match t {
        TokX::Punct(p) => p == Punc::Plus || p == Punc::Minus || p == Punc::Star || p
            == Punc::DotDot || p == Punc::CmpLt || p == Punc::CmpLe || p == Punc::CmpGt || p
            == Punc::CmpGe || p == Punc::CmpEq || p == Punc::CmpNe,
        _ => false,
    }
}

/// The first operator index at or after `i`.
pub open spec fn s_find_op(e: Seq<TokX>, i: int) -> Option<int>
    decreases e.len() - i,
{
    if i < 0 || i >= e.len() {
        Option::None
    } else if s_is_op(e[i]) {
        Option::Some(i)
    } else {
        s_find_op(e, i + 1)
    }
}

/// The result of one binary operation on two values. The operands must
/// be integers; arithmetic that leaves the machine range fails.
pub open spec fn s_apply_op(p: Punc, a: ValX, b: ValX) -> Result<ValX, RenderError> {
    match (a, b) {
        (ValX::Int(x), ValX::Int(y)) => {
            if p == Punc::Plus {
                if i64::MIN <= x + y <= i64::MAX {
                    Result::Ok(ValX::Int((x + y) as i64))
                } else {
                    Result::Err(RenderError::Arith)
                }
            } else if p == Punc::Minus {
                if i64::MIN <= x - y <= i64::MAX {
                    Result::Ok(ValX::Int((x - y) as i64))
                } else {
                    Result::Err(RenderError::Arith)
                }
            } else if p == Punc::Star {
                if i64::MIN <= x * y <= i64::MAX {
                    Result::Ok(ValX::Int((x * y) as i64))
                } else {
                    Result::Err(RenderError::Arith)
                }
            } else if p == Punc::DotDot {
                Result::Ok(ValX::Range(x, y))
            } else if p == Punc::CmpLt {
                Result::Ok(ValX::Bool(x < y))
            } else if p == Punc::CmpLe {
                Result::Ok(ValX::Bool(x <= y))
            } else if p == Punc::CmpGt {
                Result::Ok(ValX::Bool(x > y))
            } else if p == Punc::CmpGe {
                Result::Ok(ValX::Bool(x >= y))
            } else if p == Punc::CmpEq {
                Result::Ok(ValX::Bool(x == y))
            } else if p == Punc::CmpNe {
                Result::Ok(ValX::Bool(x != y))
            } else {
                Result::Err(RenderError::BadExpr)
            }
        },
        _ => Result::Err(RenderError::TypeMismatch),
    }
}

/// The value of the expression `e` under `env`.
pub open spec fn s_eval(e: Seq<TokX>, env: EnvX) -> Result<ValX, RenderError>
    decreases e, 0int, 1int,
{
    if e.len() == 0 {
        Result::Err(RenderError::BadExpr)
    } else if e[0] == TokX::Punct(Punc::Amp) {
        s_eval(e.subrange(1, e.len() as int), env)
    } else {
        match s_find_op(e, 0) {
            Option::Some(k) => {
                if 0 < k < e.len() {
                    match e[k] {
                        TokX::Punct(p) => match s_eval(e.subrange(0, k), env) {
                            Result::Err(er) => Result::Err(er),
                            Result::Ok(a) => match s_eval(e.subrange(k + 1, e.len() as int), env) {
                                Result::Err(er) => Result::Err(er),
                                Result::Ok(b) => s_apply_op(p, a, b),
                            },
                        },
                        _ => Result::Err(RenderError::BadExpr),
                    }
                } else {
                    Result::Err(RenderError::BadExpr)
                }
            },
            Option::None => s_eval_atom(e, env),
        }
    }
}

/// The value of an operator-free expression.
pub open spec fn s_eval_atom(e: Seq<TokX>, env: EnvX) -> Result<ValX, RenderError>
    decreases e, 0int, 0int,
{
    if e.len() == 1 {
        match e[0] {
            TokX::Num(n) => Result::Ok(ValX::Int(n)),
            TokX::Str(s) => Result::Ok(ValX::Str(s)),
            TokX::Chr(c) => Result::Ok(ValX::Chr(c)),
            TokX::Word(w) => {
                if w == "true"@ {
                    Result::Ok(ValX::Bool(true))
                } else if w == "false"@ {
                    Result::Ok(ValX::Bool(false))
                } else if w == "None"@ {
                    Result::Ok(ValX::OptNone)
                } else {
                    match s_lookup(env, w) {
                        Option::Some(v) => Result::Ok(v),
                        Option::None => Result::Err(RenderError::Unbound),
                    }
                }
            },
            TokX::Group(Delim::Paren, inner) => s_eval(inner, env),
            TokX::Group(Delim::Bracket, inner) => match s_eval_list(inner, 0, env) {
                Result::Ok(items) => Result::Ok(ValX::List(items)),
                Result::Err(er) => Result::Err(er),
            },
            _ => Result::Err(RenderError::BadExpr),
        }
    } else if e.len() == 2 && e[0] == TokX::Word("Some"@) {
        match e[1] {
            TokX::Group(Delim::Paren, inner) => match s_eval(inner, env) {
                Result::Ok(v) => Result::Ok(ValX::OptSome(Box::new(v))),
                Result::Err(er) => Result::Err(er),
            },
            _ => Result::Err(RenderError::BadExpr),
        }
    } else {
        Result::Err(RenderError::BadExpr)
    }
}

/// The values of a comma-separated expression list, from index `i`.
pub open spec fn s_eval_list(e: Seq<TokX>, i: int, env: EnvX) -> Result<Seq<ValX>, RenderError>
    decreases e, e.len() - i + 1, 2int,
{
    if i < 0 || i >= e.len() {
        Result::Ok(Seq::empty())
    } else {
        match crate::template::s_find_punct(e, i, e.len() as int, Punc::Comma) {
            Option::None => {
                let item = if i == 0 {
                    s_eval(e, env)
                } else {
                    s_eval(e.subrange(i, e.len() as int), env)
                };
                match item {
                    Result::Ok(v) => Result::Ok(seq![v]),
                    Result::Err(er) => Result::Err(er),
                }
            },
            Option::Some(c) => {
                if !(i <= c && c < e.len()) {
                    Result::Err(RenderError::BadExpr)
                } else {
                    match s_eval(e.subrange(i, c), env) {
                        Result::Err(er) => Result::Err(er),
                        Result::Ok(v) => match s_eval_list(e, c + 1, env) {
                            Result::Err(er) => Result::Err(er),
                            Result::Ok(rest) => Result::Ok(seq![v] + rest),
                        },
                    }
                }
            },
        }
    }
}

/// Matches the pattern `pat` against `v`: the new bindings when it
/// accepts, nothing when it rejects, an error when the matcher cannot
/// interpret the pattern.
pub open spec fn s_match_pat(pat: Seq<TokX>, v: ValX) -> Result<Option<EnvX>, RenderError>
    decreases pat, 0int, 0int,
{
    if pat.len() == 1 {
        match pat[0] {
            TokX::Word(w) => {
                if w == "_"@ {
                    Result::Ok(Option::Some(Seq::empty()))
                } else if w == "true"@ {
                    Result::Ok(
                        if v == ValX::Bool(true) {
                            Option::Some(Seq::empty())
                        } else {
                            Option::None
                        },
                    )
                } else if w == "false"@ {
                    Result::Ok(
                        if v == ValX::Bool(false) {
                            Option::Some(Seq::empty())
                        } else {
                            Option::None
                        },
                    )
                } else if w == "None"@ {
                    Result::Ok(
                        if v == ValX::OptNone {
                            Option::Some(Seq::empty())
                        } else {
                            Option::None
                        },
                    )
                } else {
                    Result::Ok(Option::Some(seq![(w, v)]))
                }
            },
            TokX::Num(n) => Result::Ok(
                if v == ValX::Int(n) {
                    Option::Some(Seq::empty())
                } else {
                    Option::None
                },
            ),
            TokX::Str(s) => Result::Ok(
                if v == ValX::Str(s) {
                    Option::Some(Seq::empty())
                } else {
                    Option::None
                },
            ),
            TokX::Chr(c) => Result::Ok(
                if v == ValX::Chr(c) {
                    Option::Some(Seq::empty())
                } else {
                    Option::None
                },
            ),
            TokX::Group(Delim::Paren, inner) => s_match_pat(inner, v),
            _ => Result::Err(RenderError::BadPattern),
        }
    } else if pat.len() >= 2 && pat[0] == TokX::Punct(Punc::Amp) {
        s_match_pat(pat.subrange(1, pat.len() as int), v)
    } else if pat.len() == 2 && pat[0] == TokX::Word("Some"@) {
        match pat[1] {
            TokX::Group(Delim::Paren, inner) => match v {
                ValX::OptSome(b) => s_match_pat(inner, *b),
                _ => Result::Ok(Option::None),
            },
            _ => Result::Err(RenderError::BadPattern),
        }
    } else {
        Result::Err(RenderError::BadPattern)
    }
}

/// Whether the word `w` is the text `lit`.
pub fn word_is(w: &String, lit: &str) -> (r: bool)
    ensures
        r == (w@ == lit@),
{
    let l = String::from_str(lit);
    *w == l
}

/// Finds the first operator at or after `i`.
fn find_op(e: &Vec<Token>, i: usize) -> (r: Option<usize>)
    ensures
        match r {
            Option::Some(j) => i <= j < e@.len() && s_is_op(toks_view(e@)[j as int]) && s_find_op(
                toks_view(e@),
                i as int,
            ) == Option::Some(j as int),
            Option::None => s_find_op(toks_view(e@), i as int) == Option::<int>::None,
        },
{
    proof {
        lemma_toks_view_len(e@);
    }
    let ghost v = toks_view(e@);
    let n = e.len();
    let mut j = i;
    while j < n
        invariant
            i <= j,
            n == e@.len(),
            v == toks_view(e@),
            v.len() == n,
            s_find_op(v, i as int) == s_find_op(v, j as int),
        decreases n - j,
    {
        proof {
            lemma_toks_view_at(e@, j as int);
        }
        let hit = match &e[j] {
            Token::Punct(p) => *p == Punc::Plus || *p == Punc::Minus || *p == Punc::Star || *p
                == Punc::DotDot || *p == Punc::CmpLt || *p == Punc::CmpLe || *p == Punc::CmpGt
                || *p == Punc::CmpGe || *p == Punc::CmpEq || *p == Punc::CmpNe,
            _ => false,
        };
        if hit {
            return Option::Some(j);
        }
        j = j + 1;
    }
    Option::None
}

/// One binary operation on two values.
fn apply_op(p: Punc, a: &Value, b: &Value) -> (r: Result<Value, RenderError>)
    ensures
        match r {
            Result::Ok(v) => s_apply_op(p, a@, b@) == Result::Ok::<ValX, RenderError>(v@),
            Result::Err(er) => s_apply_op(p, a@, b@) == Result::Err::<ValX, RenderError>(er),
        },
{
    match (a, b) {
        (Value::Int(x), Value::Int(y)) => {
            if p == Punc::Plus {
                match x.checked_add(*y) {
                    Option::Some(z) => Result::Ok(Value::Int(z)),
                    Option::None => Result::Err(RenderError::Arith),
                }
            } else if p == Punc::Minus {
                match x.checked_sub(*y) {
                    Option::Some(z) => Result::Ok(Value::Int(z)),
                    Option::None => Result::Err(RenderError::Arith),
                }
            } else if p == Punc::Star {
                match x.checked_mul(*y) {
                    Option::Some(z) => Result::Ok(Value::Int(z)),
                    Option::None => Result::Err(RenderError::Arith),
                }
            } else if p == Punc::DotDot {
                Result::Ok(Value::Range(*x, *y))
            } else if p == Punc::CmpLt {
                Result::Ok(Value::Bool(*x < *y))
            } else if p == Punc::CmpLe {
                Result::Ok(Value::Bool(*x <= *y))
            } else if p == Punc::CmpGt {
                Result::Ok(Value::Bool(*x > *y))
            } else if p == Punc::CmpGe {
                Result::Ok(Value::Bool(*x >= *y))
            } else if p == Punc::CmpEq {
                Result::Ok(Value::Bool(*x == *y))
            } else if p == Punc::CmpNe {
                Result::Ok(Value::Bool(*x != *y))
            } else {
                Result::Err(RenderError::BadExpr)
            }
        },
        _ => Result::Err(RenderError::TypeMismatch),
    }
}

/// Evaluates the expression `e` under `env`.
pub fn eval(e: &Vec<Token>, env: &Vec<(String, Value)>) -> (r: Result<Value, RenderError>)
    ensures
        match r {
            Result::Ok(v) => s_eval(toks_view(e@), env_view(env@)) == Result::Ok::<
                ValX,
                RenderError,
            >(v@),
            Result::Err(er) => s_eval(toks_view(e@), env_view(env@)) == Result::Err::<
                ValX,
                RenderError,
            >(er),
        },
    decreases toks_view(e@), 0int, 1int,
{
    proof {
        lemma_toks_view_len(e@);
    }
    let ghost v = toks_view(e@);
    let n = e.len();
    if n == 0 {
        return Result::Err(RenderError::BadExpr);
    }
    proof {
        lemma_toks_view_at(e@, 0);
    }
    let leading_amp = match &e[0] {
        Token::Punct(p) => *p == Punc::Amp,
        _ => false,
    };
    if leading_amp {
        let rest = slice_toks(e, 1, n);
        proof {
            vstd::seq::axiom_seq_subrange_decreases::<TokX>(v, 1, n as int);
        }
        return eval(&rest, env);
    }
    match find_op(e, 0) {
        Option::Some(k) => {
            if k == 0 {
                return Result::Err(RenderError::BadExpr);
            }
            proof {
                lemma_toks_view_at(e@, k as int);
            }
            match &e[k] {
                Token::Punct(p) => {
                    let left = slice_toks(e, 0, k);
                    let right = slice_toks(e, k + 1, n);
                    proof {
                        vstd::seq::axiom_seq_subrange_decreases::<TokX>(v, 0, k as int);
                        vstd::seq::axiom_seq_subrange_decreases::<TokX>(v, (k + 1) as int, n as int);
                    }
                    match eval(&left, env) {
                        Result::Err(er) => Result::Err(er),
                        Result::Ok(a) => match eval(&right, env) {
                            Result::Err(er) => Result::Err(er),
                            Result::Ok(b) => apply_op(*p, &a, &b),
                        },
                    }
                },
                _ => {
                    proof {
                        assert(false);
                    }
                    Result::Err(RenderError::BadExpr)
                },
            }
        },
        Option::None => eval_atom(e, env),
    }
}

/// Evaluates an operator-free expression.
fn eval_atom(e: &Vec<Token>, env: &Vec<(String, Value)>) -> (r: Result<Value, RenderError>)
    ensures
        match r {
            Result::Ok(v) => s_eval_atom(toks_view(e@), env_view(env@)) == Result::Ok::<
                ValX,
                RenderError,
            >(v@),
            Result::Err(er) => s_eval_atom(toks_view(e@), env_view(env@)) == Result::Err::<
                ValX,
                RenderError,
            >(er),
        },
    decreases toks_view(e@), 0int, 0int,
{
    proof {
        lemma_toks_view_len(e@);
    }
    let ghost v = toks_view(e@);
    let n = e.len();
    if n == 1 {
        proof {
            lemma_toks_view_at(e@, 0);
        }
        match &e[0] {
            Token::Num(m) => Result::Ok(Value::Int(*m)),
            Token::Str(s) => Result::Ok(Value::Str(s.clone())),
            Token::Chr(c) => Result::Ok(Value::Chr(*c)),
            Token::Word(w) => {
                if word_is(w, "true") {
                    Result::Ok(Value::Bool(true))
                } else if word_is(w, "false") {
                    Result::Ok(Value::Bool(false))
                } else if word_is(w, "None") {
                    Result::Ok(Value::OptNone)
                } else {
                    match lookup(env, w) {
                        Option::Some(x) => Result::Ok(x),
                        Option::None => Result::Err(RenderError::Unbound),
                    }
                }
            },
            Token::Group(Delim::Paren, inner) => eval(inner, env),
            Token::Group(Delim::Bracket, inner) => {
                match eval_list(inner, 0, env) {
                    Result::Ok(items) => Result::Ok(Value::List(items)),
                    Result::Err(er) => Result::Err(er),
                }
            },
            _ => Result::Err(RenderError::BadExpr),
        }
    } else if n == 2 {
        proof {
            lemma_toks_view_at(e@, 0);
            lemma_toks_view_at(e@, 1);
        }
        let head_some = match &e[0] {
            Token::Word(w) => word_is(w, "Some"),
            _ => false,
        };
        if !head_some {
            return Result::Err(RenderError::BadExpr);
        }
        match &e[1] {
            Token::Group(Delim::Paren, inner) => {
                match eval(inner, env) {
                    Result::Ok(x) => Result::Ok(Value::OptSome(Box::new(x))),
                    Result::Err(er) => Result::Err(er),
                }
            },
            _ => Result::Err(RenderError::BadExpr),
        }
    } else {
        Result::Err(RenderError::BadExpr)
    }
}

/// Evaluates a comma-separated expression list from index `i`.
fn eval_list(e: &Vec<Token>, i: usize, env: &Vec<(String, Value)>) -> (r: Result<
    Vec<Value>,
    RenderError,
>)
    ensures
        match r {
            Result::Ok(items) => s_eval_list(toks_view(e@), i as int, env_view(env@))
                == Result::Ok::<Seq<ValX>, RenderError>(vals_view(items@)),
            Result::Err(er) => s_eval_list(toks_view(e@), i as int, env_view(env@))
                == Result::Err::<Seq<ValX>, RenderError>(er),
        },
    decreases toks_view(e@), toks_view(e@).len() - i + 1, 2int,
{
    broadcast use crate::value::lemma_vals_view_len, crate::value::lemma_vals_view_at;

    proof {
        lemma_toks_view_len(e@);
    }
    let ghost v = toks_view(e@);
    let n = e.len();
    if i >= n {
        proof {
            assert(vals_view(Seq::<Value>::empty()) =~= Seq::<ValX>::empty());
        }
        return Result::Ok(Vec::new());
    }
    match crate::template::find_punct(e, i, n, Punc::Comma) {
        Option::None => {
            let item = if i == 0 {
                eval(e, env)
            } else {
                let sub = slice_toks(e, i, n);
                proof {
                    vstd::seq::axiom_seq_subrange_decreases::<TokX>(v, i as int, n as int);
                }
                eval(&sub, env)
            };
            match item {
                Result::Ok(x) => {
                    let mut items: Vec<Value> = Vec::new();
                    let ghost xv = x@;
                    items.push(x);
                    proof {
                        assert(items@.drop_last() =~= Seq::<Value>::empty());
                        assert(vals_view(Seq::<Value>::empty()) == Seq::<ValX>::empty());
                        assert(vals_view(items@) =~= seq![xv]);
                    }
                    Result::Ok(items)
                },
                Result::Err(er) => Result::Err(er),
            }
        },
        Option::Some(c) => {
            let sub = slice_toks(e, i, c);
            proof {
                vstd::seq::axiom_seq_subrange_decreases::<TokX>(v, i as int, c as int);
            }
            match eval(&sub, env) {
                Result::Err(er) => Result::Err(er),
                Result::Ok(x) => match eval_list(e, c + 1, env) {
                    Result::Err(er) => Result::Err(er),
                    Result::Ok(mut rest) => {
                        let ghost xv = x@;
                        let ghost rest0 = rest@;
                        let mut items: Vec<Value> = Vec::new();
                        items.push(x);
                        proof {
                            assert(items@.drop_last() =~= Seq::<Value>::empty());
                            assert(vals_view(Seq::<Value>::empty()) == Seq::<ValX>::empty());
                            assert(vals_view(items@) =~= seq![xv]);
                            crate::value::lemma_vals_view_append(items@, rest0);
                        }
                        items.append(&mut rest);
                        proof {
                            assert(vals_view(items@) =~= seq![xv] + vals_view(rest0));
                        }
                        Result::Ok(items)
                    },
                },
            }
        },
    }
}

/// Matches the pattern `pat` against `x`.
pub fn match_pat(pat: &Vec<Token>, x: &Value) -> (r: Result<
    Option<Vec<(String, Value)>>,
    RenderError,
>)
    ensures
        match r {
            Result::Ok(Option::Some(bs)) => s_match_pat(toks_view(pat@), x@) == Result::Ok::<
                Option<EnvX>,
                RenderError,
            >(Option::Some(env_view(bs@))),
            Result::Ok(Option::None) => s_match_pat(toks_view(pat@), x@) == Result::Ok::<
                Option<EnvX>,
                RenderError,
            >(Option::None),
            Result::Err(er) => s_match_pat(toks_view(pat@), x@) == Result::Err::<
                Option<EnvX>,
                RenderError,
            >(er),
        },
    decreases toks_view(pat@), 0int, 0int,
{
    proof {
        lemma_toks_view_len(pat@);
    }
    let ghost v = toks_view(pat@);
    let n = pat.len();
    if n == 1 {
        proof {
            lemma_toks_view_at(pat@, 0);
        }
        match &pat[0] {
            Token::Word(w) => {
                if word_is(w, "_") {
                    Result::Ok(Option::Some(Vec::new()))
                } else if word_is(w, "true") {
                    match x {
                        Value::Bool(true) => Result::Ok(Option::Some(Vec::new())),
                        _ => Result::Ok(Option::None),
                    }
                } else if word_is(w, "false") {
                    match x {
                        Value::Bool(false) => Result::Ok(Option::Some(Vec::new())),
                        _ => Result::Ok(Option::None),
                    }
                } else if word_is(w, "None") {
                    match x {
                        Value::OptNone => Result::Ok(Option::Some(Vec::new())),
                        _ => Result::Ok(Option::None),
                    }
                } else {
                    let mut bs: Vec<(String, Value)> = Vec::new();
                    let xc = clone_value(x);
                    let ghost pv = (w@, x@);
                    bs.push((w.clone(), xc));
                    proof {
                        assert(bs@.drop_last() =~= Seq::<(String, Value)>::empty());
                        assert(env_view(Seq::<(String, Value)>::empty()) == Seq::<
                            (Seq<char>, ValX),
                        >::empty());
                        assert(env_view(bs@) =~= seq![pv]);
                    }
                    Result::Ok(Option::Some(bs))
                }
            },
            Token::Num(m) => {
                match x {
                    Value::Int(y) => {
                        if *m == *y {
                            Result::Ok(Option::Some(Vec::new()))
                        } else {
                            Result::Ok(Option::None)
                        }
                    },
                    _ => Result::Ok(Option::None),
                }
            },
            Token::Str(s) => {
                match x {
                    Value::Str(t) => {
                        if *s == *t {
                            Result::Ok(Option::Some(Vec::new()))
                        } else {
                            Result::Ok(Option::None)
                        }
                    },
                    _ => Result::Ok(Option::None),
                }
            },
            Token::Chr(c) => {
                match x {
                    Value::Chr(d) => {
                        if *c == *d {
                            Result::Ok(Option::Some(Vec::new()))
                        } else {
                            Result::Ok(Option::None)
                        }
                    },
                    _ => Result::Ok(Option::None),
                }
            },
            Token::Group(Delim::Paren, inner) => match_pat(inner, x),
            _ => Result::Err(RenderError::BadPattern),
        }
    } else if n >= 2 {
        proof {
            lemma_toks_view_at(pat@, 0);
        }
        let leading_amp = match &pat[0] {
            Token::Punct(p) => *p == Punc::Amp,
            _ => false,
        };
        if leading_amp {
            let rest = slice_toks(pat, 1, n);
            proof {
                vstd::seq::axiom_seq_subrange_decreases::<TokX>(v, 1, n as int);
            }
            return match_pat(&rest, x);
        }
        if n != 2 {
            return Result::Err(RenderError::BadPattern);
        }
        proof {
            lemma_toks_view_at(pat@, 1);
        }
        let head_some = match &pat[0] {
            Token::Word(w) => word_is(w, "Some"),
            _ => false,
        };
        if !head_some {
            return Result::Err(RenderError::BadPattern);
        }
        match &pat[1] {
            Token::Group(Delim::Paren, inner) => {
                match x {
                    Value::OptSome(b) => match_pat(inner, b),
                    _ => Result::Ok(Option::None),
                }
            },
            _ => Result::Err(RenderError::BadPattern),
        }
    } else {
        Result::Err(RenderError::BadPattern)
    }
}

} // verus!
