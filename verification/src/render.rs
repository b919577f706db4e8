//! Rendering: executing a write plan against a text sink.
//!
//! Writes happen in plan order; the first failure aborts the render and
//! is returned to the caller. Nested formattable values spend one unit
//! of render depth per level of nesting, so rendering always ends; the
//! depth a render is given bounds only that nesting, never the length
//! of the text.

use vstd::prelude::*;

use vstd::string::StringExecFns;

use crate::digits::{s_dec_i64, s_hex_nat, write_dec_i64, write_hex_u64};
use crate::eval::{
    eval, match_pat, s_eval, s_match_pat, RenderError,
};
use crate::template::{
    branches_view, lemma_branches_view_at, lemma_branches_view_len, lemma_segs_view_at,
    lemma_segs_view_len, lemma_arms_view_at, lemma_arms_view_len, arms_view, segs_view, Arm,
    ArmX, Branch, BranchX, SegX, Segment,
};
use crate::token::{
    lemma_toks_view_at, lemma_toks_view_len, slice_toks, toks_view, Delim, Kw, Punc, TokX, Token,
};
use crate::value::{
    clone_env, clone_values, env_view, lemma_env_view_len, lemma_vals_view_at,
    lemma_vals_view_len, plan_view, val_view, vals_view, EnvX, Plan, PlanX, ValX, Value,
};

verus! {

/// A format specifier, as the renderer interprets it: the value's
/// natural display form, alternate hexadecimal, or a minimum width
/// taken from the specifier itself or from the interpolation's second
/// argument.
#[derive(Clone, Copy, PartialEq, Eq, Structural, Debug)]
pub enum Fspec {
    Plain,
    HexAlt,
    WidthLit(u64),
    WidthArg,
}

/// The renderer's reading of a specifier's tokens. An absent specifier
/// means the same as an empty one: the value's natural display form.
pub open spec fn s_parse_fspec(o: Option<Seq<TokX>>) -> Result<Fspec, RenderError> {
    match o {
        Option::None => Result::Ok(Fspec::Plain),
        Option::Some(ts) => {
            if ts.len() == 0 {
                Result::Ok(Fspec::Plain)
            } else if ts.len() == 2 && ts[0] == TokX::Punct(Punc::Hash) && ts[1] == TokX::Word(
                "x"@,
            ) {
                Result::Ok(Fspec::HexAlt)
            } else if ts.len() == 1 {
                match ts[0] {
                    TokX::Num(n) => if n >= 0 {
                        Result::Ok(Fspec::WidthLit(n as u64))
                    } else {
                        Result::Err(RenderError::BadSpec)
                    },
                    _ => Result::Err(RenderError::BadSpec),
                }
            } else if ts.len() == 2 && ts[0] == TokX::Num(1) && ts[1] == TokX::Punct(
                Punc::Dollar,
            ) {
                Result::Ok(Fspec::WidthArg)
            } else {
                Result::Err(RenderError::BadSpec)
            }
        },
    }
}

/// `n` spaces.
pub open spec fn s_spaces(n: nat) -> Seq<char>
    decreases n,
{
    if n == 0 {
        Seq::empty()
    } else {
        s_spaces((n - 1) as nat).push(' ')
    }
}

/// `s` padded with spaces to at least `w` characters: on the right for
/// left-aligned values, on the left for right-aligned ones.
pub open spec fn s_pad(s: Seq<char>, w: nat, left: bool) -> Seq<char> {
    if s.len() >= w {
        s
    } else if left {
        s + s_spaces((w - s.len()) as nat)
    } else {
        s_spaces((w - s.len()) as nat) + s
    }
}

/// The bits of `n` read as an unsigned number, as hexadecimal
/// formatting shows a signed integer.
pub open spec fn s_to_u64(n: i64) -> nat {
    if n >= 0 {
        n as nat
    } else {
        (n + 0x10000000000000000) as nat
    }
}

/// The natural display form of a value. A list, a range and an
/// optional value have none. A nested formattable object renders,
/// spending one unit of depth.
pub open spec fn s_display(v: ValX, fuel: nat) -> Result<Seq<char>, RenderError>
    decreases fuel, v, 0int, 0int,
{
    match v {
        ValX::Int(n) => Result::Ok(s_dec_i64(n)),
        ValX::Str(s) => Result::Ok(s),
        ValX::Chr(c) => Result::Ok(seq![c]),
        ValX::Bool(b) => Result::Ok(
            if b {
                "true"@
            } else {
                "false"@
            },
        ),
        ValX::Shown(p) => s_render_plan(p, fuel),
        _ => Result::Err(RenderError::NotDisplayable),
    }
}

/// A value written under a format specifier. A width pads the display
/// form; strings, characters and booleans stand left, numbers right.
/// Alternate hexadecimal takes integers only.
pub open spec fn s_format(v: ValX, f: Fspec, aux: Option<Seq<TokX>>, env: EnvX, fuel: nat) -> Result<
    Seq<char>,
    RenderError,
>
    decreases fuel, v, 1int, 0int,
{
    match f {
        Fspec::Plain => s_display(v, fuel),
        Fspec::HexAlt => match v {
            ValX::Int(n) => Result::Ok(seq!['0', 'x'] + s_hex_nat(s_to_u64(n))),
            _ => Result::Err(RenderError::TypeMismatch),
        },
        Fspec::WidthLit(w) => match s_display(v, fuel) {
            Result::Ok(d) => Result::Ok(s_pad(d, w as nat, !(v is Int))),
            Result::Err(er) => Result::Err(er),
        },
        Fspec::WidthArg => match aux {
            Option::None => Result::Err(RenderError::BadSpec),
            Option::Some(at) => match s_eval(at, env) {
                Result::Ok(ValX::Int(w)) => if w >= 0 {
                    match s_display(v, fuel) {
                        Result::Ok(d) => Result::Ok(s_pad(d, w as nat, !(v is Int))),
                        Result::Err(er) => Result::Err(er),
                    }
                } else {
                    Result::Err(RenderError::BadSpec)
                },
                Result::Ok(_) => Result::Err(RenderError::TypeMismatch),
                Result::Err(er) => Result::Err(er),
            },
        },
    }
}

/// The items a loop walks: a list's values, or a range's integers in
/// ascending order (none, when the range is empty or reversed).
pub open spec fn s_items_of(v: ValX) -> Option<Seq<ValX>> {
    match v {
        ValX::List(items) => Option::Some(items),
        ValX::Range(a, b) => Option::Some(
            Seq::new(
                if b > a {
                    (b - a) as nat
                } else {
                    0
                },
                |i: int| ValX::Int((a + i) as i64),
            ),
        ),
        _ => Option::None,
    }
}

/// One escape statement: a `let` extends the environment; a call of
/// `write_str` on the sink alias writes its string argument; anything
/// else is code this renderer cannot run.
pub open spec fn s_run_stmt(alias: Seq<TokX>, stmt: Seq<TokX>, env: EnvX) -> Result<
    (Seq<char>, EnvX),
    RenderError,
> {
    if stmt.len() == 0 {
        Result::Ok((Seq::empty(), env))
    } else if stmt[0] == TokX::Kword(Kw::Let) {
        match crate::template::s_find_punct(stmt, 1, stmt.len() as int, Punc::Assign) {
            Option::None => Result::Err(RenderError::OpaqueEscape),
            Option::Some(a) => if !(1 <= a && a < stmt.len()) || a == 1 || a + 1
                == stmt.len() {
                Result::Err(RenderError::OpaqueEscape)
            } else {
                match s_eval(stmt.subrange(a + 1, stmt.len() as int), env) {
                    Result::Err(er) => Result::Err(er),
                    Result::Ok(v) => match s_match_pat(stmt.subrange(1, a), v) {
                        Result::Err(er) => Result::Err(er),
                        Result::Ok(Option::None) => Result::Err(RenderError::BadPattern),
                        Result::Ok(Option::Some(bs)) => Result::Ok((Seq::empty(), env + bs)),
                    },
                }
            },
        }
    } else {
        let m = stmt.len();
        if (m == 4 || (m == 5 && stmt[4] == TokX::Punct(Punc::Quest))) && stmt[1] == TokX::Punct(
            Punc::Dot,
        ) && stmt[2] == TokX::Word("write_str"@) && alias.len() == 1 && alias[0] == stmt[0]
            && stmt[0] is Word {
            match stmt[3] {
                TokX::Group(Delim::Paren, args) => match s_eval(args, env) {
                    Result::Ok(ValX::Str(s)) => Result::Ok((s, env)),
                    Result::Ok(_) => Result::Err(RenderError::TypeMismatch),
                    Result::Err(er) => Result::Err(er),
                },
                _ => Result::Err(RenderError::OpaqueEscape),
            }
        } else {
            Result::Err(RenderError::OpaqueEscape)
        }
    }
}

/// The statements of a block escape, in order; a binding made by one
/// statement is seen by the later ones, and dies with the block.
pub open spec fn s_run_block(alias: Seq<TokX>, code: Seq<TokX>, i: int, env: EnvX) -> Result<
    Seq<char>,
    RenderError,
>
    decreases code.len() - i + 1,
{
    if i < 0 || i >= code.len() {
        Result::Ok(Seq::empty())
    } else {
        match crate::template::s_find_punct(code, i, code.len() as int, Punc::Semi) {
            Option::None => {
                let stmt = if i == 0 {
                    code
                } else {
                    code.subrange(i, code.len() as int)
                };
                match s_run_stmt(alias, stmt, env) {
                    Result::Ok((t, _)) => Result::Ok(t),
                    Result::Err(er) => Result::Err(er),
                }
            },
            Option::Some(c) => if !(i <= c && c < code.len()) {
                Result::Err(RenderError::OpaqueEscape)
            } else {
                match s_run_stmt(alias, code.subrange(i, c), env) {
                    Result::Err(er) => Result::Err(er),
                    Result::Ok((t, env2)) => match s_run_block(alias, code, c + 1, env2) {
                        Result::Err(er) => Result::Err(er),
                        Result::Ok(rest) => Result::Ok(t + rest),
                    },
                }
            },
        }
    }
}

/// An escape hatch. A block keeps its bindings to itself; a single
/// statement hands a binding on to the rest of the enclosing body, as
/// inlined host code would.
pub open spec fn s_render_escape(
    alias: Seq<TokX>,
    code: Seq<TokX>,
    block: bool,
    env: EnvX,
) -> Result<(Seq<char>, EnvX), RenderError> {
    if block {
        match s_run_block(alias, code, 0, env) {
            Result::Ok(t) => Result::Ok((t, env)),
            Result::Err(er) => Result::Err(er),
        }
    } else {
        s_run_stmt(alias, code, env)
    }
}

/// A whole formattable object.
pub open spec fn s_render_plan(p: PlanX, fuel: nat) -> Result<Seq<char>, RenderError>
    decreases fuel, p, 0int, 0int,
{
    if fuel == 0 {
        Result::Err(RenderError::TooDeep)
    } else {
        match p {
            PlanX::Tpl { prog, env } => match s_render_prog(prog, 0, env, (fuel - 1) as nat) {
                Result::Ok((t, _)) => Result::Ok(t),
                Result::Err(er) => Result::Err(er),
            },
            PlanX::Join { sep, items } => s_render_join(sep, items, (fuel - 1) as nat),
        }
    }
}

/// A body from node `i` on: each node's text in order, while bindings
/// made by one node reach the nodes after it.
pub open spec fn s_render_prog(segs: Seq<SegX>, i: int, env: EnvX, fuel: nat) -> Result<
    (Seq<char>, EnvX),
    RenderError,
>
    decreases fuel, segs, 0int, segs.len() - i,
{
    if i < 0 || i >= segs.len() {
        Result::Ok((Seq::empty(), env))
    } else {
        match s_render_seg(segs[i], env, fuel) {
            Result::Err(er) => Result::Err(er),
            Result::Ok((t, env2)) => match s_render_prog(segs, i + 1, env2, fuel) {
                Result::Err(er) => Result::Err(er),
                Result::Ok((rest, envf)) => Result::Ok((t + rest, envf)),
            },
        }
    }
}

/// One write-plan node.
pub open spec fn s_render_seg(s: SegX, env: EnvX, fuel: nat) -> Result<
    (Seq<char>, EnvX),
    RenderError,
>
    decreases fuel, s, 0int, 0int,
{
    match s {
        SegX::Text(t) => Result::Ok((t, env)),
        SegX::Show { expr, aux, fspec } => if fuel == 0 {
            Result::Err(RenderError::TooDeep)
        } else {
            match s_eval(expr, env) {
                Result::Err(er) => Result::Err(er),
                Result::Ok(v) => match s_parse_fspec(fspec) {
                    Result::Err(er) => Result::Err(er),
                    Result::Ok(f) => match s_format(v, f, aux, env, (fuel - 1) as nat) {
                        Result::Err(er) => Result::Err(er),
                        Result::Ok(t) => Result::Ok((t, env)),
                    },
                },
            }
        },
        SegX::Bind { pat, expr } => match s_eval(expr, env) {
            Result::Err(er) => Result::Err(er),
            Result::Ok(v) => match s_match_pat(pat, v) {
                Result::Err(er) => Result::Err(er),
                Result::Ok(Option::None) => Result::Err(RenderError::BadPattern),
                Result::Ok(Option::Some(bs)) => Result::Ok((Seq::empty(), env + bs)),
            },
        },
        SegX::Cond { branches, els } => match s_render_cond(branches, env, fuel) {
            Result::Err(er) => Result::Err(er),
            Result::Ok(Option::Some(t)) => Result::Ok((t, env)),
            Result::Ok(Option::None) => match els {
                Option::Some(body) => match s_render_prog(body, 0, env, fuel) {
                    Result::Ok((t, _)) => Result::Ok((t, env)),
                    Result::Err(er) => Result::Err(er),
                },
                Option::None => Result::Ok((Seq::empty(), env)),
            },
        },
        SegX::Match { scrut, arms } => match s_eval(scrut, env) {
            Result::Err(er) => Result::Err(er),
            Result::Ok(v) => match s_render_arms(arms, v, env, fuel) {
                Result::Ok(t) => Result::Ok((t, env)),
                Result::Err(er) => Result::Err(er),
            },
        },
        SegX::Loop { pat, iter, body } => match s_eval(iter, env) {
            Result::Err(er) => Result::Err(er),
            Result::Ok(v) => match s_items_of(v) {
                Option::None => Result::Err(RenderError::TypeMismatch),
                Option::Some(items) => match s_render_loop(pat, body, items, env, fuel) {
                    Result::Ok(t) => Result::Ok((t, env)),
                    Result::Err(er) => Result::Err(er),
                },
            },
        },
        SegX::Escape { alias, code, block } => s_render_escape(alias, code, block, env),
    }
}

/// The branches of a conditional, in order: the first branch whose
/// condition holds (or whose pattern accepts, for `if let`) renders its
/// body; the text is `None` when no branch fires. Exactly one branch
/// can fire: the walk stops at the first.
pub open spec fn s_render_cond(branches: Seq<BranchX>, env: EnvX, fuel: nat) -> Result<
    Option<Seq<char>>,
    RenderError,
>
    decreases fuel, branches, 0int, 0int,
{
    if branches.len() == 0 {
        Result::Ok(Option::None)
    } else {
        let b = branches[0];
        match b.pat {
            Option::None => match s_eval(b.cond, env) {
                Result::Err(er) => Result::Err(er),
                Result::Ok(ValX::Bool(true)) => match s_render_prog(b.body, 0, env, fuel) {
                    Result::Ok((t, _)) => Result::Ok(Option::Some(t)),
                    Result::Err(er) => Result::Err(er),
                },
                Result::Ok(ValX::Bool(false)) => s_render_cond(
                    branches.drop_first(),
                    env,
                    fuel,
                ),
                Result::Ok(_) => Result::Err(RenderError::TypeMismatch),
            },
            Option::Some(p) => match s_eval(b.cond, env) {
                Result::Err(er) => Result::Err(er),
                Result::Ok(v) => match s_match_pat(p, v) {
                    Result::Err(er) => Result::Err(er),
                    Result::Ok(Option::Some(bs)) => match s_render_prog(
                        b.body,
                        0,
                        env + bs,
                        fuel,
                    ) {
                        Result::Ok((t, _)) => Result::Ok(Option::Some(t)),
                        Result::Err(er) => Result::Err(er),
                    },
                    Result::Ok(Option::None) => s_render_cond(branches.drop_first(), env, fuel),
                },
            },
        }
    }
}

/// The arms of a match, in order: the first arm whose pattern accepts
/// the scrutinee, and whose guard holds under the arm's bindings,
/// renders its body. No accepting arm is the host's failure, surfaced
/// as a render error.
pub open spec fn s_render_arms(arms: Seq<ArmX>, v: ValX, env: EnvX, fuel: nat) -> Result<
    Seq<char>,
    RenderError,
>
    decreases fuel, arms, 0int, 0int,
{
    if arms.len() == 0 {
        Result::Err(RenderError::NoArm)
    } else {
        let a = arms[0];
        match s_match_pat(a.pat, v) {
            Result::Err(er) => Result::Err(er),
            Result::Ok(Option::None) => s_render_arms(arms.drop_first(), v, env, fuel),
            Result::Ok(Option::Some(bs)) => match a.guard {
                Option::None => match s_render_prog(a.body, 0, env + bs, fuel) {
                    Result::Ok((t, _)) => Result::Ok(t),
                    Result::Err(er) => Result::Err(er),
                },
                Option::Some(g) => match s_eval(g, env + bs) {
                    Result::Err(er) => Result::Err(er),
                    Result::Ok(ValX::Bool(true)) => match s_render_prog(a.body, 0, env + bs, fuel) {
                        Result::Ok((t, _)) => Result::Ok(t),
                        Result::Err(er) => Result::Err(er),
                    },
                    Result::Ok(ValX::Bool(false)) => s_render_arms(
                        arms.drop_first(),
                        v,
                        env,
                        fuel,
                    ),
                    Result::Ok(_) => Result::Err(RenderError::TypeMismatch),
                },
            },
        }
    }
}

/// A loop's body once per item, in iteration order, the pattern bound
/// to the item and scoped to the body; an empty sequence renders
/// nothing.
pub open spec fn s_render_loop(
    pat: Seq<TokX>,
    body: Seq<SegX>,
    items: Seq<ValX>,
    env: EnvX,
    fuel: nat,
) -> Result<Seq<char>, RenderError>
    decreases fuel, body, items.len(), 0int,
{
    if items.len() == 0 {
        Result::Ok(Seq::empty())
    } else {
        match s_match_pat(pat, items[0]) {
            Result::Err(er) => Result::Err(er),
            Result::Ok(Option::None) => Result::Err(RenderError::BadPattern),
            Result::Ok(Option::Some(bs)) => match s_render_prog(body, 0, env + bs, fuel) {
                Result::Err(er) => Result::Err(er),
                Result::Ok((t, _)) => match s_render_loop(
                    pat,
                    body,
                    items.drop_first(),
                    env,
                    fuel,
                ) {
                    Result::Err(er) => Result::Err(er),
                    Result::Ok(rest) => Result::Ok(t + rest),
                },
            },
        }
    }
}

/// A join: each item's natural display form in order, the separator
/// strictly between consecutive items — never before the first, never
/// after the last. An empty separator degenerates to concatenation; an
/// empty sequence renders nothing.
pub open spec fn s_render_join(sep: Seq<char>, items: Seq<ValX>, fuel: nat) -> Result<
    Seq<char>,
    RenderError,
>
    decreases fuel, items, 0int, 0int,
{
    if items.len() == 0 {
        Result::Ok(Seq::empty())
    } else {
        match s_display(items[0], fuel) {
            Result::Err(er) => Result::Err(er),
            Result::Ok(d) => if items.len() == 1 {
                Result::Ok(d)
            } else {
                match s_render_join(sep, items.drop_first(), fuel) {
                    Result::Err(er) => Result::Err(er),
                    Result::Ok(rest) => Result::Ok(d + sep + rest),
                }
            },
        }
    }
}

/// Reads a specifier's tokens.
fn parse_fspec(o: &Option<Vec<Token>>) -> (r: Result<Fspec, RenderError>)
    ensures
        match r {
            Result::Ok(f) => s_parse_fspec(crate::template::opt_toks_view(*o)) == Result::Ok::<
                Fspec,
                RenderError,
            >(f),
            Result::Err(er) => s_parse_fspec(crate::template::opt_toks_view(*o)) == Result::Err::<
                Fspec,
                RenderError,
            >(er),
        },
{
    match o {
        Option::None => Result::Ok(Fspec::Plain),
        Option::Some(ts) => {
            proof {
                lemma_toks_view_len(ts@);
            }
            let n = ts.len();
            if n == 0 {
                return Result::Ok(Fspec::Plain);
            }
            proof {
                lemma_toks_view_at(ts@, 0);
                if n >= 2 {
                    lemma_toks_view_at(ts@, 1);
                }
            }
            if n == 2 {
                let hash_x = match (&ts[0], &ts[1]) {
                    (Token::Punct(p), Token::Word(w)) => *p == Punc::Hash && crate::eval::word_is(
                        w,
                        "x",
                    ),
                    _ => false,
                };
                if hash_x {
                    return Result::Ok(Fspec::HexAlt);
                }
                let arg_width = match (&ts[0], &ts[1]) {
                    (Token::Num(m), Token::Punct(p)) => *m == 1 && *p == Punc::Dollar,
                    _ => false,
                };
                if arg_width {
                    return Result::Ok(Fspec::WidthArg);
                }
                return Result::Err(RenderError::BadSpec);
            }
            if n == 1 {
                match &ts[0] {
                    Token::Num(m) => {
                        if *m >= 0 {
                            return Result::Ok(Fspec::WidthLit(*m as u64));
                        }
                        return Result::Err(RenderError::BadSpec);
                    },
                    _ => {
                        return Result::Err(RenderError::BadSpec);
                    },
                }
            }
            Result::Err(RenderError::BadSpec)
        },
    }
}

/// Appends `n` spaces onto `out`.
fn write_spaces(out: &mut String, n: u64)
    ensures
        final(out)@ == old(out)@ + s_spaces(n as nat),
{
    let mut k: u64 = 0;
    while k < n
        invariant
            k <= n,
            out@ == old(out)@ + s_spaces(k as nat),
        decreases n - k,
    {
        crate::digits::push_char(out, ' ');
        k = k + 1;
        proof {
            assert((old(out)@ + s_spaces((k - 1) as nat)).push(' ') =~= old(out)@ + s_spaces(
                k as nat,
            ));
        }
    }
    proof {
        assert(old(out)@ + s_spaces(0) =~= old(out)@);
    }
}

/// Pads `d` with spaces to at least `w` characters.
fn pad(d: String, w: u64, left: bool) -> (r: String)
    ensures
        r@ == s_pad(d@, w as nat, left),
{
    let len = d.as_str().unicode_len();
    if len as u64 >= w {
        proof {
            assert(d@.len() >= w as nat);
        }
        return d;
    }
    if left {
        let mut r = d;
        write_spaces(&mut r, w - len as u64);
        r
    } else {
        let mut r = String::new();
        write_spaces(&mut r, w - len as u64);
        r.append(d.as_str());
        proof {
            assert(Seq::<char>::empty() + s_spaces((w - len) as nat) =~= s_spaces(
                (w - len) as nat,
            ));
        }
        r
    }
}

/// The bits of `n` as an unsigned number.
fn to_u64(n: i64) -> (r: u64)
    ensures
        r as nat == s_to_u64(n),
{
    if n >= 0 {
        n as u64
    } else {
        let wide: i128 = (n as i128) + 0x10000000000000000i128;
        proof {
            assert(0x8000000000000000i128 <= wide < 0x10000000000000000i128);
        }
        wide as u64
    }
}

/// The items a loop walks.
fn items_of(v: &Value) -> (r: Option<Vec<Value>>)
    ensures
        match r {
            Option::Some(items) => s_items_of(v@) == Option::Some(vals_view(items@)),
            Option::None => s_items_of(v@) == Option::<Seq<ValX>>::None,
        },
{
    broadcast use lemma_vals_view_len, lemma_vals_view_at;

    match v {
        Value::List(items) => Option::Some(clone_values(items)),
        Value::Range(a, b) => {
            let ghost model = (match s_items_of(v@) {
                Option::Some(m) => m,
                Option::None => Seq::empty(),
            });
            let mut acc: Vec<Value> = Vec::new();
            if a >= b {
                proof {
                    assert(vals_view(acc@) =~= model);
                }
                return Option::Some(acc);
            }
            let mut k: i64 = *a;
            while k < *b
                invariant
                    *a <= k <= *b,
                    *a < *b,
                    model == s_items_of(Value::Range(*a, *b)@)->Some_0,
                    model.len() == *b - *a,
                    acc@.len() == k - *a,
                    vals_view(acc@) =~= model.take(k - *a),
                decreases *b - k,
            {
                let ghost acc0 = acc@;
                acc.push(Value::Int(k));
                proof {
                    assert(acc@.drop_last() =~= acc0);
                    assert(acc@.last() == Value::Int(k));
                    assert(val_view(Value::Int(k)) == ValX::Int(k));
                    assert(vals_view(acc@) == vals_view(acc0).push(ValX::Int(k)));
                    assert(model[k - *a] == ValX::Int(k));
                    assert(model.take(k + 1 - *a) =~= model.take(k - *a).push(model[k - *a]));
                }
                k = k + 1;
            }
            proof {
                assert(model.take((*b - *a) as int) =~= model);
            }
            Option::Some(acc)
        },
        _ => Option::None,
    }
}

/// The natural display form of a value.
fn display_val(v: &Value, fuel: u64) -> (r: Result<String, RenderError>)
    ensures
        match r {
            Result::Ok(t) => s_display(v@, fuel as nat) == Result::Ok::<Seq<char>, RenderError>(
                t@,
            ),
            Result::Err(er) => s_display(v@, fuel as nat) == Result::Err::<Seq<char>, RenderError>(
                er,
            ),
        },
    decreases fuel as nat, v@, 0int, 0int,
{
    match v {
        Value::Int(n) => {
            let mut t = String::new();
            write_dec_i64(&mut t, *n);
            proof {
                assert(t@ =~= s_dec_i64(*n));
            }
            Result::Ok(t)
        },
        Value::Str(s) => Result::Ok(s.clone()),
        Value::Chr(c) => {
            let mut t = String::new();
            crate::digits::push_char(&mut t, *c);
            proof {
                assert(t@ =~= seq![*c]);
            }
            Result::Ok(t)
        },
        Value::Bool(b) => {
            if *b {
                Result::Ok(String::from_str("true"))
            } else {
                Result::Ok(String::from_str("false"))
            }
        },
        Value::Shown(f) => render_plan(&f.plan, fuel),
        _ => Result::Err(RenderError::NotDisplayable),
    }
}

/// A value written under a format specifier.
#[verifier::rlimit(100)]
fn format_val(
    v: &Value,
    f: Fspec,
    aux: &Option<Vec<Token>>,
    env: &Vec<(String, Value)>,
    fuel: u64,
) -> (r: Result<String, RenderError>)
    ensures
        match r {
            Result::Ok(t) => s_format(
                v@,
                f,
                crate::template::opt_toks_view(*aux),
                env_view(env@),
                fuel as nat,
            ) == Result::Ok::<Seq<char>, RenderError>(t@),
            Result::Err(er) => s_format(
                v@,
                f,
                crate::template::opt_toks_view(*aux),
                env_view(env@),
                fuel as nat,
            ) == Result::Err::<Seq<char>, RenderError>(er),
        },
    decreases fuel as nat, v@, 1int, 0int,
{
    match f {
        Fspec::Plain => display_val(v, fuel),
        Fspec::HexAlt => {
            match v {
                Value::Int(n) => {
                    let mut t = String::from_str("0x");
                    let u = to_u64(*n);
                    write_hex_u64(&mut t, u);
                    proof {
                        reveal_strlit("0x");
                        assert(t@ =~= seq!['0', 'x'] + s_hex_nat(s_to_u64(*n)));
                    }
                    Result::Ok(t)
                },
                _ => Result::Err(RenderError::TypeMismatch),
            }
        },
        Fspec::WidthLit(w) => {
            match display_val(v, fuel) {
                Result::Err(er) => Result::Err(er),
                Result::Ok(d) => {
                    let left = match v {
                        Value::Int(_) => false,
                        _ => true,
                    };
                    Result::Ok(pad(d, w, left))
                },
            }
        },
        Fspec::WidthArg => {
            match aux {
                Option::None => Result::Err(RenderError::BadSpec),
                Option::Some(at) => {
                    match eval(at, env) {
                        Result::Err(er) => Result::Err(er),
                        Result::Ok(Value::Int(w)) => {
                            if w >= 0 {
                                match display_val(v, fuel) {
                                    Result::Err(er) => Result::Err(er),
                                    Result::Ok(d) => {
                                        let left = match v {
                                            Value::Int(_) => false,
                                            _ => true,
                                        };
                                        Result::Ok(pad(d, w as u64, left))
                                    },
                                }
                            } else {
                                Result::Err(RenderError::BadSpec)
                            }
                        },
                        Result::Ok(_) => Result::Err(RenderError::TypeMismatch),
                    }
                },
            }
        },
    }
}

/// One escape statement.
#[verifier::rlimit(100)]
fn run_stmt(alias: &Vec<Token>, stmt: &Vec<Token>, env: Vec<(String, Value)>) -> (r: Result<
    (String, Vec<(String, Value)>),
    RenderError,
>)
    ensures
        match r {
            Result::Ok((t, e2)) => s_run_stmt(toks_view(alias@), toks_view(stmt@), env_view(env@))
                == Result::Ok::<(Seq<char>, EnvX), RenderError>((t@, env_view(e2@))),
            Result::Err(er) => s_run_stmt(toks_view(alias@), toks_view(stmt@), env_view(env@))
                == Result::Err::<(Seq<char>, EnvX), RenderError>(er),
        },
{
    proof {
        lemma_toks_view_len(stmt@);
        lemma_toks_view_len(alias@);
    }
    let m = stmt.len();
    if m == 0 {
        return Result::Ok((String::new(), env));
    }
    proof {
        lemma_toks_view_at(stmt@, 0);
    }
    let is_let = match &stmt[0] {
        Token::Kword(k) => *k == Kw::Let,
        _ => false,
    };
    if is_let {
        match crate::template::find_punct(stmt, 1, m, Punc::Assign) {
            Option::None => Result::Err(RenderError::OpaqueEscape),
            Option::Some(a) => {
                if a == 1 || a + 1 == m {
                    return Result::Err(RenderError::OpaqueEscape);
                }
                let pat = slice_toks(stmt, 1, a);
                let expr = slice_toks(stmt, a + 1, m);
                match eval(&expr, &env) {
                    Result::Err(er) => Result::Err(er),
                    Result::Ok(x) => match match_pat(&pat, &x) {
                        Result::Err(er) => Result::Err(er),
                        Result::Ok(Option::None) => Result::Err(RenderError::BadPattern),
                        Result::Ok(Option::Some(mut bs)) => {
                            let ghost env0 = env@;
                            let ghost bs0 = bs@;
                            let mut e2 = env;
                            proof {
                                crate::value::lemma_env_view_append(env0, bs0);
                            }
                            e2.append(&mut bs);
                            Result::Ok((String::new(), e2))
                        },
                    },
                }
            },
        }
    } else {
        let shape_ok = if m == 4 {
            true
        } else if m == 5 {
            proof {
                lemma_toks_view_at(stmt@, 4);
            }
            match &stmt[4] {
                Token::Punct(p) => *p == Punc::Quest,
                _ => false,
            }
        } else {
            false
        };
        if !shape_ok {
            return Result::Err(RenderError::OpaqueEscape);
        }
        proof {
            lemma_toks_view_at(stmt@, 1);
            lemma_toks_view_at(stmt@, 2);
            lemma_toks_view_at(stmt@, 3);
            if alias@.len() > 0 {
                lemma_toks_view_at(alias@, 0);
            }
        }
        let dot_ok = match &stmt[1] {
            Token::Punct(p) => *p == Punc::Dot,
            _ => false,
        };
        let name_ok = match &stmt[2] {
            Token::Word(w) => crate::eval::word_is(w, "write_str"),
            _ => false,
        };
        let alias_ok = alias.len() == 1 && (match (&alias[0], &stmt[0]) {
            (Token::Word(a), Token::Word(b)) => *a == *b,
            _ => false,
        });
        if !(dot_ok && name_ok && alias_ok) {
            return Result::Err(RenderError::OpaqueEscape);
        }
        match &stmt[3] {
            Token::Group(Delim::Paren, args) => {
                match eval(args, &env) {
                    Result::Err(er) => Result::Err(er),
                    Result::Ok(Value::Str(s)) => Result::Ok((s, env)),
                    Result::Ok(_) => Result::Err(RenderError::TypeMismatch),
                }
            },
            _ => Result::Err(RenderError::OpaqueEscape),
        }
    }
}

/// The statements of a block escape, in order.
#[verifier::rlimit(100)]
fn run_block(alias: &Vec<Token>, code: &Vec<Token>, env: &Vec<(String, Value)>) -> (r: Result<
    String,
    RenderError,
>)
    ensures
        match r {
            Result::Ok(t) => s_run_block(toks_view(alias@), toks_view(code@), 0, env_view(env@))
                == Result::Ok::<Seq<char>, RenderError>(t@),
            Result::Err(er) => s_run_block(toks_view(alias@), toks_view(code@), 0, env_view(env@))
                == Result::Err::<Seq<char>, RenderError>(er),
        },
{
    proof {
        lemma_toks_view_len(code@);
    }
    let ghost cv = toks_view(code@);
    let ghost env0v = env_view(env@);
    let n = code.len();
    let mut cur = crate::value::clone_env(env);
    let mut out = String::new();
    let mut i: usize = 0;
    proof {
        if s_run_block(toks_view(alias@), cv, 0, env_view(cur@)) is Ok {
            let rest = s_run_block(toks_view(alias@), cv, 0, env_view(cur@))->Ok_0;
            assert(out@ + rest =~= rest);
        }
    }
    while i < n
        invariant
            i <= n,
            n == code@.len(),
            cv == toks_view(code@),
            cv.len() == n,
            env0v == env_view(env@),
            s_run_block(toks_view(alias@), cv, i as int, env_view(cur@)) is Ok
                ==> s_run_block(toks_view(alias@), cv, 0, env0v) == Result::Ok::<
                Seq<char>,
                RenderError,
            >(out@ + s_run_block(toks_view(alias@), cv, i as int, env_view(cur@))->Ok_0),
            s_run_block(toks_view(alias@), cv, i as int, env_view(cur@)) is Err
                ==> s_run_block(toks_view(alias@), cv, 0, env0v) == s_run_block(
                toks_view(alias@),
                cv,
                i as int,
                env_view(cur@),
            ),
        decreases n - i,
    {
        match crate::template::find_punct(code, i, n, Punc::Semi) {
            Option::None => {
                let stmt = if i == 0 {
                    crate::token::clone_toks(code)
                } else {
                    slice_toks(code, i, n)
                };
                match run_stmt(alias, &stmt, cur) {
                    Result::Err(er) => {
                        return Result::Err(er);
                    },
                    Result::Ok((t, _)) => {
                        let ghost out0 = out@;
                        out.append(t.as_str());
                        proof {
                            assert(out0 + t@ =~= out@);
                        }
                        return Result::Ok(out);
                    },
                }
            },
            Option::Some(c) => {
                let ghost curv = env_view(cur@);
                let stmt = slice_toks(code, i, c);
                match run_stmt(alias, &stmt, cur) {
                    Result::Err(er) => {
                        proof {
                            assert(toks_view(stmt@) == cv.subrange(i as int, c as int));
                            assert(s_run_stmt(toks_view(alias@), cv.subrange(i as int, c as int), curv)
                                == Result::Err::<(Seq<char>, EnvX), RenderError>(er));
                            assert(s_run_block(toks_view(alias@), cv, i as int, curv)
                                == Result::Err::<Seq<char>, RenderError>(er));
                        }
                        return Result::Err(er);
                    },
                    Result::Ok((t, e2)) => {
                        let ghost i0 = i as int;
                        let ghost out0 = out@;
                        out.append(t.as_str());
                        cur = e2;
                        i = c + 1;
                        proof {
                            assert(toks_view(stmt@) == cv.subrange(i0, c as int));
                            assert(s_run_stmt(toks_view(alias@), cv.subrange(i0, c as int), curv)
                                == Result::Ok::<(Seq<char>, EnvX), RenderError>(
                                (t@, env_view(cur@)),
                            ));
                            let inner = s_run_block(
                                toks_view(alias@),
                                cv,
                                i as int,
                                env_view(cur@),
                            );
                            if inner is Ok {
                                assert(s_run_block(toks_view(alias@), cv, i0, curv)
                                    == Result::Ok::<Seq<char>, RenderError>(t@ + inner->Ok_0));
                                assert(out0 + (t@ + inner->Ok_0) =~= out@ + inner->Ok_0);
                            } else {
                                assert(s_run_block(toks_view(alias@), cv, i0, curv) == inner);
                            }
                        }
                    },
                }
            },
        }
    }
    proof {
        assert(out@ + Seq::<char>::empty() =~= out@);
    }
    Result::Ok(out)
}

/// An escape hatch.
fn render_escape(
    alias: &Vec<Token>,
    code: &Vec<Token>,
    block: bool,
    env: Vec<(String, Value)>,
) -> (r: Result<(String, Vec<(String, Value)>), RenderError>)
    ensures
        match r {
            Result::Ok((t, e2)) => s_render_escape(
                toks_view(alias@),
                toks_view(code@),
                block,
                env_view(env@),
            ) == Result::Ok::<(Seq<char>, EnvX), RenderError>((t@, env_view(e2@))),
            Result::Err(er) => s_render_escape(
                toks_view(alias@),
                toks_view(code@),
                block,
                env_view(env@),
            ) == Result::Err::<(Seq<char>, EnvX), RenderError>(er),
        },
{
    if block {
        match run_block(alias, code, &env) {
            Result::Err(er) => Result::Err(er),
            Result::Ok(t) => Result::Ok((t, env)),
        }
    } else {
        run_stmt(alias, code, env)
    }
}

/// A whole formattable object.
pub fn render_plan(p: &Plan, fuel: u64) -> (r: Result<String, RenderError>)
    ensures
        match r {
            Result::Ok(t) => s_render_plan(p@, fuel as nat) == Result::Ok::<
                Seq<char>,
                RenderError,
            >(t@),
            Result::Err(er) => s_render_plan(p@, fuel as nat) == Result::Err::<
                Seq<char>,
                RenderError,
            >(er),
        },
    decreases fuel as nat, p@, 0int, 0int,
{
    if fuel == 0 {
        return Result::Err(RenderError::TooDeep);
    }
    match p {
        Plan::Tpl { prog, env } => {
            let e = crate::value::clone_env(env);
            match render_prog(prog, e, fuel - 1) {
                Result::Err(er) => Result::Err(er),
                Result::Ok((t, _)) => Result::Ok(t),
            }
        },
        Plan::Join { sep, items } => render_join(sep, items, fuel - 1),
    }
}

/// A body's nodes in order, threading bindings.
#[verifier::rlimit(100)]
fn render_prog(prog: &Vec<Segment>, env: Vec<(String, Value)>, fuel: u64) -> (r: Result<
    (String, Vec<(String, Value)>),
    RenderError,
>)
    ensures
        match r {
            Result::Ok((t, ef)) => s_render_prog(segs_view(prog@), 0, env_view(env@), fuel as nat)
                == Result::Ok::<(Seq<char>, EnvX), RenderError>((t@, env_view(ef@))),
            Result::Err(er) => s_render_prog(segs_view(prog@), 0, env_view(env@), fuel as nat)
                == Result::Err::<(Seq<char>, EnvX), RenderError>(er),
        },
    decreases fuel as nat, segs_view(prog@), 0int, segs_view(prog@).len() + 1,
{
    broadcast use lemma_segs_view_len, lemma_segs_view_at;

    let ghost sv = segs_view(prog@);
    let ghost env0v = env_view(env@);
    let ghost fz = fuel as nat;
    let n = prog.len();
    let mut cur = env;
    let mut out = String::new();
    let mut i: usize = 0;
    proof {
        if s_render_prog(sv, 0, env_view(cur@), fz) is Ok {
            let pair = s_render_prog(sv, 0, env_view(cur@), fz)->Ok_0;
            assert(out@ + pair.0 =~= pair.0);
        }
    }
    while i < n
        invariant
            i <= n,
            n == prog@.len(),
            sv == segs_view(prog@),
            sv.len() == n,
            fz == fuel as nat,
            env0v == env_view(env@),
            (match s_render_prog(sv, i as int, env_view(cur@), fz) {
                Result::Ok((rest, ef)) => s_render_prog(sv, 0, env0v, fz) == Result::Ok::<
                    (Seq<char>, EnvX),
                    RenderError,
                >((out@ + rest, ef)),
                Result::Err(er) => s_render_prog(sv, 0, env0v, fz) == Result::Err::<
                    (Seq<char>, EnvX),
                    RenderError,
                >(er),
            }),
        decreases n - i,
    {
        proof {
            lemma_segs_view_at(prog@, i as int);
        }
        match render_seg(&prog[i], cur, fuel) {
            Result::Err(er) => {
                return Result::Err(er);
            },
            Result::Ok((t, e2)) => {
                let ghost out0 = out@;
                out.append(t.as_str());
                cur = e2;
                i = i + 1;
                proof {
                    if s_render_prog(sv, i as int, env_view(cur@), fz) is Ok {
                        let pair = s_render_prog(sv, i as int, env_view(cur@), fz)->Ok_0;
                        assert(out0 + (t@ + pair.0) =~= out@ + pair.0);
                    }
                }
            },
        }
    }
    proof {
        assert(out@ + Seq::<char>::empty() =~= out@);
    }
    Result::Ok((out, cur))
}

/// One write-plan node.
#[verifier::rlimit(100)]
fn render_seg(s: &Segment, env: Vec<(String, Value)>, fuel: u64) -> (r: Result<
    (String, Vec<(String, Value)>),
    RenderError,
>)
    ensures
        match r {
            Result::Ok((t, e2)) => s_render_seg(s@, env_view(env@), fuel as nat) == Result::Ok::<
                (Seq<char>, EnvX),
                RenderError,
            >((t@, env_view(e2@))),
            Result::Err(er) => s_render_seg(s@, env_view(env@), fuel as nat) == Result::Err::<
                (Seq<char>, EnvX),
                RenderError,
            >(er),
        },
    decreases fuel as nat, s@, 0int, 0int,
{
    match s {
        Segment::Text(t) => Result::Ok((t.clone(), env)),
        Segment::Show { expr, aux, fspec } => {
            if fuel == 0 {
                return Result::Err(RenderError::TooDeep);
            }
            match eval(expr, &env) {
                Result::Err(er) => Result::Err(er),
                Result::Ok(v) => match parse_fspec(fspec) {
                    Result::Err(er) => Result::Err(er),
                    Result::Ok(f) => match format_val(&v, f, aux, &env, fuel - 1) {
                        Result::Err(er) => Result::Err(er),
                        Result::Ok(t) => Result::Ok((t, env)),
                    },
                },
            }
        },
        Segment::Bind { pat, expr } => {
            match eval(expr, &env) {
                Result::Err(er) => Result::Err(er),
                Result::Ok(v) => match match_pat(pat, &v) {
                    Result::Err(er) => Result::Err(er),
                    Result::Ok(Option::None) => Result::Err(RenderError::BadPattern),
                    Result::Ok(Option::Some(mut bs)) => {
                        let ghost env0 = env@;
                        let ghost bs0 = bs@;
                        let mut e2 = env;
                        proof {
                            crate::value::lemma_env_view_append(env0, bs0);
                        }
                        e2.append(&mut bs);
                        Result::Ok((String::new(), e2))
                    },
                },
            }
        },
        Segment::Cond { branches, els } => {
            match render_cond(branches, &env, fuel) {
                Result::Err(er) => Result::Err(er),
                Result::Ok(Option::Some(t)) => Result::Ok((t, env)),
                Result::Ok(Option::None) => match els {
                    Option::Some(body) => {
                        let e = crate::value::clone_env(&env);
                        match render_prog(body, e, fuel) {
                            Result::Err(er) => Result::Err(er),
                            Result::Ok((t, _)) => Result::Ok((t, env)),
                        }
                    },
                    Option::None => Result::Ok((String::new(), env)),
                },
            }
        },
        Segment::Match { scrut, arms } => {
            match eval(scrut, &env) {
                Result::Err(er) => Result::Err(er),
                Result::Ok(v) => match render_arms(arms, &v, &env, fuel) {
                    Result::Err(er) => Result::Err(er),
                    Result::Ok(t) => Result::Ok((t, env)),
                },
            }
        },
        Segment::Loop { pat, iter, body } => {
            match eval(iter, &env) {
                Result::Err(er) => Result::Err(er),
                Result::Ok(v) => match items_of(&v) {
                    Option::None => Result::Err(RenderError::TypeMismatch),
                    Option::Some(items) => match render_loop(pat, body, &items, &env, fuel) {
                        Result::Err(er) => Result::Err(er),
                        Result::Ok(t) => Result::Ok((t, env)),
                    },
                },
            }
        },
        Segment::Escape { alias, code, block } => render_escape(alias, code, *block, env),
    }
}

/// The branches of a conditional, in order: the first that fires.
#[verifier::rlimit(100)]
fn render_cond(branches: &Vec<Branch>, env: &Vec<(String, Value)>, fuel: u64) -> (r: Result<
    Option<String>,
    RenderError,
>)
    ensures
        match r {
            Result::Ok(Option::Some(t)) => s_render_cond(
                branches_view(branches@),
                env_view(env@),
                fuel as nat,
            ) == Result::Ok::<Option<Seq<char>>, RenderError>(Option::Some(t@)),
            Result::Ok(Option::None) => s_render_cond(
                branches_view(branches@),
                env_view(env@),
                fuel as nat,
            ) == Result::Ok::<Option<Seq<char>>, RenderError>(Option::None),
            Result::Err(er) => s_render_cond(branches_view(branches@), env_view(env@), fuel as nat)
                == Result::Err::<Option<Seq<char>>, RenderError>(er),
        },
    decreases fuel as nat, branches_view(branches@), 0int, 0int,
{
    broadcast use lemma_branches_view_len, lemma_branches_view_at;

    let ghost bv = branches_view(branches@);
    let ghost ev = env_view(env@);
    let ghost fz = fuel as nat;
    let n = branches.len();
    let mut i: usize = 0;
    proof {
        assert(bv.skip(0) =~= bv);
    }
    while i < n
        invariant
            i <= n,
            n == branches@.len(),
            bv == branches_view(branches@),
            bv.len() == n,
            ev == env_view(env@),
            fz == fuel as nat,
            s_render_cond(bv, ev, fz) == s_render_cond(bv.skip(i as int), ev, fz),
        decreases n - i,
    {
        proof {
            lemma_branches_view_at(branches@, i as int);
            assert(bv.skip(i as int).len() == n - i);
            assert(bv.skip(i as int)[0] == bv[i as int]);
            assert(bv.skip(i as int).drop_first() =~= bv.skip((i + 1) as int));
        }
        let b = &branches[i];
        match eval(&b.cond, env) {
            Result::Err(er) => {
                return Result::Err(er);
            },
            Result::Ok(v) => {
                match &b.pat {
                    Option::None => {
                        match &v {
                            Value::Bool(cond_val) => {
                                if *cond_val {
                                    let e = crate::value::clone_env(env);
                                    match render_prog(&b.body, e, fuel) {
                                        Result::Err(er) => {
                                            return Result::Err(er);
                                        },
                                        Result::Ok((t, _)) => {
                                            return Result::Ok(Option::Some(t));
                                        },
                                    }
                                }
                            },
                            _ => {
                                return Result::Err(RenderError::TypeMismatch);
                            },
                        }
                    },
                    Option::Some(p) => {
                        match match_pat(p, &v) {
                            Result::Err(er) => {
                                return Result::Err(er);
                            },
                            Result::Ok(Option::Some(mut bs)) => {
                                let mut e = crate::value::clone_env(env);
                                let ghost e0 = e@;
                                let ghost bs0 = bs@;
                                proof {
                                    crate::value::lemma_env_view_append(e0, bs0);
                                }
                                e.append(&mut bs);
                                match render_prog(&b.body, e, fuel) {
                                    Result::Err(er) => {
                                        return Result::Err(er);
                                    },
                                    Result::Ok((t, _)) => {
                                        return Result::Ok(Option::Some(t));
                                    },
                                }
                            },
                            Result::Ok(Option::None) => {},
                        }
                    },
                }
            },
        }
        i = i + 1;
    }
    proof {
        assert(bv.skip(n as int).len() == 0);
    }
    Result::Ok(Option::None)
}

/// The arms of a match, in order: the first that accepts.
#[verifier::rlimit(100)]
fn render_arms(arms: &Vec<Arm>, v: &Value, env: &Vec<(String, Value)>, fuel: u64) -> (r: Result<
    String,
    RenderError,
>)
    ensures
        match r {
            Result::Ok(t) => s_render_arms(arms_view(arms@), v@, env_view(env@), fuel as nat)
                == Result::Ok::<Seq<char>, RenderError>(t@),
            Result::Err(er) => s_render_arms(arms_view(arms@), v@, env_view(env@), fuel as nat)
                == Result::Err::<Seq<char>, RenderError>(er),
        },
    decreases fuel as nat, arms_view(arms@), 0int, 0int,
{
    broadcast use lemma_arms_view_len, lemma_arms_view_at;

    let ghost av = arms_view(arms@);
    let ghost ev = env_view(env@);
    let ghost fz = fuel as nat;
    let n = arms.len();
    let mut i: usize = 0;
    proof {
        assert(av.skip(0) =~= av);
    }
    while i < n
        invariant
            i <= n,
            n == arms@.len(),
            av == arms_view(arms@),
            av.len() == n,
            ev == env_view(env@),
            fz == fuel as nat,
            s_render_arms(av, v@, ev, fz) == s_render_arms(av.skip(i as int), v@, ev, fz),
        decreases n - i,
    {
        proof {
            lemma_arms_view_at(arms@, i as int);
            assert(av.skip(i as int).len() == n - i);
            assert(av.skip(i as int)[0] == av[i as int]);
            assert(av.skip(i as int).drop_first() =~= av.skip((i + 1) as int));
        }
        let a = &arms[i];
        match match_pat(&a.pat, v) {
            Result::Err(er) => {
                return Result::Err(er);
            },
            Result::Ok(Option::None) => {},
            Result::Ok(Option::Some(mut bs)) => {
                let mut e = crate::value::clone_env(env);
                let ghost e0 = e@;
                let ghost bs0 = bs@;
                proof {
                    crate::value::lemma_env_view_append(e0, bs0);
                }
                e.append(&mut bs);
                let guard_fires = match &a.guard {
                    Option::None => true,
                    Option::Some(g) => {
                        match eval(g, &e) {
                            Result::Err(er) => {
                                return Result::Err(er);
                            },
                            Result::Ok(Value::Bool(gv)) => gv,
                            Result::Ok(_) => {
                                return Result::Err(RenderError::TypeMismatch);
                            },
                        }
                    },
                };
                if guard_fires {
                    match render_prog(&a.body, e, fuel) {
                        Result::Err(er) => {
                            return Result::Err(er);
                        },
                        Result::Ok((t, _)) => {
                            return Result::Ok(t);
                        },
                    }
                }
            },
        }
        i = i + 1;
    }
    proof {
        assert(av.skip(n as int).len() == 0);
    }
    Result::Err(RenderError::NoArm)
}

/// A loop's body once per item, in iteration order.
#[verifier::rlimit(100)]
fn render_loop(
    pat: &Vec<Token>,
    body: &Vec<Segment>,
    items: &Vec<Value>,
    env: &Vec<(String, Value)>,
    fuel: u64,
) -> (r: Result<String, RenderError>)
    ensures
        match r {
            Result::Ok(t) => s_render_loop(
                toks_view(pat@),
                segs_view(body@),
                vals_view(items@),
                env_view(env@),
                fuel as nat,
            ) == Result::Ok::<Seq<char>, RenderError>(t@),
            Result::Err(er) => s_render_loop(
                toks_view(pat@),
                segs_view(body@),
                vals_view(items@),
                env_view(env@),
                fuel as nat,
            ) == Result::Err::<Seq<char>, RenderError>(er),
        },
    decreases fuel as nat, segs_view(body@), vals_view(items@).len() + 1, 0int,
{
    broadcast use lemma_vals_view_len, lemma_vals_view_at;

    let ghost iv = vals_view(items@);
    let ghost ev = env_view(env@);
    let ghost fz = fuel as nat;
    let n = items.len();
    let mut out = String::new();
    let mut i: usize = 0;
    proof {
        assert(iv.skip(0) =~= iv);
        if s_render_loop(toks_view(pat@), segs_view(body@), iv, ev, fz) is Ok {
            let rest = s_render_loop(toks_view(pat@), segs_view(body@), iv, ev, fz)->Ok_0;
            assert(out@ + rest =~= rest);
        }
    }
    while i < n
        invariant
            i <= n,
            n == items@.len(),
            iv == vals_view(items@),
            iv.len() == n,
            ev == env_view(env@),
            fz == fuel as nat,
            (match s_render_loop(toks_view(pat@), segs_view(body@), iv.skip(i as int), ev, fz) {
                Result::Ok(rest) => s_render_loop(toks_view(pat@), segs_view(body@), iv, ev, fz)
                    == Result::Ok::<Seq<char>, RenderError>(out@ + rest),
                Result::Err(er) => s_render_loop(toks_view(pat@), segs_view(body@), iv, ev, fz)
                    == Result::Err::<Seq<char>, RenderError>(er),
            }),
        decreases n - i,
    {
        proof {
            lemma_vals_view_at(items@, i as int);
            assert(iv.skip(i as int).len() == n - i);
            assert(iv.skip(i as int)[0] == iv[i as int]);
            assert(iv.skip(i as int).drop_first() =~= iv.skip((i + 1) as int));
        }
        match match_pat(pat, &items[i]) {
            Result::Err(er) => {
                return Result::Err(er);
            },
            Result::Ok(Option::None) => {
                return Result::Err(RenderError::BadPattern);
            },
            Result::Ok(Option::Some(mut bs)) => {
                let mut e = crate::value::clone_env(env);
                let ghost e0 = e@;
                let ghost bs0 = bs@;
                proof {
                    crate::value::lemma_env_view_append(e0, bs0);
                }
                e.append(&mut bs);
                match render_prog(body, e, fuel) {
                    Result::Err(er) => {
                        return Result::Err(er);
                    },
                    Result::Ok((t, _)) => {
                        let ghost out0 = out@;
                        out.append(t.as_str());
                        i = i + 1;
                        proof {
                            if s_render_loop(
                                toks_view(pat@),
                                segs_view(body@),
                                iv.skip(i as int),
                                ev,
                                fz,
                            ) is Ok {
                                let rest = s_render_loop(
                                    toks_view(pat@),
                                    segs_view(body@),
                                    iv.skip(i as int),
                                    ev,
                                    fz,
                                )->Ok_0;
                                assert(out0 + (t@ + rest) =~= out@ + rest);
                            }
                        }
                    },
                }
            },
        }
    }
    proof {
        assert(iv.skip(n as int).len() == 0);
        assert(out@ + Seq::<char>::empty() =~= out@);
    }
    Result::Ok(out)
}

/// A join's items in order, the separator strictly between them.
#[verifier::rlimit(100)]
fn render_join(sep: &String, items: &Vec<Value>, fuel: u64) -> (r: Result<String, RenderError>)
    ensures
        match r {
            Result::Ok(t) => s_render_join(sep@, vals_view(items@), fuel as nat) == Result::Ok::<
                Seq<char>,
                RenderError,
            >(t@),
            Result::Err(er) => s_render_join(sep@, vals_view(items@), fuel as nat)
                == Result::Err::<Seq<char>, RenderError>(er),
        },
    decreases fuel as nat, vals_view(items@), 0int, 1int,
{
    broadcast use lemma_vals_view_len, lemma_vals_view_at;

    let ghost iv = vals_view(items@);
    let ghost fz = fuel as nat;
    let n = items.len();
    let mut out = String::new();
    let mut i: usize = 0;
    proof {
        assert(iv.skip(0) =~= iv);
        if s_render_join(sep@, iv, fz) is Ok {
            let rest = s_render_join(sep@, iv, fz)->Ok_0;
            assert(out@ + rest =~= rest);
        }
    }
    while i < n
        invariant
            i <= n,
            n == items@.len(),
            iv == vals_view(items@),
            iv.len() == n,
            fz == fuel as nat,
            (match s_render_join(sep@, iv.skip(i as int), fz) {
                Result::Ok(rest) => s_render_join(sep@, iv, fz) == Result::Ok::<
                    Seq<char>,
                    RenderError,
                >(out@ + rest),
                Result::Err(er) => s_render_join(sep@, iv, fz) == Result::Err::<
                    Seq<char>,
                    RenderError,
                >(er),
            }),
        decreases n - i,
    {
        proof {
            lemma_vals_view_at(items@, i as int);
            assert(iv.skip(i as int).len() == n - i);
            assert(iv.skip(i as int)[0] == iv[i as int]);
            assert(iv.skip(i as int).drop_first() =~= iv.skip((i + 1) as int));
        }
        match display_val(&items[i], fuel) {
            Result::Err(er) => {
                return Result::Err(er);
            },
            Result::Ok(d) => {
                let ghost out0 = out@;
                out.append(d.as_str());
                if i + 1 < n {
                    out.append(sep.as_str());
                }
                i = i + 1;
                proof {
                    if i < n {
                        if s_render_join(sep@, iv.skip(i as int), fz) is Ok {
                            let rest = s_render_join(sep@, iv.skip(i as int), fz)->Ok_0;
                            assert(out0 + (d@ + sep@ + rest) =~= out@ + rest);
                        }
                    } else {
                        assert(out0 + d@ =~= out@);
                        assert(out@ + Seq::<char>::empty() =~= out@);
                    }
                }
            },
        }
    }
    proof {
        assert(out@ + Seq::<char>::empty() =~= out@);
    }
    Result::Ok(out)
}

} // verus!
