//! The laws the rendering semantics keeps: plain templates concatenate,
//! the literal-merge pass changes no rendering, conditional branches are
//! ordered and mutually exclusive, a loop renders its body once per item,
//! and an absent format specifier means the same as an empty one.

use vstd::prelude::*;

use crate::eval::{s_eval, s_match_pat, RenderError};
use crate::render::{
    s_display, s_render_cond, s_render_loop, s_render_prog, s_render_seg,
};
use crate::template::{s_merge, BranchX, SegX};
use crate::token::TokX;
use crate::value::{EnvX, ValX};

verus! {

/// Rendering a body from its node `i` on renders the sequence that
/// starts there.
pub proof fn lemma_render_shift(segs: Seq<SegX>, i: int, env: EnvX, fuel: nat)
    requires
        0 <= i <= segs.len(),
    ensures
        s_render_prog(segs, i, env, fuel) == s_render_prog(segs.skip(i), 0, env, fuel),
    decreases segs.len() - i,
{
    if i >= segs.len() {
        assert(segs.skip(i).len() == 0);
    } else {
        let sk = segs.skip(i);
        assert(sk[0] == segs[i]);
        match s_render_seg(segs[i], env, fuel) {
            Result::Ok((t, e2)) => {
                lemma_render_shift(segs, i + 1, e2, fuel);
                lemma_render_shift(sk, 1, e2, fuel);
                assert(sk.skip(1) =~= segs.skip(i + 1));
            },
            Result::Err(_) => {},
        }
    }
}

/// A template of literal text around one default-form interpolation
/// renders to pure concatenation: the first text, the value's display
/// form, the second text.
pub proof fn lemma_plain_concatenation(
    l1: Seq<char>,
    e: Seq<TokX>,
    l2: Seq<char>,
    env: EnvX,
    fuel: nat,
    v: ValX,
    d: Seq<char>,
)
    requires
        fuel >= 1,
        s_eval(e, env) == Result::Ok::<ValX, RenderError>(v),
        s_display(v, (fuel - 1) as nat) == Result::Ok::<Seq<char>, RenderError>(d),
    ensures
        s_render_prog(
            seq![
                SegX::Text(l1),
                SegX::Show { expr: e, aux: Option::None, fspec: Option::None },
                SegX::Text(l2),
            ],
            0,
            env,
            fuel,
        ) == Result::Ok::<(Seq<char>, EnvX), RenderError>((l1 + d + l2, env)),
{
    let p = seq![
        SegX::Text(l1),
        SegX::Show { expr: e, aux: Option::None, fspec: Option::None },
        SegX::Text(l2),
    ];
    assert(p.len() == 3);
    assert(p[0] == SegX::Text(l1));
    assert(p[1] == (SegX::Show { expr: e, aux: Option::None, fspec: Option::None }));
    assert(p[2] == SegX::Text(l2));
    assert(s_render_seg(p[0], env, fuel) == Result::Ok::<(Seq<char>, EnvX), RenderError>(
        (l1, env),
    ));
    assert(s_render_seg(p[1], env, fuel) == Result::Ok::<(Seq<char>, EnvX), RenderError>(
        (d, env),
    ));
    assert(s_render_seg(p[2], env, fuel) == Result::Ok::<(Seq<char>, EnvX), RenderError>(
        (l2, env),
    ));
    assert(s_render_prog(p, 3, env, fuel) == Result::Ok::<(Seq<char>, EnvX), RenderError>(
        (Seq::empty(), env),
    ));
    assert(s_render_prog(p, 2, env, fuel) == Result::Ok::<(Seq<char>, EnvX), RenderError>(
        (l2 + Seq::<char>::empty(), env),
    ));
    assert(s_render_prog(p, 1, env, fuel) == Result::Ok::<(Seq<char>, EnvX), RenderError>(
        (d + (l2 + Seq::<char>::empty()), env),
    ));
    assert(s_render_prog(p, 0, env, fuel) == Result::Ok::<(Seq<char>, EnvX), RenderError>(
        (l1 + (d + (l2 + Seq::<char>::empty())), env),
    ));
    assert(l1 + (d + (l2 + Seq::<char>::empty())) =~= l1 + d + l2);
}

/// Splitting a literal into two adjacent literal segments renders
/// identically to the unsplit literal, whatever follows them.
pub proof fn lemma_split_literal(
    a: Seq<char>,
    b: Seq<char>,
    rest: Seq<SegX>,
    env: EnvX,
    fuel: nat,
)
    ensures
        s_render_prog(seq![SegX::Text(a + b)] + rest, 0, env, fuel) == s_render_prog(
            seq![SegX::Text(a), SegX::Text(b)] + rest,
            0,
            env,
            fuel,
        ),
{
    let p1 = seq![SegX::Text(a + b)] + rest;
    let p2 = seq![SegX::Text(a), SegX::Text(b)] + rest;
    assert(p1[0] == SegX::Text(a + b));
    assert(p2[0] == SegX::Text(a));
    assert(p2[1] == SegX::Text(b));
    lemma_render_shift(p1, 1, env, fuel);
    assert(p1.skip(1) =~= rest);
    lemma_render_shift(p2, 2, env, fuel);
    assert(p2.skip(2) =~= rest);
    assert(s_render_seg(p1[0], env, fuel) == Result::Ok::<(Seq<char>, EnvX), RenderError>(
        (a + b, env),
    ));
    assert(s_render_seg(p2[0], env, fuel) == Result::Ok::<(Seq<char>, EnvX), RenderError>(
        (a, env),
    ));
    assert(s_render_seg(p2[1], env, fuel) == Result::Ok::<(Seq<char>, EnvX), RenderError>(
        (b, env),
    ));
    match s_render_prog(rest, 0, env, fuel) {
        Result::Ok((t, ef)) => {
            assert(s_render_prog(p1, 0, env, fuel) == Result::Ok::<
                (Seq<char>, EnvX),
                RenderError,
            >(((a + b) + t, ef)));
            assert(s_render_prog(p2, 1, env, fuel) == Result::Ok::<
                (Seq<char>, EnvX),
                RenderError,
            >((b + t, ef)));
            assert(s_render_prog(p2, 0, env, fuel) == Result::Ok::<
                (Seq<char>, EnvX),
                RenderError,
            >((a + (b + t), ef)));
            assert((a + b) + t =~= a + (b + t));
        },
        Result::Err(_) => {},
    }
}

/// The literal-merge pass is observationally transparent: a merged body
/// renders exactly what the unmerged body renders.
pub proof fn lemma_merge_transparent(p: Seq<SegX>, env: EnvX, fuel: nat)
    ensures
        s_render_prog(s_merge(p), 0, env, fuel) == s_render_prog(p, 0, env, fuel),
    decreases p.len(),
{
    if p.len() < 2 {
    } else {
        match (p[0], p[1]) {
            (SegX::Text(a), SegX::Text(b)) => {
                let q = seq![SegX::Text(a + b)] + p.subrange(2, p.len() as int);
                assert(s_merge(p) == s_merge(q));
                lemma_merge_transparent(q, env, fuel);
                lemma_split_literal(a, b, p.subrange(2, p.len() as int), env, fuel);
                assert(seq![SegX::Text(a), SegX::Text(b)] + p.subrange(2, p.len() as int) =~= p);
            },
            _ => {
                let rest = p.subrange(1, p.len() as int);
                let q = seq![p[0]] + s_merge(rest);
                assert(s_merge(p) == q);
                assert(q[0] == p[0]);
                match s_render_seg(p[0], env, fuel) {
                    Result::Ok((t, env2)) => {
                        lemma_merge_transparent(rest, env2, fuel);
                        lemma_render_shift(p, 1, env2, fuel);
                        assert(p.skip(1) =~= rest);
                        lemma_render_shift(q, 1, env2, fuel);
                        assert(q.skip(1) =~= s_merge(rest));
                    },
                    Result::Err(_) => {},
                }
            },
        }
    }
}

/// Whether a conditional branch fires under `env`, and the environment
/// its body then renders under: the branch's own bindings for an
/// `if let`, the enclosing environment for a plain `if`.
pub open spec fn s_branch_test(b: BranchX, env: EnvX) -> Result<Option<EnvX>, RenderError> {
    match b.pat {
        Option::None => match s_eval(b.cond, env) {
            Result::Ok(ValX::Bool(true)) => Result::Ok(Option::Some(env)),
            Result::Ok(ValX::Bool(false)) => Result::Ok(Option::None),
            Result::Ok(_) => Result::Err(RenderError::TypeMismatch),
            Result::Err(er) => Result::Err(er),
        },
        Option::Some(pt) => match s_eval(b.cond, env) {
            Result::Err(er) => Result::Err(er),
            Result::Ok(v) => match s_match_pat(pt, v) {
                Result::Err(er) => Result::Err(er),
                Result::Ok(Option::Some(bs)) => Result::Ok(Option::Some(env + bs)),
                Result::Ok(Option::None) => Result::Ok(Option::None),
            },
        },
    }
}

/// Conditional branches are ordered and mutually exclusive: when every
/// branch before `k` declines and branch `k` fires, exactly branch `k`'s
/// body renders, under the environment its test produced.
pub proof fn lemma_cond_first_firing(
    branches: Seq<BranchX>,
    env: EnvX,
    fuel: nat,
    k: int,
    env2: EnvX,
)
    requires
        0 <= k < branches.len(),
        forall|j: int|
            0 <= j < k ==> s_branch_test(branches[j], env) == Result::Ok::<
                Option<EnvX>,
                RenderError,
            >(Option::None),
        s_branch_test(branches[k], env) == Result::Ok::<Option<EnvX>, RenderError>(
            Option::Some(env2),
        ),
    ensures
        s_render_cond(branches, env, fuel) == (match s_render_prog(
            branches[k].body,
            0,
            env2,
            fuel,
        ) {
            Result::Ok((t, _)) => Result::Ok::<Option<Seq<char>>, RenderError>(Option::Some(t)),
            Result::Err(er) => Result::Err(er),
        }),
    decreases k,
{
    if k == 0 {
    } else {
        assert(s_branch_test(branches[0], env) == Result::Ok::<Option<EnvX>, RenderError>(
            Option::None,
        ));
        let tail = branches.drop_first();
        assert(tail[k - 1] == branches[k]);
        assert forall|j: int| 0 <= j < k - 1 implies s_branch_test(tail[j], env) == Result::Ok::<
            Option<EnvX>,
            RenderError,
        >(Option::None) by {
            assert(tail[j] == branches[j + 1]);
        }
        lemma_cond_first_firing(tail, env, fuel, k - 1, env2);
    }
}

/// When no branch fires, a conditional renders nothing of its branches:
/// the else body alone, if any, decides what follows.
pub proof fn lemma_cond_none_firing(branches: Seq<BranchX>, env: EnvX, fuel: nat)
    requires
        forall|j: int|
            0 <= j < branches.len() ==> s_branch_test(branches[j], env) == Result::Ok::<
                Option<EnvX>,
                RenderError,
            >(Option::None),
    ensures
        s_render_cond(branches, env, fuel) == Result::Ok::<Option<Seq<char>>, RenderError>(
            Option::None,
        ),
    decreases branches.len(),
{
    if branches.len() > 0 {
        assert(s_branch_test(branches[0], env) == Result::Ok::<Option<EnvX>, RenderError>(
            Option::None,
        ));
        let tail = branches.drop_first();
        assert forall|j: int|
            0 <= j < tail.len() implies s_branch_test(tail[j], env) == Result::Ok::<
            Option<EnvX>,
            RenderError,
        >(Option::None) by {
            assert(tail[j] == branches[j + 1]);
        }
        lemma_cond_none_firing(tail, env, fuel);
    }
}

/// A loop over no items renders nothing.
pub proof fn lemma_loop_empty(pat: Seq<TokX>, body: Seq<SegX>, env: EnvX, fuel: nat)
    ensures
        s_render_loop(pat, body, Seq::empty(), env, fuel) == Result::Ok::<
            Seq<char>,
            RenderError,
        >(Seq::empty()),
{
}

/// A loop renders its body once per item, in iteration order: the first
/// item's rendering, then the loop over the remaining items.
pub proof fn lemma_loop_step(
    pat: Seq<TokX>,
    body: Seq<SegX>,
    items: Seq<ValX>,
    env: EnvX,
    fuel: nat,
    bs: EnvX,
    t: Seq<char>,
    ef: EnvX,
    rest: Seq<char>,
)
    requires
        items.len() > 0,
        s_match_pat(pat, items[0]) == Result::Ok::<Option<EnvX>, RenderError>(Option::Some(bs)),
        s_render_prog(body, 0, env + bs, fuel) == Result::Ok::<(Seq<char>, EnvX), RenderError>(
            (t, ef),
        ),
        s_render_loop(pat, body, items.drop_first(), env, fuel) == Result::Ok::<
            Seq<char>,
            RenderError,
        >(rest),
    ensures
        s_render_loop(pat, body, items, env, fuel) == Result::Ok::<Seq<char>, RenderError>(
            t + rest,
        ),
{
}

/// An interpolation with no format specifier renders exactly as one
/// whose specifier is empty: both mean the value's natural display form.
pub proof fn lemma_default_specifier(
    expr: Seq<TokX>,
    aux: Option<Seq<TokX>>,
    env: EnvX,
    fuel: nat,
)
    ensures
        s_render_seg(SegX::Show { expr, aux, fspec: Option::None }, env, fuel) == s_render_seg(
            SegX::Show { expr, aux, fspec: Option::Some(Seq::empty()) },
            env,
            fuel,
        ),
{
}

} // verus!
