//! The values a template is rendered against.
//!
//! Expressions embedded in a template are opaque token sequences; at
//! render time they are evaluated against an environment of named
//! values. A value is a plain scalar, a string, a sequence to iterate,
//! or a nested formattable object, so that a compiled template or a
//! join can itself stand as an interpolated value inside another
//! template.

use vstd::prelude::*;

use crate::fmt;
use crate::template::{clone_segs, segs_view, SegX, Segment};

verus! {

/// A value an expression can take at render time.
#[derive(Debug)]
pub enum Value {
    /// A signed integer.
    Int(i64),
    /// A string.
    Str(String),
    /// A character.
    Chr(char),
    /// A boolean.
    Bool(bool),
    /// A sequence of values, as written `[a, b, c]`.
    List(Vec<Value>),
    /// A half-open integer range, as written `a..b`.
    Range(i64, i64),
    /// The absent case of an optional value.
    OptNone,
    /// The present case of an optional value.
    OptSome(Box<Value>),
    /// A nested formattable object: a compiled template or a join.
    Shown(Box<fmt>),
}

/// What a formattable object renders: a compiled template with its
/// captured environment, or a separator-joined sequence of values.
#[derive(Debug)]
pub enum Plan {
    Tpl { prog: Vec<Segment>, env: Vec<(String, Value)> },
    Join { sep: String, items: Vec<Value> },
}

/// The model of a value.
pub enum ValX {
    Int(i64),
    Str(Seq<char>),
    Chr(char),
    Bool(bool),
    List(Seq<ValX>),
    Range(i64, i64),
    OptNone,
    OptSome(Box<ValX>),
    Shown(PlanX),
}

/// The model of a formattable object.
pub enum PlanX {
    Tpl { prog: Seq<SegX>, env: Seq<(Seq<char>, ValX)> },
    Join { sep: Seq<char>, items: Seq<ValX> },
}

/// The model of a render-time environment: named values, youngest last.
pub type EnvX = Seq<(Seq<char>, ValX)>;

/// The model of a value.
pub open spec fn val_view(v: Value) -> ValX
    decreases v,
{
    match v {
        Value::Int(n) => ValX::Int(n),
        Value::Str(s) => ValX::Str(s@),
        Value::Chr(c) => ValX::Chr(c),
        Value::Bool(b) => ValX::Bool(b),
        Value::List(items) => ValX::List(vals_view(items@)),
        Value::Range(a, b) => ValX::Range(a, b),
        Value::OptNone => ValX::OptNone,
        Value::OptSome(b) => ValX::OptSome(Box::new(val_view(*b))),
        Value::Shown(f) => ValX::Shown(plan_view(f.plan)),
    }
}

/// The model of a value sequence, element by element.
pub open spec fn vals_view(vs: Seq<Value>) -> Seq<ValX>
    decreases vs,
{
    if vs.len() == 0 {
        Seq::empty()
    } else {
        vals_view(vs.drop_last()).push(val_view(vs.last()))
    }
}

/// The model of an environment, binding by binding.
pub open spec fn env_view(env: Seq<(String, Value)>) -> EnvX
    decreases env,
{
    if env.len() == 0 {
        Seq::empty()
    } else {
        env_view(env.drop_last()).push((env.last().0@, val_view(env.last().1)))
    }
}

/// The model of a formattable object.
pub open spec fn plan_view(p: Plan) -> PlanX
    decreases p,
{
    match p {
        Plan::Tpl { prog, env } => PlanX::Tpl { prog: segs_view(prog@), env: env_view(env@) },
        Plan::Join { sep, items } => PlanX::Join { sep: sep@, items: vals_view(items@) },
    }
}

impl View for Value {
    type V = ValX;

    open spec fn view(&self) -> ValX {
        val_view(*self)
    }
}

impl View for Plan {
    type V = PlanX;

    open spec fn view(&self) -> PlanX {
        plan_view(*self)
    }
}

/// A value sequence models as many values as it holds.
pub broadcast proof fn lemma_vals_view_len(vs: Seq<Value>)
    ensures
        (#[trigger] vals_view(vs)).len() == vs.len(),
    decreases vs.len(),
{
    if vs.len() > 0 {
        lemma_vals_view_len(vs.drop_last());
    }
}

/// A value sequence's model holds each value's model at its index.
pub broadcast proof fn lemma_vals_view_at(vs: Seq<Value>, i: int)
    requires
        0 <= i < vs.len(),
    ensures
        #[trigger] vals_view(vs)[i] == val_view(vs[i]),
    decreases vs.len(),
{
    lemma_vals_view_len(vs.drop_last());
    if i < vs.len() - 1 {
        lemma_vals_view_at(vs.drop_last(), i);
    }
}

/// An environment models as many bindings as it holds.
pub broadcast proof fn lemma_env_view_len(env: Seq<(String, Value)>)
    ensures
        (#[trigger] env_view(env)).len() == env.len(),
    decreases env.len(),
{
    if env.len() > 0 {
        lemma_env_view_len(env.drop_last());
    }
}

/// An environment's model holds each binding's model at its index.
pub broadcast proof fn lemma_env_view_at(env: Seq<(String, Value)>, i: int)
    requires
        0 <= i < env.len(),
    ensures
        #[trigger] env_view(env)[i] == (env[i].0@, val_view(env[i].1)),
    decreases env.len(),
{
    lemma_env_view_len(env.drop_last());
    if i < env.len() - 1 {
        lemma_env_view_at(env.drop_last(), i);
    }
}

/// Concatenating value sequences concatenates their models.
pub proof fn lemma_vals_view_append(a: Seq<Value>, b: Seq<Value>)
    ensures
        vals_view(a + b) == vals_view(a) + vals_view(b),
    decreases b.len(),
{
    broadcast use lemma_vals_view_len, lemma_vals_view_at;

    if b.len() == 0 {
        assert(a + b =~= a);
        assert(vals_view(a) + vals_view(b) =~= vals_view(a));
    } else {
        lemma_vals_view_append(a, b.drop_last());
        assert((a + b).drop_last() =~= a + b.drop_last());
        assert((a + b).last() == b.last());
        assert(vals_view(a + b) == vals_view(a + b.drop_last()).push(val_view(b.last())));
        assert(vals_view(a) + vals_view(b) =~= (vals_view(a) + vals_view(b.drop_last())).push(
            val_view(b.last()),
        ));
    }
}

/// Concatenating environments concatenates their models.
pub proof fn lemma_env_view_append(a: Seq<(String, Value)>, b: Seq<(String, Value)>)
    ensures
        env_view(a + b) == env_view(a) + env_view(b),
    decreases b.len(),
{
    broadcast use lemma_env_view_len, lemma_env_view_at;

    if b.len() == 0 {
        assert(a + b =~= a);
        assert(env_view(a) + env_view(b) =~= env_view(a));
    } else {
        lemma_env_view_append(a, b.drop_last());
        assert((a + b).drop_last() =~= a + b.drop_last());
        assert((a + b).last() == b.last());
        assert(env_view(a + b) == env_view(a + b.drop_last()).push(
            ((a + b).last().0@, val_view((a + b).last().1)),
        ));
        assert(env_view(a) + env_view(b) =~= (env_view(a) + env_view(b.drop_last())).push(
            (b.last().0@, val_view(b.last().1)),
        ));
    }
}

impl Clone for Value {
    /// The copy has the same model.
    fn clone(&self) -> (r: Self)
        ensures
            r@ == self@,
    {
        clone_value(self)
    }
}

impl Clone for Plan {
    /// The copy has the same model.
    fn clone(&self) -> (r: Self)
        ensures
            r@ == self@,
    {
        clone_plan(self)
    }
}

/// Copies a value; the copy has the same model.
pub fn clone_value(v: &Value) -> (r: Value)
    ensures
        r@ == v@,
    decreases *v,
{
    match v {
        Value::Int(n) => Value::Int(*n),
        Value::Str(s) => Value::Str(s.clone()),
        Value::Chr(c) => Value::Chr(*c),
        Value::Bool(b) => Value::Bool(*b),
        Value::List(items) => Value::List(clone_values(items)),
        Value::Range(a, b) => Value::Range(*a, *b),
        Value::OptNone => Value::OptNone,
        Value::OptSome(b) => Value::OptSome(Box::new(clone_value(b))),
        Value::Shown(f) => Value::Shown(Box::new(fmt { plan: clone_plan(&f.plan) })),
    }
}

/// Copies a value sequence; the copy has the same model.
pub fn clone_values(vs: &Vec<Value>) -> (r: Vec<Value>)
    ensures
        vals_view(r@) == vals_view(vs@),
    decreases vs@,
{
    broadcast use lemma_vals_view_len, lemma_vals_view_at;

    let mut r: Vec<Value> = Vec::new();
    let mut i: usize = 0;
    while i < vs.len()
        invariant
            i <= vs@.len(),
            r@.len() == i,
            vals_view(r@) =~= vals_view(vs@).subrange(0, i as int),
        decreases vs@.len() - i,
    {
        let x = clone_value(&vs[i]);
        let ghost r0 = r@;
        r.push(x);
        proof {
            assert(r@.drop_last() =~= r0);
            assert(vals_view(r@) == vals_view(r0).push(val_view(x)));
            lemma_vals_view_len(vs@);
            let lhs = vals_view(vs@).subrange(0, (i + 1) as int);
            assert forall|j: int| 0 <= j < lhs.len() implies lhs[j] == vals_view(r0).push(
                val_view(x),
            )[j] by {
                lemma_vals_view_at(vs@, j);
            }
            assert(lhs =~= vals_view(r0).push(val_view(x)));
        }
        i = i + 1;
    }
    proof {
        assert(vals_view(vs@).subrange(0, vs@.len() as int) =~= vals_view(vs@));
    }
    r
}

/// Copies an environment; the copy has the same model.
pub fn clone_env(env: &Vec<(String, Value)>) -> (r: Vec<(String, Value)>)
    ensures
        env_view(r@) == env_view(env@),
    decreases env@,
{
    broadcast use lemma_env_view_len, lemma_env_view_at;

    let mut r: Vec<(String, Value)> = Vec::new();
    let mut i: usize = 0;
    while i < env.len()
        invariant
            i <= env@.len(),
            r@.len() == i,
            env_view(r@) =~= env_view(env@).subrange(0, i as int),
        decreases env@.len() - i,
    {
        let name = env[i].0.clone();
        let val = clone_value(&env[i].1);
        let ghost r0 = r@;
        let ghost pv = (name@, val@);
        r.push((name, val));
        proof {
            assert(r@.drop_last() =~= r0);
            assert(env_view(r@) == env_view(r0).push(pv));
            lemma_env_view_len(env@);
            let lhs = env_view(env@).subrange(0, (i + 1) as int);
            assert forall|j: int| 0 <= j < lhs.len() implies lhs[j] == env_view(r0).push(pv)[j] by {
                lemma_env_view_at(env@, j);
            }
            assert(lhs =~= env_view(r0).push(pv));
        }
        i = i + 1;
    }
    proof {
        assert(env_view(env@).subrange(0, env@.len() as int) =~= env_view(env@));
    }
    r
}

/// Copies a formattable object's plan; the copy has the same model.
pub fn clone_plan(p: &Plan) -> (r: Plan)
    ensures
        r@ == p@,
    decreases *p,
{
    match p {
        Plan::Tpl { prog, env } => Plan::Tpl { prog: clone_segs(prog), env: clone_env(env) },
        Plan::Join { sep, items } => Plan::Join { sep: sep.clone(), items: clone_values(items) },
    }
}

/// The value bound to `name`, youngest binding first.
pub open spec fn s_lookup(env: EnvX, name: Seq<char>) -> Option<ValX>
    decreases env.len(),
{
    if env.len() == 0 {
        Option::None
    } else if env.last().0 == name {
        Option::Some(env.last().1)
    } else {
        s_lookup(env.drop_last(), name)
    }
}

/// Looks `name` up in the environment, youngest binding first.
pub fn lookup(env: &Vec<(String, Value)>, name: &String) -> (r: Option<Value>)
    ensures
        match r {
            Option::Some(v) => s_lookup(env_view(env@), name@) == Option::Some(v@),
            Option::None => s_lookup(env_view(env@), name@) == Option::<ValX>::None,
        },
{
    broadcast use lemma_env_view_len, lemma_env_view_at;

    let ghost ev = env_view(env@);
    proof {
        lemma_env_view_len(env@);
        assert(ev.take(env@.len() as int) =~= ev);
    }
    let mut i = env.len();
    while i > 0
        invariant
            i <= env@.len(),
            ev == env_view(env@),
            ev.len() == env@.len(),
            s_lookup(ev, name@) == s_lookup(ev.take(i as int), name@),
        decreases i,
    {
        i = i - 1;
        let hit = env[i].0 == *name;
        proof {
            lemma_env_view_at(env@, i as int);
            assert(ev.take((i + 1) as int).len() == i + 1);
            assert(ev.take((i + 1) as int).last() == ev[i as int]);
            assert(ev.take((i + 1) as int).drop_last() =~= ev.take(i as int));
            assert(ev[i as int].0 == env@[i as int].0@);
        }
        if hit {
            let v = clone_value(&env[i].1);
            proof {
                assert(s_lookup(ev.take((i + 1) as int), name@) == Option::Some(ev[i as int].1));
            }
            return Option::Some(v);
        }
    }
    proof {
        assert(ev.take(0) =~= Seq::<(Seq<char>, ValX)>::empty());
    }
    Option::None
}

} // verus!
