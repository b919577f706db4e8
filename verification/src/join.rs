//! The separator-joining helper.
//!
//! `join` wraps a separator and a sequence of values as a formattable
//! object: rendering it writes each value's natural display form in
//! order, the separator strictly between consecutive items. The object
//! owns its values, so it can be rendered any number of times and
//! renders the same text every time.

use vstd::prelude::*;

use vstd::string::StringExecFns;

use crate::eval::RenderError;
use crate::fmt;
use crate::render::{s_display, s_render_join};
use crate::value::{vals_view, PlanX, Plan, ValX, Value};

verus! {

/// Wraps an iterable's values with a separator as a formattable object.
pub fn join(sep: &str, items: Vec<Value>) -> (r: fmt)
    ensures
        r@ == (PlanX::Join { sep: sep@, items: vals_view(items@) }),
{
    fmt { plan: Plan::Join { sep: String::from_str(sep), items } }
}

/// A join of no items renders empty text.
pub proof fn lemma_join_empty(sep: Seq<char>, fuel: nat)
    ensures
        s_render_join(sep, Seq::empty(), fuel) == Result::Ok::<Seq<char>, RenderError>(
            Seq::empty(),
        ),
{
}

/// A join of one item renders exactly that item's display form: no
/// separator is written.
pub proof fn lemma_join_single(sep: Seq<char>, x: ValX, fuel: nat)
    ensures
        s_render_join(sep, seq![x], fuel) == s_display(x, fuel),
{
    assert(seq![x].len() == 1);
    assert(seq![x][0] == x);
}

/// A join of two or more items renders the first item's display form,
/// the separator, then the join of the rest: the separator stands
/// strictly between consecutive items, never before the first and never
/// after the last.
pub proof fn lemma_join_step(sep: Seq<char>, items: Seq<ValX>, fuel: nat, d: Seq<char>, rest: Seq<
    char,
>)
    requires
        items.len() >= 2,
        s_display(items[0], fuel) == Result::Ok::<Seq<char>, RenderError>(d),
        s_render_join(sep, items.drop_first(), fuel) == Result::Ok::<Seq<char>, RenderError>(rest),
    ensures
        s_render_join(sep, items, fuel) == Result::Ok::<Seq<char>, RenderError>(d + sep + rest),
{
}

/// What a formattable object renders depends on its value alone: two
/// objects with the same model render the same text, however many times
/// and wherever they are rendered. A join therefore renders identically
/// across independent render calls, and a value captured by value
/// renders after its originating scope has ended exactly what it would
/// have rendered inside it.
pub proof fn lemma_render_pure(p1: PlanX, p2: PlanX, fuel: nat)
    requires
        p1 == p2,
    ensures
        crate::render::s_render_plan(p1, fuel) == crate::render::s_render_plan(p2, fuel),
{
}

} // verus!
