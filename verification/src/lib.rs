//! An embedded template language for producing formatted text.
//!
//! A template program is a token sequence mixing literal text,
//! interpolated expressions with optional format specifiers, local
//! bindings, conditional and match branches, loops over a sequence, and
//! raw escape blocks with direct access to the output. The compiler
//! turns such a token sequence into an ordered write plan;
//! rendering executes the plan against a text sink, in write order,
//! stopping at the first failure.

use vstd::prelude::*;

pub mod digits;
pub mod eval;
pub mod join;
pub mod laws;
pub mod render;
pub mod template;
pub mod token;
pub mod value;

pub use eval::RenderError;
pub use join::join;
pub use template::{compile, merge_segs, Arm, Branch, CompileError, ErrKind, Segment};
pub use token::{Delim, Kw, Punc, Token};
pub use value::{Plan, Value};

use render::s_render_plan;
use value::{plan_view, PlanX};

verus! {

/// A formattable object: a compiled template with the environment it
/// captured by value, or a join. It renders the same text every time it
/// is rendered, and it can outlive the scope that made it.
#[allow(non_camel_case_types)]
#[derive(Debug)]
pub struct fmt {
    pub plan: Plan,
}

impl View for fmt {
    type V = PlanX;

    open spec fn view(&self) -> PlanX {
        plan_view(self.plan)
    }
}

/// Returns a formattable object that renders the write plan `prog`
/// under the captured environment `env`.
pub fn fmt(prog: Vec<Segment>, env: Vec<(String, Value)>) -> (r: fmt)
    ensures
        r@ == (PlanX::Tpl {
            prog: template::segs_view(prog@),
            env: value::env_view(env@),
        }),
{
    fmt { plan: Plan::Tpl { prog, env } }
}

impl Clone for fmt {
    /// The copy renders exactly what the original renders.
    fn clone(&self) -> (r: Self)
        ensures
            r@ == self@,
    {
        fmt { plan: value::clone_plan(&self.plan) }
    }
}

/// The render depth used when none is given: how deeply formattable
/// values may nest inside one another, not how long the text may be.
pub const DEFAULT_DEPTH: u64 = 64;

impl fmt {
    /// Renders this object to its text, at the default render depth.
    pub fn render(&self) -> (r: Result<String, RenderError>)
        ensures
            match r {
                Result::Ok(t) => s_render_plan(self@, DEFAULT_DEPTH as nat) == Result::Ok::<
                    Seq<char>,
                    RenderError,
                >(t@),
                Result::Err(er) => s_render_plan(self@, DEFAULT_DEPTH as nat) == Result::Err::<
                    Seq<char>,
                    RenderError,
                >(er),
            },
    {
        render::render_plan(&self.plan, DEFAULT_DEPTH)
    }

    /// Renders this object to its text, nesting at most `depth` levels
    /// of formattable values.
    pub fn render_depth(&self, depth: u64) -> (r: Result<String, RenderError>)
        ensures
            match r {
                Result::Ok(t) => s_render_plan(self@, depth as nat) == Result::Ok::<
                    Seq<char>,
                    RenderError,
                >(t@),
                Result::Err(er) => s_render_plan(self@, depth as nat) == Result::Err::<
                    Seq<char>,
                    RenderError,
                >(er),
            },
    {
        render::render_plan(&self.plan, depth)
    }
}

} // verus!
