//! The template compiler: the grammar-directed step from a token
//! sequence to an ordered write plan.
//!
//! The scanner classifies the next atom of the remaining input; the
//! expression-boundary resolver carves an embedded expression out of the
//! stream by appending tokens until the next unconsumed atom is the
//! construct's terminator (a brace group, or a bare comma); the compiler
//! dispatches on the construct and recurses into nested bodies; and a
//! final merge pass folds adjacent literal segments into one, so that no
//! two literal segments stand next to each other in a compiled body.

use vstd::prelude::*;

use crate::digits::s_dec_i64;
use crate::token::{
    clone_toks, lemma_toks_view_at, lemma_toks_view_len, slice_toks,
    tok_view, toks_view, Delim, Kw, Punc, TokX, Token,
};

verus! {

/// What went wrong while compiling a template.
#[derive(Clone, Copy, PartialEq, Eq, Structural, Debug)]
pub enum ErrKind {
    /// A token that no construct can begin with stood at segment level.
    UnexpectedToken,
    /// A condition, iterable or scrutinee was not followed by a brace body.
    MissingBlock,
    /// A binding had no `=` after its pattern.
    MissingAssign,
    /// A binding or an escape statement had no closing `;`.
    MissingSemi,
    /// A construct that needs a pattern found none.
    MissingPattern,
    /// A loop had no `in` between its pattern and its iterable.
    MissingIn,
    /// An escape hatch had no closing `|` after its sink alias.
    MissingPipe,
    /// An interpolation block held no expression.
    EmptyExpr,
    /// An interpolation block held more than two comma-separated parts.
    ExtraArg,
    /// A match arm had no `=>` after its pattern.
    MissingArrow,
}

/// A compile-time grammar error, at the index of the offending construct
/// within the token sequence of its enclosing body.
#[derive(Clone, Copy, PartialEq, Eq, Structural, Debug)]
pub struct CompileError {
    pub kind: ErrKind,
    pub pos: usize,
}

/// The model of a compile-time grammar error.
pub struct CErrX {
    pub kind: ErrKind,
    pub pos: int,
}

impl View for CompileError {
    type V = CErrX;

    open spec fn view(&self) -> CErrX {
        CErrX { kind: self.kind, pos: self.pos as int }
    }
}

/// One node of a compiled write plan. Nodes stand in write order.
#[derive(Debug)]
pub enum Segment {
    /// Literal text, written verbatim.
    Text(String),
    /// An interpolation: evaluate `expr`, write it under the format
    /// specifier `fspec` (absent: the value's natural display form).
    /// `aux` is an optional second argument that a specifier may refer to.
    Show { expr: Vec<Token>, aux: Option<Vec<Token>>, fspec: Option<Vec<Token>> },
    /// A local binding, visible to all later segments of the same body.
    Bind { pat: Vec<Token>, expr: Vec<Token> },
    /// A conditional chain: the first branch that holds renders its body;
    /// otherwise the else body, if any; otherwise nothing.
    Cond { branches: Vec<Branch>, els: Option<Vec<Segment>> },
    /// A match: the first arm whose pattern matches, and whose guard
    /// holds, renders its body.
    Match { scrut: Vec<Token>, arms: Vec<Arm> },
    /// A loop: the body renders once per item of the iterable, in order.
    Loop { pat: Vec<Token>, iter: Vec<Token>, body: Vec<Segment> },
    /// An escape hatch: raw code with direct access to the output sink.
    Escape { alias: Vec<Token>, code: Vec<Token>, block: bool },
}

/// One branch of a conditional chain; `pat` is present for an `if let`.
#[derive(Debug)]
pub struct Branch {
    pub pat: Option<Vec<Token>>,
    pub cond: Vec<Token>,
    pub body: Vec<Segment>,
}

/// One arm of a match.
#[derive(Debug)]
pub struct Arm {
    pub pat: Vec<Token>,
    pub guard: Option<Vec<Token>>,
    pub body: Vec<Segment>,
}

/// The model of a write-plan node.
pub enum SegX {
    Text(Seq<char>),
    Show { expr: Seq<TokX>, aux: Option<Seq<TokX>>, fspec: Option<Seq<TokX>> },
    Bind { pat: Seq<TokX>, expr: Seq<TokX> },
    Cond { branches: Seq<BranchX>, els: Option<Seq<SegX>> },
    Match { scrut: Seq<TokX>, arms: Seq<ArmX> },
    Loop { pat: Seq<TokX>, iter: Seq<TokX>, body: Seq<SegX> },
    Escape { alias: Seq<TokX>, code: Seq<TokX>, block: bool },
}

/// The model of a conditional branch.
pub struct BranchX {
    pub pat: Option<Seq<TokX>>,
    pub cond: Seq<TokX>,
    pub body: Seq<SegX>,
}

/// The model of a match arm.
pub struct ArmX {
    pub pat: Seq<TokX>,
    pub guard: Option<Seq<TokX>>,
    pub body: Seq<SegX>,
}

/// The model of an optional token sequence.
pub open spec fn opt_toks_view(o: Option<Vec<Token>>) -> Option<Seq<TokX>> {
    match o {
        Option::None => Option::None,
        Option::Some(ts) => Option::Some(toks_view(ts@)),
    }
}

/// The model of a write-plan node.
pub open spec fn seg_view(s: Segment) -> SegX
    decreases s,
{
    match s {
        Segment::Text(t) => SegX::Text(t@),
        Segment::Show { expr, aux, fspec } => SegX::Show {
            expr: toks_view(expr@),
            aux: opt_toks_view(aux),
            fspec: opt_toks_view(fspec),
        },
        Segment::Bind { pat, expr } => SegX::Bind { pat: toks_view(pat@), expr: toks_view(expr@) },
        Segment::Cond { branches, els } => SegX::Cond {
            branches: branches_view(branches@),
            els: match els {
                Option::None => Option::None,
                Option::Some(b) => Option::Some(segs_view(b@)),
            },
        },
        Segment::Match { scrut, arms } => SegX::Match {
            scrut: toks_view(scrut@),
            arms: arms_view(arms@),
        },
        Segment::Loop { pat, iter, body } => SegX::Loop {
            pat: toks_view(pat@),
            iter: toks_view(iter@),
            body: segs_view(body@),
        },
        Segment::Escape { alias, code, block } => SegX::Escape {
            alias: toks_view(alias@),
            code: toks_view(code@),
            block,
        },
    }
}

/// The model of a write plan, node by node.
pub open spec fn segs_view(ss: Seq<Segment>) -> Seq<SegX>
    decreases ss,
{
    if ss.len() == 0 {
        Seq::empty()
    } else {
        segs_view(ss.drop_last()).push(seg_view(ss.last()))
    }
}

/// The model of a conditional branch.
pub open spec fn branch_view(b: Branch) -> BranchX
    decreases b,
{
    BranchX {
        pat: opt_toks_view(b.pat),
        cond: toks_view(b.cond@),
        body: segs_view(b.body@),
    }
}

/// The model of a branch sequence, branch by branch.
pub open spec fn branches_view(bs: Seq<Branch>) -> Seq<BranchX>
    decreases bs,
{
    if bs.len() == 0 {
        Seq::empty()
    } else {
        branches_view(bs.drop_last()).push(branch_view(bs.last()))
    }
}

/// The model of a match arm.
pub open spec fn arm_view(a: Arm) -> ArmX
    decreases a,
{
    ArmX {
        pat: toks_view(a.pat@),
        guard: opt_toks_view(a.guard),
        body: segs_view(a.body@),
    }
}

/// The model of an arm sequence, arm by arm.
pub open spec fn arms_view(ar: Seq<Arm>) -> Seq<ArmX>
    decreases ar,
{
    if ar.len() == 0 {
        Seq::empty()
    } else {
        arms_view(ar.drop_last()).push(arm_view(ar.last()))
    }
}

impl View for Segment {
    type V = SegX;

    open spec fn view(&self) -> SegX {
        seg_view(*self)
    }
}

impl View for Branch {
    type V = BranchX;

    open spec fn view(&self) -> BranchX {
        branch_view(*self)
    }
}

impl View for Arm {
    type V = ArmX;

    open spec fn view(&self) -> ArmX {
        arm_view(*self)
    }
}

/// A write plan models as many nodes as it holds.
pub broadcast proof fn lemma_segs_view_len(ss: Seq<Segment>)
    ensures
        (#[trigger] segs_view(ss)).len() == ss.len(),
    decreases ss.len(),
{
    if ss.len() > 0 {
        lemma_segs_view_len(ss.drop_last());
    }
}

/// A write plan's model holds each node's model at its index.
pub broadcast proof fn lemma_segs_view_at(ss: Seq<Segment>, i: int)
    requires
        0 <= i < ss.len(),
    ensures
        #[trigger] segs_view(ss)[i] == seg_view(ss[i]),
    decreases ss.len(),
{
    lemma_segs_view_len(ss.drop_last());
    if i < ss.len() - 1 {
        lemma_segs_view_at(ss.drop_last(), i);
    }
}

/// A branch sequence models as many branches as it holds.
pub broadcast proof fn lemma_branches_view_len(bs: Seq<Branch>)
    ensures
        (#[trigger] branches_view(bs)).len() == bs.len(),
    decreases bs.len(),
{
    if bs.len() > 0 {
        lemma_branches_view_len(bs.drop_last());
    }
}

/// A branch sequence's model holds each branch's model at its index.
pub broadcast proof fn lemma_branches_view_at(bs: Seq<Branch>, i: int)
    requires
        0 <= i < bs.len(),
    ensures
        #[trigger] branches_view(bs)[i] == branch_view(bs[i]),
    decreases bs.len(),
{
    lemma_branches_view_len(bs.drop_last());
    if i < bs.len() - 1 {
        lemma_branches_view_at(bs.drop_last(), i);
    }
}

/// An arm sequence models as many arms as it holds.
pub broadcast proof fn lemma_arms_view_len(ar: Seq<Arm>)
    ensures
        (#[trigger] arms_view(ar)).len() == ar.len(),
    decreases ar.len(),
{
    if ar.len() > 0 {
        lemma_arms_view_len(ar.drop_last());
    }
}

/// The text a literal atom stands for, when the token is one: a string
/// literal's characters, a character literal's character, a number
/// literal's decimal form.
pub open spec fn s_lit_text(t: TokX) -> Option<Seq<char>> {
    match t {
        TokX::Str(s) => Option::Some(s),
        TokX::Chr(c) => Option::Some(seq![c]),
        TokX::Num(n) => Option::Some(s_dec_i64(n)),
        _ => Option::None,
    }
}

/// Whether the token is a brace group.
pub open spec fn s_is_brace(t: TokX) -> bool {
    match t {
        TokX::Group(d, _) => d == Delim::Brace,
        _ => false,
    }
}

/// The first index in `[i, end)` holding the punctuation `p`. Tokens
/// nested inside a group cannot be found: a group is one atomic token.
pub open spec fn s_find_punct(ts: Seq<TokX>, i: int, end: int, p: Punc) -> Option<int>
    decreases end - i,
{
    if i < 0 || i >= end || i >= ts.len() {
        Option::None
    } else if ts[i] == TokX::Punct(p) {
        Option::Some(i)
    } else {
        s_find_punct(ts, i + 1, end, p)
    }
}

/// The first index in `[i, end)` holding the keyword `k`.
pub open spec fn s_find_kw(ts: Seq<TokX>, i: int, end: int, k: Kw) -> Option<int>
    decreases end - i,
{
    if i < 0 || i >= end || i >= ts.len() {
        Option::None
    } else if ts[i] == TokX::Kword(k) {
        Option::Some(i)
    } else {
        s_find_kw(ts, i + 1, end, k)
    }
}

/// The first index at or after `i` holding the `:` or `;` that separates
/// an interpolation's expression from its format specifier.
pub open spec fn s_find_sep(ts: Seq<TokX>, i: int) -> Option<int>
    decreases ts.len() - i,
{
    if i < 0 || i >= ts.len() {
        Option::None
    } else if ts[i] == TokX::Punct(Punc::Colon) || ts[i] == TokX::Punct(Punc::Semi) {
        Option::Some(i)
    } else {
        s_find_sep(ts, i + 1)
    }
}

/// The expression-boundary resolver for block-terminated contexts.
///
/// Starting at `i`, tokens are appended to the pending expression one at
/// a time; after each append, the resolver stops as soon as the next
/// unconsumed atom is a brace group. The result is that group's index,
/// so the expression is `ts[i .. result]`, never empty. Because a group
/// is one atomic token, a brace nested inside a sub-expression's own
/// grouping can never be mistaken for the terminator. When the input
/// ends first, the construct at `at` is missing its block.
pub open spec fn s_resolve_block(ts: Seq<TokX>, i: int, at: int) -> Result<int, CErrX>
    decreases ts.len() - i,
{
    if i < 0 || i + 1 >= ts.len() {
        Result::Err(CErrX { kind: ErrKind::MissingBlock, pos: at })
    } else if s_is_brace(ts[i + 1]) {
        Result::Ok(i + 1)
    } else {
        s_resolve_block(ts, i + 1, at)
    }
}

/// The next index a walk continues from: `j` when it advances past `i`
/// and stays within `len`; the walk is cut short otherwise. The parsers
/// always advance, so the guard never fires for them.
pub open spec fn s_step(i: int, j: int, len: int) -> int {
    if i < j && j <= len {
        j
    } else {
        len
    }
}

/// The interpolation held by a brace group at index `pos`, from the
/// group's interior: the part before the first `:` or `;` is the
/// expression (with an optional second argument split off at a comma),
/// the part after it the format specifier.
pub open spec fn s_parse_show(inner: Seq<TokX>, pos: int) -> Result<SegX, CErrX> {
    let (epart, fspec) = match s_find_sep(inner, 0) {
        Option::None => (inner, Option::<Seq<TokX>>::None),
        Option::Some(k) => (
            inner.subrange(0, k),
            Option::Some(inner.subrange(k + 1, inner.len() as int)),
        ),
    };
    let (expr, aux) = match s_find_punct(epart, 0, epart.len() as int, Punc::Comma) {
        Option::None => (epart, Option::<Seq<TokX>>::None),
        Option::Some(c) => (
            epart.subrange(0, c),
            Option::Some(epart.subrange(c + 1, epart.len() as int)),
        ),
    };
    if expr.len() == 0 {
        Result::Err(CErrX { kind: ErrKind::EmptyExpr, pos: pos })
    } else if aux matches Option::Some(a) && s_find_punct(a, 0, a.len() as int, Punc::Comma)
        is Some {
        Result::Err(CErrX { kind: ErrKind::ExtraArg, pos: pos })
    } else {
        Result::Ok(SegX::Show { expr, aux, fspec })
    }
}

/// A binding: `let` pattern `=` expression `;`.
pub open spec fn s_parse_let(ts: Seq<TokX>, i: int) -> Result<(SegX, int), CErrX> {
    match s_find_punct(ts, i + 1, ts.len() as int, Punc::Assign) {
        Option::None => Result::Err(CErrX { kind: ErrKind::MissingAssign, pos: i }),
        Option::Some(a) => if a == i + 1 {
            Result::Err(CErrX { kind: ErrKind::MissingPattern, pos: i })
        } else {
            match s_find_punct(ts, a + 1, ts.len() as int, Punc::Semi) {
                Option::None => Result::Err(CErrX { kind: ErrKind::MissingSemi, pos: i }),
                Option::Some(sc) => if sc == a + 1 {
                    Result::Err(CErrX { kind: ErrKind::EmptyExpr, pos: i })
                } else {
                    Result::Ok(
                        (
                            SegX::Bind {
                                pat: ts.subrange(i + 1, a),
                                expr: ts.subrange(a + 1, sc),
                            },
                            sc + 1,
                        ),
                    )
                },
            }
        },
    }
}

/// An escape hatch: `|` alias `|`, then a brace block, or one statement
/// closed by `;`. The code is kept verbatim; the compiler performs no
/// interpretation of its contents.
pub open spec fn s_parse_escape(ts: Seq<TokX>, i: int) -> Result<(SegX, int), CErrX> {
    match s_find_punct(ts, i + 1, ts.len() as int, Punc::Pipe) {
        Option::None => Result::Err(CErrX { kind: ErrKind::MissingPipe, pos: i }),
        Option::Some(p) => if p == i + 1 {
            Result::Err(CErrX { kind: ErrKind::MissingPattern, pos: i })
        } else if p + 1 >= ts.len() {
            Result::Err(CErrX { kind: ErrKind::MissingSemi, pos: i })
        } else {
            match ts[p + 1] {
                TokX::Group(Delim::Brace, inner) => Result::Ok(
                    (
                        SegX::Escape { alias: ts.subrange(i + 1, p), code: inner, block: true },
                        p + 2,
                    ),
                ),
                _ => match s_find_punct(ts, p + 1, ts.len() as int, Punc::Semi) {
                    Option::None => Result::Err(CErrX { kind: ErrKind::MissingSemi, pos: i }),
                    Option::Some(sc) => Result::Ok(
                        (
                            SegX::Escape {
                                alias: ts.subrange(i + 1, p),
                                code: ts.subrange(p + 1, sc),
                                block: false,
                            },
                            sc + 1,
                        ),
                    ),
                },
            }
        },
    }
}

/// A whole template: its program, with adjacent literal
/// segments folded into one at each body.
pub open spec fn s_compile(ts: Seq<TokX>) -> Result<Seq<SegX>, CErrX>
    decreases ts, ts.len() + 1, 4int,
{
    match s_parse_prog(ts, 0) {
        Result::Ok(ss) => Result::Ok(s_merge(ss)),
        Result::Err(e) => Result::Err(e),
    }
}

/// The program from index `i` on: segments in source order. A paren
/// group at segment level is spliced: its contents stand for themselves.
pub open spec fn s_parse_prog(ts: Seq<TokX>, i: int) -> Result<Seq<SegX>, CErrX>
    decreases ts, ts.len() - i, 4int,
{
    if i < 0 || i >= ts.len() {
        Result::Ok(Seq::empty())
    } else {
        match ts[i] {
            TokX::Group(Delim::Paren, inner) => match s_parse_prog(inner, 0) {
                Result::Err(e) => Result::Err(e),
                Result::Ok(spliced) => match s_parse_prog(ts, i + 1) {
                    Result::Err(e) => Result::Err(e),
                    Result::Ok(rest) => Result::Ok(spliced + rest),
                },
            },
            _ => match s_parse_item(ts, i) {
                Result::Err(e) => Result::Err(e),
                Result::Ok((seg, j)) => match s_parse_prog(ts, s_step(i, j, ts.len() as int)) {
                    Result::Err(e) => Result::Err(e),
                    Result::Ok(rest) => Result::Ok(seq![seg] + rest),
                },
            },
        }
    }
}

/// One construct at index `i`, and the index after it. The scanner's
/// priority: a literal atom is text; a brace group is an interpolation;
/// a leading keyword is its control construct; a pipe is an escape
/// hatch; anything else cannot begin a segment.
pub open spec fn s_parse_item(ts: Seq<TokX>, i: int) -> Result<(SegX, int), CErrX>
    decreases ts, ts.len() - i, 3int,
{
    if i < 0 || i >= ts.len() {
        Result::Err(CErrX { kind: ErrKind::UnexpectedToken, pos: i })
    } else if s_lit_text(ts[i]) is Some {
        match s_lit_text(ts[i]) {
            Option::Some(t) => Result::Ok((SegX::Text(t), i + 1)),
            Option::None => Result::Err(CErrX { kind: ErrKind::UnexpectedToken, pos: i }),
        }
    } else {
        match ts[i] {
            TokX::Group(Delim::Brace, inner) => match s_parse_show(inner, i) {
                Result::Ok(s) => Result::Ok((s, i + 1)),
                Result::Err(e) => Result::Err(e),
            },
            TokX::Kword(Kw::Let) => s_parse_let(ts, i),
            TokX::Kword(Kw::If) => s_parse_if(ts, i),
            TokX::Kword(Kw::Match) => s_parse_match(ts, i),
            TokX::Kword(Kw::For) => s_parse_for(ts, i),
            TokX::Punct(Punc::Pipe) => s_parse_escape(ts, i),
            _ => Result::Err(CErrX { kind: ErrKind::UnexpectedToken, pos: i }),
        }
    }
}

/// One `if` or `if let` branch beginning at `i`: the condition is carved
/// out by the boundary resolver, the brace body compiled recursively.
pub open spec fn s_parse_branch(ts: Seq<TokX>, i: int) -> Result<(BranchX, int), CErrX>
    decreases ts, ts.len() - i, 1int,
{
    if i < 0 || i >= ts.len() {
        Result::Err(CErrX { kind: ErrKind::MissingBlock, pos: i })
    } else if i + 1 < ts.len() && ts[i + 1] == TokX::Kword(Kw::Let) {
        match s_find_punct(ts, i + 2, ts.len() as int, Punc::Assign) {
            Option::None => Result::Err(CErrX { kind: ErrKind::MissingAssign, pos: i }),
            Option::Some(a) => if a == i + 2 {
                Result::Err(CErrX { kind: ErrKind::MissingPattern, pos: i })
            } else {
                match s_resolve_block(ts, a + 1, i) {
                    Result::Err(e) => Result::Err(e),
                    Result::Ok(b) => if !(0 <= b && b < ts.len()) {
                        Result::Err(CErrX { kind: ErrKind::MissingBlock, pos: i })
                    } else {
                        match ts[b] {
                            TokX::Group(Delim::Brace, inner) => match s_compile(inner) {
                                Result::Err(e) => Result::Err(e),
                                Result::Ok(body) => Result::Ok(
                                    (
                                        BranchX {
                                            pat: Option::Some(ts.subrange(i + 2, a)),
                                            cond: ts.subrange(a + 1, b),
                                            body,
                                        },
                                        b + 1,
                                    ),
                                ),
                            },
                            _ => Result::Err(CErrX { kind: ErrKind::MissingBlock, pos: i }),
                        }
                    },
                }
            },
        }
    } else {
        match s_resolve_block(ts, i + 1, i) {
            Result::Err(e) => Result::Err(e),
            Result::Ok(b) => if !(0 <= b && b < ts.len()) {
                Result::Err(CErrX { kind: ErrKind::MissingBlock, pos: i })
            } else {
                match ts[b] {
                    TokX::Group(Delim::Brace, inner) => match s_compile(inner) {
                        Result::Err(e) => Result::Err(e),
                        Result::Ok(body) => Result::Ok(
                            (
                                BranchX {
                                    pat: Option::None,
                                    cond: ts.subrange(i + 1, b),
                                    body,
                                },
                                b + 1,
                            ),
                        ),
                    },
                    _ => Result::Err(CErrX { kind: ErrKind::MissingBlock, pos: i }),
                }
            },
        }
    }
}

/// The rest of a conditional chain after a branch: `else if` continues
/// the chain, `else` with a brace body closes it, anything else ends it.
pub open spec fn s_parse_else_chain(ts: Seq<TokX>, j: int, acc: Seq<BranchX>) -> Result<
    (SegX, int),
    CErrX,
>
    decreases ts, ts.len() - j, 2int,
{
    if j < 0 || j >= ts.len() || ts[j] != TokX::Kword(Kw::Else) {
        Result::Ok((SegX::Cond { branches: acc, els: Option::None }, j))
    } else if j + 1 >= ts.len() {
        Result::Err(CErrX { kind: ErrKind::MissingBlock, pos: j })
    } else if ts[j + 1] == TokX::Kword(Kw::If) {
        match s_parse_branch(ts, j + 1) {
            Result::Err(e) => Result::Err(e),
            Result::Ok((br, j2)) => s_parse_else_chain(
                ts,
                s_step(j, j2, ts.len() as int),
                acc.push(br),
            ),
        }
    } else {
        match ts[j + 1] {
            TokX::Group(Delim::Brace, inner) => match s_compile(inner) {
                Result::Err(e) => Result::Err(e),
                Result::Ok(body) => Result::Ok(
                    (SegX::Cond { branches: acc, els: Option::Some(body) }, j + 2),
                ),
            },
            _ => Result::Err(CErrX { kind: ErrKind::MissingBlock, pos: j + 1 }),
        }
    }
}

/// A conditional chain beginning with the `if` at `i`.
pub open spec fn s_parse_if(ts: Seq<TokX>, i: int) -> Result<(SegX, int), CErrX>
    decreases ts, ts.len() - i, 2int,
{
    if i < 0 || i >= ts.len() {
        Result::Err(CErrX { kind: ErrKind::MissingBlock, pos: i })
    } else {
        match s_parse_branch(ts, i) {
            Result::Err(e) => Result::Err(e),
            Result::Ok((br, j)) => s_parse_else_chain(
                ts,
                s_step(i, j, ts.len() as int),
                seq![br],
            ),
        }
    }
}

/// A match beginning at `i`: the scrutinee is carved out by the boundary
/// resolver; the arms come from the brace group's interior.
pub open spec fn s_parse_match(ts: Seq<TokX>, i: int) -> Result<(SegX, int), CErrX>
    decreases ts, ts.len() - i, 2int,
{
    match s_resolve_block(ts, i + 1, i) {
        Result::Err(e) => Result::Err(e),
        Result::Ok(b) => if !(0 <= b && b < ts.len()) {
            Result::Err(CErrX { kind: ErrKind::MissingBlock, pos: i })
        } else {
            match ts[b] {
                TokX::Group(Delim::Brace, inner) => match s_parse_arms(inner, 0) {
                    Result::Err(e) => Result::Err(e),
                    Result::Ok(arms) => Result::Ok(
                        (SegX::Match { scrut: ts.subrange(i + 1, b), arms }, b + 1),
                    ),
                },
                _ => Result::Err(CErrX { kind: ErrKind::MissingBlock, pos: i }),
            }
        },
    }
}

/// A loop beginning at `i`: `for` pattern `in` iterable, then the brace
/// body; the iterable is carved out by the boundary resolver.
pub open spec fn s_parse_for(ts: Seq<TokX>, i: int) -> Result<(SegX, int), CErrX>
    decreases ts, ts.len() - i, 2int,
{
    match s_find_kw(ts, i + 1, ts.len() as int, Kw::In) {
        Option::None => Result::Err(CErrX { kind: ErrKind::MissingIn, pos: i }),
        Option::Some(k) => if k == i + 1 {
            Result::Err(CErrX { kind: ErrKind::MissingPattern, pos: i })
        } else {
            match s_resolve_block(ts, k + 1, i) {
                Result::Err(e) => Result::Err(e),
                Result::Ok(b) => if !(0 <= b && b < ts.len()) {
                    Result::Err(CErrX { kind: ErrKind::MissingBlock, pos: i })
                } else {
                    match ts[b] {
                        TokX::Group(Delim::Brace, inner) => match s_compile(inner) {
                            Result::Err(e) => Result::Err(e),
                            Result::Ok(body) => Result::Ok(
                                (
                                    SegX::Loop {
                                        pat: ts.subrange(i + 1, k),
                                        iter: ts.subrange(k + 1, b),
                                        body,
                                    },
                                    b + 1,
                                ),
                            ),
                        },
                        _ => Result::Err(CErrX { kind: ErrKind::MissingBlock, pos: i }),
                    }
                },
            }
        },
    }
}

/// The arms of a match, from the interior of its brace group. An arm is
/// a pattern, an optional `if` guard, `=>`, then either a brace body, or
/// a bodyless form that runs to the next bare comma (or to the end):
/// the comma-terminated side of the boundary resolver.
pub open spec fn s_parse_arms(ts: Seq<TokX>, i: int) -> Result<Seq<ArmX>, CErrX>
    decreases ts, ts.len() - i, 2int,
{
    if i < 0 || i >= ts.len() {
        Result::Ok(Seq::empty())
    } else {
        match s_find_punct(ts, i, ts.len() as int, Punc::Arrow) {
            Option::None => Result::Err(CErrX { kind: ErrKind::MissingArrow, pos: i }),
            Option::Some(a) => if !(i <= a && a < ts.len()) {
                Result::Err(CErrX { kind: ErrKind::MissingArrow, pos: i })
            } else if a == i {
                Result::Err(CErrX { kind: ErrKind::MissingPattern, pos: i })
            } else {
                let (pat, guard) = match s_find_kw(ts, i, a, Kw::If) {
                    Option::None => (ts.subrange(i, a), Option::<Seq<TokX>>::None),
                    Option::Some(g) => (ts.subrange(i, g), Option::Some(ts.subrange(g + 1, a))),
                };
                if pat.len() == 0 {
                    Result::Err(CErrX { kind: ErrKind::MissingPattern, pos: i })
                } else if guard matches Option::Some(gt) && gt.len() == 0 {
                    Result::Err(CErrX { kind: ErrKind::EmptyExpr, pos: i })
                } else if a + 1 >= ts.len() {
                    Result::Ok(seq![ArmX { pat, guard, body: Seq::empty() }])
                } else {
                    match ts[a + 1] {
                        TokX::Group(Delim::Brace, binner) => match s_compile(binner) {
                            Result::Err(e) => Result::Err(e),
                            Result::Ok(body) => {
                                let next = if a + 2 < ts.len() && ts[a + 2] == TokX::Punct(
                                    Punc::Comma,
                                ) {
                                    a + 3
                                } else {
                                    a + 2
                                };
                                match s_parse_arms(ts, s_step(i, next, ts.len() as int)) {
                                    Result::Err(e) => Result::Err(e),
                                    Result::Ok(rest) => Result::Ok(
                                        seq![ArmX { pat, guard, body }] + rest,
                                    ),
                                }
                            },
                        },
                        _ => match s_find_punct(ts, a + 1, ts.len() as int, Punc::Comma) {
                            Option::None => match s_compile(
                                ts.subrange(a + 1, ts.len() as int),
                            ) {
                                Result::Err(e) => Result::Err(e),
                                Result::Ok(body) => Result::Ok(seq![ArmX { pat, guard, body }]),
                            },
                            Option::Some(c) => if !(a + 1 <= c && c <= ts.len()) {
                                Result::Err(CErrX { kind: ErrKind::MissingArrow, pos: i })
                            } else {
                                match s_compile(ts.subrange(a + 1, c)) {
                                    Result::Err(e) => Result::Err(e),
                                    Result::Ok(body) => match s_parse_arms(
                                        ts,
                                        s_step(i, c + 1, ts.len() as int),
                                    ) {
                                        Result::Err(e) => Result::Err(e),
                                        Result::Ok(rest) => Result::Ok(
                                            seq![ArmX { pat, guard, body }] + rest,
                                        ),
                                    },
                                }
                            },
                        },
                    }
                }
            },
        }
    }
}

/// Concatenating write plans concatenates their models.
pub proof fn lemma_segs_view_append(a: Seq<Segment>, b: Seq<Segment>)
    ensures
        segs_view(a + b) == segs_view(a) + segs_view(b),
    decreases b.len(),
{
    broadcast use lemma_segs_view_len, lemma_segs_view_at;

    if b.len() == 0 {
        assert(a + b =~= a);
        assert(segs_view(a) + segs_view(b) =~= segs_view(a));
    } else {
        lemma_segs_view_append(a, b.drop_last());
        assert((a + b).drop_last() =~= a + b.drop_last());
        assert((a + b).last() == b.last());
        assert(segs_view(a + b) == segs_view(a + b.drop_last()).push(seg_view(b.last())));
        assert(segs_view(a) + segs_view(b) =~= (segs_view(a) + segs_view(b.drop_last())).push(
            seg_view(b.last()),
        ));
    }
}

impl Clone for Segment {
    /// The copy has the same model.
    fn clone(&self) -> (r: Self)
        ensures
            r@ == self@,
    {
        clone_seg(self)
    }
}

impl Clone for Branch {
    /// The copy has the same model.
    fn clone(&self) -> (r: Self)
        ensures
            r@ == self@,
    {
        clone_branch(self)
    }
}

impl Clone for Arm {
    /// The copy has the same model.
    fn clone(&self) -> (r: Self)
        ensures
            r@ == self@,
    {
        clone_arm(self)
    }
}

/// Copies an optional token sequence; the copy has the same model.
pub fn clone_opt_toks(o: &Option<Vec<Token>>) -> (r: Option<Vec<Token>>)
    ensures
        opt_toks_view(r) == opt_toks_view(*o),
{
    match o {
        Option::None => Option::None,
        Option::Some(ts) => Option::Some(clone_toks(ts)),
    }
}

/// Copies a write-plan node; the copy has the same model.
pub fn clone_seg(s: &Segment) -> (r: Segment)
    ensures
        r@ == s@,
    decreases *s,
{
    match s {
        Segment::Text(t) => Segment::Text(t.clone()),
        Segment::Show { expr, aux, fspec } => Segment::Show {
            expr: clone_toks(expr),
            aux: clone_opt_toks(aux),
            fspec: clone_opt_toks(fspec),
        },
        Segment::Bind { pat, expr } => Segment::Bind {
            pat: clone_toks(pat),
            expr: clone_toks(expr),
        },
        Segment::Cond { branches, els } => Segment::Cond {
            branches: clone_branches(branches),
            els: match els {
                Option::None => Option::None,
                Option::Some(b) => Option::Some(clone_segs(b)),
            },
        },
        Segment::Match { scrut, arms } => Segment::Match {
            scrut: clone_toks(scrut),
            arms: clone_arms(arms),
        },
        Segment::Loop { pat, iter, body } => Segment::Loop {
            pat: clone_toks(pat),
            iter: clone_toks(iter),
            body: clone_segs(body),
        },
        Segment::Escape { alias, code, block } => Segment::Escape {
            alias: clone_toks(alias),
            code: clone_toks(code),
            block: *block,
        },
    }
}

/// Copies a write plan; the copy has the same model.
pub fn clone_segs(ss: &Vec<Segment>) -> (r: Vec<Segment>)
    ensures
        segs_view(r@) == segs_view(ss@),
    decreases ss@,
{
    broadcast use lemma_segs_view_len, lemma_segs_view_at;

    let mut r: Vec<Segment> = Vec::new();
    let mut i: usize = 0;
    while i < ss.len()
        invariant
            i <= ss@.len(),
            r@.len() == i,
            segs_view(r@) =~= segs_view(ss@).subrange(0, i as int),
        decreases ss@.len() - i,
    {
        let s = clone_seg(&ss[i]);
        let ghost r0 = r@;
        r.push(s);
        proof {
            assert(r@.drop_last() =~= r0);
            assert(segs_view(r@) == segs_view(r0).push(seg_view(s)));
            lemma_segs_view_len(ss@);
            let lhs = segs_view(ss@).subrange(0, (i + 1) as int);
            assert forall|j: int| 0 <= j < lhs.len() implies lhs[j] == segs_view(r0).push(
                seg_view(s),
            )[j] by {
                lemma_segs_view_at(ss@, j);
            }
            assert(lhs =~= segs_view(r0).push(seg_view(s)));
        }
        i = i + 1;
    }
    proof {
        assert(segs_view(ss@).subrange(0, ss@.len() as int) =~= segs_view(ss@));
    }
    r
}

/// Copies a branch; the copy has the same model.
pub fn clone_branch(b: &Branch) -> (r: Branch)
    ensures
        r@ == b@,
    decreases *b,
{
    Branch { pat: clone_opt_toks(&b.pat), cond: clone_toks(&b.cond), body: clone_segs(&b.body) }
}

/// Copies a branch sequence; the copy has the same model.
pub fn clone_branches(bs: &Vec<Branch>) -> (r: Vec<Branch>)
    ensures
        branches_view(r@) == branches_view(bs@),
    decreases bs@,
{
    broadcast use lemma_branches_view_len, lemma_branches_view_at;

    let mut r: Vec<Branch> = Vec::new();
    let mut i: usize = 0;
    while i < bs.len()
        invariant
            i <= bs@.len(),
            r@.len() == i,
            branches_view(r@) =~= branches_view(bs@).subrange(0, i as int),
        decreases bs@.len() - i,
    {
        let b = clone_branch(&bs[i]);
        let ghost r0 = r@;
        r.push(b);
        proof {
            assert(r@.drop_last() =~= r0);
            assert(branches_view(r@) == branches_view(r0).push(branch_view(b)));
            lemma_branches_view_len(bs@);
            let lhs = branches_view(bs@).subrange(0, (i + 1) as int);
            assert forall|j: int| 0 <= j < lhs.len() implies lhs[j] == branches_view(r0).push(
                branch_view(b),
            )[j] by {
                lemma_branches_view_at(bs@, j);
            }
            assert(lhs =~= branches_view(r0).push(branch_view(b)));
        }
        i = i + 1;
    }
    proof {
        assert(branches_view(bs@).subrange(0, bs@.len() as int) =~= branches_view(bs@));
    }
    r
}

/// Copies an arm; the copy has the same model.
pub fn clone_arm(a: &Arm) -> (r: Arm)
    ensures
        r@ == a@,
    decreases *a,
{
    Arm { pat: clone_toks(&a.pat), guard: clone_opt_toks(&a.guard), body: clone_segs(&a.body) }
}

/// Copies an arm sequence; the copy has the same model.
pub fn clone_arms(ar: &Vec<Arm>) -> (r: Vec<Arm>)
    ensures
        arms_view(r@) == arms_view(ar@),
    decreases ar@,
{
    broadcast use lemma_arms_view_len, lemma_arms_view_at;

    let mut r: Vec<Arm> = Vec::new();
    let mut i: usize = 0;
    while i < ar.len()
        invariant
            i <= ar@.len(),
            r@.len() == i,
            arms_view(r@) =~= arms_view(ar@).subrange(0, i as int),
        decreases ar@.len() - i,
    {
        let a = clone_arm(&ar[i]);
        let ghost r0 = r@;
        r.push(a);
        proof {
            assert(r@.drop_last() =~= r0);
            assert(arms_view(r@) == arms_view(r0).push(arm_view(a)));
            lemma_arms_view_len(ar@);
            let lhs = arms_view(ar@).subrange(0, (i + 1) as int);
            assert forall|j: int| 0 <= j < lhs.len() implies lhs[j] == arms_view(r0).push(
                arm_view(a),
            )[j] by {
                lemma_arms_view_at(ar@, j);
            }
            assert(lhs =~= arms_view(r0).push(arm_view(a)));
        }
        i = i + 1;
    }
    proof {
        assert(arms_view(ar@).subrange(0, ar@.len() as int) =~= arms_view(ar@));
    }
    r
}

/// The literal-merge pass: adjacent literal segments fold into one, in
/// order; everything else stands unchanged.
pub open spec fn s_merge(ss: Seq<SegX>) -> Seq<SegX>
    decreases ss.len(),
{
    if ss.len() < 2 {
        ss
    } else {
        match (ss[0], ss[1]) {
            (SegX::Text(a), SegX::Text(b)) => s_merge(
                seq![SegX::Text(a + b)] + ss.subrange(2, ss.len() as int),
            ),
            _ => seq![ss[0]] + s_merge(ss.subrange(1, ss.len() as int)),
        }
    }
}

/// Whether the write-plan node is literal text.
fn is_text(s: &Segment) -> (r: bool)
    ensures
        r == (s@ is Text),
{
    match s {
        Segment::Text(_) => true,
        _ => false,
    }
}

/// Whether the token at `x` is a brace group.
fn is_brace_at(ts: &Vec<Token>, x: usize) -> (r: bool)
    requires
        x < ts@.len(),
    ensures
        r == s_is_brace(toks_view(ts@)[x as int]),
{
    proof {
        lemma_toks_view_at(ts@, x as int);
    }
    match &ts[x] {
        Token::Group(d, _) => *d == Delim::Brace,
        _ => false,
    }
}

/// Whether the token at `x` is the punctuation `p`.
fn punct_at(ts: &Vec<Token>, x: usize, p: Punc) -> (r: bool)
    requires
        x < ts@.len(),
    ensures
        r == (toks_view(ts@)[x as int] == TokX::Punct(p)),
{
    proof {
        lemma_toks_view_at(ts@, x as int);
    }
    match &ts[x] {
        Token::Punct(q) => *q == p,
        _ => false,
    }
}

/// Whether the token at `x` is the keyword `k`.
fn kw_at(ts: &Vec<Token>, x: usize, k: Kw) -> (r: bool)
    requires
        x < ts@.len(),
    ensures
        r == (toks_view(ts@)[x as int] == TokX::Kword(k)),
{
    proof {
        lemma_toks_view_at(ts@, x as int);
    }
    match &ts[x] {
        Token::Kword(q) => *q == k,
        _ => false,
    }
}

/// Finds the first `p` in `[i, end)`.
pub(crate) fn find_punct(ts: &Vec<Token>, i: usize, end: usize, p: Punc) -> (r: Option<usize>)
    requires
        end <= ts@.len(),
    ensures
        match r {
            Option::Some(j) => i <= j < end && s_find_punct(toks_view(ts@), i as int, end as int, p)
                == Option::Some(j as int),
            Option::None => s_find_punct(toks_view(ts@), i as int, end as int, p)
                == Option::<int>::None,
        },
{
    proof {
        lemma_toks_view_len(ts@);
    }
    let ghost v = toks_view(ts@);
    let mut j = i;
    while j < end
        invariant
            i <= j,
            end <= ts@.len(),
            v == toks_view(ts@),
            v.len() == ts@.len(),
            s_find_punct(v, i as int, end as int, p) == s_find_punct(v, j as int, end as int, p),
        decreases end - j,
    {
        if punct_at(ts, j, p) {
            return Option::Some(j);
        }
        j = j + 1;
    }
    Option::None
}

/// Finds the first keyword `k` in `[i, end)`.
fn find_kw(ts: &Vec<Token>, i: usize, end: usize, k: Kw) -> (r: Option<usize>)
    requires
        end <= ts@.len(),
    ensures
        match r {
            Option::Some(j) => i <= j < end && s_find_kw(toks_view(ts@), i as int, end as int, k)
                == Option::Some(j as int),
            Option::None => s_find_kw(toks_view(ts@), i as int, end as int, k)
                == Option::<int>::None,
        },
{
    proof {
        lemma_toks_view_len(ts@);
    }
    let ghost v = toks_view(ts@);
    let mut j = i;
    while j < end
        invariant
            i <= j,
            end <= ts@.len(),
            v == toks_view(ts@),
            v.len() == ts@.len(),
            s_find_kw(v, i as int, end as int, k) == s_find_kw(v, j as int, end as int, k),
        decreases end - j,
    {
        let is_k = kw_at(ts, j, k);
        if is_k {
            return Option::Some(j);
        }
        j = j + 1;
    }
    Option::None
}

/// Finds the first `:` or `;` at or after `i`.
fn find_sep(ts: &Vec<Token>, i: usize) -> (r: Option<usize>)
    ensures
        match r {
            Option::Some(j) => i <= j < ts@.len() && s_find_sep(toks_view(ts@), i as int)
                == Option::Some(j as int),
            Option::None => s_find_sep(toks_view(ts@), i as int) == Option::<int>::None,
        },
{
    proof {
        lemma_toks_view_len(ts@);
    }
    let ghost v = toks_view(ts@);
    let mut j = i;
    while j < ts.len()
        invariant
            i <= j,
            v == toks_view(ts@),
            v.len() == ts@.len(),
            s_find_sep(v, i as int) == s_find_sep(v, j as int),
        decreases ts@.len() - j,
    {
        let hit = punct_at(ts, j, Punc::Colon) || punct_at(ts, j, Punc::Semi);
        if hit {
            return Option::Some(j);
        }
        j = j + 1;
    }
    Option::None
}

/// The boundary resolver: the index of the brace group that terminates
/// the expression beginning at `i`.
fn resolve_block(ts: &Vec<Token>, i: usize, at: usize) -> (r: Result<usize, CompileError>)
    ensures
        match r {
            Result::Ok(b) => i < b && (b as int) < ts@.len() && s_is_brace(
                toks_view(ts@)[b as int],
            ) && s_resolve_block(toks_view(ts@), i as int, at as int) == Result::Ok::<int, CErrX>(
                b as int,
            ),
            Result::Err(e) => s_resolve_block(toks_view(ts@), i as int, at as int)
                == Result::Err::<int, CErrX>(e@),
        },
{
    proof {
        lemma_toks_view_len(ts@);
    }
    let ghost v = toks_view(ts@);
    let mut j = i;
    loop
        invariant
            i <= j,
            v == toks_view(ts@),
            v.len() == ts@.len(),
            s_resolve_block(v, i as int, at as int) == s_resolve_block(v, j as int, at as int),
        decreases ts@.len() - j,
    {
        if ts.len() == 0 || j >= ts.len() - 1 {
            return Result::Err(CompileError { kind: ErrKind::MissingBlock, pos: at });
        }
        if is_brace_at(ts, j + 1) {
            return Result::Ok(j + 1);
        }
        j = j + 1;
    }
}

/// Compiles the interpolation held by the brace group at `pos`, from the
/// group's interior.
fn parse_show(inner: &Vec<Token>, pos: usize) -> (r: Result<Segment, CompileError>)
    ensures
        match r {
            Result::Ok(s) => s_parse_show(toks_view(inner@), pos as int) == Result::Ok::<
                SegX,
                CErrX,
            >(s@),
            Result::Err(e) => s_parse_show(toks_view(inner@), pos as int) == Result::Err::<
                SegX,
                CErrX,
            >(e@),
        },
{
    proof {
        lemma_toks_view_len(inner@);
    }
    let ghost v = toks_view(inner@);
    let n = inner.len();
    let (epart, fspec) = match find_sep(inner, 0) {
        Option::None => (clone_toks(inner), Option::None),
        Option::Some(k) => (
            slice_toks(inner, 0, k),
            Option::Some(slice_toks(inner, k + 1, n)),
        ),
    };
    proof {
        assert(v.subrange(0, v.len() as int) =~= v);
        lemma_toks_view_len(epart@);
    }
    let ghost ev = toks_view(epart@);
    let (expr, aux) = match find_punct(&epart, 0, epart.len(), Punc::Comma) {
        Option::None => (clone_toks(&epart), Option::None),
        Option::Some(c) => (
            slice_toks(&epart, 0, c),
            Option::Some(slice_toks(&epart, c + 1, epart.len())),
        ),
    };
    proof {
        assert(ev.subrange(0, ev.len() as int) =~= ev);
    }
    if expr.len() == 0 {
        proof {
            lemma_toks_view_len(expr@);
        }
        return Result::Err(CompileError { kind: ErrKind::EmptyExpr, pos });
    }
    proof {
        lemma_toks_view_len(expr@);
    }
    match &aux {
        Option::Some(a) => {
            proof {
                lemma_toks_view_len(a@);
            }
            if find_punct(a, 0, a.len(), Punc::Comma).is_some() {
                return Result::Err(CompileError { kind: ErrKind::ExtraArg, pos });
            }
        },
        Option::None => {},
    }
    Result::Ok(Segment::Show { expr, aux, fspec })
}

/// Compiles a binding: `let` pattern `=` expression `;`.
fn parse_let(ts: &Vec<Token>, i: usize) -> (r: Result<(Segment, usize), CompileError>)
    requires
        i < ts@.len(),
    ensures
        match r {
            Result::Ok((seg, j)) => i < j <= ts@.len() && s_parse_let(toks_view(ts@), i as int)
                == Result::Ok::<(SegX, int), CErrX>((seg@, j as int)),
            Result::Err(e) => s_parse_let(toks_view(ts@), i as int) == Result::Err::<
                (SegX, int),
                CErrX,
            >(e@),
        },
{
    proof {
        lemma_toks_view_len(ts@);
    }
    let n = ts.len();
    match find_punct(ts, i + 1, n, Punc::Assign) {
        Option::None => Result::Err(CompileError { kind: ErrKind::MissingAssign, pos: i }),
        Option::Some(a) => {
            if a == i + 1 {
                return Result::Err(CompileError { kind: ErrKind::MissingPattern, pos: i });
            }
            match find_punct(ts, a + 1, n, Punc::Semi) {
                Option::None => Result::Err(CompileError { kind: ErrKind::MissingSemi, pos: i }),
                Option::Some(sc) => {
                    if sc == a + 1 {
                        return Result::Err(CompileError { kind: ErrKind::EmptyExpr, pos: i });
                    }
                    let pat = slice_toks(ts, i + 1, a);
                    let expr = slice_toks(ts, a + 1, sc);
                    Result::Ok((Segment::Bind { pat, expr }, sc + 1))
                },
            }
        },
    }
}

/// Compiles an escape hatch: `|` alias `|`, then a block or a statement.
fn parse_escape(ts: &Vec<Token>, i: usize) -> (r: Result<(Segment, usize), CompileError>)
    requires
        i < ts@.len(),
    ensures
        match r {
            Result::Ok((seg, j)) => i < j <= ts@.len() && s_parse_escape(toks_view(ts@), i as int)
                == Result::Ok::<(SegX, int), CErrX>((seg@, j as int)),
            Result::Err(e) => s_parse_escape(toks_view(ts@), i as int) == Result::Err::<
                (SegX, int),
                CErrX,
            >(e@),
        },
{
    proof {
        lemma_toks_view_len(ts@);
    }
    let n = ts.len();
    match find_punct(ts, i + 1, n, Punc::Pipe) {
        Option::None => Result::Err(CompileError { kind: ErrKind::MissingPipe, pos: i }),
        Option::Some(p) => {
            if p == i + 1 {
                return Result::Err(CompileError { kind: ErrKind::MissingPattern, pos: i });
            }
            if p + 1 >= ts.len() {
                return Result::Err(CompileError { kind: ErrKind::MissingSemi, pos: i });
            }
            proof {
                lemma_toks_view_at(ts@, (p + 1) as int);
            }
            match &ts[p + 1] {
                Token::Group(Delim::Brace, inner) => {
                    let alias = slice_toks(ts, i + 1, p);
                    let code = clone_toks(inner);
                    Result::Ok((Segment::Escape { alias, code, block: true }, p + 2))
                },
                _ => {
                    match find_punct(ts, p + 1, n, Punc::Semi) {
                        Option::None => Result::Err(
                            CompileError { kind: ErrKind::MissingSemi, pos: i },
                        ),
                        Option::Some(sc) => {
                            let alias = slice_toks(ts, i + 1, p);
                            let code = slice_toks(ts, p + 1, sc);
                            Result::Ok((Segment::Escape { alias, code, block: false }, sc + 1))
                        },
                    }
                },
            }
        },
    }
}

/// Compiles one `if` or `if let` branch beginning at `i`.
#[verifier::rlimit(100)]
fn parse_branch(ts: &Vec<Token>, i: usize) -> (r: Result<(Branch, usize), CompileError>)
    requires
        i < ts@.len(),
    ensures
        match r {
            Result::Ok((br, j)) => i < j <= ts@.len() && s_parse_branch(toks_view(ts@), i as int)
                == Result::Ok::<(BranchX, int), CErrX>((br@, j as int)),
            Result::Err(e) => s_parse_branch(toks_view(ts@), i as int) == Result::Err::<
                (BranchX, int),
                CErrX,
            >(e@),
        },
    decreases toks_view(ts@), ts@.len() - i, 1int,
{
    proof {
        lemma_toks_view_len(ts@);
    }
    let ghost v = toks_view(ts@);
    let n = ts.len();
    let is_let = i + 1 < n && kw_at(ts, i + 1, Kw::Let);
    if is_let {
        match find_punct(ts, i + 2, n, Punc::Assign) {
            Option::None => Result::Err(CompileError { kind: ErrKind::MissingAssign, pos: i }),
            Option::Some(a) => {
                if a == i + 2 {
                    return Result::Err(CompileError { kind: ErrKind::MissingPattern, pos: i });
                }
                match resolve_block(ts, a + 1, i) {
                    Result::Err(e) => Result::Err(e),
                    Result::Ok(b) => {
                        proof {
                            lemma_toks_view_at(ts@, b as int);
                        }
                        match &ts[b] {
                            Token::Group(Delim::Brace, inner) => {
                                match compile(inner) {
                                    Result::Err(e) => Result::Err(e),
                                    Result::Ok(body) => {
                                        let pat = Option::Some(slice_toks(ts, i + 2, a));
                                        let cond = slice_toks(ts, a + 1, b);
                                        Result::Ok((Branch { pat, cond, body }, b + 1))
                                    },
                                }
                            },
                            _ => {
                                proof {
                                    assert(false);
                                }
                                Result::Err(CompileError { kind: ErrKind::MissingBlock, pos: i })
                            },
                        }
                    },
                }
            },
        }
    } else {
        match resolve_block(ts, i + 1, i) {
            Result::Err(e) => Result::Err(e),
            Result::Ok(b) => {
                proof {
                    lemma_toks_view_at(ts@, b as int);
                }
                match &ts[b] {
                    Token::Group(Delim::Brace, inner) => {
                        match compile(inner) {
                            Result::Err(e) => Result::Err(e),
                            Result::Ok(body) => {
                                let cond = slice_toks(ts, i + 1, b);
                                Result::Ok((Branch { pat: Option::None, cond, body }, b + 1))
                            },
                        }
                    },
                    _ => {
                        proof {
                            assert(false);
                        }
                        Result::Err(CompileError { kind: ErrKind::MissingBlock, pos: i })
                    },
                }
            },
        }
    }
}

/// Compiles a conditional chain beginning with the `if` at `i`: the
/// first branch, then a walk over its `else if` and `else` parts.
#[verifier::rlimit(100)]
fn parse_if(ts: &Vec<Token>, i: usize) -> (r: Result<(Segment, usize), CompileError>)
    requires
        i < ts@.len(),
    ensures
        match r {
            Result::Ok((seg, j)) => i < j <= ts@.len() && s_parse_if(toks_view(ts@), i as int)
                == Result::Ok::<(SegX, int), CErrX>((seg@, j as int)),
            Result::Err(e) => s_parse_if(toks_view(ts@), i as int) == Result::Err::<
                (SegX, int),
                CErrX,
            >(e@),
        },
    decreases toks_view(ts@), ts@.len() - i, 2int,
{
    proof {
        lemma_toks_view_len(ts@);
    }
    let ghost v = toks_view(ts@);
    let n = ts.len();
    let (br0, j0) = match parse_branch(ts, i) {
        Result::Err(e) => {
            return Result::Err(e);
        },
        Result::Ok(x) => x,
    };
    let mut branches: Vec<Branch> = Vec::new();
    branches.push(br0);
    let mut j = j0;
    proof {
        assert(branches@.drop_last() =~= Seq::<Branch>::empty());
        assert(branches_view(Seq::<Branch>::empty()) == Seq::<BranchX>::empty());
        assert(branches_view(branches@) =~= seq![br0@]);
    }
    loop
        invariant
            i < j <= n,
            n == ts@.len(),
            v == toks_view(ts@),
            v.len() == n,
            s_parse_if(v, i as int) == s_parse_else_chain(
                v,
                j as int,
                branches_view(branches@),
            ),
        decreases n - j,
    {
        if j >= n {
            return Result::Ok((Segment::Cond { branches, els: Option::None }, j));
        }
        let has_else = kw_at(ts, j, Kw::Else);
        if !has_else {
            return Result::Ok((Segment::Cond { branches, els: Option::None }, j));
        }
        if j + 1 >= n {
            return Result::Err(CompileError { kind: ErrKind::MissingBlock, pos: j });
        }
        let chain = kw_at(ts, j + 1, Kw::If);
        if chain {
            match parse_branch(ts, j + 1) {
                Result::Err(e) => {
                    return Result::Err(e);
                },
                Result::Ok((br, j2)) => {
                    let ghost bs0 = branches@;
                    branches.push(br);
                    proof {
                        assert(branches@.drop_last() =~= bs0);
                        assert(branches_view(branches@) == branches_view(bs0).push(br@));
                    }
                    j = j2;
                },
            }
        } else {
            proof {
                lemma_toks_view_at(ts@, (j + 1) as int);
            }
            match &ts[j + 1] {
                Token::Group(Delim::Brace, inner) => {
                    match compile(inner) {
                        Result::Err(e) => {
                            return Result::Err(e);
                        },
                        Result::Ok(body) => {
                            return Result::Ok(
                                (Segment::Cond { branches, els: Option::Some(body) }, j + 2),
                            );
                        },
                    }
                },
                _ => {
                    return Result::Err(CompileError { kind: ErrKind::MissingBlock, pos: j + 1 });
                },
            }
        }
    }
}

/// Compiles a match beginning at `i`.
#[verifier::rlimit(100)]
fn parse_match(ts: &Vec<Token>, i: usize) -> (r: Result<(Segment, usize), CompileError>)
    requires
        i < ts@.len(),
    ensures
        match r {
            Result::Ok((seg, j)) => i < j <= ts@.len() && s_parse_match(toks_view(ts@), i as int)
                == Result::Ok::<(SegX, int), CErrX>((seg@, j as int)),
            Result::Err(e) => s_parse_match(toks_view(ts@), i as int) == Result::Err::<
                (SegX, int),
                CErrX,
            >(e@),
        },
    decreases toks_view(ts@), ts@.len() - i, 2int,
{
    proof {
        lemma_toks_view_len(ts@);
    }
    let n = ts.len();
    if n == 0 {
        return Result::Err(CompileError { kind: ErrKind::MissingBlock, pos: i });
    }
    match resolve_block(ts, i + 1, i) {
        Result::Err(e) => Result::Err(e),
        Result::Ok(b) => {
            proof {
                lemma_toks_view_at(ts@, b as int);
            }
            match &ts[b] {
                Token::Group(Delim::Brace, inner) => {
                    match parse_arms(inner) {
                        Result::Err(e) => Result::Err(e),
                        Result::Ok(arms) => {
                            let scrut = slice_toks(ts, i + 1, b);
                            Result::Ok((Segment::Match { scrut, arms }, b + 1))
                        },
                    }
                },
                _ => {
                    proof {
                        assert(false);
                    }
                    Result::Err(CompileError { kind: ErrKind::MissingBlock, pos: i })
                },
            }
        },
    }
}

/// Compiles a loop beginning at `i`.
#[verifier::rlimit(100)]
fn parse_for(ts: &Vec<Token>, i: usize) -> (r: Result<(Segment, usize), CompileError>)
    requires
        i < ts@.len(),
    ensures
        match r {
            Result::Ok((seg, j)) => i < j <= ts@.len() && s_parse_for(toks_view(ts@), i as int)
                == Result::Ok::<(SegX, int), CErrX>((seg@, j as int)),
            Result::Err(e) => s_parse_for(toks_view(ts@), i as int) == Result::Err::<
                (SegX, int),
                CErrX,
            >(e@),
        },
    decreases toks_view(ts@), ts@.len() - i, 2int,
{
    proof {
        lemma_toks_view_len(ts@);
    }
    let n = ts.len();
    match find_kw(ts, i + 1, n, Kw::In) {
        Option::None => Result::Err(CompileError { kind: ErrKind::MissingIn, pos: i }),
        Option::Some(k) => {
            if k == i + 1 {
                return Result::Err(CompileError { kind: ErrKind::MissingPattern, pos: i });
            }
            match resolve_block(ts, k + 1, i) {
                Result::Err(e) => Result::Err(e),
                Result::Ok(b) => {
                    proof {
                        lemma_toks_view_at(ts@, b as int);
                    }
                    match &ts[b] {
                        Token::Group(Delim::Brace, inner) => {
                            match compile(inner) {
                                Result::Err(e) => Result::Err(e),
                                Result::Ok(body) => {
                                    let pat = slice_toks(ts, i + 1, k);
                                    let iter = slice_toks(ts, k + 1, b);
                                    Result::Ok((Segment::Loop { pat, iter, body }, b + 1))
                                },
                            }
                        },
                        _ => {
                            proof {
                                assert(false);
                            }
                            Result::Err(CompileError { kind: ErrKind::MissingBlock, pos: i })
                        },
                    }
                },
            }
        },
    }
}

/// Compiles the arms of a match from the interior of its brace group.
#[verifier::rlimit(100)]
fn parse_arms(ts: &Vec<Token>) -> (r: Result<Vec<Arm>, CompileError>)
    ensures
        match r {
            Result::Ok(ar) => s_parse_arms(toks_view(ts@), 0) == Result::Ok::<Seq<ArmX>, CErrX>(
                arms_view(ar@),
            ),
            Result::Err(e) => s_parse_arms(toks_view(ts@), 0) == Result::Err::<Seq<ArmX>, CErrX>(
                e@,
            ),
        },
    decreases toks_view(ts@), toks_view(ts@).len(), 2int,
{
    broadcast use lemma_arms_view_len, lemma_arms_view_at;

    proof {
        lemma_toks_view_len(ts@);
    }
    let ghost v = toks_view(ts@);
    let n = ts.len();
    let mut acc: Vec<Arm> = Vec::new();
    let mut i: usize = 0;
    while i < n
        invariant
            i <= n,
            n == ts@.len(),
            v == toks_view(ts@),
            v.len() == n,
            s_parse_arms(v, 0) == (match s_parse_arms(v, i as int) {
                Result::Ok(rest) => Result::Ok::<Seq<ArmX>, CErrX>(arms_view(acc@) + rest),
                Result::Err(e) => Result::Err(e),
            }),
        decreases n - i,
    {
        let a = match find_punct(ts, i, n, Punc::Arrow) {
            Option::None => {
                return Result::Err(CompileError { kind: ErrKind::MissingArrow, pos: i });
            },
            Option::Some(a) => a,
        };
        if a == i {
            return Result::Err(CompileError { kind: ErrKind::MissingPattern, pos: i });
        }
        let (pat, guard) = match find_kw(ts, i, a, Kw::If) {
            Option::None => (slice_toks(ts, i, a), Option::None),
            Option::Some(g) => (slice_toks(ts, i, g), Option::Some(slice_toks(ts, g + 1, a))),
        };
        proof {
            lemma_toks_view_len(pat@);
        }
        if pat.len() == 0 {
            return Result::Err(CompileError { kind: ErrKind::MissingPattern, pos: i });
        }
        match &guard {
            Option::Some(gt) => {
                proof {
                    lemma_toks_view_len(gt@);
                }
                if gt.len() == 0 {
                    return Result::Err(CompileError { kind: ErrKind::EmptyExpr, pos: i });
                }
            },
            Option::None => {},
        }
        let ghost armv0 = s_parse_arms(v, i as int);
        if a + 1 >= n {
            let ghost acc0 = acc@;
            let arm = Arm { pat, guard, body: Vec::new() };
            proof {
                assert(segs_view(arm.body@) =~= Seq::<SegX>::empty());
            }
            acc.push(arm);
            proof {
                assert(acc@.drop_last() =~= acc0);
                assert(arms_view(acc@) == arms_view(acc0).push(arm@));
                assert(arms_view(acc@) + Seq::<ArmX>::empty() =~= arms_view(acc0) + seq![arm@]);
            }
            i = n;
        } else {
            proof {
                lemma_toks_view_at(ts@, (a + 1) as int);
            }
            let is_b = is_brace_at(ts, a + 1);
            if is_b {
                match &ts[a + 1] {
                    Token::Group(_, binner) => {
                        match compile(binner) {
                            Result::Err(e) => {
                                return Result::Err(e);
                            },
                            Result::Ok(body) => {
                                let next = if a + 2 < n && punct_at(ts, a + 2, Punc::Comma) {
                                    a + 3
                                } else {
                                    a + 2
                                };
                                let ghost acc0 = acc@;
                                let arm = Arm { pat, guard, body };
                                acc.push(arm);
                                proof {
                                    assert(acc@.drop_last() =~= acc0);
                                    assert(arms_view(acc@) == arms_view(acc0).push(arm@));
                                    if s_parse_arms(v, next as int) is Ok {
                                        let rest = (match s_parse_arms(v, next as int) {
                                            Result::Ok(rest) => rest,
                                            Result::Err(_) => Seq::empty(),
                                        });
                                        assert(arms_view(acc0) + (seq![arm@] + rest) =~= arms_view(
                                            acc@,
                                        ) + rest);
                                    }
                                }
                                i = next;
                            },
                        }
                    },
                    _ => {
                        proof {
                            assert(false);
                        }
                    },
                }
            } else {
                match find_punct(ts, a + 1, n, Punc::Comma) {
                    Option::None => {
                        let body_toks = slice_toks(ts, a + 1, n);
                        proof {
                            vstd::seq::axiom_seq_subrange_decreases::<TokX>(
                                v,
                                (a + 1) as int,
                                n as int,
                            );
                        }
                        match compile(&body_toks) {
                            Result::Err(e) => {
                                return Result::Err(e);
                            },
                            Result::Ok(body) => {
                                let ghost acc0 = acc@;
                                let arm = Arm { pat, guard, body };
                                acc.push(arm);
                                proof {
                                    assert(acc@.drop_last() =~= acc0);
                                    assert(arms_view(acc@) == arms_view(acc0).push(arm@));
                                    assert(arms_view(acc@) + Seq::<ArmX>::empty() =~= arms_view(
                                        acc0,
                                    ) + seq![arm@]);
                                }
                                i = n;
                            },
                        }
                    },
                    Option::Some(c) => {
                        let body_toks = slice_toks(ts, a + 1, c);
                        proof {
                            vstd::seq::axiom_seq_subrange_decreases::<TokX>(
                                v,
                                (a + 1) as int,
                                c as int,
                            );
                        }
                        match compile(&body_toks) {
                            Result::Err(e) => {
                                return Result::Err(e);
                            },
                            Result::Ok(body) => {
                                let ghost acc0 = acc@;
                                let arm = Arm { pat, guard, body };
                                acc.push(arm);
                                proof {
                                    assert(acc@.drop_last() =~= acc0);
                                    assert(arms_view(acc@) == arms_view(acc0).push(arm@));
                                    if s_parse_arms(v, (c + 1) as int) is Ok {
                                        let rest = (match s_parse_arms(v, (c + 1) as int) {
                                            Result::Ok(rest) => rest,
                                            Result::Err(_) => Seq::empty(),
                                        });
                                        assert(arms_view(acc0) + (seq![arm@] + rest) =~= arms_view(
                                            acc@,
                                        ) + rest);
                                    }
                                }
                                i = c + 1;
                            },
                        }
                    },
                }
            }
        }
    }
    proof {
        assert(arms_view(acc@) + Seq::<ArmX>::empty() =~= arms_view(acc@));
    }
    Result::Ok(acc)
}

/// Compiles one construct at `i`, dispatching on the scanner's
/// classification of the token there.
fn parse_item(ts: &Vec<Token>, i: usize) -> (r: Result<(Segment, usize), CompileError>)
    requires
        i < ts@.len(),
    ensures
        match r {
            Result::Ok((seg, j)) => i < j <= ts@.len() && s_parse_item(toks_view(ts@), i as int)
                == Result::Ok::<(SegX, int), CErrX>((seg@, j as int)),
            Result::Err(e) => s_parse_item(toks_view(ts@), i as int) == Result::Err::<
                (SegX, int),
                CErrX,
            >(e@),
        },
    decreases toks_view(ts@), ts@.len() - i, 3int,
{
    proof {
        lemma_toks_view_len(ts@);
        lemma_toks_view_at(ts@, i as int);
    }
    let n = ts.len();
    match &ts[i] {
        Token::Str(s) => Result::Ok((Segment::Text(s.clone()), i + 1)),
        Token::Chr(c) => {
            let mut t = String::new();
            crate::digits::push_char(&mut t, *c);
            proof {
                assert(t@ =~= seq![*c]);
            }
            Result::Ok((Segment::Text(t), i + 1))
        },
        Token::Num(m) => {
            let mut t = String::new();
            crate::digits::write_dec_i64(&mut t, *m);
            proof {
                assert(t@ =~= s_dec_i64(*m));
            }
            Result::Ok((Segment::Text(t), i + 1))
        },
        Token::Kword(k) => {
            match k {
                Kw::Let => parse_let(ts, i),
                Kw::If => parse_if(ts, i),
                Kw::Match => parse_match(ts, i),
                Kw::For => parse_for(ts, i),
                _ => Result::Err(CompileError { kind: ErrKind::UnexpectedToken, pos: i }),
            }
        },
        Token::Punct(p) => {
            if *p == Punc::Pipe {
                parse_escape(ts, i)
            } else {
                Result::Err(CompileError { kind: ErrKind::UnexpectedToken, pos: i })
            }
        },
        Token::Group(d, inner) => {
            match d {
                Delim::Brace => {
                    match parse_show(inner, i) {
                        Result::Ok(s) => Result::Ok((s, i + 1)),
                        Result::Err(e) => Result::Err(e),
                    }
                },
                _ => Result::Err(CompileError { kind: ErrKind::UnexpectedToken, pos: i }),
            }
        },
        _ => Result::Err(CompileError { kind: ErrKind::UnexpectedToken, pos: i }),
    }
}

/// Translates a whole token sequence into its segments, splicing paren
/// groups and walking the flat sequence iteratively: only genuine
/// nesting recurses.
#[verifier::rlimit(100)]
fn parse_prog(ts: &Vec<Token>) -> (r: Result<Vec<Segment>, CompileError>)
    ensures
        match r {
            Result::Ok(ss) => s_parse_prog(toks_view(ts@), 0) == Result::Ok::<Seq<SegX>, CErrX>(
                segs_view(ss@),
            ),
            Result::Err(e) => s_parse_prog(toks_view(ts@), 0) == Result::Err::<Seq<SegX>, CErrX>(
                e@,
            ),
        },
    decreases toks_view(ts@), toks_view(ts@).len(), 4int,
{
    broadcast use lemma_segs_view_len, lemma_segs_view_at;

    proof {
        lemma_toks_view_len(ts@);
    }
    let ghost v = toks_view(ts@);
    let n = ts.len();
    let mut acc: Vec<Segment> = Vec::new();
    let mut i: usize = 0;
    while i < n
        invariant
            i <= n,
            n == ts@.len(),
            v == toks_view(ts@),
            v.len() == n,
            s_parse_prog(v, 0) == (match s_parse_prog(v, i as int) {
                Result::Ok(rest) => Result::Ok::<Seq<SegX>, CErrX>(segs_view(acc@) + rest),
                Result::Err(e) => Result::Err(e),
            }),
        decreases n - i,
    {
        proof {
            lemma_toks_view_at(ts@, i as int);
        }
        let is_paren = match &ts[i] {
            Token::Group(d, _) => *d == Delim::Paren,
            _ => false,
        };
        if is_paren {
            match &ts[i] {
                Token::Group(_, inner) => {
                    match parse_prog(inner) {
                        Result::Err(e) => {
                            return Result::Err(e);
                        },
                        Result::Ok(mut sp) => {
                            let ghost acc0 = acc@;
                            let ghost sp0 = sp@;
                            proof {
                                lemma_segs_view_append(acc0, sp0);
                            }
                            acc.append(&mut sp);
                            proof {
                                if s_parse_prog(v, (i + 1) as int) is Ok {
                                    let rest = (match s_parse_prog(v, (i + 1) as int) {
                                        Result::Ok(rest) => rest,
                                        Result::Err(_) => Seq::empty(),
                                    });
                                    assert(segs_view(acc0) + (segs_view(sp0) + rest) =~= segs_view(
                                        acc0 + sp0,
                                    ) + rest);
                                }
                            }
                            i = i + 1;
                        },
                    }
                },
                _ => {
                    proof {
                        assert(false);
                    }
                },
            }
        } else {
            match parse_item(ts, i) {
                Result::Err(e) => {
                    return Result::Err(e);
                },
                Result::Ok((seg, j)) => {
                    let ghost acc0 = acc@;
                    acc.push(seg);
                    proof {
                        assert(acc@.drop_last() =~= acc0);
                        assert(segs_view(acc@) == segs_view(acc0).push(seg@));
                        if s_parse_prog(v, j as int) is Ok {
                            let rest = (match s_parse_prog(v, j as int) {
                                Result::Ok(rest) => rest,
                                Result::Err(_) => Seq::empty(),
                            });
                            assert(segs_view(acc0) + (seq![seg@] + rest) =~= segs_view(acc@)
                                + rest);
                        }
                    }
                    i = j;
                },
            }
        }
    }
    proof {
        assert(segs_view(acc@) + Seq::<SegX>::empty() =~= segs_view(acc@));
    }
    Result::Ok(acc)
}

/// The literal-merge pass: folds adjacent literal segments into one.
/// Bodies nested inside a node were merged when they were compiled, so
/// one walk over this level suffices.
#[verifier::rlimit(100)]
pub fn merge_segs(ss: &Vec<Segment>) -> (r: Vec<Segment>)
    ensures
        segs_view(r@) == s_merge(segs_view(ss@)),
{
    broadcast use lemma_segs_view_len, lemma_segs_view_at;

    let ghost v = segs_view(ss@);
    let n = ss.len();
    let mut acc: Vec<Segment> = Vec::new();
    let mut i: usize = 0;
    while i < n
        invariant
            i <= n,
            n == ss@.len(),
            v == segs_view(ss@),
            v.len() == n,
            acc@.len() == 0 ==> i == 0,
            acc@.len() > 0 ==> s_merge(v) == segs_view(acc@).drop_last() + s_merge(
                seq![segs_view(acc@).last()] + v.skip(i as int),
            ),
        decreases n - i,
    {
        proof {
            lemma_segs_view_at(ss@, i as int);
            assert(v.skip(i as int) =~= seq![v[i as int]] + v.skip((i + 1) as int));
        }
        let can_merge = acc.len() > 0 && is_text(&acc[acc.len() - 1]) && is_text(&ss[i]);
        if can_merge {
            let ghost acc0 = acc@;
            let last = acc.pop().unwrap();
            match last {
                Segment::Text(mut b) => {
                    let ghost b0 = b@;
                    match &ss[i] {
                        Segment::Text(c) => {
                            let ghost cv = c@;
                            b.append(c.as_str());
                            let ghost bf = b@;
                            let ghost acc1 = acc@;
                            acc.push(Segment::Text(b));
                            proof {
                                assert(bf == b0 + cv);
                                assert(v[i as int] == SegX::Text(cv));
                                assert(acc1 =~= acc0.drop_last());
                                assert(acc@.drop_last() =~= acc1);
                                assert(seg_view(acc@.last()) == SegX::Text(bf));
                                assert(segs_view(acc@) == segs_view(acc1).push(
                                    SegX::Text(b0 + cv),
                                ));
                                assert(segs_view(acc@).drop_last() =~= segs_view(acc1));
                                assert(segs_view(acc0) == segs_view(acc1).push(SegX::Text(b0)));
                                assert(segs_view(acc0).drop_last() =~= segs_view(acc1));
                                assert(segs_view(acc0).last() == SegX::Text(b0));
                                let old_tail = seq![SegX::Text(b0)] + v.skip(i as int);
                                assert(old_tail[0] == SegX::Text(b0));
                                assert(old_tail[1] == v[i as int]);
                                assert(old_tail.subrange(2, old_tail.len() as int) =~= v.skip(
                                    (i + 1) as int,
                                ));
                                assert(s_merge(old_tail) == s_merge(
                                    seq![SegX::Text(b0 + cv)] + old_tail.subrange(
                                        2,
                                        old_tail.len() as int,
                                    ),
                                ));
                                assert(seq![SegX::Text(b0 + cv)] + old_tail.subrange(
                                    2,
                                    old_tail.len() as int,
                                ) =~= seq![segs_view(acc@).last()] + v.skip((i + 1) as int));
                            }
                        },
                        _ => {
                            proof {
                                assert(false);
                            }
                        },
                    }
                },
                other => {
                    proof {
                        assert(false);
                    }
                    acc.push(other);
                },
            }
        } else {
            let s = clone_seg(&ss[i]);
            let ghost acc0 = acc@;
            acc.push(s);
            proof {
                assert(acc@.drop_last() =~= acc0);
                assert(segs_view(acc@) == segs_view(acc0).push(seg_view(s)));
                assert(segs_view(acc@).last() == v[i as int]);
                if acc0.len() == 0 {
                    assert(segs_view(acc@).drop_last() =~= Seq::<SegX>::empty());
                    assert(seq![segs_view(acc@).last()] + v.skip((i + 1) as int) =~= v.skip(
                        i as int,
                    ));
                    assert(v.skip(0) =~= v);
                } else {
                    let y = segs_view(acc0).last();
                    let old_tail = seq![y] + v.skip(i as int);
                    assert(old_tail.len() >= 2);
                    assert(old_tail[0] == y);
                    assert(old_tail[1] == v[i as int]);
                    assert(!(y is Text && v[i as int] is Text));
                    assert(old_tail.subrange(1, old_tail.len() as int) =~= v.skip(i as int));
                    assert(s_merge(old_tail) == seq![y] + s_merge(v.skip(i as int)));
                    assert(segs_view(acc@).drop_last() =~= segs_view(acc0).drop_last() + seq![y]);
                    assert(seq![segs_view(acc@).last()] + v.skip((i + 1) as int) =~= v.skip(
                        i as int,
                    ));
                    assert(segs_view(acc@).drop_last() + s_merge(v.skip(i as int)) =~= segs_view(
                        acc0,
                    ).drop_last() + (seq![y] + s_merge(v.skip(i as int))));
                }
            }
        }
        i = i + 1;
    }
    proof {
        if acc@.len() == 0 {
            assert(v.len() == 0);
        } else {
            assert(v.skip(n as int) =~= Seq::<SegX>::empty());
            assert((seq![segs_view(acc@).last()] + v.skip(n as int)) =~= seq![segs_view(
                acc@,
            ).last()]);
            assert(s_merge(seq![segs_view(acc@).last()]) =~= seq![segs_view(acc@).last()]);
            assert(segs_view(acc@).drop_last() + seq![segs_view(acc@).last()] =~= segs_view(acc@));
        }
    }
    acc
}

/// Compiles a template: turns the token sequence into its write
/// plan and folds adjacent literal segments.
pub fn compile(ts: &Vec<Token>) -> (r: Result<Vec<Segment>, CompileError>)
    ensures
        match r {
            Result::Ok(ss) => s_compile(toks_view(ts@)) == Result::Ok::<Seq<SegX>, CErrX>(
                segs_view(ss@),
            ),
            Result::Err(e) => s_compile(toks_view(ts@)) == Result::Err::<Seq<SegX>, CErrX>(e@),
        },
    decreases toks_view(ts@), toks_view(ts@).len() + 1, 4int,
{
    match parse_prog(ts) {
        Result::Err(e) => Result::Err(e),
        Result::Ok(ss) => {
            let merged = merge_segs(&ss);
            Result::Ok(merged)
        },
    }
}

/// An arm sequence's model holds each arm's model at its index.
pub broadcast proof fn lemma_arms_view_at(ar: Seq<Arm>, i: int)
    requires
        0 <= i < ar.len(),
    ensures
        #[trigger] arms_view(ar)[i] == arm_view(ar[i]),
    decreases ar.len(),
{
    lemma_arms_view_len(ar.drop_last());
    if i < ar.len() - 1 {
        lemma_arms_view_at(ar.drop_last(), i);
    }
}

} // verus!
