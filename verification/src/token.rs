//! The token-level representation of a template program.
//!
//! A template reaches the compiler as a sequence of classified lexical
//! atoms: literal text atoms (string, character and number literals),
//! words, keywords, punctuation, and delimited groups. A group is one
//! atomic token; its interior is a token sequence of its own, examined
//! only by the construct that owns the group. This atomicity is what
//! lets the expression-boundary resolver work in a single pass: a comma
//! or brace nested inside a group can never be mistaken for a terminator.

use vstd::prelude::*;

verus! {

/// The delimiter of a token group.
#[derive(Clone, Copy, PartialEq, Eq, Structural, Debug)]
pub enum Delim {
    Brace,
    Paren,
    Bracket,
}

/// A punctuation token.
#[derive(Clone, Copy, PartialEq, Eq, Structural, Debug)]
pub enum Punc {
    /// `:`
    Colon,
    /// `;`
    Semi,
    /// `,`
    Comma,
    /// `=`
    Assign,
    /// `=>`
    Arrow,
    /// `|`
    Pipe,
    /// `.`
    Dot,
    /// `?`
    Quest,
    /// `#`
    Hash,
    /// `$`
    Dollar,
    /// `&`
    Amp,
    /// `+`
    Plus,
    /// `-`
    Minus,
    /// `*`
    Star,
    /// `..`
    DotDot,
    /// `<`
    CmpLt,
    /// `<=`
    CmpLe,
    /// `>`
    CmpGt,
    /// `>=`
    CmpGe,
    /// `==`
    CmpEq,
    /// `!=`
    CmpNe,
}

/// A keyword that introduces a control construct.
#[derive(Clone, Copy, PartialEq, Eq, Structural, Debug)]
pub enum Kw {
    Let,
    If,
    Else,
    Match,
    For,
    In,
}

/// One lexical atom of a template program.
#[derive(Debug)]
pub enum Token {
    /// A string literal atom; written verbatim when it stands at segment level.
    Str(String),
    /// A character literal atom.
    Chr(char),
    /// A number literal atom.
    Num(i64),
    /// An identifier.
    Word(String),
    /// A control keyword.
    Kword(Kw),
    /// Punctuation.
    Punct(Punc),
    /// A delimited group; atomic to the scanner.
    Group(Delim, Vec<Token>),
}

/// The mathematical model of a token.
pub enum TokX {
    Str(Seq<char>),
    Chr(char),
    Num(i64),
    Word(Seq<char>),
    Kword(Kw),
    Punct(Punc),
    Group(Delim, Seq<TokX>),
}

/// The model of a token.
pub open spec fn tok_view(t: Token) -> TokX
    decreases t,
{
    match t {
        Token::Str(s) => TokX::Str(s@),
        Token::Chr(c) => TokX::Chr(c),
        Token::Num(n) => TokX::Num(n),
        Token::Word(w) => TokX::Word(w@),
        Token::Kword(k) => TokX::Kword(k),
        Token::Punct(p) => TokX::Punct(p),
        Token::Group(d, ts) => TokX::Group(d, toks_view(ts@)),
    }
}

/// The model of a token sequence, element by element.
pub open spec fn toks_view(ts: Seq<Token>) -> Seq<TokX>
    decreases ts,
{
    if ts.len() == 0 {
        Seq::empty()
    } else {
        toks_view(ts.drop_last()).push(tok_view(ts.last()))
    }
}

/// The model of a token sequence is as long as the sequence.
pub broadcast proof fn lemma_toks_view_len(ts: Seq<Token>)
    ensures
        (#[trigger] toks_view(ts)).len() == ts.len(),
    decreases ts.len(),
{
    if ts.len() > 0 {
        lemma_toks_view_len(ts.drop_last());
    }
}

/// The model of a token sequence holds each token's model at its index.
pub broadcast proof fn lemma_toks_view_at(ts: Seq<Token>, i: int)
    requires
        0 <= i < ts.len(),
    ensures
        #[trigger] toks_view(ts)[i] == tok_view(ts[i]),
    decreases ts.len(),
{
    lemma_toks_view_len(ts.drop_last());
    if i < ts.len() - 1 {
        lemma_toks_view_at(ts.drop_last(), i);
    }
}

impl View for Token {
    type V = TokX;

    open spec fn view(&self) -> TokX {
        tok_view(*self)
    }
}

impl Clone for Token {
    /// The copy has the same model.
    fn clone(&self) -> (r: Self)
        ensures
            r@ == self@,
    {
        clone_tok(self)
    }
}

/// Copies one token; the copy has the same model.
pub fn clone_tok(t: &Token) -> (r: Token)
    ensures
        r@ == t@,
    decreases *t,
{
    broadcast use lemma_toks_view_len, lemma_toks_view_at;

    match t {
        Token::Str(s) => Token::Str(s.clone()),
        Token::Chr(c) => Token::Chr(*c),
        Token::Num(n) => Token::Num(*n),
        Token::Word(w) => Token::Word(w.clone()),
        Token::Kword(k) => Token::Kword(*k),
        Token::Punct(p) => Token::Punct(*p),
        Token::Group(d, ts) => {
            let inner = slice_toks(ts, 0, ts.len());
            proof {
                assert(toks_view(ts@).subrange(0, ts@.len() as int) =~= toks_view(ts@));
            }
            Token::Group(*d, inner)
        },
    }
}

/// Copies a token sequence; the copy has the same model.
pub fn clone_toks(ts: &Vec<Token>) -> (r: Vec<Token>)
    ensures
        toks_view(r@) == toks_view(ts@),
{
    broadcast use lemma_toks_view_len, lemma_toks_view_at;

    let r = slice_toks(ts, 0, ts.len());
    proof {
        assert(toks_view(ts@).subrange(0, ts@.len() as int) =~= toks_view(ts@));
    }
    r
}

/// Copies the tokens `ts[a..b]`; the copy models the subrange.
pub fn slice_toks(ts: &Vec<Token>, a: usize, b: usize) -> (r: Vec<Token>)
    requires
        a <= b <= ts@.len(),
    ensures
        toks_view(r@) == toks_view(ts@).subrange(a as int, b as int),
    decreases ts@,
{
    broadcast use lemma_toks_view_len, lemma_toks_view_at;

    let mut r: Vec<Token> = Vec::new();
    let mut i: usize = a;
    while i < b
        invariant
            a <= i <= b <= ts@.len(),
            r@.len() == i - a,
            toks_view(r@) =~= toks_view(ts@).subrange(a as int, i as int),
        decreases b - i,
    {
        let t = clone_tok(&ts[i]);
        let ghost r0 = r@;
        r.push(t);
        proof {
            assert(r@.drop_last() =~= r0);
            assert(r@.last() == t);
            assert(toks_view(r@) == toks_view(r0).push(tok_view(t)));
            let lhs = toks_view(ts@).subrange(a as int, (i + 1) as int);
            let rhs = toks_view(r0).push(tok_view(t));
            lemma_toks_view_len(ts@);
            assert(toks_view(ts@).len() == ts@.len());
            assert(lhs.len() == rhs.len());
            assert forall|j: int| 0 <= j < lhs.len() implies lhs[j] == rhs[j] by {
                lemma_toks_view_at(ts@, a + j);
                assert(lhs[j] == toks_view(ts@)[a + j]);
                if j < i - a {
                    assert(toks_view(r0)[j] == toks_view(ts@).subrange(a as int, i as int)[j]);
                }
            }
            assert(lhs =~= rhs);
        }
        i = i + 1;
    }
    r
}

} // verus!
