use fmtools::{compile, join, Delim, ErrKind, Kw, Punc, RenderError, Token, Value};

fn st(s: &str) -> Token {
    Token::Str(s.to_string())
}

fn wd(s: &str) -> Token {
    Token::Word(s.to_string())
}

fn num(n: i64) -> Token {
    Token::Num(n)
}

fn pn(p: Punc) -> Token {
    Token::Punct(p)
}

fn kw(k: Kw) -> Token {
    Token::Kword(k)
}

fn brace(ts: Vec<Token>) -> Token {
    Token::Group(Delim::Brace, ts)
}

fn paren(ts: Vec<Token>) -> Token {
    Token::Group(Delim::Paren, ts)
}

fn bracket(ts: Vec<Token>) -> Token {
    Token::Group(Delim::Bracket, ts)
}

fn bind(name: &str, v: Value) -> (String, Value) {
    (name.to_string(), v)
}

fn render(tokens: Vec<Token>, env: Vec<(String, Value)>) -> String {
    fmtools::fmt(compile(&tokens).unwrap(), env).render().unwrap()
}

fn render_err(tokens: Vec<Token>, env: Vec<(String, Value)>) -> RenderError {
    fmtools::fmt(compile(&tokens).unwrap(), env)
        .render()
        .unwrap_err()
}

fn compile_err(tokens: Vec<Token>) -> ErrKind {
    compile(&tokens).unwrap_err().kind
}

#[test]
fn plain_concatenation() {
    assert_eq!(
        render(
            vec![st("Hello "), brace(vec![wd("name")])],
            vec![bind("name", Value::Str("World".to_string()))]
        ),
        "Hello World"
    );
}

#[test]
fn specifier_honored() {
    assert_eq!(
        render(
            vec![brace(vec![
                wd("value"),
                pn(Punc::Colon),
                pn(Punc::Hash),
                wd("x")
            ])],
            vec![bind("value", Value::Int(42))]
        ),
        "0x2a"
    );
}

#[test]
fn negative_values() {
    assert_eq!(
        render(
            vec![brace(vec![wd("n")])],
            vec![bind("n", Value::Int(-42))]
        ),
        "-42"
    );
    assert_eq!(
        render(
            vec![brace(vec![wd("n"), pn(Punc::Colon), pn(Punc::Hash), wd("x")])],
            vec![bind("n", Value::Int(-6))]
        ),
        "0xfffffffffffffffa"
    );
}

#[test]
fn conditional_first_branch_only() {
    let toks = vec![
        kw(Kw::If),
        wd("power"),
        pn(Punc::CmpGe),
        num(100),
        brace(vec![st("full")]),
        kw(Kw::Else),
        brace(vec![brace(vec![wd("power")]), st("%")]),
    ];
    assert_eq!(
        render(toks.clone(), vec![bind("power", Value::Int(50))]),
        "50%"
    );
    assert_eq!(
        render(toks, vec![bind("power", Value::Int(150))]),
        "full"
    );
}

#[test]
fn conditional_no_branch_no_else() {
    assert_eq!(
        render(vec![kw(Kw::If), wd("false"), brace(vec![st("x")])], vec![]),
        ""
    );
}

#[test]
fn loop_per_item_in_order() {
    let toks = vec![
        kw(Kw::For),
        wd("val"),
        kw(Kw::In),
        bracket(vec![num(1), pn(Punc::Comma), num(2), pn(Punc::Comma), num(3)]),
        brace(vec![st("* "), brace(vec![wd("val")]), st("\n")]),
    ];
    assert_eq!(render(toks, vec![]), "* 1\n* 2\n* 3\n");
}

#[test]
fn loop_empty_renders_nothing() {
    let toks = vec![
        kw(Kw::For),
        wd("val"),
        kw(Kw::In),
        bracket(vec![]),
        brace(vec![st("never")]),
    ];
    assert_eq!(render(toks, vec![]), "");
    let range = vec![
        kw(Kw::For),
        wd("val"),
        kw(Kw::In),
        num(3),
        pn(Punc::DotDot),
        num(3),
        brace(vec![st("never")]),
    ];
    assert_eq!(render(range, vec![]), "");
}

#[test]
fn loop_over_range() {
    let toks = vec![
        kw(Kw::For),
        wd("val"),
        kw(Kw::In),
        num(0),
        pn(Punc::DotDot),
        num(4),
        brace(vec![brace(vec![wd("val")])]),
    ];
    assert_eq!(render(toks, vec![]), "0123");
}

#[test]
fn match_first_arm() {
    let toks = vec![
        kw(Kw::Match),
        wd("v"),
        brace(vec![
            wd("Some"),
            paren(vec![wd("answer")]),
            pn(Punc::Arrow),
            paren(vec![st("Some("), brace(vec![wd("answer")]), st(")")]),
            pn(Punc::Comma),
            wd("None"),
            pn(Punc::Arrow),
            st("None"),
            pn(Punc::Comma),
        ]),
    ];
    assert_eq!(
        render(
            toks.clone(),
            vec![bind("v", Value::OptSome(Box::new(Value::Int(42))))]
        ),
        "Some(42)"
    );
    assert_eq!(render(toks, vec![bind("v", Value::OptNone)]), "None");
}

#[test]
fn literal_split_is_invisible() {
    assert_eq!(render(vec![st("abcd")], vec![]), "abcd");
    assert_eq!(render(vec![st("ab"), st("cd")], vec![]), "abcd");
    assert_eq!(render(vec![st("a"), st("b"), st("c"), st("d")], vec![]), "abcd");
    let merged = compile(&vec![st("a"), st("b"), st("c"), st("d")]).unwrap();
    assert_eq!(merged.len(), 1);
    let spliced = compile(&vec![paren(vec![st("a")]), st("b")]).unwrap();
    assert_eq!(spliced.len(), 1);
}

#[test]
fn default_specifier_is_empty_specifier() {
    let without = vec![brace(vec![wd("v")])];
    let with_empty = vec![brace(vec![wd("v"), pn(Punc::Colon)])];
    let env = vec![bind("v", Value::Int(7))];
    assert_eq!(render(without, env.clone()), render(with_empty, env));
}

#[test]
fn join_laws() {
    assert_eq!(join("--", vec![]).render().unwrap(), "");
    assert_eq!(join("--", vec![Value::Int(5)]).render().unwrap(), "5");
    assert_eq!(
        join(",", vec![Value::Int(1), Value::Int(2), Value::Int(3)])
            .render()
            .unwrap(),
        "1,2,3"
    );
    assert_eq!(
        join("", vec![Value::Int(1), Value::Int(2)]).render().unwrap(),
        "12"
    );
    let j = join("--", vec![Value::Int(1), Value::Bool(true)]);
    let first = j.render().unwrap();
    let second = j.render().unwrap();
    assert_eq!(first, second);
    assert_eq!(first, "1--true");
}

#[test]
fn value_capture_outlives_scope() {
    let owned = {
        let prog = compile(&vec![st("a = "), brace(vec![wd("a")])]).unwrap();
        fmtools::fmt(prog, vec![bind("a", Value::Int(42))])
    };
    assert_eq!(owned.render().unwrap(), "a = 42");
    assert_eq!(owned.render().unwrap(), "a = 42");
}

#[test]
fn compile_error_kinds() {
    assert_eq!(compile_err(vec![wd("x")]), ErrKind::UnexpectedToken);
    assert_eq!(
        compile_err(vec![kw(Kw::If), wd("x")]),
        ErrKind::MissingBlock
    );
    assert_eq!(
        compile_err(vec![kw(Kw::Let), wd("x"), pn(Punc::Semi)]),
        ErrKind::MissingAssign
    );
    assert_eq!(
        compile_err(vec![kw(Kw::Let), wd("x"), pn(Punc::Assign), num(1)]),
        ErrKind::MissingSemi
    );
    assert_eq!(
        compile_err(vec![kw(Kw::Let), pn(Punc::Assign), num(1), pn(Punc::Semi)]),
        ErrKind::MissingPattern
    );
    assert_eq!(
        compile_err(vec![kw(Kw::For), wd("x"), brace(vec![])]),
        ErrKind::MissingIn
    );
    assert_eq!(
        compile_err(vec![pn(Punc::Pipe), wd("f")]),
        ErrKind::MissingPipe
    );
    assert_eq!(compile_err(vec![brace(vec![])]), ErrKind::EmptyExpr);
    assert_eq!(
        compile_err(vec![brace(vec![
            num(1),
            pn(Punc::Comma),
            num(2),
            pn(Punc::Comma),
            num(3)
        ])]),
        ErrKind::ExtraArg
    );
    assert_eq!(
        compile_err(vec![kw(Kw::Match), wd("x"), brace(vec![wd("y")])]),
        ErrKind::MissingArrow
    );
    let err = compile(&vec![st("ok"), wd("bad")]).unwrap_err();
    assert_eq!(err.pos, 1);
}

#[test]
fn render_error_kinds() {
    assert_eq!(
        render_err(vec![brace(vec![wd("nope")])], vec![]),
        RenderError::Unbound
    );
    assert_eq!(
        render_err(
            vec![kw(Kw::If), wd("x"), brace(vec![])],
            vec![bind("x", Value::Int(1))]
        ),
        RenderError::TypeMismatch
    );
    assert_eq!(
        render_err(
            vec![kw(Kw::Match), num(5), brace(vec![num(1), pn(Punc::Arrow), brace(vec![])])],
            vec![]
        ),
        RenderError::NoArm
    );
    assert_eq!(
        render_err(
            vec![brace(vec![wd("a"), pn(Punc::Plus), num(1)])],
            vec![bind("a", Value::Int(i64::MAX))]
        ),
        RenderError::Arith
    );
    assert_eq!(
        render_err(
            vec![brace(vec![wd("xs")])],
            vec![bind("xs", Value::List(vec![]))]
        ),
        RenderError::NotDisplayable
    );
    assert_eq!(
        render_err(
            vec![brace(vec![wd("v"), pn(Punc::Colon), pn(Punc::Hash), wd("y")])],
            vec![bind("v", Value::Int(1))]
        ),
        RenderError::BadSpec
    );
    assert_eq!(
        render_err(
            vec![kw(Kw::Let), num(5), pn(Punc::Assign), num(4), pn(Punc::Semi)],
            vec![]
        ),
        RenderError::BadPattern
    );
    assert_eq!(
        render_err(
            vec![
                pn(Punc::Pipe),
                wd("f"),
                pn(Punc::Pipe),
                wd("g"),
                pn(Punc::Dot),
                wd("other"),
                paren(vec![]),
                pn(Punc::Semi),
            ],
            vec![]
        ),
        RenderError::OpaqueEscape
    );
    let f = fmtools::fmt(compile(&vec![st("x")]).unwrap(), vec![]);
    assert_eq!(f.render_depth(0).unwrap_err(), RenderError::TooDeep);
}

#[test]
fn bindings_shadow_in_order() {
    let toks = vec![
        kw(Kw::Let),
        wd("x"),
        pn(Punc::Assign),
        num(1),
        pn(Punc::Semi),
        brace(vec![wd("x")]),
        kw(Kw::Let),
        wd("x"),
        pn(Punc::Assign),
        num(2),
        pn(Punc::Semi),
        brace(vec![wd("x")]),
    ];
    assert_eq!(render(toks, vec![]), "12");
}

#[test]
fn if_let_binds_pattern() {
    let toks = vec![
        kw(Kw::If),
        kw(Kw::Let),
        wd("Some"),
        paren(vec![wd("x")]),
        pn(Punc::Assign),
        wd("v"),
        brace(vec![brace(vec![wd("x")])]),
        kw(Kw::Else),
        brace(vec![st("none")]),
    ];
    assert_eq!(
        render(
            toks.clone(),
            vec![bind("v", Value::OptSome(Box::new(Value::Int(7))))]
        ),
        "7"
    );
    assert_eq!(render(toks, vec![bind("v", Value::OptNone)]), "none");
}

#[test]
fn match_guard_ordered() {
    let toks = vec![
        kw(Kw::Match),
        wd("n"),
        brace(vec![
            wd("x"),
            kw(Kw::If),
            wd("x"),
            pn(Punc::CmpGe),
            num(10),
            pn(Punc::Arrow),
            st("big"),
            pn(Punc::Comma),
            wd("_"),
            pn(Punc::Arrow),
            st("small"),
            pn(Punc::Comma),
        ]),
    ];
    assert_eq!(render(toks.clone(), vec![bind("n", Value::Int(12))]), "big");
    assert_eq!(render(toks, vec![bind("n", Value::Int(3))]), "small");
}
