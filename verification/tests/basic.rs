use fmtools::{compile, join, Delim, Kw, Punc, Token, Value};

fn st(s: &str) -> Token {
    Token::Str(s.to_string())
}

fn wd(s: &str) -> Token {
    Token::Word(s.to_string())
}

fn num(n: i64) -> Token {
    Token::Num(n)
}

fn chr(c: char) -> Token {
    Token::Chr(c)
}

fn pn(p: Punc) -> Token {
    Token::Punct(p)
}

fn kw(k: Kw) -> Token {
    Token::Kword(k)
}

fn brace(ts: Vec<Token>) -> Token {
    Token::Group(Delim::Brace, ts)
}

fn paren(ts: Vec<Token>) -> Token {
    Token::Group(Delim::Paren, ts)
}

fn bracket(ts: Vec<Token>) -> Token {
    Token::Group(Delim::Bracket, ts)
}

fn bind(name: &str, v: Value) -> (String, Value) {
    (name.to_string(), v)
}

fn render(tokens: Vec<Token>, env: Vec<(String, Value)>) -> String {
    fmtools::fmt(compile(&tokens).unwrap(), env).render().unwrap()
}

fn hex_item(n: i64) -> Value {
    let prog = compile(&vec![brace(vec![
        num(n),
        pn(Punc::Colon),
        pn(Punc::Hash),
        wd("x"),
    ])])
    .unwrap();
    Value::Shown(Box::new(fmtools::fmt(prog, vec![])))
}

fn join_chars(sep: &str, cs: &[char]) -> Value {
    let items = cs.iter().map(|c| Value::Chr(*c)).collect();
    Value::Shown(Box::new(join(sep, items)))
}

fn join_inner() -> fmtools::fmt {
    join(" ", vec![Value::Int(10), Value::Int(11)])
}

#[test]
fn join_tests() {
    assert_eq!(join(" ", vec![Value::Int(10)]).render().unwrap(), "10");
    assert_eq!(
        join(",", vec![hex_item(10), hex_item(11)]).render().unwrap(),
        "0xa,0xb"
    );
    assert_eq!(
        join(
            "; ",
            vec![
                join_chars(" ", &['a', 'b']),
                join_chars(" ", &['b', 'c']),
                Value::Shown(Box::new(join_inner())),
            ],
        )
        .render()
        .unwrap(),
        "a b; b c; 10 11"
    );
}

#[test]
fn test_prelude() {
    println!("{}", render(vec![st("print")], vec![]));
    println!("{}", render(vec![st("println")], vec![]));
    println!("{}", render(vec![st("eprint")], vec![]));
    println!("{}", render(vec![st("eprintln")], vec![]));
    let mut s = render(vec![st("format")], vec![]);
    s.push_str(&render(vec![st("write")], vec![]));
    s.push_str(&render(vec![st("writeln"), st("\n")], vec![]));
    assert_eq!(s, "formatwritewriteln\n");
}

fn batch() -> Vec<Token> {
    let mut ts = Vec::new();
    let lits: [i64; 32] = [
        0, -1, 2, 3, -4, 5, 6, -7, 8, 9, -0, 1, 2, -3, 4, 5, 6, -7, 8, 9, -0, 1, 2, -3, 4, 5,
        -6, 7, 8, -9, 0, 1,
    ];
    let interp = [
        false, true, false, false, true, false, false, true, false, false, true, false, false,
        true, false, false, false, true, false, false, true, false, false, true, false, false,
        true, false, false, true, false, false,
    ];
    for i in 0..32 {
        let d = lits[i].abs();
        if interp[i] {
            ts.push(brace(vec![num(d)]));
        } else {
            ts.push(num(d));
        }
    }
    ts
}

fn make_owned() -> fmtools::fmt {
    let prog = compile(&vec![st("a = "), brace(vec![wd("a")])]).unwrap();
    fmtools::fmt(prog, vec![bind("a", Value::Int(42))])
}

#[test]
fn template_tests() {
    // Basic literals
    assert_eq!(render(vec![st("abc")], vec![]), "abc");
    assert_eq!(render(vec![st("abc"), st("def")], vec![]), "abcdef");
    assert_eq!(
        render(
            vec![st("abc"), num(123), st("def"), chr('#'), num(420)],
            vec![]
        ),
        "abc123def#420"
    );
    assert_eq!(render(vec![num(0), brace(vec![num(0)])], vec![]), "00");

    // Formatting specifiers
    assert_eq!(
        render(
            vec![
                kw(Kw::Let),
                wd("value"),
                pn(Punc::Assign),
                num(42),
                pn(Punc::Semi),
                st("hex("),
                brace(vec![wd("value")]),
                st(") = "),
                brace(vec![wd("value"), pn(Punc::Colon), pn(Punc::Hash), wd("x")]),
            ],
            vec![]
        ),
        "hex(42) = 0x2a"
    );
    assert_eq!(
        render(
            vec![
                kw(Kw::Let),
                wd("width"),
                pn(Punc::Assign),
                num(5),
                pn(Punc::Semi),
                st("Hello "),
                brace(vec![
                    st("x"),
                    pn(Punc::Comma),
                    wd("width"),
                    pn(Punc::Colon),
                    num(1),
                    pn(Punc::Dollar),
                ]),
                st("!"),
            ],
            vec![]
        ),
        "Hello x    !"
    );

    // Code injection
    assert_eq!(
        render(
            vec![
                pn(Punc::Pipe),
                wd("_"),
                pn(Punc::Pipe),
                kw(Kw::Let),
                wd("name"),
                pn(Punc::Assign),
                st("world"),
                pn(Punc::Semi),
                pn(Punc::Pipe),
                wd("f"),
                pn(Punc::Pipe),
                wd("f"),
                pn(Punc::Dot),
                wd("write_str"),
                paren(vec![st("Hello ")]),
                pn(Punc::Quest),
                pn(Punc::Semi),
                pn(Punc::Pipe),
                wd("f"),
                pn(Punc::Pipe),
                wd("f"),
                pn(Punc::Dot),
                wd("write_str"),
                paren(vec![wd("name")]),
                pn(Punc::Quest),
                pn(Punc::Semi),
            ],
            vec![]
        ),
        "Hello world"
    );
    assert_eq!(
        render(
            vec![
                pn(Punc::Pipe),
                wd("_"),
                pn(Punc::Pipe),
                kw(Kw::Let),
                wd("name"),
                pn(Punc::Assign),
                st("world"),
                pn(Punc::Semi),
                pn(Punc::Pipe),
                wd("f"),
                pn(Punc::Pipe),
                brace(vec![
                    wd("f"),
                    pn(Punc::Dot),
                    wd("write_str"),
                    paren(vec![st("Hello ")]),
                    pn(Punc::Quest),
                    pn(Punc::Semi),
                    wd("f"),
                    pn(Punc::Dot),
                    wd("write_str"),
                    paren(vec![wd("name")]),
                    pn(Punc::Quest),
                    pn(Punc::Semi),
                ]),
            ],
            vec![]
        ),
        "Hello world"
    );

    // Move ownership: a formattable value nested inside another
    let inner = compile(&vec![st("a = "), brace(vec![num(42)])]).unwrap();
    assert_eq!(
        render(
            vec![st("{"), brace(vec![wd("inner")]), st("}")],
            vec![bind(
                "inner",
                Value::Shown(Box::new(fmtools::fmt(inner, vec![])))
            )]
        ),
        "{a = 42}"
    );
    let owned = make_owned();
    assert_eq!(
        render(
            vec![st("{"), brace(vec![wd("inner")]), st("}")],
            vec![bind("inner", Value::Shown(Box::new(owned)))]
        ),
        "{a = 42}"
    );

    // Control flow
    assert!(compile(&vec![kw(Kw::If), wd("false"), brace(vec![])]).is_ok());
    assert!(compile(&vec![
        kw(Kw::If),
        wd("false"),
        brace(vec![]),
        kw(Kw::If),
        wd("true"),
        brace(vec![])
    ])
    .is_ok());
    assert!(compile(&vec![
        kw(Kw::If),
        wd("false"),
        brace(vec![]),
        kw(Kw::Else),
        brace(vec![])
    ])
    .is_ok());
    assert!(compile(&vec![
        kw(Kw::If),
        wd("false"),
        brace(vec![]),
        kw(Kw::Else),
        kw(Kw::If),
        wd("true"),
        brace(vec![])
    ])
    .is_ok());
    assert!(compile(&vec![
        kw(Kw::If),
        wd("false"),
        brace(vec![]),
        kw(Kw::Else),
        kw(Kw::If),
        wd("false"),
        brace(vec![]),
        kw(Kw::Else),
        brace(vec![])
    ])
    .is_ok());
    assert!(compile(&vec![
        kw(Kw::If),
        kw(Kw::Let),
        wd("Some"),
        paren(vec![wd("_")]),
        pn(Punc::Assign),
        wd("Some"),
        paren(vec![num(42)]),
        brace(vec![])
    ])
    .is_ok());
    assert!(compile(&vec![
        kw(Kw::If),
        kw(Kw::Let),
        wd("Some"),
        paren(vec![wd("_")]),
        pn(Punc::Assign),
        wd("Some"),
        paren(vec![num(42)]),
        brace(vec![]),
        kw(Kw::Else),
        brace(vec![])
    ])
    .is_ok());
    assert!(compile(&vec![
        kw(Kw::If),
        kw(Kw::Let),
        wd("Some"),
        paren(vec![wd("_")]),
        pn(Punc::Assign),
        wd("Some"),
        paren(vec![num(42)]),
        brace(vec![]),
        kw(Kw::Else),
        kw(Kw::If),
        kw(Kw::Let),
        wd("Some"),
        paren(vec![wd("_")]),
        pn(Punc::Assign),
        wd("Some"),
        paren(vec![num(13)]),
        brace(vec![])
    ])
    .is_ok());
    assert!(compile(&vec![
        kw(Kw::Match),
        wd("false"),
        brace(vec![
            wd("false"),
            pn(Punc::Arrow),
            brace(vec![]),
            pn(Punc::Comma),
            wd("true"),
            pn(Punc::Arrow),
            brace(vec![]),
        ])
    ])
    .is_ok());
    assert!(compile(&vec![
        kw(Kw::Match),
        num(0),
        brace(vec![
            num(0),
            pn(Punc::Arrow),
            st("0"),
            pn(Punc::Comma),
            num(1),
            pn(Punc::Arrow),
            brace(vec![]),
            wd("_"),
            pn(Punc::Arrow),
            brace(vec![]),
            pn(Punc::Comma),
        ])
    ])
    .is_ok());
    assert!(compile(&vec![
        kw(Kw::Match),
        wd("false"),
        brace(vec![
            wd("_"),
            kw(Kw::If),
            wd("false"),
            pn(Punc::Arrow),
            brace(vec![]),
            wd("_"),
            pn(Punc::Arrow),
            brace(vec![]),
        ])
    ])
    .is_ok());
    assert!(compile(&vec![
        kw(Kw::For),
        wd("_"),
        kw(Kw::In),
        num(0),
        pn(Punc::DotDot),
        num(4),
        brace(vec![])
    ])
    .is_ok());
    assert!(compile(&vec![
        kw(Kw::For),
        wd("_"),
        kw(Kw::In),
        pn(Punc::Amp),
        bracket(vec![
            num(1),
            pn(Punc::Comma),
            num(2),
            pn(Punc::Comma),
            num(3),
            pn(Punc::Comma),
            num(4)
        ]),
        brace(vec![])
    ])
    .is_ok());

    // Large templates grouped into paren batches
    let toks = vec![
        paren(batch()),
        paren(batch()),
        paren(batch()),
        paren(batch()),
    ];
    assert_eq!(
        render(toks, vec![]),
        "01234567890123456789012345678901".repeat(4)
    );
}
