use typesetter::token_handling::{
    put_tokens_into_vec, BinOpToken, DelimToken, Lit, SourceToken, Token, Word,
};
use typesetter::typesetting::{decide_whitespace, limit, Context, Typesetter};

fn tok(t: Token) -> SourceToken {
    SourceToken { tok: t, snippet: String::new() }
}

fn ident(s: &str) -> SourceToken {
    tok(Token::Ident(s.to_string()))
}

fn ws(s: &str) -> SourceToken {
    SourceToken { tok: Token::Whitespace, snippet: s.to_string() }
}

fn open(d: DelimToken) -> SourceToken {
    tok(Token::OpenDelim(d))
}

fn close(d: DelimToken) -> SourceToken {
    tok(Token::CloseDelim(d))
}

fn integer(s: &str) -> SourceToken {
    tok(Token::Literal(Lit::Integer(s.to_string()), None))
}

fn eof() -> SourceToken {
    tok(Token::Eof)
}

fn format(tokens: Vec<SourceToken>) -> String {
    Typesetter::new(&tokens).to_string()
}

fn other(s: &str) -> Word {
    Word::Other(s.to_string())
}

// fn f(){return}
fn fn_return_tokens() -> Vec<SourceToken> {
    vec![
        ident("fn"),
        ws(" "),
        ident("f"),
        open(DelimToken::Paren),
        close(DelimToken::Paren),
        open(DelimToken::Brace),
        ident("return"),
        close(DelimToken::Brace),
        eof(),
    ]
}

#[test]
fn block_gets_indent_and_return_gets_semicolon() {
    assert_eq!(format(fn_return_tokens()), "fn f() {\n    return;\n}");
}

#[test]
fn return_before_broken_line_gets_semicolon() {
    // fn f() {\n    return\n}
    let tokens = vec![
        ident("fn"),
        ws(" "),
        ident("f"),
        open(DelimToken::Paren),
        close(DelimToken::Paren),
        ws(" "),
        open(DelimToken::Brace),
        ws("\n    "),
        ident("return"),
        ws("\n"),
        close(DelimToken::Brace),
        eof(),
    ];
    assert_eq!(format(tokens), "fn f() {\n    return;\n}");
}

#[test]
fn formatting_formatted_output_again_changes_nothing() {
    let first = format(fn_return_tokens());
    // the tokens of the first output
    let again = vec![
        ident("fn"),
        ws(" "),
        ident("f"),
        open(DelimToken::Paren),
        close(DelimToken::Paren),
        ws(" "),
        open(DelimToken::Brace),
        ws("\n    "),
        ident("return"),
        tok(Token::Semi),
        ws("\n"),
        close(DelimToken::Brace),
        eof(),
    ];
    assert_eq!(format(again), first);
}

#[test]
fn star_after_assignment_is_a_dereference() {
    // let x = *y;
    let tokens = vec![
        ident("let"),
        ws(" "),
        ident("x"),
        ws(" "),
        tok(Token::Eq),
        ws(" "),
        tok(Token::BinOp(BinOpToken::Star)),
        ident("y"),
        tok(Token::Semi),
        eof(),
    ];
    assert_eq!(format(tokens), "let x = *y;\n");
}

#[test]
fn star_between_names_is_a_multiplication() {
    // x = a*b;
    let tokens = vec![
        ident("x"),
        tok(Token::Eq),
        ident("a"),
        tok(Token::BinOp(BinOpToken::Star)),
        ident("b"),
        tok(Token::Semi),
        eof(),
    ];
    assert_eq!(format(tokens), "x = a * b;\n");
}

#[test]
fn star_after_keyword_is_a_dereference() {
    // match *x {}
    let tokens = vec![
        ident("match"),
        ws(" "),
        tok(Token::BinOp(BinOpToken::Star)),
        ident("x"),
        ws(" "),
        open(DelimToken::Brace),
        close(DelimToken::Brace),
        eof(),
    ];
    assert_eq!(format(tokens), "match *x {}");
}

#[test]
fn bang_after_name_is_tight_and_after_if_is_not() {
    // println!(a); if !b {}
    let tokens = vec![
        ident("println"),
        tok(Token::Not),
        open(DelimToken::Paren),
        ident("a"),
        close(DelimToken::Paren),
        tok(Token::Semi),
        ws(" "),
        ident("if"),
        ws(" "),
        tok(Token::Not),
        ident("b"),
        ws(" "),
        open(DelimToken::Brace),
        close(DelimToken::Brace),
        eof(),
    ];
    assert_eq!(format(tokens), "println!(a);\nif !b {}");
}

#[test]
fn inner_attribute_is_tight() {
    // #![a]
    let tokens = vec![
        tok(Token::Pound),
        tok(Token::Not),
        open(DelimToken::Bracket),
        ident("a"),
        close(DelimToken::Bracket),
        eof(),
    ];
    assert_eq!(format(tokens), "#![a]");
}

#[test]
fn comma_in_braces_makes_a_curly_list() {
    // Point{x: 1, y: 2}
    let tokens = vec![
        ident("Point"),
        open(DelimToken::Brace),
        ident("x"),
        tok(Token::Colon),
        ws(" "),
        integer("1"),
        tok(Token::Comma),
        ws(" "),
        ident("y"),
        tok(Token::Colon),
        ws(" "),
        integer("2"),
        close(DelimToken::Brace),
        eof(),
    ];
    assert_eq!(format(tokens), "Point {\n    x:1,\n    y:2\n}");
}

#[test]
fn statements_in_a_block_take_a_line_each() {
    // {a; b;}
    let tokens = vec![
        open(DelimToken::Brace),
        ident("a"),
        tok(Token::Semi),
        ws(" "),
        ident("b"),
        tok(Token::Semi),
        close(DelimToken::Brace),
        eof(),
    ];
    assert_eq!(format(tokens), "{\n    a;\n    b;\n}");
}

#[test]
fn break_after_open_paren_explodes_the_list() {
    // foo(\na,\nb)
    let tokens = vec![
        ident("foo"),
        open(DelimToken::Paren),
        ws("\n"),
        ident("a"),
        tok(Token::Comma),
        ws("\n"),
        ident("b"),
        close(DelimToken::Paren),
        eof(),
    ];
    assert_eq!(format(tokens), "foo(\n    a,\n    b\n)");
}

#[test]
fn exploded_list_puts_one_element_per_line() {
    // foo(\na, b)
    let tokens = vec![
        ident("foo"),
        open(DelimToken::Paren),
        ws("\n"),
        ident("a"),
        tok(Token::Comma),
        ws(" "),
        ident("b"),
        close(DelimToken::Paren),
        eof(),
    ];
    assert_eq!(format(tokens), "foo(\n    a,\n    b\n)");
}

#[test]
fn list_without_break_stays_on_one_line() {
    // foo(a,\nb)
    let tokens = vec![
        ident("foo"),
        open(DelimToken::Paren),
        ident("a"),
        tok(Token::Comma),
        ws("\n"),
        ident("b"),
        close(DelimToken::Paren),
        eof(),
    ];
    assert_eq!(format(tokens), "foo(a, \n    b)");
}

#[test]
fn closing_brace_and_else_share_a_line() {
    // if a {\nb\n}\nelse {\nc\n}
    let tokens = vec![
        ident("if"),
        ws(" "),
        ident("a"),
        ws(" "),
        open(DelimToken::Brace),
        ws("\n"),
        ident("b"),
        ws("\n"),
        close(DelimToken::Brace),
        ws("\n"),
        ident("else"),
        ws(" "),
        open(DelimToken::Brace),
        ws("\n"),
        ident("c"),
        ws("\n"),
        close(DelimToken::Brace),
        eof(),
    ];
    assert_eq!(format(tokens), "if a {\n    b\n} else {\n    c\n}");
}

#[test]
fn else_and_if_share_a_line() {
    let words = vec![other("else"), Word::LineBreak, other("if"), Word::Eof];
    let mut t = Typesetter { words };
    t.filter_linebreaks();
    assert_eq!(t.words, vec![other("else"), other("if"), Word::Eof]);
}

#[test]
fn blank_line_is_kept_once() {
    // a;\n\n\n\nb;
    let tokens = vec![
        ident("a"),
        tok(Token::Semi),
        ws("\n\n\n\n"),
        ident("b"),
        tok(Token::Semi),
        eof(),
    ];
    assert_eq!(format(tokens), "a;\n\nb;\n");
}

#[test]
fn comment_after_semicolon_gets_two_spaces() {
    let tokens = vec![
        ident("a"),
        tok(Token::Semi),
        ws(" "),
        SourceToken { tok: Token::Comment, snippet: "// note".to_string() },
        ws("\n"),
        ident("b"),
        tok(Token::Semi),
        eof(),
    ];
    assert_eq!(format(tokens), "a;  // note\nb;\n");
}

#[test]
fn short_input_passes_through() {
    let tokens = vec![ident("x"), ws("\n"), eof()];
    let t = Typesetter::new(&tokens);
    assert_eq!(t.words, vec![other("x"), Word::LineBreak, Word::Eof]);
    let t = Typesetter::from_words(vec![Word::OpenBrace, Word::Eof]);
    assert_eq!(t.words, vec![Word::OpenBrace, Word::Eof]);
    assert_eq!(t.to_string(), "{");
}

#[test]
fn delimiters_keep_their_order() {
    let tokens = vec![
        ident("f"),
        open(DelimToken::Paren),
        open(DelimToken::Bracket),
        close(DelimToken::Bracket),
        close(DelimToken::Paren),
        ws(" "),
        open(DelimToken::Brace),
        ident("return"),
        close(DelimToken::Brace),
        eof(),
    ];
    let is_delim = |w: &Word| {
        matches!(
            w,
            Word::OpenBrace
                | Word::CloseBrace
                | Word::OpenBracket
                | Word::CloseBracket
                | Word::OpenParen
                | Word::CloseParen
        )
    };
    let before: Vec<Word> = put_tokens_into_vec(&tokens).into_iter().filter(|w| is_delim(w)).collect();
    let after: Vec<Word> =
        Typesetter::new(&tokens).words.into_iter().filter(|w| is_delim(w)).collect();
    assert_eq!(before, after);
    assert_eq!(after.len(), 6);
}

#[test]
fn classifier_drops_plain_whitespace_and_keeps_breaks() {
    let tokens = vec![
        ident("a"),
        ws("  "),
        ident("b"),
        ws(" \n "),
        ident("c"),
        ws("\n \n"),
        tok(Token::Shebang("#!x".to_string())),
        ident("d"),
        eof(),
        ident("ignored"),
    ];
    assert_eq!(
        put_tokens_into_vec(&tokens),
        vec![
            other("a"),
            other("b"),
            Word::LineBreak,
            other("c"),
            Word::LineBreakDouble,
            other("d"),
            Word::Eof
        ]
    );
    let tokens = vec![ident("a"), ws("\n\n"), ident("b"), eof()];
    assert_eq!(
        put_tokens_into_vec(&tokens),
        vec![other("a"), Word::LineBreakDouble, other("b"), Word::Eof]
    );
}

#[test]
fn classifier_renders_literals() {
    let lit = |l: Lit, suf: Option<&str>| {
        Word::from_token(&Token::Literal(l, suf.map(|s| s.to_string())))
    };
    assert_eq!(lit(Lit::Str("hi".to_string()), None), other("\"hi\""));
    assert_eq!(lit(Lit::StrRaw("a\"b".to_string(), 2), None), other("r##\"a\"b\"##"));
    assert_eq!(lit(Lit::BinaryRaw("x".to_string(), 0), None), other("br\"x\""));
    assert_eq!(lit(Lit::Binary("x".to_string()), None), other("b\"x\""));
    assert_eq!(lit(Lit::Byte("a".to_string()), None), other("b'a'"));
    assert_eq!(lit(Lit::Char("\\n".to_string()), None), other("'\\n'"));
    assert_eq!(lit(Lit::Integer("1".to_string()), Some("u8")), other("1u8"));
    assert_eq!(lit(Lit::Float("2.5".to_string()), Some("f32")), other("2.5f32"));
}

#[test]
fn classifier_maps_operators() {
    assert_eq!(Word::from_token(&Token::Ident("as".to_string())), Word::BinaryOperator("as".to_string()));
    assert_eq!(Word::from_token(&Token::BinOp(BinOpToken::And)), Word::PrefixOperator("&".to_string()));
    assert_eq!(Word::from_token(&Token::BinOpEq(BinOpToken::Shl)), Word::BinaryOperator("<<=".to_string()));
    assert_eq!(Word::from_token(&Token::ModSep), Word::SlimInfix("::".to_string()));
    assert_eq!(Word::from_token(&Token::LArrow), other("<-"));
    assert_eq!(Word::from_token(&Token::Lifetime("'a".to_string())), other("'a"));
    assert_eq!(Word::from_token(&Token::Underscore), other("_"));
    assert_eq!(Word::from_token(&Token::Shebang("#!".to_string())), Word::Nope);
}

#[test]
fn comments_are_kept_verbatim() {
    let tokens = vec![
        SourceToken { tok: Token::Comment, snippet: "/* a\n b */".to_string() },
        SourceToken { tok: Token::DocComment("x".to_string()), snippet: "/// x".to_string() },
        eof(),
    ];
    assert_eq!(
        put_tokens_into_vec(&tokens),
        vec![
            Word::Comment("/* a\n b */".to_string()),
            Word::Comment("/// x".to_string()),
            Word::Eof
        ]
    );
}

#[test]
fn word_text() {
    assert_eq!(Word::Whitespace(3).to_string(), "   ");
    assert_eq!(Word::Whitespace(-2).to_string(), "");
    assert_eq!(Word::LineBreakDouble.to_string(), "\n\n");
    assert_eq!(Word::LineBreakIntentMinus.to_string(), "\n");
    assert_eq!(Word::CloseBracket.to_string(), "]");
    assert_eq!(Word::Comment("// c".to_string()).to_string(), "// c");
    assert_eq!(Word::Eof.to_string(), "");
    assert_eq!(Word::Whitespace(3).width(), 3);
    assert_eq!(other("héllo").width(), 5);
}

#[test]
fn renderer_clamps_the_indent() {
    let mut words = Vec::new();
    for _ in 0..25 {
        words.push(Word::LineBreakIntentPlus);
    }
    words.push(other("x"));
    words.push(Word::LineBreakIntentMinus);
    words.push(other("y"));
    words.push(Word::LineBreakDouble);
    words.push(other("z"));
    let t = Typesetter { words };
    let out = t.to_string();
    // indents 4, 8, ..., 80, 80, ...
    let mut expected = String::new();
    for k in 1..=25 {
        expected.push('\n');
        expected.push_str(&" ".repeat(std::cmp::min(4 * k, 80)));
    }
    expected.push('x');
    expected.push('\n');
    expected.push_str(&" ".repeat(76));
    expected.push('y');
    expected.push_str("\n\n");
    expected.push_str(&" ".repeat(76));
    expected.push('z');
    assert_eq!(out, expected);
    let t = Typesetter { words: vec![Word::LineBreakIntentMinus, other("a")] };
    assert_eq!(t.to_string(), "\na");
}

#[test]
fn overlong_line_breaks_at_last_whitespace() {
    let w = "aaaaaaaaaa";
    let mut words = Vec::new();
    for k in 0..10 {
        if k > 0 {
            words.push(Word::Whitespace(1));
        }
        words.push(other(w));
    }
    words.push(Word::Eof);
    let mut t = Typesetter { words };
    t.handle_overlong_lines();
    let mut expected = vec![w; 9].join(" ");
    expected.push_str("\n    ");
    expected.push_str(w);
    assert_eq!(t.to_string(), expected);
    assert_eq!(t.words[17], Word::LineBreak);
    assert_eq!(t.words[18], Word::Whitespace(4));
}

#[test]
fn overlong_word_is_left_overlong() {
    let long = "b".repeat(120);
    let words = vec![other("a"), Word::Whitespace(1), other(&long), Word::Eof];
    let mut t = Typesetter { words };
    t.handle_overlong_lines();
    assert_eq!(
        t.words,
        vec![other("a"), Word::LineBreak, Word::Whitespace(4), other(&long), Word::Eof]
    );
    let words = vec![other(&long), Word::Eof];
    let mut t = Typesetter { words: words.clone() };
    t.handle_overlong_lines();
    assert_eq!(t.words, words);
}

#[test]
fn overlong_line_without_whitespace_is_left_alone() {
    let w = "c".repeat(60);
    let words = vec![other(&w), Word::SemiColon, other(&w), Word::Eof];
    let mut t = Typesetter { words: words.clone() };
    t.handle_overlong_lines();
    assert_eq!(t.words, words);
}

#[test]
fn limit_clamps() {
    let mut v = -5;
    limit(&mut v, 0, 80);
    assert_eq!(v, 0);
    let mut v = 84;
    limit(&mut v, 0, 80);
    assert_eq!(v, 80);
    let mut v = 12;
    limit(&mut v, 0, 80);
    assert_eq!(v, 12);
}

#[test]
fn decision_table_samples() {
    let ctx = Context::CodeBlock;
    assert_eq!(
        decide_whitespace(&ctx, &Word::SlimInfix("::".to_string()), &Word::OpenBrace),
        None
    );
    assert_eq!(
        decide_whitespace(&ctx, &Word::SlimInfix(">".to_string()), &Word::OpenBrace),
        Some(Word::Whitespace(1))
    );
    assert_eq!(decide_whitespace(&ctx, &other("if"), &Word::OpenParen), Some(Word::Whitespace(1)));
    assert_eq!(decide_whitespace(&ctx, &other("f"), &Word::OpenParen), None);
    assert_eq!(decide_whitespace(&ctx, &Word::OpenBrace, &Word::CloseBrace), None);
    assert_eq!(
        decide_whitespace(&ctx, &Word::CloseBrace, &other("fn")),
        Some(Word::LineBreak)
    );
    assert_eq!(
        decide_whitespace(&ctx, &Word::SemiColon, &Word::PrefixOperator("#".to_string())),
        Some(Word::LineBreak)
    );
    assert_eq!(
        decide_whitespace(&ctx, &other("a"), &Word::PrefixOperator("#".to_string())),
        Some(Word::LineBreak)
    );
    assert_eq!(
        decide_whitespace(&ctx, &other("a"), &Word::PrefixOperator("&".to_string())),
        Some(Word::Whitespace(1))
    );
    assert_eq!(decide_whitespace(&ctx, &other("a"), &Word::Comment(String::new())), Some(Word::Whitespace(2)));
    assert_eq!(decide_whitespace(&Context::CurlyList, &Word::Comma, &other("b")), Some(Word::LineBreak));
    assert_eq!(decide_whitespace(&Context::CodeBlock, &Word::Comma, &other("b")), Some(Word::LineBreak));
    assert_eq!(decide_whitespace(&Context::List, &Word::LineBreak, &other("b")), Some(Word::Whitespace(4)));
    assert_eq!(decide_whitespace(&Context::List, &Word::Colon, &other("b")), Some(Word::Whitespace(1)));
    assert_eq!(
        decide_whitespace(&Context::ListExploded, &Word::CloseBracket, &Word::Comma),
        None
    );
    assert_eq!(
        decide_whitespace(&Context::ListExploded, &other("a"), &Word::CloseBracket),
        Some(Word::LineBreakIntentMinus)
    );
}

#[test]
fn star_after_closing_paren_is_a_multiplication() {
    // (a)*b;
    let tokens = vec![
        open(DelimToken::Paren),
        ident("a"),
        close(DelimToken::Paren),
        tok(Token::BinOp(BinOpToken::Star)),
        ident("b"),
        tok(Token::Semi),
        eof(),
    ];
    assert_eq!(format(tokens), "(a) * b;\n");
}

#[test]
fn star_after_prefix_operator_is_a_dereference() {
    let mut t = Typesetter {
        words: vec![
            Word::PrefixOperator("&".to_string()),
            Word::BinaryOperator("*".to_string()),
            other("x"),
            Word::Eof,
        ],
    };
    t.sort_out_ambiguities();
    assert_eq!(t.words[1], Word::PrefixOperator("*".to_string()));
    let mut empty = Typesetter { words: Vec::new() };
    empty.sort_out_ambiguities();
    assert!(empty.words.is_empty());
}

#[test]
fn break_after_open_bracket_becomes_indent() {
    let words = vec![Word::OpenBracket, Word::LineBreakDouble, other("a"), Word::Eof];
    let mut t = Typesetter { words };
    t.filter_linebreaks();
    assert_eq!(t.words, vec![Word::OpenBracket, Word::LineBreakIntentPlus, other("a"), Word::Eof]);
}

#[test]
fn newlines_are_counted_in_whitespace() {
    let tokens = vec![
        ident("a"),
        ws("\n    \n    "),
        ident("b"),
        ws("  \n  "),
        ident("c"),
        ws("\n\n\n"),
        ident("d"),
        eof(),
    ];
    assert_eq!(
        put_tokens_into_vec(&tokens),
        vec![
            other("a"),
            Word::LineBreakDouble,
            other("b"),
            Word::LineBreak,
            other("c"),
            Word::LineBreakDouble,
            other("d"),
            Word::Eof
        ]
    );
}

#[test]
fn closing_brace_pairs() {
    let ctx = Context::CodeBlock;
    assert_eq!(decide_whitespace(&ctx, &Word::CloseBrace, &Word::Eof), None);
    assert_eq!(
        decide_whitespace(&ctx, &Word::CloseBrace, &Word::PrefixOperator("&".to_string())),
        Some(Word::Whitespace(1))
    );
    assert_eq!(
        decide_whitespace(&ctx, &Word::CloseBrace, &Word::PrefixOperator("#".to_string())),
        Some(Word::LineBreak)
    );
    assert_eq!(decide_whitespace(&ctx, &Word::CloseBrace, &Word::SemiColon), None);
    assert_eq!(decide_whitespace(&ctx, &Word::CloseBrace, &Word::Comma), None);
    assert_eq!(
        decide_whitespace(&ctx, &Word::CloseBrace, &Word::Comment("// c".to_string())),
        Some(Word::Whitespace(2))
    );
    assert_eq!(decide_whitespace(&ctx, &Word::CloseBrace, &other("else")), Some(Word::Whitespace(1)));
}

#[test]
fn blocks_in_a_row_take_a_line_each() {
    // fn a() {}\nfn b() {}
    let tokens = vec![
        ident("fn"),
        ws(" "),
        ident("a"),
        open(DelimToken::Paren),
        close(DelimToken::Paren),
        ws(" "),
        open(DelimToken::Brace),
        close(DelimToken::Brace),
        ws("\n"),
        ident("fn"),
        ws(" "),
        ident("b"),
        open(DelimToken::Paren),
        close(DelimToken::Paren),
        ws(" "),
        open(DelimToken::Brace),
        close(DelimToken::Brace),
        eof(),
    ];
    assert_eq!(format(tokens), "fn a() {}\nfn b() {}");
}

#[test]
fn lines_within_the_width_are_not_rewrapped() {
    let words = vec![
        other("let"),
        Word::Whitespace(1),
        other("x"),
        Word::LineBreakIntentPlus,
        other(&"d".repeat(90)),
        Word::LineBreak,
        other(&"e".repeat(95)),
        Word::Eof,
    ];
    let mut t = Typesetter { words: words.clone() };
    t.handle_overlong_lines();
    assert_eq!(t.words, words);
}
