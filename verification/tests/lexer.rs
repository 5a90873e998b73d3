use kx_lexer::{
    BinOpKind, CommentKind, Error, IdentKind, Lexer, LitKind, Scanner, Token, TokenKind,
};

fn lexer(input: &str) -> Lexer {
    Lexer::new(Scanner::new(input))
}

fn tokens(input: &str) -> Vec<Token> {
    lexer(input).read_all().unwrap()
}

fn token(kind: TokenKind, raw: &str, pos: usize) -> Token {
    Token::new(kind, raw.to_string(), pos)
}

fn kinds(input: &str) -> Vec<TokenKind> {
    tokens(input).into_iter().map(|t| t.kind).collect()
}

fn line_comment(text: &str) -> TokenKind {
    TokenKind::Comment { kind: CommentKind::Line, text: text.to_string() }
}

fn block_comment(text: &str, terminated: bool) -> TokenKind {
    TokenKind::Comment { kind: CommentKind::Block { terminated }, text: text.to_string() }
}

fn string(text: &str, terminated: bool) -> TokenKind {
    TokenKind::Lit(LitKind::Str { terminated, raw_without_sign: text.to_string() })
}

fn character(text: &str, terminated: bool) -> TokenKind {
    TokenKind::Lit(LitKind::Char { terminated, raw_without_sign: text.to_string() })
}

fn ident() -> TokenKind {
    TokenKind::Ident(IdentKind::Ident)
}

fn assert_lossless(input: &str) {
    let all = tokens(input);
    let joined: String = all.iter().map(|t| t.raw.as_str()).collect();
    assert_eq!(joined, input);
    let mut pos = 0;
    for t in &all {
        assert_eq!(t.pos, pos);
        pos += t.raw.chars().count();
    }
    assert_eq!(pos, input.chars().count());
    assert_eq!(all.last().unwrap().kind, TokenKind::Eof);
    assert_eq!(all.iter().filter(|t| t.kind == TokenKind::Eof).count(), 1);
}

#[test]
fn tokens_concatenate_to_input() {
    assert_lossless("");
    assert_lossless("a  //c\nb");
    assert_lossless("let x = ten;");
    assert_lossless("fn main() { let s = \"a\\\"b\"; /* c */ r#type <<= 'x' }");
    assert_lossless("\"abc");
    assert_lossless("/* never closed");
    assert_lossless("'\\");
    assert_lossless("a\u{3000}'é'_9 \t\r\n r# r#_a1 &&= ||= ..= .. . >>= != == =");
    assert_lossless("pub async fn f(a, b) { loop { if a {break} else {continue} } }");
}

#[test]
fn maximal_munch_and_and_equals() {
    let mut lexer = lexer("&&=");
    assert_eq!(lexer.read(), Ok(token(TokenKind::BinOpEq(BinOpKind::AndAnd), "&&=", 0)));
    assert_eq!(lexer.read(), Ok(token(TokenKind::Eof, "", 3)));
}

#[test]
fn whitespace_and_comments_are_tokens() {
    assert_eq!(
        tokens("a  //c\nb"),
        vec![
            token(ident(), "a", 0),
            token(TokenKind::Whitespace, "  ", 1),
            token(line_comment("c"), "//c", 3),
            token(TokenKind::Whitespace, "\n", 6),
            token(ident(), "b", 7),
            token(TokenKind::Eof, "", 8),
        ]
    );
}

#[test]
fn unterminated_string_is_a_token() {
    let mut lexer = lexer("\"abc");
    assert_eq!(lexer.read(), Ok(token(string("abc", false), "\"abc", 0)));
    assert_eq!(lexer.read(), Ok(token(TokenKind::Eof, "", 4)));
}

#[test]
fn escaped_quote_does_not_close_string() {
    let mut lexer = lexer("\"a\\\"b\"");
    assert_eq!(lexer.read(), Ok(token(string("a\\\"b", true), "\"a\\\"b\"", 0)));
    assert_eq!(lexer.read(), Ok(token(TokenKind::Eof, "", 6)));
}

#[test]
fn invalid_character_fails() {
    let mut lexer = lexer("$");
    assert_eq!(lexer.read(), Err(Error::InvalidCharacter { chr: '$', pos: 0 }));
}

#[test]
fn invalid_character_leaves_cursor() {
    let mut lexer = lexer("a $");
    assert_eq!(lexer.read(), Ok(token(ident(), "a", 0)));
    assert_eq!(lexer.read(), Ok(token(TokenKind::Whitespace, " ", 1)));
    assert_eq!(lexer.read(), Err(Error::InvalidCharacter { chr: '$', pos: 2 }));
    assert_eq!(lexer.read(), Err(Error::InvalidCharacter { chr: '$', pos: 2 }));
}

#[test]
fn raw_identifier_prefix_alone() {
    let mut lexer = lexer("r#");
    assert_eq!(
        lexer.read(),
        Ok(token(TokenKind::Ident(IdentKind::Raw { terminated: false }), "r#", 0))
    );
    assert_eq!(lexer.read(), Ok(token(TokenKind::Eof, "", 2)));
}

#[test]
fn raw_identifier_with_body() {
    let mut lexer = lexer("r#let9_ r#9");
    assert_eq!(
        lexer.read(),
        Ok(token(TokenKind::Ident(IdentKind::Raw { terminated: true }), "r#let9_", 0))
    );
    assert_eq!(lexer.read(), Ok(token(TokenKind::Whitespace, " ", 7)));
    assert_eq!(
        lexer.read(),
        Ok(token(TokenKind::Ident(IdentKind::Raw { terminated: false }), "r#", 8))
    );
    assert_eq!(lexer.read(), Err(Error::InvalidCharacter { chr: '9', pos: 10 }));
}

#[test]
fn raw_identifier_may_spell_a_keyword() {
    assert_eq!(
        tokens("r#fn r#_"),
        vec![
            token(TokenKind::Ident(IdentKind::Raw { terminated: true }), "r#fn", 0),
            token(TokenKind::Whitespace, " ", 4),
            token(TokenKind::Ident(IdentKind::Raw { terminated: true }), "r#_", 5),
            token(TokenKind::Eof, "", 8),
        ]
    );
}

#[test]
fn keyword_and_identifier_boundary() {
    assert_eq!(kinds("let"), vec![TokenKind::Let, TokenKind::Eof]);
    assert_eq!(kinds("lets"), vec![ident(), TokenKind::Eof]);
    assert_eq!(kinds("le"), vec![ident(), TokenKind::Eof]);
    assert_eq!(kinds("Let"), vec![ident(), TokenKind::Eof]);
    assert_eq!(kinds("let_"), vec![ident(), TokenKind::Eof]);
    assert_eq!(kinds("_"), vec![ident(), TokenKind::Eof]);
}

#[test]
fn eof_repeats() {
    let mut lexer = lexer("ab");
    assert_eq!(lexer.read(), Ok(token(ident(), "ab", 0)));
    for _ in 0..5 {
        assert_eq!(lexer.read(), Ok(token(TokenKind::Eof, "", 2)));
    }
}

#[test]
fn eof_on_empty_text() {
    let mut lexer = lexer("");
    assert_eq!(lexer.read(), Ok(token(TokenKind::Eof, "", 0)));
    assert_eq!(lexer.read(), Ok(token(TokenKind::Eof, "", 0)));
}

#[test]
fn every_keyword_has_its_kind() {
    let table = vec![
        ("null", TokenKind::Lit(LitKind::Null)),
        ("true", TokenKind::Lit(LitKind::Bool)),
        ("false", TokenKind::Lit(LitKind::Bool)),
        ("let", TokenKind::Let),
        ("mut", TokenKind::Mut),
        ("if", TokenKind::If),
        ("else", TokenKind::Else),
        ("fn", TokenKind::Fn),
        ("use", TokenKind::Use),
        ("from", TokenKind::From),
        ("enum", TokenKind::Enum),
        ("in", TokenKind::In),
        ("as", TokenKind::As),
        ("mod", TokenKind::Mod),
        ("class", TokenKind::Class),
        ("extends", TokenKind::Extends),
        ("nan", TokenKind::Lit(LitKind::Num)),
        ("infinity", TokenKind::Lit(LitKind::Num)),
        ("while", TokenKind::While),
        ("pub", TokenKind::Pub),
        ("async", TokenKind::Async),
        ("loop", TokenKind::Loop),
        ("for", TokenKind::For),
        ("yield", TokenKind::Yield),
        ("return", TokenKind::Return),
        ("continue", TokenKind::Continue),
        ("break", TokenKind::Break),
    ];
    for (spelling, kind) in table {
        assert_eq!(
            tokens(spelling),
            vec![token(kind, spelling, 0), token(TokenKind::Eof, "", spelling.len())]
        );
        let longer = format!("{}x", spelling);
        assert_eq!(kinds(&longer), vec![ident(), TokenKind::Eof]);
    }
}

#[test]
fn every_operator_has_its_kind() {
    let table = vec![
        ("+", TokenKind::BinOp(BinOpKind::Plus)),
        ("+=", TokenKind::BinOpEq(BinOpKind::Plus)),
        ("-", TokenKind::BinOp(BinOpKind::Minus)),
        ("-=", TokenKind::BinOpEq(BinOpKind::Minus)),
        ("*", TokenKind::BinOp(BinOpKind::Star)),
        ("*=", TokenKind::BinOpEq(BinOpKind::Star)),
        ("/", TokenKind::BinOp(BinOpKind::Slash)),
        ("/=", TokenKind::BinOpEq(BinOpKind::Slash)),
        ("%", TokenKind::BinOp(BinOpKind::Percent)),
        ("%=", TokenKind::BinOpEq(BinOpKind::Percent)),
        ("^", TokenKind::BinOp(BinOpKind::Caret)),
        ("^=", TokenKind::BinOpEq(BinOpKind::Caret)),
        ("&", TokenKind::BinOp(BinOpKind::And)),
        ("&=", TokenKind::BinOpEq(BinOpKind::And)),
        ("&&", TokenKind::BinOp(BinOpKind::AndAnd)),
        ("&&=", TokenKind::BinOpEq(BinOpKind::AndAnd)),
        ("|", TokenKind::BinOp(BinOpKind::Or)),
        ("|=", TokenKind::BinOpEq(BinOpKind::Or)),
        ("||", TokenKind::BinOp(BinOpKind::OrOr)),
        ("||=", TokenKind::BinOpEq(BinOpKind::OrOr)),
        ("<", TokenKind::Lt),
        ("<=", TokenKind::Le),
        ("<<", TokenKind::BinOp(BinOpKind::ShiftL)),
        ("<<=", TokenKind::BinOpEq(BinOpKind::ShiftL)),
        (">", TokenKind::Gt),
        (">=", TokenKind::Ge),
        (">>", TokenKind::BinOp(BinOpKind::ShiftR)),
        (">>=", TokenKind::BinOpEq(BinOpKind::ShiftR)),
        ("!", TokenKind::Not),
        ("!=", TokenKind::Ne),
        ("=", TokenKind::Eq),
        ("==", TokenKind::EqEq),
        (".", TokenKind::Dot),
        ("..", TokenKind::DotDot),
        ("..=", TokenKind::DotDotEq),
        ("@", TokenKind::At),
        (",", TokenKind::Comma),
        (";", TokenKind::Semi),
        ("(", TokenKind::LParen),
        (")", TokenKind::RParen),
        ("{", TokenKind::LBrace),
        ("}", TokenKind::RBrace),
        ("[", TokenKind::LBracket),
        ("]", TokenKind::RBracket),
    ];
    for (spelling, kind) in table {
        assert_eq!(
            tokens(spelling),
            vec![token(kind.clone(), spelling, 0), token(TokenKind::Eof, "", spelling.len())]
        );
        let followed = format!("{}a", spelling);
        assert_eq!(
            tokens(&followed),
            vec![
                token(kind, spelling, 0),
                token(ident(), "a", spelling.len()),
                token(TokenKind::Eof, "", spelling.len() + 1),
            ]
        );
    }
}

#[test]
fn longest_operator_wins_then_the_rest() {
    assert_eq!(
        kinds("&&&"),
        vec![
            TokenKind::BinOp(BinOpKind::AndAnd),
            TokenKind::BinOp(BinOpKind::And),
            TokenKind::Eof
        ]
    );
    assert_eq!(
        kinds("<<<="),
        vec![TokenKind::BinOp(BinOpKind::ShiftL), TokenKind::Le, TokenKind::Eof]
    );
    assert_eq!(kinds("==="), vec![TokenKind::EqEq, TokenKind::Eq, TokenKind::Eof]);
    assert_eq!(kinds("...="), vec![TokenKind::DotDot, TokenKind::Dot, TokenKind::Eq, TokenKind::Eof]);
    assert_eq!(kinds("..=="), vec![TokenKind::DotDotEq, TokenKind::Eq, TokenKind::Eof]);
    assert_eq!(kinds("&=&"), vec![
        TokenKind::BinOpEq(BinOpKind::And),
        TokenKind::BinOp(BinOpKind::And),
        TokenKind::Eof
    ]);
}

#[test]
fn slash_is_operator_or_comment() {
    assert_eq!(
        tokens("/ /= //x"),
        vec![
            token(TokenKind::BinOp(BinOpKind::Slash), "/", 0),
            token(TokenKind::Whitespace, " ", 1),
            token(TokenKind::BinOpEq(BinOpKind::Slash), "/=", 2),
            token(TokenKind::Whitespace, " ", 4),
            token(line_comment("x"), "//x", 5),
            token(TokenKind::Eof, "", 8),
        ]
    );
    assert_eq!(kinds("/"), vec![TokenKind::BinOp(BinOpKind::Slash), TokenKind::Eof]);
}

#[test]
fn line_comment_stops_before_line_feed() {
    assert_eq!(
        tokens("//ab\r\n//"),
        vec![
            token(line_comment("ab\r"), "//ab\r", 0),
            token(TokenKind::Whitespace, "\n", 5),
            token(line_comment(""), "//", 6),
            token(TokenKind::Eof, "", 8),
        ]
    );
}

#[test]
fn block_comment_terminated_and_not() {
    assert_eq!(
        tokens("/*a*b*/c"),
        vec![
            token(block_comment("a*b", true), "/*a*b*/", 0),
            token(ident(), "c", 7),
            token(TokenKind::Eof, "", 8),
        ]
    );
    assert_eq!(
        tokens("/*a\n*"),
        vec![token(block_comment("a\n*", false), "/*a\n*", 0), token(TokenKind::Eof, "", 5)]
    );
    assert_eq!(
        tokens("/*/"),
        vec![token(block_comment("/", false), "/*/", 0), token(TokenKind::Eof, "", 3)]
    );
    assert_eq!(
        tokens("/**/"),
        vec![token(block_comment("", true), "/**/", 0), token(TokenKind::Eof, "", 4)]
    );
    assert_eq!(
        tokens("/* /* */ */"),
        vec![
            token(block_comment(" /* ", true), "/* /* */", 0),
            token(TokenKind::Whitespace, " ", 8),
            token(TokenKind::BinOp(BinOpKind::Star), "*", 9),
            token(TokenKind::BinOp(BinOpKind::Slash), "/", 10),
            token(TokenKind::Eof, "", 11),
        ]
    );
}

#[test]
fn string_literals() {
    assert_eq!(
        tokens("\"\""),
        vec![token(string("", true), "\"\"", 0), token(TokenKind::Eof, "", 2)]
    );
    assert_eq!(
        tokens("\"a'b\"c"),
        vec![
            token(string("a'b", true), "\"a'b\"", 0),
            token(ident(), "c", 5),
            token(TokenKind::Eof, "", 6),
        ]
    );
    assert_eq!(
        tokens("\""),
        vec![token(string("", false), "\"", 0), token(TokenKind::Eof, "", 1)]
    );
}

#[test]
fn backslash_escapes() {
    // A backslash before the closing quote takes the quote along.
    assert_eq!(
        tokens("\"a\\\""),
        vec![token(string("a\\\"", false), "\"a\\\"", 0), token(TokenKind::Eof, "", 4)]
    );
    // Two backslashes escape each other; the quote closes.
    assert_eq!(
        tokens("\"\\\\\"x"),
        vec![
            token(string("\\\\", true), "\"\\\\\"", 0),
            token(ident(), "x", 4),
            token(TokenKind::Eof, "", 5),
        ]
    );
    // A backslash at the very end escapes nothing.
    assert_eq!(
        tokens("'\\"),
        vec![token(character("\\", false), "'\\", 0), token(TokenKind::Eof, "", 2)]
    );
}

#[test]
fn character_literals() {
    assert_eq!(
        tokens("'a' '\\'' 'bc"),
        vec![
            token(character("a", true), "'a'", 0),
            token(TokenKind::Whitespace, " ", 3),
            token(character("\\'", true), "'\\''", 4),
            token(TokenKind::Whitespace, " ", 8),
            token(character("bc", false), "'bc", 9),
            token(TokenKind::Eof, "", 12),
        ]
    );
}

#[test]
fn whitespace_runs_span_lines_and_unicode() {
    assert_eq!(
        tokens(" \t\r\n\u{a0}\u{3000}x"),
        vec![
            token(TokenKind::Whitespace, " \t\r\n\u{a0}\u{3000}", 0),
            token(ident(), "x", 6),
            token(TokenKind::Eof, "", 7),
        ]
    );
}

#[test]
fn digits_begin_no_token() {
    assert_eq!(lexer("1").read(), Err(Error::InvalidCharacter { chr: '1', pos: 0 }));
    let mut lexer = lexer("a1 2");
    assert_eq!(lexer.read(), Ok(token(ident(), "a1", 0)));
    assert_eq!(lexer.read(), Ok(token(TokenKind::Whitespace, " ", 2)));
    assert_eq!(lexer.read(), Err(Error::InvalidCharacter { chr: '2', pos: 3 }));
}

#[test]
fn other_characters_begin_no_token() {
    for c in ['#', '$', '`', '~', '?', ':', '\\', 'é', '漢', '\u{0}'] {
        let text = c.to_string();
        assert_eq!(lexer(&text).read(), Err(Error::InvalidCharacter { chr: c, pos: 0 }));
    }
}

#[test]
fn non_ascii_letters_end_a_word() {
    let mut lexer = lexer("abé");
    assert_eq!(lexer.read(), Ok(token(ident(), "ab", 0)));
    assert_eq!(lexer.read(), Err(Error::InvalidCharacter { chr: 'é', pos: 2 }));
}

#[test]
fn positions_count_characters() {
    assert_eq!(
        tokens("\"é漢\" x"),
        vec![
            token(string("é漢", true), "\"é漢\"", 0),
            token(TokenKind::Whitespace, " ", 4),
            token(ident(), "x", 5),
            token(TokenKind::Eof, "", 6),
        ]
    );
}

#[test]
fn r_without_hash_is_a_word() {
    assert_eq!(kinds("r"), vec![ident(), TokenKind::Eof]);
    assert_eq!(kinds("return"), vec![TokenKind::Return, TokenKind::Eof]);
    let mut lexer = lexer("r #");
    assert_eq!(lexer.read(), Ok(token(ident(), "r", 0)));
    assert_eq!(lexer.read(), Ok(token(TokenKind::Whitespace, " ", 1)));
    assert_eq!(lexer.read(), Err(Error::InvalidCharacter { chr: '#', pos: 2 }));
}

#[test]
fn read_all_stops_at_invalid_character() {
    let mut lexer = lexer("ab ?c");
    assert_eq!(lexer.read_all(), Err(Error::InvalidCharacter { chr: '?', pos: 3 }));
    assert_eq!(lexer.read(), Err(Error::InvalidCharacter { chr: '?', pos: 3 }));
}

#[test]
fn read_all_from_the_middle() {
    let mut lexer = lexer("a+b");
    assert_eq!(lexer.read(), Ok(token(ident(), "a", 0)));
    assert_eq!(
        lexer.read_all(),
        Ok(vec![
            token(TokenKind::BinOp(BinOpKind::Plus), "+", 1),
            token(ident(), "b", 2),
            token(TokenKind::Eof, "", 3),
        ])
    );
    assert_eq!(lexer.read_all(), Ok(vec![token(TokenKind::Eof, "", 3)]));
}

#[test]
fn lexer_starts_at_the_scanner_cursor() {
    let mut scanner = Scanner::new("ab cd");
    assert_eq!(scanner.skip_len(3), Ok(()));
    let mut lexer = Lexer::new(scanner);
    assert_eq!(lexer.read(), Ok(token(ident(), "cd", 3)));
}

#[test]
fn probe_lengths_are_distinct_and_descending() {
    let table = vec![
        ("&", TokenKind::BinOp(BinOpKind::And)),
        ("&=", TokenKind::BinOpEq(BinOpKind::And)),
        ("&&", TokenKind::BinOp(BinOpKind::AndAnd)),
        ("&&=", TokenKind::BinOpEq(BinOpKind::AndAnd)),
    ];
    assert_eq!(Lexer::probe_lengths(&table), vec![3, 2, 1]);
    assert_eq!(Lexer::probe_lengths(&Vec::new()), Vec::<usize>::new());
}

#[test]
fn probe_lengths_keep_repeats_that_are_apart() {
    let table = vec![
        ("a", TokenKind::Let),
        ("bc", TokenKind::Mut),
        ("d", TokenKind::If),
        ("e", TokenKind::Else),
        ("éé", TokenKind::Fn),
    ];
    assert_eq!(Lexer::probe_lengths(&table), vec![2, 2, 1, 1]);
}

#[test]
fn read_by_takes_longest_then_first_listed() {
    let table = || {
        vec![
            ("ab", TokenKind::Let),
            ("a", TokenKind::Mut),
            ("abc", TokenKind::If),
            ("ab", TokenKind::Else),
        ]
    };
    let mut lexer = lexer("abcab!a");
    assert_eq!(lexer.read_by(table()), Ok(token(TokenKind::If, "abc", 0)));
    assert_eq!(lexer.read_by(table()), Ok(token(TokenKind::Let, "ab", 3)));
    assert_eq!(lexer.read_by(table()), Err(Error::InvalidCharacter { chr: '!', pos: 5 }));
    assert_eq!(lexer.read(), Ok(token(TokenKind::Not, "!", 5)));
    assert_eq!(lexer.read_by(table()), Ok(token(TokenKind::Mut, "a", 6)));
    assert_eq!(lexer.read_by(table()), Err(Error::OutOfRange));
    assert_eq!(lexer.read_by(Vec::new()), Err(Error::OutOfRange));
}

#[test]
fn read_by_matches_non_ascii_spellings() {
    let mut lexer = lexer("→x");
    let table = vec![("→", TokenKind::Gt), ("→→", TokenKind::Ge)];
    assert_eq!(lexer.read_by(table), Ok(token(TokenKind::Gt, "→", 0)));
    assert_eq!(lexer.read_by(Vec::new()), Err(Error::InvalidCharacter { chr: 'x', pos: 1 }));
}

#[test]
fn readers_fail_at_end_without_moving() {
    let mut lexer = lexer("/");
    assert_eq!(lexer.read_line_comment(), Err(Error::OutOfRange));
    assert_eq!(lexer.read_block_comment(), Err(Error::OutOfRange));
    assert_eq!(lexer.read_raw_ident(), Err(Error::OutOfRange));
    assert_eq!(lexer.read(), Ok(token(TokenKind::BinOp(BinOpKind::Slash), "/", 0)));
    assert_eq!(lexer.read_keyword(), Err(Error::OutOfRange));
    assert_eq!(lexer.read_kind(TokenKind::At), Err(Error::OutOfRange));
    assert_eq!(lexer.read_string(), Err(Error::OutOfRange));
    assert_eq!(lexer.read_char(), Err(Error::OutOfRange));
    assert_eq!(lexer.read_whitespace(), Ok(token(TokenKind::Whitespace, "", 1)));
    assert_eq!(lexer.read(), Ok(token(TokenKind::Eof, "", 1)));
}

#[test]
fn read_text_hands_text_and_flag_to_the_kind() {
    let mut lexer = lexer("|a\\|b|c");
    let made = lexer.read_text(
        |text, terminated| TokenKind::Comment { kind: CommentKind::Block { terminated }, text },
        '|',
    );
    assert_eq!(made, Ok(token(block_comment("a\\|b", true), "|a\\|b|", 0)));
    assert_eq!(lexer.read(), Ok(token(ident(), "c", 6)));
}

#[test]
fn read_keyword_takes_any_first_character() {
    let mut lexer = lexer("9ab-");
    assert_eq!(lexer.read_keyword(), Ok(token(ident(), "9ab", 0)));
    assert_eq!(lexer.read_kind(TokenKind::Semi), Ok(token(TokenKind::Semi, "-", 3)));
}
