use kx_lexer::{BinOpKind, CommentKind, IdentKind, LitKind, Token, TokenKind};

#[test]
fn new_token_keeps_its_parts() {
    let token = Token::new(TokenKind::Let, "let".to_string(), 7);
    assert_eq!(token.kind, TokenKind::Let);
    assert_eq!(token.raw, "let");
    assert_eq!(token.pos, 7);
}

#[test]
fn whitespace_is_nop() {
    assert!(Token::new(TokenKind::Whitespace, " ".to_string(), 0).is_nop());
}

#[test]
fn comments_are_nop() {
    let line = TokenKind::Comment { kind: CommentKind::Line, text: "c".to_string() };
    let block = TokenKind::Comment {
        kind: CommentKind::Block { terminated: false },
        text: String::new(),
    };
    assert!(Token::new(line, "//c".to_string(), 0).is_nop());
    assert!(Token::new(block, "/*".to_string(), 0).is_nop());
}

#[test]
fn other_tokens_are_not_nop() {
    let kinds = vec![
        TokenKind::Eof,
        TokenKind::Ident(IdentKind::Ident),
        TokenKind::BinOp(BinOpKind::Plus),
        TokenKind::Lit(LitKind::Null),
        TokenKind::Lit(LitKind::Str { terminated: true, raw_without_sign: " ".to_string() }),
        TokenKind::Semi,
    ];
    for kind in kinds {
        assert!(!Token::new(kind, String::new(), 0).is_nop());
    }
}
