use raddex::config::lexer::{lex, Token, TokenKind};

#[test]
fn lexes_basic_structure() {
    let toks =
        lex("{ log_level info }\n:80 {\n    redir https://{host}{uri} permanent\n}\n").unwrap();
    assert!(toks.iter().any(|t| t.kind == TokenKind::LBrace));
    assert!(toks
        .iter()
        .any(|t| t.kind == TokenKind::Word("log_level".into())));
    assert!(toks
        .iter()
        .any(|t| t.kind == TokenKind::Word("{host}".into())));
    assert!(toks.iter().any(|t| t.kind == TokenKind::RBrace));
}

#[test]
fn placeholder_braces_stay_in_word() {
    let toks = lex("header_up X-Real-IP {remote_host}\n").unwrap();
    assert!(toks
        .iter()
        .any(|t| t.kind == TokenKind::Word("{remote_host}".into())));
    assert!(!toks.iter().any(|t| t.kind == TokenKind::LBrace));
}

#[test]
fn tracks_line_and_column() {
    let toks = lex(":80 {\n    reverse_proxy 127.0.0.1:8080\n}\n").unwrap();
    // `:80` is on line 1 col 1.
    let first = toks
        .iter()
        .find(|t| t.kind == TokenKind::Word(":80".into()))
        .unwrap();
    assert_eq!((first.line, first.col), (1, 1));
    // `reverse_proxy` is on line 2, column 5 (after 4 spaces).
    let rp = toks
        .iter()
        .find(|t| t.kind == TokenKind::Word("reverse_proxy".into()))
        .unwrap();
    assert_eq!((rp.line, rp.col), (2, 5));
}

#[test]
fn strips_comments() {
    let toks = lex("reverse_proxy 127.0.0.1:8080 # upstream\n").unwrap();
    assert_eq!(
        toks,
        vec![
            Token {
                kind: TokenKind::Word("reverse_proxy".into()),
                line: 1,
                col: 1
            },
            Token {
                kind: TokenKind::Word("127.0.0.1:8080".into()),
                line: 1,
                col: 15
            },
            Token {
                kind: TokenKind::Newline,
                line: 1,
                col: 40
            },
        ]
    );
}

#[test]
fn block_braces_are_tokens() {
    let toks = lex("api.example.com {\n").unwrap();
    assert!(toks.iter().any(|t| t.kind == TokenKind::LBrace));
}

#[test]
fn exotic_whitespace_is_consumed_not_word_chars() {
    // Regression: form feed, vertical tab and NBSP used to enter the word
    // arm, which broke without consuming the char and looped forever
    // pushing empty words (OOM). They must be skipped like plain spaces.
    let toks = lex("\x0c\x0b\u{00a0}:80 {\n").unwrap();
    assert!(toks.iter().any(|t| t.kind == TokenKind::Word(":80".into())));
    assert!(
        !toks
            .iter()
            .any(|t| matches!(&t.kind, TokenKind::Word(w) if w.is_empty())),
        "no empty words may be produced: {toks:?}"
    );
}
