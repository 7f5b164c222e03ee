use kaleido::lexer::{Lexer, Token};
use kaleido::numeral::Numeral;

fn tokens_of(src: &str) -> Vec<Token> {
    let mut lexer = Lexer::new(src);
    let mut out = Vec::new();
    loop {
        let t = lexer.next_token();
        let done = matches!(t, Token::Eof);
        out.push(t);
        if done {
            return out;
        }
    }
}

#[test]
fn whitespace_and_comments_scan_to_one_eof() {
    let ts = tokens_of("   \t\r\n# a comment\n    # another, to the very end");
    assert_eq!(ts.len(), 1);
    assert!(matches!(ts[0], Token::Eof));
}

#[test]
fn empty_input_scans_to_one_eof() {
    let ts = tokens_of("");
    assert_eq!(ts.len(), 1);
    assert!(matches!(ts[0], Token::Eof));
}

#[test]
fn eof_repeats_after_the_end() {
    let mut lexer = Lexer::new("x");
    assert!(matches!(lexer.next_token(), Token::Identifier(_)));
    assert!(matches!(lexer.next_token(), Token::Eof));
    assert!(matches!(lexer.next_token(), Token::Eof));
}

#[test]
fn identifier_token_carries_its_text() {
    let ts = tokens_of("widget42abc");
    assert_eq!(ts.len(), 2);
    match &ts[0] {
        Token::Identifier(name) => assert_eq!(name, "widget42abc"),
        other => panic!("expected an identifier, got {:?}", text_of(other)),
    }
}

fn text_of(t: &Token) -> String {
    match t {
        Token::Eof => "end of input".to_string(),
        Token::Def => "def".to_string(),
        Token::External => "the external keyword".to_string(),
        Token::If => "if".to_string(),
        Token::Then => "then".to_string(),
        Token::Else => "else".to_string(),
        Token::For => "for".to_string(),
        Token::In => "in".to_string(),
        Token::Identifier(s) => format!("identifier {}", s),
        Token::Number(n) => format!("number {}/10^{}", n.mantissa, n.scale),
        Token::Symbol(c) => format!("symbol {}", c),
        Token::Invalid(s) => format!("invalid literal {}", s),
    }
}

#[test]
fn keyword_spelling_always_wins() {
    assert!(matches!(tokens_of("def")[0], Token::Def));
    assert!(matches!(tokens_of("if")[0], Token::If));
    assert!(matches!(tokens_of("then")[0], Token::Then));
    assert!(matches!(tokens_of("else")[0], Token::Else));
    assert!(matches!(tokens_of("for")[0], Token::For));
    assert!(matches!(tokens_of("in")[0], Token::In));
    let external_kw = format!("{}ern", "ext");
    assert!(matches!(tokens_of(&external_kw)[0], Token::External));
    // a longer word that merely starts with a keyword is an identifier
    assert!(matches!(tokens_of("definitely")[0], Token::Identifier(_)));
}

#[test]
fn number_tokens_carry_exact_values() {
    assert!(matches!(tokens_of("4.0")[0], Token::Number(n) if n == Numeral { mantissa: 4, scale: 0 }));
    assert!(matches!(tokens_of("2.5")[0], Token::Number(n) if n == Numeral { mantissa: 25, scale: 1 }));
    assert!(matches!(tokens_of(".5")[0], Token::Number(n) if n == Numeral { mantissa: 5, scale: 1 }));
    assert!(matches!(tokens_of("1.")[0], Token::Number(n) if n == Numeral { mantissa: 1, scale: 0 }));
    assert!(matches!(tokens_of("007")[0], Token::Number(n) if n == Numeral { mantissa: 7, scale: 0 }));
    assert!(matches!(tokens_of("0.00")[0], Token::Number(n) if n == Numeral { mantissa: 0, scale: 0 }));
}

#[test]
fn invalid_literal_yields_invalid_token() {
    let ts = tokens_of("1.2.3");
    match &ts[0] {
        Token::Invalid(text) => assert_eq!(text, "1.2.3"),
        other => panic!("expected an invalid literal, got {:?}", text_of(other)),
    }
    // a lone dot has no digit at all
    assert!(matches!(&tokens_of(".")[0], Token::Invalid(_)));
}

#[test]
fn other_characters_become_symbols_verbatim() {
    let ts = tokens_of("(+;{}:,=<>*/)");
    let expected = ['(', '+', ';', '{', '}', ':', ',', '=', '<', '>', '*', '/', ')'];
    assert_eq!(ts.len(), expected.len() + 1);
    for (i, c) in expected.iter().enumerate() {
        assert!(matches!(ts[i], Token::Symbol(x) if x == *c));
    }
}

#[test]
fn line_counter_follows_newlines() {
    let mut lexer = Lexer::new("a\nb # note\n\n  c");
    assert_eq!(lexer.line, 1);
    lexer.next_token();
    assert_eq!(lexer.line, 1);
    lexer.next_token();
    assert_eq!(lexer.line, 2);
    lexer.next_token();
    assert_eq!(lexer.line, 4);
    assert!(matches!(lexer.next_token(), Token::Eof));
}

#[test]
fn comment_runs_to_end_of_line_only() {
    let ts = tokens_of("# leading note\nvalue # trailing note\nnext");
    assert_eq!(ts.len(), 3);
    assert!(matches!(&ts[0], Token::Identifier(s) if s == "value"));
    assert!(matches!(&ts[1], Token::Identifier(s) if s == "next"));
}

#[test]
fn tokenization_continues_after_an_invalid_literal() {
    let ts = tokens_of("1.2.3 x");
    assert_eq!(ts.len(), 3);
    assert!(matches!(&ts[0], Token::Invalid(s) if s == "1.2.3"));
    assert!(matches!(&ts[1], Token::Identifier(s) if s == "x"));
    assert!(matches!(ts[2], Token::Eof));
}
