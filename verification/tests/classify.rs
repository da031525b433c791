use starcomp::line::SourceLine;
use starcomp::token::{TokenType, classify, classify_to_line};

fn line(text: &str, number: usize) -> SourceLine {
    SourceLine::new(String::from(text), number)
}

fn kinds_and_texts(text: &str) -> Vec<(TokenType, String)> {
    classify(&line(text, 0)).into_iter().map(|t| (t.kind, t.text)).collect()
}

#[test]
fn classifies_let_statement() {
    let tokens = classify(&line("let a = 1 ;", 0));
    let expected = [
        (TokenType::Keyword, "let"),
        (TokenType::Identifier, "a"),
        (TokenType::Symbol, "="),
        (TokenType::LiteralNumber, "1"),
        (TokenType::Symbol, ";"),
    ];
    assert_eq!(tokens.len(), expected.len());
    for (tok, (kind, text)) in tokens.iter().zip(expected.iter()) {
        assert_eq!(tok.kind, *kind);
        assert_eq!(tok.text, *text);
        assert_eq!(tok.line, 0);
    }
}

#[test]
fn classifies_every_keyword() {
    for kw in ["fn", "let", "if", "else", "for", "return", "continue"] {
        let tokens = kinds_and_texts(kw);
        assert_eq!(tokens, vec![(TokenType::Keyword, String::from(kw))]);
    }
}

#[test]
fn classifies_every_symbol() {
    for sym in ["{", "}", "(", ")", ":", ";", "="] {
        let tokens = kinds_and_texts(sym);
        assert_eq!(tokens, vec![(TokenType::Symbol, String::from(sym))]);
    }
}

#[test]
fn classifies_every_operator() {
    for op in ["+", "-", "*", "/", "->"] {
        let tokens = kinds_and_texts(op);
        assert_eq!(tokens, vec![(TokenType::Operator, String::from(op))]);
    }
}

#[test]
fn classifies_comment_before_operator() {
    // "//" starts with the comment marker, so the comment rule wins over
    // any later rule.
    let tokens = kinds_and_texts("// trailing words");
    assert_eq!(tokens[0], (TokenType::Comment, String::from("//")));
    assert_eq!(tokens.len(), 3);
}

#[test]
fn classifies_string_and_number_literals() {
    assert_eq!(kinds_and_texts("\"abc\""), vec![(TokenType::LiteralString, String::from("\"abc\""))]);
    assert_eq!(kinds_and_texts("12345"), vec![(TokenType::LiteralNumber, String::from("12345"))]);
    assert_eq!(kinds_and_texts("12a"), vec![(TokenType::Identifier, String::from("12a"))]);
}

#[test]
fn classifies_identifier_fallback() {
    assert_eq!(kinds_and_texts("foo_bar"), vec![(TokenType::Identifier, String::from("foo_bar"))]);
    assert_eq!(kinds_and_texts("fnx"), vec![(TokenType::Identifier, String::from("fnx"))]);
}

#[test]
fn splits_on_whitespace_runs() {
    let tokens = kinds_and_texts("  if \t x  ==\n y ");
    assert_eq!(
        tokens,
        vec![
            (TokenType::Keyword, String::from("if")),
            (TokenType::Identifier, String::from("x")),
            (TokenType::Identifier, String::from("==")),
            (TokenType::Identifier, String::from("y")),
        ]
    );
}

#[test]
fn string_with_spaces_splits_into_parts() {
    // Documented simplification: a quoted literal containing spaces is
    // split on whitespace and each part classified on its own.
    let tokens = kinds_and_texts("\"a b\"");
    assert_eq!(
        tokens,
        vec![
            (TokenType::Identifier, String::from("\"a")),
            (TokenType::Identifier, String::from("b\"")),
        ]
    );
}

#[test]
fn empty_line_has_no_tokens() {
    assert_eq!(classify(&line("", 7)).len(), 0);
    assert_eq!(classify(&line("   ", 7)).len(), 0);
}

#[test]
fn token_line_carries_line_number() {
    let tl = classify_to_line(&line("let x", 4));
    assert_eq!(tl.number, 4);
    assert_eq!(tl.tokens.len(), 2);
    assert_eq!(tl.tokens[0].line, 4);
    assert_eq!(tl.tokens[1].line, 4);
}
