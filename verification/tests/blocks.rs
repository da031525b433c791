use starcomp::block::{Block, StructuralError};
use starcomp::line::{SourceLine, number_lines};
use starcomp::project::TokenBlock;
use starcomp::token::TokenType;

fn lines_of(texts: &[&str]) -> Vec<SourceLine> {
    number_lines(texts.iter().map(|t| String::from(*t)).collect())
}

fn texts_of(block: &Block) -> Vec<String> {
    block.lines.iter().map(|l| l.text.clone()).collect()
}

#[test]
fn end_to_end_scenario() {
    let lines = lines_of(&["fn main() {", "  let a = 1;", "}"]);
    let root = Block::build(&lines).unwrap();

    assert_eq!(root.lines.len(), 0);
    assert_eq!(root.children.len(), 1);
    let child = &root.children[0];
    assert_eq!(texts_of(child), vec![String::from("  let a = 1;")]);
    assert_eq!(child.children.len(), 0);

    let projected = TokenBlock::from_block(&root);
    assert_eq!(projected.lines.len(), 0);
    assert_eq!(projected.children.len(), 1);
    let pchild = &projected.children[0];
    assert_eq!(pchild.lines.len(), 1);
    assert_eq!(pchild.children.len(), 0);
    let tl = &pchild.lines[0];
    assert_eq!(tl.number, 1);
    // Under whitespace-run splitting "1;" is a single part, and a part
    // with a trailing semicolon is no all-digit number: it falls through
    // to the identifier case.
    let expected = [
        (TokenType::Keyword, "let"),
        (TokenType::Identifier, "a"),
        (TokenType::Symbol, "="),
        (TokenType::Identifier, "1;"),
    ];
    assert_eq!(tl.tokens.len(), expected.len());
    for (tok, (kind, text)) in tl.tokens.iter().zip(expected.iter()) {
        assert_eq!(tok.kind, *kind);
        assert_eq!(tok.text, *text);
        assert_eq!(tok.line, 1);
    }
}

#[test]
fn unbalanced_input_is_a_structural_error() {
    let lines = lines_of(&["fn main() {", "let a = 1;"]);
    let err = Block::build(&lines).unwrap_err();
    assert_eq!(err, StructuralError { open_from: 0, open_to: 1 });
}

#[test]
fn nested_scopes() {
    let lines = lines_of(&["a", "{", "b", "{", "c", "}", "d", "}", "e"]);
    let root = Block::build(&lines).unwrap();

    assert_eq!(texts_of(&root), vec![String::from("a"), String::from("e")]);
    assert_eq!(root.children.len(), 1);
    let child = &root.children[0];
    assert_eq!(texts_of(child), vec![String::from("b"), String::from("d")]);
    assert_eq!(child.children.len(), 1);
    let grandchild = &child.children[0];
    assert_eq!(texts_of(grandchild), vec![String::from("c")]);
    assert_eq!(grandchild.children.len(), 0);
}

#[test]
fn sibling_scopes_stay_in_order() {
    let lines = lines_of(&["{", "a", "}", "{", "b", "}"]);
    let root = Block::build(&lines).unwrap();
    assert_eq!(root.lines.len(), 0);
    assert_eq!(root.children.len(), 2);
    assert_eq!(texts_of(&root.children[0]), vec![String::from("a")]);
    assert_eq!(texts_of(&root.children[1]), vec![String::from("b")]);
}

#[test]
fn header_and_footer_are_excluded_from_child() {
    let lines = lines_of(&["start {", "inner", "}"]);
    let root = Block::build(&lines).unwrap();
    assert_eq!(root.lines.len(), 0);
    let child = &root.children[0];
    assert_eq!(texts_of(child), vec![String::from("inner")]);
    for l in &child.lines {
        assert_ne!(l.number, 0);
        assert_ne!(l.number, 2);
    }
}

#[test]
fn stray_closing_brace_is_own_content() {
    let lines = lines_of(&["}", "x"]);
    let root = Block::build(&lines).unwrap();
    assert_eq!(texts_of(&root), vec![String::from("}"), String::from("x")]);
    assert_eq!(root.children.len(), 0);
}

#[test]
fn header_line_skips_its_own_closing_brace() {
    // A header line is discarded entirely, so a closing brace on the same
    // line does not close the scope it opened.
    let lines = lines_of(&["fn main() { }"]);
    let err = Block::build(&lines).unwrap_err();
    assert_eq!(err, StructuralError { open_from: 0, open_to: 0 });
}

#[test]
fn empty_input_builds_an_empty_root() {
    let lines = lines_of(&[]);
    let root = Block::build(&lines).unwrap();
    assert_eq!(root.lines.len(), 0);
    assert_eq!(root.children.len(), 0);
}

#[test]
fn error_range_reports_unclosed_header() {
    let lines = lines_of(&["{", "a", "{", "b"]);
    let err = Block::build(&lines).unwrap_err();
    assert_eq!(err, StructuralError { open_from: 0, open_to: 3 });
}

#[test]
fn projection_mirrors_shape_of_nested_tree() {
    let lines = lines_of(&["a", "{", "b", "{", "c", "}", "d", "}", "e", "{", "f", "}"]);
    let root = Block::build(&lines).unwrap();
    let projected = TokenBlock::from_block(&root);
    assert!(same_shape(&root, &projected));
}

fn same_shape(b: &Block, t: &TokenBlock) -> bool {
    b.lines.len() == t.lines.len()
        && b.children.len() == t.children.len()
        && b.children.iter().zip(t.children.iter()).all(|(bc, tc)| same_shape(bc, tc))
}

#[test]
fn end_to_end_scenario_with_spaced_statement() {
    let lines = lines_of(&["fn main() {", "  let a = 1 ;", "}"]);
    let root = Block::build(&lines).unwrap();
    let projected = TokenBlock::from_block(&root);
    let tl = &projected.children[0].lines[0];
    assert_eq!(tl.number, 1);
    let expected = [
        (TokenType::Keyword, "let"),
        (TokenType::Identifier, "a"),
        (TokenType::Symbol, "="),
        (TokenType::LiteralNumber, "1"),
        (TokenType::Symbol, ";"),
    ];
    assert_eq!(tl.tokens.len(), expected.len());
    for (tok, (kind, text)) in tl.tokens.iter().zip(expected.iter()) {
        assert_eq!(tok.kind, *kind);
        assert_eq!(tok.text, *text);
    }
}
